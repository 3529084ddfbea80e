//! The stream of an archive: what a consumer gets while a producer makes the archive.

use vstd::prelude::*;

verus! {

/// What came out of the channel that the producer writes to.
#[derive(Debug, PartialEq, Eq)]
pub enum Received {
    /// A piece of the archive.
    Data(Vec<u8>),
    /// An error of the producer.
    Failed(String),
    /// The producer has closed the channel.
    Closed,
}

/// What the consumer gets.
#[derive(Debug, PartialEq, Eq)]
pub enum Item {
    /// A piece of the archive.
    Data(Vec<u8>),
    /// An error.
    Failed(String),
    /// The end of the archive.
    End,
}

/// What the consumer gets if the producer has reported `before` when the consumer asks, the
/// channel then gives `received`, and the producer has reported `after` by then. Data that are
/// still in the channel do not count after an error was reported.
pub open spec fn next_item(before: Option<String>, received: Received, after: Option<String>) -> Item {
    match before {
        Some(message) => Item::Failed(message),
        None => match received {
            Received::Data(data) => Item::Data(data),
            Received::Failed(message) => Item::Failed(message),
            Received::Closed => match after {
                Some(message) => Item::Failed(message),
                None => Item::End,
            },
        },
    }
}

/// Decides what the consumer gets before the channel is asked: the error that the producer has
/// reported, if there is one.
pub fn before_receive(error: &Option<String>) -> (r: Option<Item>)
    ensures
        match r {
            Some(item) => forall|received: Received, after: Option<String>|
                item == #[trigger] next_item(*error, received, after),
            None => *error is None,
        },
        *error is Some ==> r is Some,
{
    match error {
        Some(message) => Some(Item::Failed(message.clone())),
        None => None,
    }
}

/// Decides what the consumer gets after the channel was asked.
pub fn after_receive(received: Received, error: &Option<String>) -> (r: Item)
    ensures
        r == next_item(None, received, *error),
{
    match received {
        Received::Data(data) => Item::Data(data),
        Received::Failed(message) => Item::Failed(message),
        Received::Closed => match error {
            Some(message) => Item::Failed(message.clone()),
            None => Item::End,
        },
    }
}

/// The stream ends only if the producer has closed the channel without an error.
pub proof fn law_end_means_success(before: Option<String>, received: Received, after: Option<String>)
    ensures
        next_item(before, received, after) is End <==> before is None && received is Closed && after is None,
{
}

/// The consumer gets every piece of the archive as it is, until there is an error. An error that the
/// producer has reported comes first, whatever is in the channel; one that comes out of the channel, or
/// that was reported by the time the channel was closed, is what the consumer gets.
pub proof fn law_items_are_handed_on(
    before: Option<String>,
    received: Received,
    after: Option<String>,
    data: Vec<u8>,
    message: String,
)
    ensures
        before == Some(message) ==> next_item(before, received, after) == Item::Failed(message),
        before is None && received == Received::Data(data) ==> next_item(before, received, after) == Item::Data(
            data,
        ),
        before is None && received == Received::Failed(message) ==> next_item(before, received, after)
            == Item::Failed(message),
        before is None && received is Closed && after == Some(message) ==> next_item(before, received, after)
            == Item::Failed(message),
{
}

} // verus!
