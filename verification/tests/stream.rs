use pxar_backup::stream::{after_receive, before_receive, Item, Received};

#[test]
fn an_error_comes_before_data() {
    let error = Some("failed".to_owned());
    assert_eq!(before_receive(&error), Some(Item::Failed("failed".to_owned())));
    assert_eq!(before_receive(&None), None);
}

#[test]
fn data_and_errors_of_the_channel_are_handed_on() {
    assert_eq!(after_receive(Received::Data(vec![1, 2]), &None), Item::Data(vec![1, 2]));
    assert_eq!(after_receive(Received::Data(vec![3]), &Some("late".to_owned())), Item::Data(vec![3]));
    assert_eq!(after_receive(Received::Failed("bad".to_owned()), &None), Item::Failed("bad".to_owned()));
}

#[test]
fn the_stream_ends_without_an_error_only() {
    assert_eq!(after_receive(Received::Closed, &None), Item::End);
    assert_eq!(after_receive(Received::Closed, &Some("late".to_owned())), Item::Failed("late".to_owned()));
}
