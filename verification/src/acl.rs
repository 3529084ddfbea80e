//! POSIX access control lists, as they are kept in an archive.

use vstd::prelude::*;
use vstd::relations::{sorted_by, total_ordering};

use crate::sort::{in_order, is_sorted, sort, Ordered};

verus! {

/// What an entry of an access control list is for.
#[derive(Clone, Copy, Debug, PartialEq, Eq, Structural)]
pub enum AclTag {
    /// The owner.
    UserObj,
    /// The owning group.
    GroupObj,
    /// Everyone else.
    Other,
    /// The mask.
    Mask,
    /// A user.
    User,
    /// A group.
    Group,
    /// None of these.
    Unknown,
}

/// The two lists that a file may have.
#[derive(Clone, Copy, Debug, PartialEq, Eq, Structural)]
pub enum AclType {
    /// The list that governs access.
    Access,
    /// The list that new files of a directory get.
    Default,
    /// Neither.
    Unknown,
}

/// One entry of an access control list, as it was read.
#[derive(Debug, PartialEq, Eq)]
pub enum AclItem {
    /// The entry.
    Entry {
        /// What it is for.
        tag: AclTag,
        /// What it allows.
        permissions: u64,
        /// The user or group, for those tags that have one.
        qualifier: u64,
    },
    /// The entry could not be read.
    Failed(String),
}

/// The permissions of a user or a group.
#[derive(Clone, Copy, Debug, PartialEq, Eq, Structural)]
pub struct AclId {
    /// The user or the group.
    pub id: u64,
    /// What it may do.
    pub permissions: u64,
}

/// The permissions that new files of a directory get.
#[derive(Clone, Copy, Debug, PartialEq, Eq, Structural)]
pub struct AclDefault {
    /// Those of the owner.
    pub user_obj_permissions: u64,
    /// Those of the owning group.
    pub group_obj_permissions: u64,
    /// Those of everyone else.
    pub other_permissions: u64,
    /// The mask.
    pub mask_permissions: u64,
}

/// The access control lists of a file.
#[derive(Debug, PartialEq, Eq)]
pub struct Acl {
    /// The users of the access list.
    pub users: Vec<AclId>,
    /// The groups of the access list.
    pub groups: Vec<AclId>,
    /// The permissions of the owning group, where a mask hides them.
    pub group_obj: Option<u64>,
    /// The permissions that new files get.
    pub default: Option<AclDefault>,
    /// The users of the default list.
    pub default_users: Vec<AclId>,
    /// The groups of the default list.
    pub default_groups: Vec<AclId>,
}

/// The mathematical value of an [`Acl`].
#[verifier::ext_equal]
pub struct AclView {
    /// The users of the access list.
    pub users: Seq<AclId>,
    /// The groups of the access list.
    pub groups: Seq<AclId>,
    /// The permissions of the owning group, where a mask hides them.
    pub group_obj: Option<u64>,
    /// The permissions that new files get.
    pub default: Option<AclDefault>,
    /// The users of the default list.
    pub default_users: Seq<AclId>,
    /// The groups of the default list.
    pub default_groups: Seq<AclId>,
}

impl View for Acl {
    type V = AclView;

    open spec fn view(&self) -> AclView {
        AclView {
            users: self.users@,
            groups: self.groups@,
            group_obj: self.group_obj,
            default: self.default,
            default_users: self.default_users@,
            default_groups: self.default_groups@,
        }
    }
}

impl AclView {
    /// No list at all.
    pub open spec fn empty() -> AclView {
        AclView {
            users: Seq::empty(),
            groups: Seq::empty(),
            group_obj: None,
            default: None,
            default_users: Seq::empty(),
            default_groups: Seq::empty(),
        }
    }
}

impl Acl {
    /// No list at all.
    pub fn empty() -> (r: Acl)
        ensures
            r@ == AclView::empty(),
    {
        let r = Acl {
            users: Vec::new(),
            groups: Vec::new(),
            group_obj: None,
            default: None,
            default_users: Vec::new(),
            default_groups: Vec::new(),
        };
        assert(r@ =~= AclView::empty());
        r
    }
}

/// Why an access control list cannot be kept.
#[derive(Debug, PartialEq, Eq)]
pub enum AclError {
    /// An entry could not be read.
    Item(String),
    /// An entry is for something unknown.
    UnexpectedTag,
    /// The list is neither of the known ones.
    UnexpectedType,
}

/// The mathematical value of an [`AclError`].
pub enum AclErrorView {
    /// An entry could not be read.
    Item(Seq<char>),
    /// An entry is for something unknown.
    UnexpectedTag,
    /// The list is neither of the known ones.
    UnexpectedType,
}

impl View for AclError {
    type V = AclErrorView;

    open spec fn view(&self) -> AclErrorView {
        match *self {
            AclError::Item(message) => AclErrorView::Item(message@),
            AclError::UnexpectedTag => AclErrorView::UnexpectedTag,
            AclError::UnexpectedType => AclErrorView::UnexpectedType,
        }
    }
}

impl AclErrorView {
    /// The message of the error.
    pub open spec fn text(self) -> Seq<char> {
        match self {
            AclErrorView::Item(message) => message,
            AclErrorView::UnexpectedTag => "Unexpected ACL tag encountered!"@,
            AclErrorView::UnexpectedType => "Unexpected ACL type encountered"@,
        }
    }
}

impl AclError {
    /// The message of the error.
    pub fn to_string(&self) -> (r: String)
        ensures
            r@ == self@.text(),
    {
        match self {
            AclError::Item(message) => message.clone(),
            AclError::UnexpectedTag => "Unexpected ACL tag encountered!".to_owned(),
            AclError::UnexpectedType => "Unexpected ACL type encountered".to_owned(),
        }
    }
}

// ---------------------------------------------------------------------------------------------
// The order of users and groups
// ---------------------------------------------------------------------------------------------

impl Ordered for AclId {
    open spec fn before(&self, other: &Self) -> bool {
        self.id < other.id || (self.id == other.id && self.permissions <= other.permissions)
    }

    proof fn before_total(a: &Self, b: &Self) {
    }

    proof fn before_transitive(a: &Self, b: &Self, c: &Self) {
    }

    fn is_before(&self, other: &Self) -> (r: bool) {
        self.id < other.id || (self.id == other.id && self.permissions <= other.permissions)
    }
}

/// Puts a user or a group into an ordered list, before the first that it may stand before.
pub open spec fn with_id(list: Seq<AclId>, x: AclId) -> Seq<AclId>
    decreases list.len(),
{
    if list.len() == 0 {
        seq![x]
    } else if x.before(&list[0]) {
        seq![x] + list
    } else {
        seq![list[0]] + with_id(list.skip(1), x)
    }
}

/// A list of users or groups, ordered by number and then by permissions.
pub open spec fn sorted_ids(list: Seq<AclId>) -> Seq<AclId>
    decreases list.len(),
{
    if list.len() == 0 {
        list
    } else {
        with_id(sorted_ids(list.drop_last()), list.last())
    }
}

/// Putting one value into an ordered list adds that value and keeps the order.
proof fn lemma_with_id(list: Seq<AclId>, x: AclId)
    requires
        is_sorted(list, true),
    ensures
        is_sorted(with_id(list, x), true),
        with_id(list, x).to_multiset() == list.to_multiset().insert(x),
    decreases list.len(),
{
    broadcast use vstd::seq_lib::group_to_multiset_ensures;

    let r = with_id(list, x);
    if list.len() == 0 {
        assert(r =~= list.push(x));
    } else if x.before(&list[0]) {
        assert(r =~= list.insert(0, x));
        assert forall|i: int, j: int| 0 <= i < j < r.len() implies in_order(
            #[trigger] r[i],
            #[trigger] r[j],
            true,
        ) by {
            if i == 0 {
                if j > 1 {
                    assert(in_order(list[0], list[j - 1], true));
                }
            } else {
                assert(in_order(list[i - 1], list[j - 1], true));
            }
        }
    } else {
        let rest = list.skip(1);
        let more = with_id(rest, x);
        assert forall|i: int, j: int| 0 <= i < j < rest.len() implies in_order(
            #[trigger] rest[i],
            #[trigger] rest[j],
            true,
        ) by {
            assert(in_order(list[i + 1], list[j + 1], true));
        }
        lemma_with_id(rest, x);
        assert(r =~= more.insert(0, list[0]));
        assert(list =~= rest.insert(0, list[0]));
        assert(r.to_multiset() =~= list.to_multiset().insert(x));
        assert forall|i: int, j: int| 0 <= i < j < r.len() implies in_order(
            #[trigger] r[i],
            #[trigger] r[j],
            true,
        ) by {
            if i == 0 {
                assert(r[j] == more[j - 1]);
                assert(more.to_multiset().contains(more[j - 1])) by {
                    assert(more.contains(more[j - 1]));
                }
                if more[j - 1] != x {
                    assert(rest.to_multiset().contains(more[j - 1]));
                    assert(rest.contains(more[j - 1]));
                    let k = choose|k: int| 0 <= k < rest.len() && rest[k] == more[j - 1];
                    assert(in_order(list[0], list[k + 1], true));
                }
            } else {
                assert(in_order(more[i - 1], more[j - 1], true));
            }
        }
    }
}

/// The ordered list has the values of the list, in order.
pub proof fn lemma_sorted_ids(list: Seq<AclId>)
    ensures
        is_sorted(sorted_ids(list), true),
        sorted_ids(list).to_multiset() == list.to_multiset(),
    decreases list.len(),
{
    broadcast use vstd::seq_lib::group_to_multiset_ensures;

    if list.len() > 0 {
        lemma_sorted_ids(list.drop_last());
        lemma_with_id(sorted_ids(list.drop_last()), list.last());
        assert(list =~= list.drop_last().push(list.last()));
    }
}

/// Orders a list of users or groups.
fn sort_ids(list: Vec<AclId>) -> (r: Vec<AclId>)
    ensures
        r@ == sorted_ids(list@),
{
    let ghost given = list@;
    let r = sort(list);
    proof {
        let leq = |a: AclId, b: AclId| a.before(&b);
        lemma_sorted_ids(given);
        assert(total_ordering(leq));
        assert(sorted_by(r@, leq)) by {
            assert forall|i: int, j: int| 0 <= i < j < r@.len() implies #[trigger] leq(r@[i], r@[j]) by {
                assert(in_order(r@[i], r@[j], true));
            }
        }
        let wanted = sorted_ids(given);
        assert(sorted_by(wanted, leq)) by {
            assert forall|i: int, j: int| 0 <= i < j < wanted.len() implies #[trigger] leq(
                wanted[i],
                wanted[j],
            ) by {
                assert(in_order(wanted[i], wanted[j], true));
            }
        }
        vstd::seq_lib::lemma_sorted_unique(r@, wanted, leq);
    }
    r
}

// ---------------------------------------------------------------------------------------------
// Reading a list
// ---------------------------------------------------------------------------------------------

/// The first error among the entries of a list.
pub open spec fn first_error(items: Seq<AclItem>) -> Option<AclErrorView>
    decreases items.len(),
{
    if items.len() == 0 {
        None
    } else {
        match first_error(items.drop_last()) {
            Some(error) => Some(error),
            None => match items.last() {
                AclItem::Failed(message) => Some(AclErrorView::Item(message@)),
                AclItem::Entry { tag: AclTag::Unknown, .. } => Some(AclErrorView::UnexpectedTag),
                AclItem::Entry { .. } => None,
            },
        }
    }
}

/// The permissions of the last entry with the given tag.
pub open spec fn last_permissions(items: Seq<AclItem>, wanted: AclTag) -> Option<u64>
    decreases items.len(),
{
    if items.len() == 0 {
        None
    } else {
        match items.last() {
            AclItem::Entry { tag, permissions, .. } => if tag == wanted {
                Some(permissions)
            } else {
                last_permissions(items.drop_last(), wanted)
            },
            AclItem::Failed(_) => last_permissions(items.drop_last(), wanted),
        }
    }
}

/// The users or groups of the entries with the given tag, in the order of the entries.
pub open spec fn ids_of(items: Seq<AclItem>, wanted: AclTag) -> Seq<AclId>
    decreases items.len(),
{
    if items.len() == 0 {
        Seq::empty()
    } else {
        match items.last() {
            AclItem::Entry { tag, permissions, qualifier } => if tag == wanted {
                ids_of(items.drop_last(), wanted).push(AclId { id: qualifier, permissions })
            } else {
                ids_of(items.drop_last(), wanted)
            },
            AclItem::Failed(_) => ids_of(items.drop_last(), wanted),
        }
    }
}

/// A permission, or the placeholder for one that is not set: the largest number.
pub open spec fn or_no_mask(permissions: Option<u64>) -> u64 {
    match permissions {
        Some(p) => p,
        None => u64::MAX,
    }
}

/// The default permissions that the entries of a list set; `None` if they set none of them.
pub open spec fn default_of(items: Seq<AclItem>) -> Option<AclDefault> {
    let user = last_permissions(items, AclTag::UserObj);
    let group = last_permissions(items, AclTag::GroupObj);
    let other = last_permissions(items, AclTag::Other);
    let mask = last_permissions(items, AclTag::Mask);
    if user is Some || group is Some || other is Some || mask is Some {
        Some(
            AclDefault {
                user_obj_permissions: or_no_mask(user),
                group_obj_permissions: or_no_mask(group),
                other_permissions: or_no_mask(other),
                mask_permissions: or_no_mask(mask),
            },
        )
    } else {
        None
    }
}

/// The permissions of the owning group, if the entries of a list set a mask that hides them.
pub open spec fn hidden_group(items: Seq<AclItem>) -> Option<u64> {
    if last_permissions(items, AclTag::Mask) is Some {
        last_permissions(items, AclTag::GroupObj)
    } else {
        None
    }
}

/// What is kept of a list that was read, beside what was kept before. The access list sets its users,
/// its groups and the permissions of the owning group that a mask hides, and drops default permissions
/// from before; the default list, which is read after it, sets its users, its groups and the default
/// permissions, and leaves those of the owning group as they are.
pub open spec fn processed(acl: AclView, items: Seq<AclItem>, acl_type: AclType) -> Result<
    AclView,
    AclErrorView,
> {
    match first_error(items) {
        Some(error) => Err(error),
        None => match acl_type {
            AclType::Access => Ok(
                AclView {
                    users: sorted_ids(ids_of(items, AclTag::User)),
                    groups: sorted_ids(ids_of(items, AclTag::Group)),
                    group_obj: hidden_group(items),
                    default: None,
                    ..acl
                },
            ),
            AclType::Default => Ok(
                AclView {
                    default_users: sorted_ids(ids_of(items, AclTag::User)),
                    default_groups: sorted_ids(ids_of(items, AclTag::Group)),
                    default: default_of(items),
                    ..acl
                },
            ),
            AclType::Unknown => Err(AclErrorView::UnexpectedType),
        },
    }
}

/// An error among the first entries is the first error of all.
proof fn lemma_first_error(items: Seq<AclItem>, n: int)
    requires
        0 <= n <= items.len(),
        first_error(items.take(n)) is Some,
    ensures
        first_error(items) == first_error(items.take(n)),
    decreases items.len() - n,
{
    if n == items.len() {
        assert(items.take(n) =~= items);
    } else {
        assert(items.take(n + 1).drop_last() =~= items.take(n));
        lemma_first_error(items, n + 1);
    }
}

/// The value of a result over an access control list.
pub open spec fn acl_result(r: Result<Acl, AclError>) -> Result<AclView, AclErrorView> {
    match r {
        Ok(acl) => Ok(acl@),
        Err(error) => Err(error@),
    }
}

/// Adds a list that was read to what is kept of a file.
pub fn process_acl(acl: Acl, items: &Vec<AclItem>, acl_type: AclType) -> (r: Result<Acl, AclError>)
    ensures
        acl_result(r) == processed(acl@, items@, acl_type),
{
    let mut acl_user: Vec<AclId> = Vec::new();
    let mut acl_group: Vec<AclId> = Vec::new();
    let mut user_obj: Option<u64> = None;
    let mut group_obj: Option<u64> = None;
    let mut other: Option<u64> = None;
    let mut mask: Option<u64> = None;
    let mut i: usize = 0;
    proof {
        assert(acl_user@ =~= ids_of(items@.take(0), AclTag::User));
        assert(acl_group@ =~= ids_of(items@.take(0), AclTag::Group));
    }
    while i < items.len()
        invariant
            i <= items@.len(),
            first_error(items@.take(i as int)) is None,
            acl_user@ == ids_of(items@.take(i as int), AclTag::User),
            acl_group@ == ids_of(items@.take(i as int), AclTag::Group),
            user_obj == last_permissions(items@.take(i as int), AclTag::UserObj),
            group_obj == last_permissions(items@.take(i as int), AclTag::GroupObj),
            other == last_permissions(items@.take(i as int), AclTag::Other),
            mask == last_permissions(items@.take(i as int), AclTag::Mask),
        decreases items@.len() - i,
    {
        proof {
            assert(items@.take(i + 1).drop_last() =~= items@.take(i as int));
            assert(items@.take(i + 1).last() == items@[i as int]);
        }
        match &items[i] {
            AclItem::Failed(message) => {
                proof {
                    lemma_first_error(items@, i + 1);
                }
                return Err(AclError::Item(message.clone()));
            },
            AclItem::Entry { tag, permissions, qualifier } => {
                match *tag {
                    AclTag::UserObj => {
                        user_obj = Some(*permissions);
                    },
                    AclTag::GroupObj => {
                        group_obj = Some(*permissions);
                    },
                    AclTag::Other => {
                        other = Some(*permissions);
                    },
                    AclTag::Mask => {
                        mask = Some(*permissions);
                    },
                    AclTag::User => {
                        acl_user.push(AclId { id: *qualifier, permissions: *permissions });
                    },
                    AclTag::Group => {
                        acl_group.push(AclId { id: *qualifier, permissions: *permissions });
                    },
                    AclTag::Unknown => {
                        proof {
                            lemma_first_error(items@, i + 1);
                        }
                        return Err(AclError::UnexpectedTag);
                    },
                }
            },
        }
        i += 1;
    }
    assert(items@.take(i as int) =~= items@);
    let acl_user = sort_ids(acl_user);
    let acl_group = sort_ids(acl_group);
    match acl_type {
        AclType::Access => {
            let hidden = match mask {
                Some(_) => group_obj,
                None => None,
            };
            Ok(
                Acl {
                    users: acl_user,
                    groups: acl_group,
                    group_obj: hidden,
                    default: None,
                    default_users: acl.default_users,
                    default_groups: acl.default_groups,
                },
            )
        },
        AclType::Default => {
            let default = if user_obj.is_some() || group_obj.is_some() || other.is_some() || mask.is_some() {
                Some(
                    AclDefault {
                        user_obj_permissions: user_obj.unwrap_or(u64::MAX),
                        group_obj_permissions: group_obj.unwrap_or(u64::MAX),
                        other_permissions: other.unwrap_or(u64::MAX),
                        mask_permissions: mask.unwrap_or(u64::MAX),
                    },
                )
            } else {
                None
            };
            Ok(
                Acl {
                    users: acl.users,
                    groups: acl.groups,
                    group_obj: acl.group_obj,
                    default,
                    default_users: acl_user,
                    default_groups: acl_group,
                },
            )
        },
        AclType::Unknown => Err(AclError::UnexpectedType),
    }
}

/// Whatever order the users and groups of a list are read in, they are kept in the same order.
pub proof fn law_order_of_items_is_lost(a: Seq<AclId>, b: Seq<AclId>)
    requires
        a.to_multiset() == b.to_multiset(),
    ensures
        sorted_ids(a) == sorted_ids(b),
{
    let leq = |x: AclId, y: AclId| x.before(&y);
    lemma_sorted_ids(a);
    lemma_sorted_ids(b);
    let s = sorted_ids(a);
    let t = sorted_ids(b);
    assert(total_ordering(leq));
    assert forall|i: int, j: int| 0 <= i < j < s.len() implies #[trigger] leq(s[i], s[j]) by {
        assert(in_order(s[i], s[j], true));
    }
    assert forall|i: int, j: int| 0 <= i < j < t.len() implies #[trigger] leq(t[i], t[j]) by {
        assert(in_order(t[i], t[j], true));
    }
    vstd::seq_lib::lemma_sorted_unique(s, t, leq);
}

} // verus!
