//! What is kept of a file, stated by what the system says of it.

use vstd::prelude::*;

use crate::acl::{
    first_error, ids_of, last_permissions, lemma_sorted_ids, processed, sorted_ids, AclErrorView, AclId,
    AclItem, AclTag, AclType, AclView,
};
use crate::flags::Flags;
use crate::metadata::{
    metadata_of, reads_acl, reads_default_acl, reads_fcaps, reads_quota, reads_value, reads_xattrs,
    has_fat_attr, lemma_attrs_error, stat_metadata, with_acl, with_attrs, with_xattrs, AclData,
    AttrBits, AttrData, FileFacts, MetadataErrorView, MetadataResult, MetadataView, QuotaData,
    XAttrView, XattrFact, XattrKind, XattrList,
};
use crate::mode::FileStat;
use crate::sort::in_order;

verus! {

// ---------------------------------------------------------------------------------------------
// Access control lists
// ---------------------------------------------------------------------------------------------

/// Whether an item of a list is an entry with the given tag.
pub open spec fn has_tag(item: AclItem, wanted: AclTag) -> bool {
    item matches AclItem::Entry { tag, .. } && tag == wanted
}

/// Whether all items of a list are entries with a known tag.
pub open spec fn is_sound(items: Seq<AclItem>) -> bool {
    forall|k: int| 0 <= k < items.len() ==> (#[trigger] items[k]) is Entry && !has_tag(items[k], AclTag::Unknown)
}

/// Whether no item of a list has the given tag.
pub open spec fn has_none(items: Seq<AclItem>, tag: AclTag) -> bool {
    forall|k: int| 0 <= k < items.len() ==> !has_tag(#[trigger] items[k], tag)
}

/// Whether the last entry of a list that has the given tag has these permissions.
pub open spec fn is_last(items: Seq<AclItem>, tag: AclTag, permissions: u64) -> bool {
    exists|k: int|
        {
            &&& 0 <= k < items.len()
            &&& has_tag(#[trigger] items[k], tag)
            &&& items[k]->permissions == permissions
            &&& forall|j: int| k < j < items.len() ==> !has_tag(#[trigger] items[j], tag)
        }
}

/// Whether `ids` are the numbers and permissions of the entries of a list that have the given tag,
/// each as often as it is there, by number and then by permissions.
pub open spec fn are_the_entries(ids: Seq<AclId>, items: Seq<AclItem>, tag: AclTag) -> bool {
    &&& ids.to_multiset() == items.filter(|item: AclItem| has_tag(item, tag)).map_values(
        |item: AclItem| AclId { id: item->qualifier, permissions: item->permissions },
    ).to_multiset()
    &&& forall|i: int, j: int|
        0 <= i < j < ids.len() ==> {
            ||| (#[trigger] ids[i]).id < (#[trigger] ids[j]).id
            ||| ids[i].id == ids[j].id && ids[i].permissions <= ids[j].permissions
        }
}

/// Whether the permissions that are kept for a tag are those of the last entry that has it; the
/// largest number stands for none.
pub open spec fn is_last_or_unset(items: Seq<AclItem>, tag: AclTag, kept: u64) -> bool {
    is_last(items, tag, kept) || (has_none(items, tag) && kept == 0xffff_ffff_ffff_ffff)
}

/// The last entry with a tag is the one that counts.
proof fn lemma_last(items: Seq<AclItem>, tag: AclTag)
    ensures
        match last_permissions(items, tag) {
            Some(permissions) => is_last(items, tag, permissions) && !has_none(items, tag),
            None => has_none(items, tag),
        },
    decreases items.len(),
{
    if items.len() > 0 {
        let before = items.drop_last();
        let end: int = items.len() - 1;
        lemma_last(before, tag);
        if has_tag(items[end], tag) {
            assert(is_last(items, tag, items[end]->permissions));
        } else {
            assert(!has_tag(items.last(), tag));
            match last_permissions(before, tag) {
                Some(permissions) => {
                    let k = choose|k: int|
                        {
                            &&& 0 <= k < before.len()
                            &&& has_tag(#[trigger] before[k], tag)
                            &&& before[k]->permissions == permissions
                            &&& forall|j: int| k < j < before.len() ==> !has_tag(#[trigger] before[j], tag)
                        };
                    assert(has_tag(items[k], tag));
                    assert forall|j: int| k < j < items.len() implies !has_tag(#[trigger] items[j], tag) by {
                        if j < end {
                            assert(!has_tag(before[j], tag));
                        }
                    }
                    assert(is_last(items, tag, permissions));
                },
                None => {
                    assert forall|j: int| 0 <= j < items.len() implies !has_tag(#[trigger] items[j], tag) by {
                        if j < end {
                            assert(!has_tag(before[j], tag));
                        }
                    }
                },
            }
        }
    }
}

/// The users or groups of a list are its entries with that tag.
proof fn lemma_ids(items: Seq<AclItem>, tag: AclTag)
    ensures
        ids_of(items, tag) == items.filter(|item: AclItem| has_tag(item, tag)).map_values(
            |item: AclItem| AclId { id: item->qualifier, permissions: item->permissions },
        ),
    decreases items.len(),
{
    reveal(Seq::filter);
    let keep = |item: AclItem| has_tag(item, tag);
    let id = |item: AclItem| AclId { id: item->qualifier, permissions: item->permissions };
    if items.len() > 0 {
        lemma_ids(items.drop_last(), tag);
        let before = items.drop_last().filter(keep);
        if keep(items.last()) {
            assert(items.filter(keep) == before.push(items.last()));
            assert(before.push(items.last()).map_values(id) =~= before.map_values(id).push(
                id(items.last()),
            ));
        } else {
            assert(items.filter(keep) == before);
        }
    }
    assert(ids_of(items, tag) =~= items.filter(keep).map_values(id));
}

/// The users or groups that are kept of a list are its entries with that tag.
proof fn lemma_sorted_entries(items: Seq<AclItem>, tag: AclTag)
    ensures
        are_the_entries(sorted_ids(ids_of(items, tag)), items, tag),
{
    lemma_ids(items, tag);
    lemma_sorted_ids(ids_of(items, tag));
    let ids = sorted_ids(ids_of(items, tag));
    assert forall|i: int, j: int| 0 <= i < j < ids.len() implies {
        ||| (#[trigger] ids[i]).id < (#[trigger] ids[j]).id
        ||| ids[i].id == ids[j].id && ids[i].permissions <= ids[j].permissions
    } by {
        assert(in_order(ids[i], ids[j], true));
    }
}

/// A list is sound if and only if it has no error.
proof fn lemma_sound(items: Seq<AclItem>)
    ensures
        first_error(items) is None <==> is_sound(items),
    decreases items.len(),
{
    if items.len() > 0 {
        let before = items.drop_last();
        lemma_sound(before);
        if is_sound(before) && items.last() is Entry && !has_tag(items.last(), AclTag::Unknown) {
            assert forall|k: int| 0 <= k < items.len() implies (#[trigger] items[k]) is Entry && !has_tag(
                items[k],
                AclTag::Unknown,
            ) by {
                if k < before.len() {
                    assert(items[k] == before[k]);
                }
            }
        }
        if is_sound(items) {
            assert forall|k: int| 0 <= k < before.len() implies (#[trigger] before[k]) is Entry
                && !has_tag(before[k], AclTag::Unknown) by {
                assert(before[k] == items[k]);
            }
            assert(items[items.len() - 1] is Entry);
        }
    }
}

/// The first item that is no entry with a known tag is the error of a list.
proof fn lemma_first_bad(items: Seq<AclItem>, k: int)
    requires
        0 <= k < items.len(),
        is_sound(items.take(k)),
        items[k] is Failed || has_tag(items[k], AclTag::Unknown),
    ensures
        first_error(items) == first_error(items.take(k + 1)),
        items[k] matches AclItem::Failed(message) ==> first_error(items) == Some(AclErrorView::Item(message@)),
        has_tag(items[k], AclTag::Unknown) ==> first_error(items) == Some(AclErrorView::UnexpectedTag),
    decreases items.len(),
{
    lemma_sound(items.take(k));
    if k == items.len() - 1 {
        assert(items.take(k) =~= items.drop_last());
        assert(items.take(k + 1) =~= items);
    } else {
        assert(items.drop_last().take(k) =~= items.take(k));
        assert(items.drop_last().take(k + 1) =~= items.take(k + 1));
        lemma_first_bad(items.drop_last(), k);
    }
}

/// The access list of a file that is neither a symbolic link nor a directory with a default list is
/// kept: its users and its groups, and the permissions of the owning group where there is a mask.
/// There is no default list then.
pub proof fn law_access_list_is_kept(
    meta: MetadataView,
    flags: Flags,
    access: Vec<AclItem>,
    default: AclData,
)
    requires
        !flags.with_acl,
        meta.stat.mode & 0xf000 != 0xa000,
        is_sound(access@),
        meta.stat.mode & 0xf000 == 0x4000 ==> match default {
            AclData::Items(_) => false,
            AclData::NotRead => true,
            AclData::Failed(errno, _) => errno == 9 || errno == 61 || errno == 95,
        },
    ensures
        with_acl(meta, flags, AclData::Items(access), default) matches Ok(r) && {
            &&& are_the_entries(r.acl.users, access@, AclTag::User)
            &&& are_the_entries(r.acl.groups, access@, AclTag::Group)
            &&& forall|p: u64|
                !has_none(access@, AclTag::Mask) && is_last(access@, AclTag::GroupObj, p) ==> r.acl.group_obj
                    == Some(p)
            &&& has_none(access@, AclTag::Mask) || has_none(access@, AclTag::GroupObj) ==> r.acl.group_obj is None
            &&& r.acl.default is None
            &&& r.acl.default_users == meta.acl.default_users
            &&& r.acl.default_groups == meta.acl.default_groups
            &&& r.stat == meta.stat && r.xattrs == meta.xattrs && r.fcaps == meta.fcaps
            &&& r.quota_project_id == meta.quota_project_id
        },
{
    lemma_sound(access@);
    lemma_sorted_entries(access@, AclTag::User);
    lemma_sorted_entries(access@, AclTag::Group);
    lemma_last(access@, AclTag::Mask);
    lemma_last(access@, AclTag::GroupObj);
    assert forall|p: u64| is_last(access@, AclTag::GroupObj, p) implies last_permissions(
        access@,
        AclTag::GroupObj,
    ) == Some(p) by {
        lemma_one_last(access@, AclTag::GroupObj, p);
    }
}

/// Only one entry is the last one with a tag.
proof fn lemma_one_last(items: Seq<AclItem>, tag: AclTag, permissions: u64)
    requires
        is_last(items, tag, permissions),
    ensures
        last_permissions(items, tag) == Some(permissions),
{
    lemma_last(items, tag);
    let k = choose|k: int|
        {
            &&& 0 <= k < items.len()
            &&& has_tag(#[trigger] items[k], tag)
            &&& items[k]->permissions == permissions
            &&& forall|j: int| k < j < items.len() ==> !has_tag(#[trigger] items[j], tag)
        };
    assert(has_tag(items[k], tag));
    let other = last_permissions(items, tag)->0;
    let m = choose|m: int|
        {
            &&& 0 <= m < items.len()
            &&& has_tag(#[trigger] items[m], tag)
            &&& items[m]->permissions == other
            &&& forall|j: int| m < j < items.len() ==> !has_tag(#[trigger] items[j], tag)
        };
    assert(has_tag(items[m], tag));
    assert(k == m);
}

/// Both lists of a directory are kept, each by itself: the default list changes nothing of what is
/// kept of the access list.
pub proof fn law_default_list_is_kept(
    meta: MetadataView,
    flags: Flags,
    access: Vec<AclItem>,
    default: Vec<AclItem>,
)
    requires
        !flags.with_acl,
        meta.stat.mode & 0xf000 == 0x4000,
        is_sound(access@),
        is_sound(default@),
    ensures
        with_acl(meta, flags, AclData::Items(access), AclData::Items(default)) matches Ok(r) && {
            &&& are_the_entries(r.acl.users, access@, AclTag::User)
            &&& are_the_entries(r.acl.groups, access@, AclTag::Group)
            &&& forall|p: u64|
                !has_none(access@, AclTag::Mask) && is_last(access@, AclTag::GroupObj, p) ==> r.acl.group_obj
                    == Some(p)
            &&& has_none(access@, AclTag::Mask) || has_none(access@, AclTag::GroupObj) ==> r.acl.group_obj is None
            &&& are_the_entries(r.acl.default_users, default@, AclTag::User)
            &&& are_the_entries(r.acl.default_groups, default@, AclTag::Group)
            &&& r.acl.default is None <==> has_none(default@, AclTag::UserObj) && has_none(
                default@,
                AclTag::GroupObj,
            ) && has_none(default@, AclTag::Other) && has_none(default@, AclTag::Mask)
            &&& r.acl.default matches Some(kept) ==> {
                &&& is_last_or_unset(default@, AclTag::UserObj, kept.user_obj_permissions)
                &&& is_last_or_unset(default@, AclTag::GroupObj, kept.group_obj_permissions)
                &&& is_last_or_unset(default@, AclTag::Other, kept.other_permissions)
                &&& is_last_or_unset(default@, AclTag::Mask, kept.mask_permissions)
            }
            &&& r.stat == meta.stat && r.xattrs == meta.xattrs && r.fcaps == meta.fcaps
            &&& r.quota_project_id == meta.quota_project_id
        },
{
    law_access_list_is_kept(meta, flags, access, AclData::NotRead);
    lemma_sound(access@);
    lemma_sound(default@);
    lemma_sorted_entries(default@, AclTag::User);
    lemma_sorted_entries(default@, AclTag::Group);
    lemma_last(default@, AclTag::UserObj);
    lemma_last(default@, AclTag::GroupObj);
    lemma_last(default@, AclTag::Other);
    lemma_last(default@, AclTag::Mask);
}

/// The first item of an access list that could not be read, or whose tag is not known, is why the
/// list cannot be kept.
pub proof fn law_bad_entry_is_an_error(
    meta: MetadataView,
    flags: Flags,
    access: Vec<AclItem>,
    default: AclData,
    k: int,
)
    requires
        !flags.with_acl,
        meta.stat.mode & 0xf000 != 0xa000,
        0 <= k < access@.len(),
        is_sound(access@.take(k)),
    ensures
        access@[k] matches AclItem::Failed(message) ==> with_acl(
            meta,
            flags,
            AclData::Items(access),
            default,
        ) == MetadataResult::Err(MetadataErrorView::BadAcl(AclErrorView::Item(message@))),
        has_tag(access@[k], AclTag::Unknown) ==> with_acl(meta, flags, AclData::Items(access), default)
            == MetadataResult::Err(MetadataErrorView::BadAcl(AclErrorView::UnexpectedTag)),
{
    if access@[k] is Failed || has_tag(access@[k], AclTag::Unknown) {
        lemma_first_bad(access@, k);
    }
}

/// The same holds of the default list of a directory, if the access list can be kept.
pub proof fn law_bad_default_entry_is_an_error(
    meta: MetadataView,
    flags: Flags,
    access: AclData,
    default: Vec<AclItem>,
    k: int,
)
    requires
        !flags.with_acl,
        meta.stat.mode & 0xf000 == 0x4000,
        with_acl(meta, flags, access, AclData::NotRead) is Ok,
        0 <= k < default@.len(),
        is_sound(default@.take(k)),
    ensures
        default@[k] matches AclItem::Failed(message) ==> with_acl(
            meta,
            flags,
            access,
            AclData::Items(default),
        ) == MetadataResult::Err(MetadataErrorView::BadAcl(AclErrorView::Item(message@))),
        has_tag(default@[k], AclTag::Unknown) ==> with_acl(meta, flags, access, AclData::Items(default))
            == MetadataResult::Err(MetadataErrorView::BadAcl(AclErrorView::UnexpectedTag)),
{
    if default@[k] is Failed || has_tag(default@[k], AclTag::Unknown) {
        lemma_first_bad(default@, k);
    }
}

/// A list that is neither an access list nor a default list cannot be kept. The access list leaves what
/// is known of the users and groups of a default list alone, and the default list all that is known of
/// an access list.
pub proof fn law_lists_are_kept_apart(acl: AclView, items: Seq<AclItem>)
    requires
        is_sound(items),
    ensures
        processed(acl, items, AclType::Unknown) == Err::<AclView, AclErrorView>(AclErrorView::UnexpectedType),
        processed(acl, items, AclType::Access) matches Ok(r) && r.default_users == acl.default_users
            && r.default_groups == acl.default_groups,
        processed(acl, items, AclType::Default) matches Ok(r) && r.users == acl.users && r.groups == acl.groups
            && r.group_obj == acl.group_obj,
{
    lemma_sound(items);
}

/// No lists are kept of a symbolic link, nor where the flags name them.
pub proof fn law_lists_are_left_out(meta: MetadataView, flags: Flags, access: AclData, default: AclData)
    requires
        flags.with_acl || meta.stat.mode & 0xf000 == 0xa000,
    ensures
        with_acl(meta, flags, access, default) == MetadataResult::Ok(meta),
{
}

/// An error that says that there is no such list is as if the list had not been read; any other is
/// why the metadata cannot be kept.
pub proof fn law_missing_lists_are_passed_over(
    meta: MetadataView,
    flags: Flags,
    errno: i32,
    message: String,
    other: AclData,
)
    ensures
        errno == 9 || errno == 61 || errno == 95 ==> {
            &&& with_acl(meta, flags, AclData::Failed(errno, message), other) == with_acl(
                meta,
                flags,
                AclData::NotRead,
                other,
            )
            &&& with_acl(meta, flags, other, AclData::Failed(errno, message)) == with_acl(
                meta,
                flags,
                other,
                AclData::NotRead,
            )
        },
        errno != 9 && errno != 61 && errno != 95 && !flags.with_acl && meta.stat.mode & 0xf000 != 0xa000
            ==> with_acl(meta, flags, AclData::Failed(errno, message), other) == MetadataResult::Err(
            MetadataErrorView::Acl(message@),
        ),
        errno != 9 && errno != 61 && errno != 95 && !flags.with_acl && meta.stat.mode & 0xf000 == 0x4000
            && with_acl(meta, flags, other, AclData::NotRead) is Ok ==> with_acl(
            meta,
            flags,
            other,
            AclData::Failed(errno, message),
        ) == MetadataResult::Err(MetadataErrorView::Acl(message@)),
{
}

// ---------------------------------------------------------------------------------------------
// All of the metadata
// ---------------------------------------------------------------------------------------------

/// Whether an attribute is there or is missing, but is not unreadable.
pub open spec fn is_readable(data: AttrData) -> bool {
    data matches AttrData::Failed(errno, _) ==> errno == 9 || errno == 61 || errno == 95
}

/// Whether a list is there or is missing, but is not unreadable and has no bad entry.
pub open spec fn is_readable_list(data: AclData) -> bool {
    match data {
        AclData::Items(items) => is_sound(items@),
        AclData::NotRead => true,
        AclData::Failed(errno, _) => errno == 9 || errno == 61 || errno == 95,
    }
}

/// Whether a file has an attribute of the given kind.
pub open spec fn has_kind(attrs: Seq<XattrFact>, kind: XattrKind) -> bool {
    exists|k: int| 0 <= k < attrs.len() && (#[trigger] attrs[k]).kind == kind
}

/// The attributes of a file as far as they are listed.
pub open spec fn listed_attrs(flags: Flags, facts: FileFacts) -> Seq<XattrFact> {
    match facts.xattrs {
        XattrList::Attrs(attrs) => if flags.with_xattrs {
            Seq::empty()
        } else {
            attrs@
        },
        _ => Seq::empty(),
    }
}

/// Reading the lists once more changes nothing.
proof fn lemma_lists_again(meta: MetadataView, flags: Flags, access: AclData, default: AclData)
    ensures
        with_acl(meta, flags, access, default) matches Ok(once) ==> with_acl(once, flags, access, default)
            == MetadataResult::Ok(once),
{
}

/// The lists do not depend on the attributes or the capabilities that are kept.
proof fn lemma_lists_apart(
    meta: MetadataView,
    other: MetadataView,
    flags: Flags,
    access: AclData,
    default: AclData,
)
    requires
        meta.stat == other.stat,
        meta.acl == other.acl,
    ensures
        with_acl(meta, flags, access, default) matches Err(error) ==> with_acl(other, flags, access, default)
            == MetadataResult::Err(error),
        with_acl(meta, flags, access, default) matches Ok(r) ==> with_acl(other, flags, access, default)
            == MetadataResult::Ok(MetadataView { acl: r.acl, ..other }),
{
}

/// What is kept of the attributes of a file.
proof fn lemma_attrs(meta: MetadataView, flags: Flags, attrs: Seq<XattrFact>, facts: FileFacts)
    ensures
        with_attrs(meta, flags, attrs, facts) matches Ok(r) ==> {
            &&& r.stat == meta.stat && r.quota_project_id == meta.quota_project_id
            &&& r.xattrs == meta.xattrs + attrs.filter(
                |attr: XattrFact| attr.kind == XattrKind::Plain && attr.data is Data,
            ).map_values(|attr: XattrFact| XAttrView { name: attr.name@, value: attr.data->Data_0@ })
            &&& forall|data: Vec<u8>|
                has_kind(attrs, XattrKind::Capability) && !flags.with_fcaps && facts.fcaps == AttrData::Data(data)
                    ==> r.fcaps == Some(data@)
            &&& !has_kind(attrs, XattrKind::Capability) || flags.with_fcaps || facts.fcaps !is Data ==> r.fcaps
                == meta.fcaps
            &&& has_kind(attrs, XattrKind::Acl) ==> (with_acl(
                meta,
                flags,
                facts.acl_access,
                facts.acl_default,
            ) matches Ok(m) && m.acl == r.acl)
            &&& !has_kind(attrs, XattrKind::Acl) ==> r.acl == meta.acl
        },
    decreases attrs.len(),
{
    reveal(Seq::filter);
    let keep = |attr: XattrFact| attr.kind == XattrKind::Plain && attr.data is Data;
    let kept = |attr: XattrFact| XAttrView { name: attr.name@, value: attr.data->Data_0@ };
    if attrs.len() == 0 {
        assert(meta.xattrs =~= meta.xattrs + attrs.filter(keep).map_values(kept));
    } else {
        let before = attrs.drop_last();
        let last = attrs.last();
        lemma_attrs(meta, flags, before, facts);
        assert(attrs[attrs.len() - 1] == last);
        assert forall|kind: XattrKind| #[trigger] has_kind(attrs, kind) == (has_kind(before, kind) || last.kind
            == kind) by {
            if has_kind(before, kind) {
                let k = choose|k: int| 0 <= k < before.len() && (#[trigger] before[k]).kind == kind;
                assert(attrs[k].kind == kind);
            }
            if has_kind(attrs, kind) && last.kind != kind {
                let k = choose|k: int| 0 <= k < attrs.len() && (#[trigger] attrs[k]).kind == kind;
                assert(before[k].kind == kind);
            }
        }
        assert(has_kind(attrs, XattrKind::Acl) == (has_kind(before, XattrKind::Acl) || last.kind
            == XattrKind::Acl));
        assert(has_kind(attrs, XattrKind::Capability) == (has_kind(before, XattrKind::Capability) || last.kind
            == XattrKind::Capability));
        if let Ok(next) = with_attrs(meta, flags, before, facts) {
            let list = before.filter(keep);
            if keep(last) {
                assert(attrs.filter(keep) == list.push(last));
                assert(list.push(last).map_values(kept) =~= list.map_values(kept).push(kept(last)));
                assert((meta.xattrs + list.map_values(kept)).push(kept(last)) =~= meta.xattrs
                    + list.push(last).map_values(kept));
            } else {
                assert(attrs.filter(keep) == list);
            }
            if has_kind(before, XattrKind::Acl) {
                let once = with_acl(meta, flags, facts.acl_access, facts.acl_default)->Ok_0;
                lemma_lists_again(meta, flags, facts.acl_access, facts.acl_default);
                lemma_lists_apart(once, next, flags, facts.acl_access, facts.acl_default);
            } else {
                lemma_lists_apart(meta, next, flags, facts.acl_access, facts.acl_default);
            }
        }
    }
}

/// The extended attributes of a file are kept with their values, in order; those that the system
/// did not give, and those of other kinds, are not.
pub proof fn law_attributes_are_kept(
    stat: FileStat,
    flags: Flags,
    fs_magic: i64,
    facts: FileFacts,
    meta: MetadataView,
)
    requires
        metadata_of(stat, flags, fs_magic, facts) == MetadataResult::Ok(meta),
    ensures
        forall|attrs: Vec<XattrFact>|
            !flags.with_xattrs && facts.xattrs == XattrList::Attrs(attrs) ==> meta.xattrs == attrs@.filter(
                |attr: XattrFact| attr.kind == XattrKind::Plain && attr.data is Data,
            ).map_values(|attr: XattrFact| XAttrView { name: attr.name@, value: attr.data->Data_0@ }),
        flags.with_xattrs || facts.xattrs !is Attrs ==> meta.xattrs.len() == 0,
{
    if let XattrList::Attrs(attrs) = facts.xattrs {
        lemma_attrs(stat_metadata(stat), flags, attrs@, facts);
        let plain = attrs@.filter(
            |attr: XattrFact| attr.kind == XattrKind::Plain && attr.data is Data,
        ).map_values(|attr: XattrFact| XAttrView { name: attr.name@, value: attr.data->Data_0@ });
        assert(Seq::<XAttrView>::empty() + plain =~= plain);
    }
}

/// The capabilities of a file are kept if it has the attribute for them, and only then.
pub proof fn law_capabilities_are_kept(
    stat: FileStat,
    flags: Flags,
    fs_magic: i64,
    facts: FileFacts,
    meta: MetadataView,
)
    requires
        metadata_of(stat, flags, fs_magic, facts) == MetadataResult::Ok(meta),
    ensures
        forall|data: Vec<u8>|
            has_kind(listed_attrs(flags, facts), XattrKind::Capability) && !flags.with_fcaps && facts.fcaps
                == AttrData::Data(data) ==> meta.fcaps == Some(data@),
        !has_kind(listed_attrs(flags, facts), XattrKind::Capability) || flags.with_fcaps || facts.fcaps !is Data
            ==> meta.fcaps is None,
{
    if let XattrList::Attrs(attrs) = facts.xattrs {
        lemma_attrs(stat_metadata(stat), flags, attrs@, facts);
    }
}

/// The access list of a file is kept in its metadata if it has an attribute for it: the users, the
/// groups and the permissions of the owning group that a mask hides. Where there is no such
/// attribute, where the flags name the lists, and for symbolic links, no list is kept. Files that are
/// no directories have no default list, whatever is said of one.
pub proof fn law_metadata_has_the_access_list(
    stat: FileStat,
    flags: Flags,
    fs_magic: i64,
    facts: FileFacts,
    meta: MetadataView,
)
    requires
        metadata_of(stat, flags, fs_magic, facts) == MetadataResult::Ok(meta),
    ensures
        !has_kind(listed_attrs(flags, facts), XattrKind::Acl) || flags.with_acl || stat.st_mode & 0xf000
            == 0xa000 ==> {
            &&& meta.acl.users.len() == 0 && meta.acl.groups.len() == 0 && meta.acl.group_obj is None
            &&& meta.acl.default_users.len() == 0 && meta.acl.default_groups.len() == 0
            &&& meta.acl.default is None
        },
        stat.st_mode & 0xf000 != 0x4000 || facts.acl_default !is Items ==> {
            &&& meta.acl.default_users.len() == 0 && meta.acl.default_groups.len() == 0
            &&& meta.acl.default is None
        },
        facts.acl_access matches AclData::Items(access) ==> ({
                &&& has_kind(listed_attrs(flags, facts), XattrKind::Acl)
                &&& !flags.with_acl
                &&& stat.st_mode & 0xf000 != 0xa000
            } ==> {
                &&& is_sound(access@)
                &&& are_the_entries(meta.acl.users, access@, AclTag::User)
                &&& are_the_entries(meta.acl.groups, access@, AclTag::Group)
                &&& forall|p: u64|
                    !has_none(access@, AclTag::Mask) && is_last(access@, AclTag::GroupObj, p)
                        ==> meta.acl.group_obj == Some(p)
                &&& has_none(access@, AclTag::Mask) || has_none(access@, AclTag::GroupObj)
                    ==> meta.acl.group_obj is None
            }),
        facts.acl_default matches AclData::Items(default) ==> ({
                &&& has_kind(listed_attrs(flags, facts), XattrKind::Acl)
                &&& !flags.with_acl
                &&& stat.st_mode & 0xf000 == 0x4000
            } ==> {
                &&& is_sound(default@)
                &&& are_the_entries(meta.acl.default_users, default@, AclTag::User)
                &&& are_the_entries(meta.acl.default_groups, default@, AclTag::Group)
                &&& meta.acl.default is None <==> has_none(default@, AclTag::UserObj) && has_none(
                    default@,
                    AclTag::GroupObj,
                ) && has_none(default@, AclTag::Other) && has_none(default@, AclTag::Mask)
                &&& meta.acl.default matches Some(kept) ==> {
                    &&& is_last_or_unset(default@, AclTag::UserObj, kept.user_obj_permissions)
                    &&& is_last_or_unset(default@, AclTag::GroupObj, kept.group_obj_permissions)
                    &&& is_last_or_unset(default@, AclTag::Other, kept.other_permissions)
                    &&& is_last_or_unset(default@, AclTag::Mask, kept.mask_permissions)
                }
            }),
        facts.acl_access !is Items ==> meta.acl.users.len() == 0 && meta.acl.groups.len() == 0
            && meta.acl.group_obj is None,
{
    let start = stat_metadata(stat);
    lemma_mode(stat.st_mode);
    if let XattrList::Attrs(attrs) = facts.xattrs {
        lemma_attrs(start, flags, attrs@, facts);
    }
    if has_kind(listed_attrs(flags, facts), XattrKind::Acl) && !flags.with_acl && stat.st_mode & 0xf000
        != 0xa000 {
        if let AclData::Items(access) = facts.acl_access {
            lemma_sound(access@);
            law_access_list_is_kept(start, flags, access, AclData::NotRead);
        }
        if let AclData::Items(default) = facts.acl_default {
            lemma_sound(default@);
            lemma_sorted_entries(default@, AclTag::User);
            lemma_sorted_entries(default@, AclTag::Group);
            lemma_last(default@, AclTag::UserObj);
            lemma_last(default@, AclTag::GroupObj);
            lemma_last(default@, AclTag::Other);
            lemma_last(default@, AclTag::Mask);
        }
    }
}

/// The file type of a mode is the same in the wider type that the metadata has for it.
pub proof fn lemma_mode(mode: u32)
    ensures
        (mode as u64) & 0xf000 == (mode & 0xf000) as u64,
{
    assert((mode as u64) & 0xf000 == (mode & 0xf000) as u64) by (bit_vector);
}

/// The file attributes that are kept are those that the system gives, with the FAT attributes on
/// the two file systems that have them, and no others.
pub proof fn law_bits_are_kept(
    stat: FileStat,
    flags: Flags,
    fs_magic: i64,
    facts: FileFacts,
    meta: MetadataView,
)
    requires
        metadata_of(stat, flags, fs_magic, facts) == MetadataResult::Ok(meta),
    ensures
        match (facts.chattr, facts.fat_attr) {
            (AttrBits::Bits(a), AttrBits::Bits(b)) => {
                &&& fs_magic == 0x4d44 || fs_magic == 0x65735546 ==> meta.stat.flags == a | b
                &&& fs_magic != 0x4d44 && fs_magic != 0x65735546 ==> meta.stat.flags == a
            },
            (AttrBits::Bits(a), _) => meta.stat.flags == a,
            (_, AttrBits::Bits(b)) => {
                &&& fs_magic == 0x4d44 || fs_magic == 0x65735546 ==> meta.stat.flags == b
                &&& fs_magic != 0x4d44 && fs_magic != 0x65735546 ==> meta.stat.flags == 0
            },
            _ => meta.stat.flags == 0,
        },
{
    if let XattrList::Attrs(attrs) = facts.xattrs {
        lemma_attrs(stat_metadata(stat), flags, attrs@, facts);
    }
    assert forall|bits: u64| #[trigger] (0u64 | bits) == bits by {
        assert(0u64 | bits == bits) by (bit_vector);
    }
}

/// The quota project id of a regular file or a directory is kept if it is not zero, on the four
/// file systems that have one; that of another file is not.
pub proof fn law_quota_project_is_kept(
    stat: FileStat,
    flags: Flags,
    fs_magic: i64,
    facts: FileFacts,
    meta: MetadataView,
)
    requires
        metadata_of(stat, flags, fs_magic, facts) == MetadataResult::Ok(meta),
    ensures
        facts.quota matches QuotaData::Id(id) ==> ({
                &&& stat.st_mode & 0xf000 == 0x8000 || stat.st_mode & 0xf000 == 0x4000
                &&& !flags.with_quota_projid
                &&& fs_magic == 0xef53 || fs_magic == 0x58465342 || fs_magic == 0x65735546 || fs_magic
                    == 0x2fc12fc1
                &&& id != 0
            } ==> meta.quota_project_id == Some(id)),
        (stat.st_mode & 0xf000 != 0x8000 && stat.st_mode & 0xf000 != 0x4000) || flags.with_quota_projid || (
        fs_magic != 0xef53 && fs_magic != 0x58465342 && fs_magic != 0x65735546 && fs_magic != 0x2fc12fc1)
            || facts.quota is Unsupported || facts.quota == QuotaData::Id(0) ==> meta.quota_project_id is None,
{
    lemma_mode(stat.st_mode);
    if let XattrList::Attrs(attrs) = facts.xattrs {
        lemma_attrs(stat_metadata(stat), flags, attrs@, facts);
    }
}

/// Attributes can be kept if each can be read or is missing.
proof fn lemma_attrs_are_fine(meta: MetadataView, flags: Flags, attrs: Seq<XattrFact>, facts: FileFacts)
    requires
        is_readable(facts.fcaps),
        is_readable_list(facts.acl_access),
        is_readable_list(facts.acl_default),
        forall|k: int| 0 <= k < attrs.len() ==> is_readable((#[trigger] attrs[k]).data),
    ensures
        with_attrs(meta, flags, attrs, facts) is Ok,
    decreases attrs.len(),
{
    if attrs.len() > 0 {
        let before = attrs.drop_last();
        assert forall|k: int| 0 <= k < before.len() implies is_readable((#[trigger] before[k]).data) by {
            assert(is_readable(attrs[k].data));
        }
        lemma_attrs_are_fine(meta, flags, before, facts);
        assert(is_readable(attrs[attrs.len() - 1].data));
        if let AclData::Items(items) = facts.acl_access {
            lemma_sound(items@);
        }
        if let AclData::Items(items) = facts.acl_default {
            lemma_sound(items@);
        }
    }
}

/// The metadata of a file can be kept, whatever else is said of it, if nothing that the system says
/// is a failure.
pub proof fn law_metadata_can_be_kept(stat: FileStat, flags: Flags, fs_magic: i64, facts: FileFacts)
    requires
        match facts.xattrs {
            XattrList::Attrs(attrs) => forall|k: int|
                0 <= k < attrs@.len() ==> is_readable((#[trigger] attrs@[k]).data),
            XattrList::NotRead => true,
            XattrList::Failed(errno, _) => errno == 9 || errno == 95,
        },
        is_readable(facts.fcaps),
        is_readable_list(facts.acl_access),
        is_readable_list(facts.acl_default),
        facts.chattr !is Failed,
        facts.fat_attr !is Failed,
        facts.quota is Id || facts.quota is Unsupported,
    ensures
        metadata_of(stat, flags, fs_magic, facts) is Ok,
{
    if let XattrList::Attrs(attrs) = facts.xattrs {
        lemma_attrs_are_fine(stat_metadata(stat), flags, attrs@, facts);
    }
}

/// Attributes that could not be listed are why the metadata cannot be kept, unless there can be
/// none.
pub proof fn law_unlisted_attributes_are_an_error(
    stat: FileStat,
    flags: Flags,
    fs_magic: i64,
    facts: FileFacts,
    errno: i32,
    message: String,
)
    requires
        !flags.with_xattrs,
        facts.xattrs == XattrList::Failed(errno, message),
        errno != 9 && errno != 95,
    ensures
        metadata_of(stat, flags, fs_magic, facts) == MetadataResult::Err(MetadataErrorView::Xattrs(message@)),
{
}

/// An attribute that could not be read is why the metadata cannot be kept, if those before it could
/// be kept and it is not just missing. The same holds of the capabilities.
pub proof fn law_unread_attribute_is_an_error(
    stat: FileStat,
    flags: Flags,
    fs_magic: i64,
    facts: FileFacts,
    attrs: Vec<XattrFact>,
    k: int,
    errno: i32,
    message: String,
)
    requires
        !flags.with_xattrs,
        facts.xattrs == XattrList::Attrs(attrs),
        0 <= k < attrs@.len(),
        with_attrs(stat_metadata(stat), flags, attrs@.take(k), facts) is Ok,
        errno != 9 && errno != 61 && errno != 95,
    ensures
        attrs@[k].kind == XattrKind::Plain && attrs@[k].data == AttrData::Failed(errno, message)
            ==> metadata_of(stat, flags, fs_magic, facts) == MetadataResult::Err(
            MetadataErrorView::Xattr(attrs@[k].name@, message@),
        ),
        attrs@[k].kind == XattrKind::Capability && !flags.with_fcaps && facts.fcaps == AttrData::Failed(
            errno,
            message,
        ) ==> metadata_of(stat, flags, fs_magic, facts) == MetadataResult::Err(
            MetadataErrorView::Fcaps(message@),
        ),
{
    let upto = attrs@.take(k + 1);
    assert(upto.drop_last() =~= attrs@.take(k));
    assert(upto.last() == attrs@[k]);
    if with_attrs(stat_metadata(stat), flags, upto, facts) is Err {
        lemma_attrs_error(stat_metadata(stat), flags, attrs@, facts, k + 1);
    }
}

/// File attributes, FAT attributes and the quota project id that could not be read are why the
/// metadata cannot be kept, in this order.
pub proof fn law_unread_bits_are_an_error(
    stat: FileStat,
    flags: Flags,
    fs_magic: i64,
    facts: FileFacts,
    message: String,
)
    requires
        with_xattrs(stat_metadata(stat), flags, facts) is Ok,
    ensures
        facts.chattr == AttrBits::Failed(message) ==> metadata_of(stat, flags, fs_magic, facts)
            == MetadataResult::Err(MetadataErrorView::Chattr(message@)),
        facts.chattr !is Failed && (fs_magic == 0x4d44 || fs_magic == 0x65735546) && facts.fat_attr
            == AttrBits::Failed(message) ==> metadata_of(stat, flags, fs_magic, facts) == MetadataResult::Err(
            MetadataErrorView::FatAttr(message@),
        ),
        facts.chattr !is Failed && facts.fat_attr !is Failed && (stat.st_mode & 0xf000 == 0x8000
            || stat.st_mode & 0xf000 == 0x4000) && !flags.with_quota_projid && (fs_magic == 0xef53 || fs_magic
            == 0x58465342 || fs_magic == 0x65735546 || fs_magic == 0x2fc12fc1) ==> {
            &&& facts.quota == QuotaData::Failed(message) ==> metadata_of(stat, flags, fs_magic, facts)
                == MetadataResult::Err(MetadataErrorView::Quota(Some(message@)))
            &&& facts.quota is NoErrno ==> metadata_of(stat, flags, fs_magic, facts) == MetadataResult::Err(
                MetadataErrorView::Quota(None),
            )
        },
{
    lemma_mode(stat.st_mode);
    if let XattrList::Attrs(attrs) = facts.xattrs {
        lemma_attrs(stat_metadata(stat), flags, attrs@, facts);
    }
}

/// Of a file there is read what its flags, its type, its file system and its attributes ask for.
pub proof fn law_what_is_read(mode: u32, flags: Flags, fs_magic: i64, kind: XattrKind)
    ensures
        reads_xattrs(flags) <==> !flags.with_xattrs,
        reads_value(kind) <==> kind is Plain,
        reads_fcaps(flags, kind) <==> kind is Capability && !flags.with_fcaps,
        reads_acl(mode as u64, flags, kind) <==> kind is Acl && !flags.with_acl && mode & 0xf000 != 0xa000,
        reads_default_acl(mode as u64, flags, kind) <==> kind is Acl && !flags.with_acl && mode & 0xf000
            == 0x4000,
        has_fat_attr(fs_magic) <==> fs_magic == 0x4d44 || fs_magic == 0x65735546,
        reads_quota(mode as u64, flags, fs_magic) <==> (mode & 0xf000 == 0x8000 || mode & 0xf000 == 0x4000)
            && !flags.with_quota_projid && (fs_magic == 0xef53 || fs_magic == 0x58465342 || fs_magic
            == 0x65735546 || fs_magic == 0x2fc12fc1),
{
    lemma_mode(mode);
}

} // verus!
