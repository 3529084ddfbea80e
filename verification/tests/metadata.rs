use pxar_backup::acl::{process_acl, Acl, AclDefault, AclError, AclId, AclItem, AclTag, AclType};
use pxar_backup::flags::Flags;
use pxar_backup::fs_magic::{EXT4_SUPER_MAGIC, FUSE_SUPER_MAGIC, MSDOS_SUPER_MAGIC, XFS_SUPER_MAGIC};
use pxar_backup::metadata::{
    get_metadata, passes_list_error_over, passes_read_error_over, needs_acl, needs_default_acl, needs_fat_attr, needs_fcaps, needs_quota, needs_value,
    needs_xattrs, AclData, AttrBits, AttrData, FileFacts, MetadataError, QuotaData, XAttr, XattrFact,
    XattrKind, XattrList,
};
use pxar_backup::mode::{FileStat, IFDIR, IFLNK, IFREG};

const NONE: Flags =
    Flags { with_xattrs: false, with_acl: false, with_fcaps: false, with_quota_projid: false };

fn stat(mode: u32) -> FileStat {
    let mut stat = FileStat::zeroed();
    stat.st_mode = mode;
    stat.st_uid = 7;
    stat.st_gid = 8;
    stat.st_mtime = -5;
    stat.st_mtime_nsec = 999_999_999;
    stat
}

fn no_facts() -> FileFacts {
    FileFacts {
        xattrs: XattrList::NotRead,
        fcaps: AttrData::NotRead,
        acl_access: AclData::NotRead,
        acl_default: AclData::NotRead,
        chattr: AttrBits::Unsupported,
        fat_attr: AttrBits::Unsupported,
        quota: QuotaData::Unsupported,
    }
}

fn attr(name: &str, kind: XattrKind, data: AttrData) -> XattrFact {
    XattrFact { name: name.as_bytes().to_vec(), kind, data }
}

fn item(tag: AclTag, permissions: u64, qualifier: u64) -> AclItem {
    AclItem::Entry { tag, permissions, qualifier }
}

fn id(id: u64, permissions: u64) -> AclId {
    AclId { id, permissions }
}

#[test]
fn the_stat_is_kept() {
    let meta = get_metadata(&stat(IFREG | 0o644), NONE, EXT4_SUPER_MAGIC, &no_facts()).unwrap();
    assert_eq!(meta.stat.mode, 0o100644);
    assert_eq!((meta.stat.uid, meta.stat.gid), (7, 8));
    assert_eq!((meta.stat.mtime_secs, meta.stat.mtime_nanos), (-5, 999_999_999));
    assert_eq!(meta.stat.flags, 0);
    assert!(meta.is_regular_file() && !meta.is_dir() && !meta.is_symlink());
    assert_eq!(meta.file_type(), 0o100000);
    assert!(meta.xattrs.is_empty() && meta.fcaps.is_none() && meta.quota_project_id.is_none());
}

#[test]
fn attributes_are_kept_in_order() {
    let mut facts = no_facts();
    facts.fcaps = AttrData::Data(vec![9]);
    facts.xattrs = XattrList::Attrs(vec![
        attr("user.b", XattrKind::Plain, AttrData::Data(vec![1])),
        attr("security.capability", XattrKind::Capability, AttrData::NotRead),
        attr("trusted.x", XattrKind::Invalid, AttrData::Data(vec![2])),
        attr("user.gone", XattrKind::Plain, AttrData::NotRead),
        attr("user.a", XattrKind::Plain, AttrData::Data(vec![3])),
    ]);
    let meta = get_metadata(&stat(IFREG), NONE, EXT4_SUPER_MAGIC, &facts).unwrap();
    assert_eq!(
        meta.xattrs,
        vec![
            XAttr { name: b"user.b".to_vec(), value: vec![1] },
            XAttr { name: b"user.a".to_vec(), value: vec![3] },
        ]
    );
    assert_eq!(meta.fcaps, Some(vec![9]));

    let flags = Flags { with_fcaps: true, ..NONE };
    assert_eq!(get_metadata(&stat(IFREG), flags, EXT4_SUPER_MAGIC, &facts).unwrap().fcaps, None);
    let flags = Flags { with_xattrs: true, ..NONE };
    assert!(get_metadata(&stat(IFREG), flags, EXT4_SUPER_MAGIC, &facts).unwrap().xattrs.is_empty());
}

#[test]
fn capabilities_need_their_attribute() {
    let mut facts = no_facts();
    facts.fcaps = AttrData::Data(vec![9]);
    facts.xattrs = XattrList::Attrs(vec![]);
    assert_eq!(get_metadata(&stat(IFREG), NONE, EXT4_SUPER_MAGIC, &facts).unwrap().fcaps, None);
}

#[test]
fn each_failure_is_reported() {
    let failed = || "no".to_owned();
    let regular = stat(IFREG);

    let mut facts = no_facts();
    facts.xattrs = XattrList::Failed(5, failed());
    assert_eq!(get_metadata(&regular, NONE, 0, &facts), Err(MetadataError::Xattrs(failed())));

    facts.xattrs = XattrList::Attrs(vec![attr("user.a", XattrKind::Plain, AttrData::Failed(5, failed()))]);
    assert_eq!(get_metadata(&regular, NONE, 0, &facts), Err(MetadataError::Xattr(b"user.a".to_vec(), failed())));

    facts.xattrs = XattrList::Attrs(vec![attr("c", XattrKind::Capability, AttrData::NotRead)]);
    facts.fcaps = AttrData::Failed(5, failed());
    assert_eq!(get_metadata(&regular, NONE, 0, &facts), Err(MetadataError::Fcaps(failed())));

    facts.xattrs = XattrList::Attrs(vec![attr("a", XattrKind::Acl, AttrData::NotRead)]);
    facts.acl_access = AclData::Failed(5, failed());
    assert_eq!(get_metadata(&regular, NONE, 0, &facts), Err(MetadataError::Acl(failed())));

    facts.acl_access = AclData::Items(vec![item(AclTag::Unknown, 0, 0)]);
    assert_eq!(
        get_metadata(&regular, NONE, 0, &facts),
        Err(MetadataError::BadAcl(AclError::UnexpectedTag))
    );

    let mut facts = no_facts();
    facts.chattr = AttrBits::Failed(failed());
    assert_eq!(get_metadata(&regular, NONE, 0, &facts), Err(MetadataError::Chattr(failed())));

    let mut facts = no_facts();
    facts.fat_attr = AttrBits::Failed(failed());
    assert!(get_metadata(&regular, NONE, EXT4_SUPER_MAGIC, &facts).is_ok());
    assert_eq!(get_metadata(&regular, NONE, MSDOS_SUPER_MAGIC, &facts), Err(MetadataError::FatAttr(failed())));

    let mut facts = no_facts();
    facts.quota = QuotaData::Failed(failed());
    assert_eq!(get_metadata(&regular, NONE, XFS_SUPER_MAGIC, &facts), Err(MetadataError::Quota(Some(failed()))));
    facts.quota = QuotaData::NoErrno;
    assert_eq!(get_metadata(&regular, NONE, XFS_SUPER_MAGIC, &facts), Err(MetadataError::Quota(None)));
    assert!(get_metadata(&stat(IFLNK), NONE, XFS_SUPER_MAGIC, &facts).is_ok());
    assert!(get_metadata(&regular, NONE, MSDOS_SUPER_MAGIC, &facts).is_ok());
}

#[test]
fn file_attributes_are_put_together() {
    let mut facts = no_facts();
    facts.chattr = AttrBits::Bits(0x6);
    facts.fat_attr = AttrBits::Bits(0x30);
    facts.quota = QuotaData::Id(12);
    let meta = get_metadata(&stat(IFDIR), NONE, FUSE_SUPER_MAGIC, &facts).unwrap();
    assert_eq!(meta.stat.flags, 0x36);
    assert_eq!(meta.quota_project_id, Some(12));
    let meta = get_metadata(&stat(IFDIR), NONE, EXT4_SUPER_MAGIC, &facts).unwrap();
    assert_eq!(meta.stat.flags, 0x6);
    facts.quota = QuotaData::Id(0);
    let meta = get_metadata(&stat(IFDIR), NONE, EXT4_SUPER_MAGIC, &facts).unwrap();
    assert_eq!(meta.quota_project_id, None);
}

#[test]
fn an_access_list_is_kept_in_order() {
    let items = vec![
        item(AclTag::UserObj, 7, 0),
        item(AclTag::User, 5, 30),
        item(AclTag::User, 4, 20),
        item(AclTag::Group, 1, 9),
        item(AclTag::GroupObj, 6, 0),
        item(AclTag::Mask, 4, 0),
        item(AclTag::User, 1, 20),
    ];
    let acl = process_acl(Acl::empty(), &items, AclType::Access).unwrap();
    assert_eq!(acl.users, vec![id(20, 1), id(20, 4), id(30, 5)]);
    assert_eq!(acl.groups, vec![id(9, 1)]);
    assert_eq!(acl.group_obj, Some(6));
    assert_eq!(acl.default, None);

    let mut reversed = items;
    reversed.reverse();
    assert_eq!(process_acl(Acl::empty(), &reversed, AclType::Access), Ok(acl));
}

#[test]
fn without_a_mask_the_group_is_not_kept() {
    let acl = process_acl(Acl::empty(), &vec![item(AclTag::GroupObj, 6, 0)], AclType::Access).unwrap();
    assert_eq!(acl.group_obj, None);
}

#[test]
fn a_default_list_has_placeholders() {
    let acl = process_acl(Acl::empty(), &vec![item(AclTag::Other, 5, 0)], AclType::Default).unwrap();
    assert_eq!(
        acl.default,
        Some(AclDefault {
            user_obj_permissions: u64::MAX,
            group_obj_permissions: u64::MAX,
            other_permissions: 5,
            mask_permissions: u64::MAX,
        })
    );
    let acl = process_acl(Acl::empty(), &vec![], AclType::Default).unwrap();
    assert_eq!(acl.default, None);
}

#[test]
fn the_first_bad_item_of_a_list_counts() {
    let failed = || AclItem::Failed("no".to_owned());
    assert_eq!(
        process_acl(Acl::empty(), &vec![failed(), item(AclTag::Unknown, 0, 0)], AclType::Access),
        Err(AclError::Item("no".to_owned()))
    );
    assert_eq!(
        process_acl(Acl::empty(), &vec![item(AclTag::Unknown, 0, 0), failed()], AclType::Access),
        Err(AclError::UnexpectedTag)
    );
    assert_eq!(process_acl(Acl::empty(), &vec![], AclType::Unknown), Err(AclError::UnexpectedType));
}

#[test]
fn directories_have_both_lists() {
    let mut facts = no_facts();
    facts.xattrs = XattrList::Attrs(vec![attr("a", XattrKind::Acl, AttrData::NotRead)]);
    facts.acl_access = AclData::Items(vec![item(AclTag::User, 5, 30)]);
    facts.acl_default = AclData::Items(vec![item(AclTag::Group, 4, 40)]);
    let meta = get_metadata(&stat(IFDIR), NONE, 0, &facts).unwrap();
    assert_eq!(meta.acl.users, vec![id(30, 5)]);
    assert_eq!(meta.acl.default_groups, vec![id(40, 4)]);
    let meta = get_metadata(&stat(IFREG), NONE, 0, &facts).unwrap();
    assert_eq!(meta.acl.users, vec![id(30, 5)]);
    assert!(meta.acl.default_groups.is_empty());
    let meta = get_metadata(&stat(IFLNK), NONE, 0, &facts).unwrap();
    assert_eq!(meta.acl, Acl::empty());
}

#[test]
fn only_needed_facts_matter() {
    let flags = Flags { with_xattrs: true, with_acl: true, with_fcaps: true, with_quota_projid: true };
    let mut facts = no_facts();
    facts.xattrs = XattrList::Failed(5, "x".to_owned());
    facts.fcaps = AttrData::Failed(5, "x".to_owned());
    facts.fat_attr = AttrBits::Failed("x".to_owned());
    facts.quota = QuotaData::NoErrno;
    assert!(!needs_xattrs(flags) && !needs_fat_attr(EXT4_SUPER_MAGIC));
    assert!(!needs_quota(u64::from(IFREG), flags, EXT4_SUPER_MAGIC));
    assert_eq!(
        get_metadata(&stat(IFREG), flags, EXT4_SUPER_MAGIC, &facts),
        get_metadata(&stat(IFREG), flags, EXT4_SUPER_MAGIC, &no_facts())
    );
    assert!(needs_xattrs(NONE) && needs_fat_attr(FUSE_SUPER_MAGIC));
    assert!(needs_quota(u64::from(IFDIR), NONE, FUSE_SUPER_MAGIC));
    assert!(needs_value(XattrKind::Plain) && !needs_value(XattrKind::Acl));
    assert!(needs_fcaps(NONE, XattrKind::Capability) && !needs_fcaps(flags, XattrKind::Capability));
    assert!(needs_acl(u64::from(IFREG), NONE, XattrKind::Acl));
    assert!(!needs_acl(u64::from(IFLNK), NONE, XattrKind::Acl));
    assert!(needs_default_acl(u64::from(IFDIR), NONE, XattrKind::Acl));
    assert!(!needs_default_acl(u64::from(IFREG), NONE, XattrKind::Acl));
}

#[test]
fn the_hidden_group_of_a_directory_is_kept() {
    let mut facts = no_facts();
    facts.xattrs = XattrList::Attrs(vec![
        attr("system.posix_acl_access", XattrKind::Acl, AttrData::NotRead),
        attr("system.posix_acl_default", XattrKind::Acl, AttrData::NotRead),
    ]);
    facts.acl_access = AclData::Items(vec![
        item(AclTag::UserObj, 7, 0),
        item(AclTag::GroupObj, 5, 0),
        item(AclTag::Mask, 4, 0),
    ]);
    facts.acl_default = AclData::Items(vec![item(AclTag::Other, 1, 0), item(AclTag::User, 6, 9)]);
    let meta = get_metadata(&stat(IFDIR), NONE, 0, &facts).unwrap();
    assert_eq!(meta.acl.group_obj, Some(5));
    assert_eq!(meta.acl.default_users, vec![id(9, 6)]);
    assert_eq!(meta.acl.default.unwrap().other_permissions, 1);

    facts.acl_default = AclData::Items(vec![]);
    let meta = get_metadata(&stat(IFDIR), NONE, 0, &facts).unwrap();
    assert_eq!(meta.acl.group_obj, Some(5));
    assert_eq!(meta.acl.default, None);
}

#[test]
fn the_access_list_drops_earlier_default_permissions() {
    let acl = process_acl(Acl::empty(), &vec![item(AclTag::Other, 5, 0)], AclType::Default).unwrap();
    assert!(acl.default.is_some());
    let acl = process_acl(acl, &vec![item(AclTag::User, 1, 2)], AclType::Access).unwrap();
    assert_eq!(acl.default, None);
    assert_eq!(acl.users, vec![id(2, 1)]);
}

#[test]
fn some_errors_are_passed_over() {
    for errno in [9, 61, 95] {
        assert!(passes_read_error_over(errno));
        let mut facts = no_facts();
        facts.fcaps = AttrData::Failed(errno, "no".to_owned());
        facts.acl_access = AclData::Failed(errno, "no".to_owned());
        facts.xattrs = XattrList::Attrs(vec![
            attr("c", XattrKind::Capability, AttrData::NotRead),
            attr("a", XattrKind::Acl, AttrData::NotRead),
            attr("user.x", XattrKind::Plain, AttrData::Failed(errno, "no".to_owned())),
        ]);
        assert!(get_metadata(&stat(IFREG), NONE, 0, &facts).is_ok());
    }
    assert!(!passes_read_error_over(13));
    assert!(passes_list_error_over(9) && passes_list_error_over(95) && !passes_list_error_over(61));
    let mut facts = no_facts();
    facts.xattrs = XattrList::Failed(95, "no".to_owned());
    assert!(get_metadata(&stat(IFREG), NONE, 0, &facts).is_ok());
    facts.xattrs = XattrList::Failed(61, "no".to_owned());
    assert_eq!(get_metadata(&stat(IFREG), NONE, 0, &facts), Err(MetadataError::Xattrs("no".to_owned())));
}

#[test]
fn metadata_errors_have_messages() {
    let no = || "no".to_owned();
    let texts = [
        (MetadataError::Fcaps(no()), "failed to read file capabilities: no"),
        (MetadataError::Xattrs(no()), "failed to read xattrs: no"),
        (MetadataError::Acl(no()), "error while reading ACL - no"),
        (MetadataError::BadAcl(AclError::Item(no())), "no"),
        (MetadataError::BadAcl(AclError::UnexpectedTag), "Unexpected ACL tag encountered!"),
        (MetadataError::BadAcl(AclError::UnexpectedType), "Unexpected ACL type encountered"),
        (MetadataError::Chattr(no()), "failed to read file attributes: no"),
        (MetadataError::FatAttr(no()), "failed to read fat attributes: no"),
        (MetadataError::Quota(Some(no())), "error while reading quota project id (no)"),
        (MetadataError::Quota(None), "error while reading quota project id"),
        (
            MetadataError::Xattr(b"user.a\tb\"\xff".to_vec(), no()),
            "error reading extended attribute \"user.a\\tb\\\"\\xff\": no",
        ),
    ];
    for (error, text) in texts {
        assert_eq!(error.to_string(), text);
    }
}
