//! What an archive keeps of a file beside its contents.
//!
//! The system calls that read extended attributes, access control lists and the like are made
//! elsewhere; their results come in as [`FileFacts`]. Which of them are needed at all is decided
//! here too.

use vstd::prelude::*;
use vstd::string::*;

use crate::acl::{
    default_of, first_error, hidden_group, ids_of, process_acl, processed, sorted_ids, Acl, AclError,
    AclErrorView, AclItem, AclTag, AclType, AclView,
};
use crate::bytes::bytes_copy;
use crate::flags::Flags;
use crate::fs_magic::{
    EXT4_SUPER_MAGIC, FUSE_SUPER_MAGIC, MSDOS_SUPER_MAGIC, XFS_SUPER_MAGIC, ZFS_SUPER_MAGIC,
};
use crate::mode::{FileStat, IFDIR, IFLNK, IFMT, IFREG};
use crate::text::{joined_text, quote_name, quoted_name};

verus! {

/// The basic part of the metadata.
#[derive(Clone, Copy, Debug, PartialEq, Eq, Structural)]
pub struct Stat {
    /// File type and permissions.
    pub mode: u64,
    /// File attributes.
    pub flags: u64,
    /// The owner.
    pub uid: u32,
    /// The group.
    pub gid: u32,
    /// The seconds of the time of the last change.
    pub mtime_secs: i64,
    /// The nanoseconds of the time of the last change.
    pub mtime_nanos: u32,
}

/// An extended attribute.
#[derive(Debug, PartialEq, Eq)]
pub struct XAttr {
    /// Its name.
    pub name: Vec<u8>,
    /// Its value.
    pub value: Vec<u8>,
}

/// What an archive keeps of a file beside its contents.
#[derive(Debug, PartialEq, Eq)]
pub struct Metadata {
    /// The basic part.
    pub stat: Stat,
    /// Extended attributes.
    pub xattrs: Vec<XAttr>,
    /// Access control lists.
    pub acl: Acl,
    /// File capabilities.
    pub fcaps: Option<Vec<u8>>,
    /// The quota project id.
    pub quota_project_id: Option<u64>,
}

/// The mathematical value of an [`XAttr`].
pub struct XAttrView {
    /// Its name.
    pub name: Seq<u8>,
    /// Its value.
    pub value: Seq<u8>,
}

/// The mathematical value of [`Metadata`].
#[verifier::ext_equal]
pub struct MetadataView {
    /// The basic part.
    pub stat: Stat,
    /// Extended attributes.
    pub xattrs: Seq<XAttrView>,
    /// Access control lists.
    pub acl: AclView,
    /// File capabilities.
    pub fcaps: Option<Seq<u8>>,
    /// The quota project id.
    pub quota_project_id: Option<u64>,
}

impl View for XAttr {
    type V = XAttrView;

    open spec fn view(&self) -> XAttrView {
        XAttrView { name: self.name@, value: self.value@ }
    }
}

impl View for Metadata {
    type V = MetadataView;

    open spec fn view(&self) -> MetadataView {
        MetadataView {
            stat: self.stat,
            xattrs: self.xattrs@.map_values(|x: XAttr| x@),
            acl: self.acl@,
            fcaps: match self.fcaps {
                Some(data) => Some(data@),
                None => None,
            },
            quota_project_id: self.quota_project_id,
        }
    }
}

/// The file type bits of a mode.
pub open spec fn type_bits(mode: u64) -> u64 {
    mode & (IFMT as u64)
}

impl MetadataView {
    /// Whether the file is a directory.
    pub open spec fn is_dir(self) -> bool {
        type_bits(self.stat.mode) == IFDIR
    }

    /// Whether the file is a regular file.
    pub open spec fn is_regular_file(self) -> bool {
        type_bits(self.stat.mode) == IFREG
    }

    /// Whether the file is a symbolic link.
    pub open spec fn is_symlink(self) -> bool {
        type_bits(self.stat.mode) == IFLNK
    }
}

impl Metadata {
    /// The file type bits of the mode.
    pub fn file_type(&self) -> (r: u64)
        ensures
            r == type_bits(self@.stat.mode),
    {
        self.stat.mode & (IFMT as u64)
    }

    /// Whether the file is a directory.
    pub fn is_dir(&self) -> (r: bool)
        ensures
            r == self@.is_dir(),
    {
        self.file_type() == IFDIR as u64
    }

    /// Whether the file is a regular file.
    pub fn is_regular_file(&self) -> (r: bool)
        ensures
            r == self@.is_regular_file(),
    {
        self.file_type() == IFREG as u64
    }

    /// Whether the file is a symbolic link.
    pub fn is_symlink(&self) -> (r: bool)
        ensures
            r == self@.is_symlink(),
    {
        self.file_type() == IFLNK as u64
    }
}

// ---------------------------------------------------------------------------------------------
// What the system says of a file
// ---------------------------------------------------------------------------------------------

/// The file is not one that can be read in this way: a symbolic link.
pub const EBADF: i32 = 9;

/// There is no data.
pub const ENODATA: i32 = 61;

/// The file system does not support it.
pub const EOPNOTSUPP: i32 = 95;

/// Whether an error in reading an attribute or an access control list is passed over: there is none,
/// it is not supported, or the file cannot have one.
pub open spec fn is_read_error_passed_over(errno: i32) -> bool {
    errno == ENODATA || errno == EOPNOTSUPP || errno == EBADF
}

/// Whether an error in listing the attributes is passed over: they are not supported, or the file
/// cannot have any.
pub open spec fn is_list_error_passed_over(errno: i32) -> bool {
    errno == EOPNOTSUPP || errno == EBADF
}

/// Decides whether an error in reading an attribute or an access control list is passed over.
pub fn passes_read_error_over(errno: i32) -> (r: bool)
    ensures
        r == is_read_error_passed_over(errno),
{
    errno == ENODATA || errno == EOPNOTSUPP || errno == EBADF
}

/// Decides whether an error in listing the attributes is passed over.
pub fn passes_list_error_over(errno: i32) -> (r: bool)
    ensures
        r == is_list_error_passed_over(errno),
{
    errno == EOPNOTSUPP || errno == EBADF
}

/// What came of reading the value of an extended attribute.
#[derive(Debug, PartialEq, Eq)]
pub enum AttrData {
    /// The value.
    Data(Vec<u8>),
    /// It was not read.
    NotRead,
    /// Reading failed, with this error number and this message.
    Failed(i32, String),
}

/// What an extended attribute is for.
#[derive(Clone, Copy, Debug, PartialEq, Eq, Structural)]
pub enum XattrKind {
    /// It holds file capabilities.
    Capability,
    /// It holds an access control list.
    Acl,
    /// It is an attribute that an archive keeps.
    Plain,
    /// Its name is one that an archive does not keep.
    Invalid,
}

/// An extended attribute that a file has.
#[derive(Debug, PartialEq, Eq)]
pub struct XattrFact {
    /// Its name.
    pub name: Vec<u8>,
    /// What it is for.
    pub kind: XattrKind,
    /// Its value.
    pub data: AttrData,
}

/// What came of listing the extended attributes.
#[derive(Debug, PartialEq, Eq)]
pub enum XattrList {
    /// The attributes.
    Attrs(Vec<XattrFact>),
    /// They were not listed.
    NotRead,
    /// Listing failed, with this error number and this message.
    Failed(i32, String),
}

/// What came of reading an access control list.
#[derive(Debug, PartialEq, Eq)]
pub enum AclData {
    /// The entries.
    Items(Vec<AclItem>),
    /// It was not read.
    NotRead,
    /// Reading failed, with this error number and this message.
    Failed(i32, String),
}

/// What came of reading file attributes.
#[derive(Debug, PartialEq, Eq)]
pub enum AttrBits {
    /// The attributes, as the bits an archive has for them.
    Bits(u64),
    /// They are not supported.
    Unsupported,
    /// Reading failed.
    Failed(String),
}

/// What came of reading the quota project id.
#[derive(Debug, PartialEq, Eq)]
pub enum QuotaData {
    /// The id; 0 stands for no project.
    Id(u64),
    /// It is not supported.
    Unsupported,
    /// Reading failed with no error number.
    NoErrno,
    /// Reading failed.
    Failed(String),
}

/// What the system says of a file.
#[derive(Debug, PartialEq, Eq)]
pub struct FileFacts {
    /// The extended attributes.
    pub xattrs: XattrList,
    /// The attribute that holds file capabilities.
    pub fcaps: AttrData,
    /// The access list.
    pub acl_access: AclData,
    /// The default list.
    pub acl_default: AclData,
    /// The file attributes.
    pub chattr: AttrBits,
    /// The FAT attributes.
    pub fat_attr: AttrBits,
    /// The quota project id.
    pub quota: QuotaData,
}

/// Why the metadata of a file cannot be kept.
#[derive(Debug, PartialEq, Eq)]
pub enum MetadataError {
    /// The file capabilities could not be read.
    Fcaps(String),
    /// The extended attributes could not be listed.
    Xattrs(String),
    /// This extended attribute could not be read.
    Xattr(Vec<u8>, String),
    /// An access control list could not be read.
    Acl(String),
    /// An access control list cannot be kept.
    BadAcl(AclError),
    /// The file attributes could not be read.
    Chattr(String),
    /// The FAT attributes could not be read.
    FatAttr(String),
    /// The quota project id could not be read; the cause, where there is one.
    Quota(Option<String>),
}

/// The mathematical value of a [`MetadataError`].
pub enum MetadataErrorView {
    /// The file capabilities could not be read.
    Fcaps(Seq<char>),
    /// The extended attributes could not be listed.
    Xattrs(Seq<char>),
    /// This extended attribute could not be read.
    Xattr(Seq<u8>, Seq<char>),
    /// An access control list could not be read.
    Acl(Seq<char>),
    /// An access control list cannot be kept.
    BadAcl(AclErrorView),
    /// The file attributes could not be read.
    Chattr(Seq<char>),
    /// The FAT attributes could not be read.
    FatAttr(Seq<char>),
    /// The quota project id could not be read; the cause, where there is one.
    Quota(Option<Seq<char>>),
}

impl View for MetadataError {
    type V = MetadataErrorView;

    open spec fn view(&self) -> MetadataErrorView {
        match *self {
            MetadataError::Fcaps(message) => MetadataErrorView::Fcaps(message@),
            MetadataError::Xattrs(message) => MetadataErrorView::Xattrs(message@),
            MetadataError::Xattr(name, message) => MetadataErrorView::Xattr(name@, message@),
            MetadataError::Acl(message) => MetadataErrorView::Acl(message@),
            MetadataError::BadAcl(error) => MetadataErrorView::BadAcl(error@),
            MetadataError::Chattr(message) => MetadataErrorView::Chattr(message@),
            MetadataError::FatAttr(message) => MetadataErrorView::FatAttr(message@),
            MetadataError::Quota(None) => MetadataErrorView::Quota(None),
            MetadataError::Quota(Some(message)) => MetadataErrorView::Quota(Some(message@)),
        }
    }
}

impl MetadataErrorView {
    /// The message of the error.
    pub open spec fn text(self) -> Seq<char> {
        match self {
            MetadataErrorView::Fcaps(message) => "failed to read file capabilities: "@ + message,
            MetadataErrorView::Xattrs(message) => "failed to read xattrs: "@ + message,
            MetadataErrorView::Xattr(name, message) => "error reading extended attribute "@ + quoted_name(
                name,
            ) + ": "@ + message,
            MetadataErrorView::Acl(message) => "error while reading ACL - "@ + message,
            MetadataErrorView::BadAcl(error) => error.text(),
            MetadataErrorView::Chattr(message) => "failed to read file attributes: "@ + message,
            MetadataErrorView::FatAttr(message) => "failed to read fat attributes: "@ + message,
            MetadataErrorView::Quota(Some(message)) => "error while reading quota project id ("@ + message
                + ")"@,
            MetadataErrorView::Quota(None) => "error while reading quota project id"@,
        }
    }
}

impl MetadataError {
    /// The message of the error.
    pub fn to_string(&self) -> (r: String)
        ensures
            r@ == self@.text(),
    {
        match self {
            MetadataError::Fcaps(message) => {
                joined_text("failed to read file capabilities: ", message.as_str())
            },
            MetadataError::Xattrs(message) => joined_text("failed to read xattrs: ", message.as_str()),
            MetadataError::Xattr(name, message) => {
                let mut r = joined_text(
                    "error reading extended attribute ",
                    quote_name(name.as_slice()).as_str(),
                );
                r.append(": ");
                r.append(message.as_str());
                r
            },
            MetadataError::Acl(message) => joined_text("error while reading ACL - ", message.as_str()),
            MetadataError::BadAcl(error) => error.to_string(),
            MetadataError::Chattr(message) => {
                joined_text("failed to read file attributes: ", message.as_str())
            },
            MetadataError::FatAttr(message) => {
                joined_text("failed to read fat attributes: ", message.as_str())
            },
            MetadataError::Quota(Some(message)) => {
                let mut r = joined_text("error while reading quota project id (", message.as_str());
                r.append(")");
                r
            },
            MetadataError::Quota(None) => "error while reading quota project id".to_owned(),
        }
    }
}

/// The metadata of a file, or why it cannot be kept.
pub type MetadataResult = Result<MetadataView, MetadataErrorView>;

/// The value of a result over metadata.
pub open spec fn metadata_result(r: Result<Metadata, MetadataError>) -> MetadataResult {
    match r {
        Ok(metadata) => Ok(metadata@),
        Err(error) => Err(error@),
    }
}

// ---------------------------------------------------------------------------------------------
// File capabilities
// ---------------------------------------------------------------------------------------------

/// The metadata with the file capabilities, unless the flags name them.
pub open spec fn with_fcaps(meta: MetadataView, flags: Flags, fcaps: AttrData) -> MetadataResult {
    if flags.with_fcaps {
        Ok(meta)
    } else {
        match fcaps {
            AttrData::Data(data) => Ok(MetadataView { fcaps: Some(data@), ..meta }),
            AttrData::NotRead => Ok(meta),
            AttrData::Failed(errno, message) => if is_read_error_passed_over(errno) {
                Ok(meta)
            } else {
                Err(MetadataErrorView::Fcaps(message@))
            },
        }
    }
}

/// Adds the file capabilities.
pub fn get_fcaps(meta: Metadata, flags: Flags, fcaps: &AttrData) -> (r: Result<Metadata, MetadataError>)
    ensures
        metadata_result(r) == with_fcaps(meta@, flags, *fcaps),
{
    if flags.with_fcaps {
        return Ok(meta);
    }
    match fcaps {
        AttrData::Data(data) => {
            let mut meta = meta;
            meta.fcaps = Some(bytes_copy(data.as_slice()));
            Ok(meta)
        },
        AttrData::NotRead => Ok(meta),
        AttrData::Failed(errno, message) => if passes_read_error_over(*errno) {
            Ok(meta)
        } else {
            Err(MetadataError::Fcaps(message.clone()))
        },
    }
}

// ---------------------------------------------------------------------------------------------
// Access control lists
// ---------------------------------------------------------------------------------------------

/// The metadata with one of the access control lists.
pub open spec fn with_acl_list(meta: MetadataView, data: AclData, acl_type: AclType) -> MetadataResult {
    match data {
        AclData::Items(items) => match processed(meta.acl, items@, acl_type) {
            Ok(acl) => Ok(MetadataView { acl, ..meta }),
            Err(error) => Err(MetadataErrorView::BadAcl(error)),
        },
        AclData::NotRead => Ok(meta),
        AclData::Failed(errno, message) => if is_read_error_passed_over(errno) {
            Ok(meta)
        } else {
            Err(MetadataErrorView::Acl(message@))
        },
    }
}

/// The metadata with the access control lists, unless the flags name them. Symbolic links have
/// none, and only directories have a default list.
pub open spec fn with_acl(meta: MetadataView, flags: Flags, access: AclData, default: AclData) -> MetadataResult {
    if flags.with_acl || meta.is_symlink() {
        Ok(meta)
    } else {
        match with_acl_list(meta, access, AclType::Access) {
            Ok(next) => if meta.is_dir() {
                with_acl_list(next, default, AclType::Default)
            } else {
                Ok(next)
            },
            Err(error) => Err(error),
        }
    }
}

/// Adds one of the access control lists.
pub fn get_acl_do(meta: Metadata, data: &AclData, acl_type: AclType) -> (r: Result<Metadata, MetadataError>)
    ensures
        metadata_result(r) == with_acl_list(meta@, *data, acl_type),
{
    match data {
        AclData::Items(items) => {
            match process_acl(meta.acl, items, acl_type) {
                Ok(acl) => Ok(
                    Metadata {
                        stat: meta.stat,
                        xattrs: meta.xattrs,
                        acl,
                        fcaps: meta.fcaps,
                        quota_project_id: meta.quota_project_id,
                    },
                ),
                Err(error) => Err(MetadataError::BadAcl(error)),
            }
        },
        AclData::NotRead => Ok(meta),
        AclData::Failed(errno, message) => if passes_read_error_over(*errno) {
            Ok(meta)
        } else {
            Err(MetadataError::Acl(message.clone()))
        },
    }
}

/// Adds the access control lists.
pub fn get_acl(meta: Metadata, flags: Flags, access: &AclData, default: &AclData) -> (r: Result<
    Metadata,
    MetadataError,
>)
    ensures
        metadata_result(r) == with_acl(meta@, flags, *access, *default),
{
    if flags.with_acl {
        return Ok(meta);
    }
    if meta.is_symlink() {
        return Ok(meta);
    }
    let is_dir = meta.is_dir();
    match get_acl_do(meta, access, AclType::Access) {
        Ok(next) => if is_dir {
            get_acl_do(next, default, AclType::Default)
        } else {
            Ok(next)
        },
        Err(error) => Err(error),
    }
}

// ---------------------------------------------------------------------------------------------
// Extended attributes
// ---------------------------------------------------------------------------------------------

/// The metadata with what one extended attribute stands for.
pub open spec fn with_attr(meta: MetadataView, flags: Flags, attr: XattrFact, facts: FileFacts) -> MetadataResult {
    match attr.kind {
        XattrKind::Capability => with_fcaps(meta, flags, facts.fcaps),
        XattrKind::Acl => with_acl(meta, flags, facts.acl_access, facts.acl_default),
        XattrKind::Invalid => Ok(meta),
        XattrKind::Plain => match attr.data {
            AttrData::Data(data) => Ok(
                MetadataView {
                    xattrs: meta.xattrs.push(XAttrView { name: attr.name@, value: data@ }),
                    ..meta
                },
            ),
            AttrData::NotRead => Ok(meta),
            AttrData::Failed(errno, message) => if is_read_error_passed_over(errno) {
                Ok(meta)
            } else {
                Err(MetadataErrorView::Xattr(attr.name@, message@))
            },
        },
    }
}

/// The metadata with what the extended attributes stand for, one after the other up to the first
/// that fails.
pub open spec fn with_attrs(
    meta: MetadataView,
    flags: Flags,
    attrs: Seq<XattrFact>,
    facts: FileFacts,
) -> MetadataResult
    decreases attrs.len(),
{
    if attrs.len() == 0 {
        Ok(meta)
    } else {
        match with_attrs(meta, flags, attrs.drop_last(), facts) {
            Ok(next) => with_attr(next, flags, attrs.last(), facts),
            Err(error) => Err(error),
        }
    }
}

/// The metadata with the extended attributes and what they stand for, unless the flags name them.
pub open spec fn with_xattrs(meta: MetadataView, flags: Flags, facts: FileFacts) -> MetadataResult {
    if flags.with_xattrs {
        Ok(meta)
    } else {
        match facts.xattrs {
            XattrList::Attrs(attrs) => with_attrs(meta, flags, attrs@, facts),
            XattrList::NotRead => Ok(meta),
            XattrList::Failed(errno, message) => if is_list_error_passed_over(errno) {
                Ok(meta)
            } else {
                Err(MetadataErrorView::Xattrs(message@))
            },
        }
    }
}

/// Once an attribute fails, those behind it do not matter.
pub proof fn lemma_attrs_error(
    meta: MetadataView,
    flags: Flags,
    attrs: Seq<XattrFact>,
    facts: FileFacts,
    n: int,
)
    requires
        0 <= n <= attrs.len(),
        with_attrs(meta, flags, attrs.take(n), facts) is Err,
    ensures
        with_attrs(meta, flags, attrs, facts) == with_attrs(meta, flags, attrs.take(n), facts),
    decreases attrs.len() - n,
{
    if n == attrs.len() {
        assert(attrs.take(n) =~= attrs);
    } else {
        assert(attrs.take(n + 1).drop_last() =~= attrs.take(n));
        lemma_attrs_error(meta, flags, attrs, facts, n + 1);
    }
}

/// Adds what one extended attribute stands for.
fn get_attr(meta: Metadata, flags: Flags, attr: &XattrFact, facts: &FileFacts) -> (r: Result<
    Metadata,
    MetadataError,
>)
    ensures
        metadata_result(r) == with_attr(meta@, flags, *attr, *facts),
{
    match attr.kind {
        XattrKind::Capability => get_fcaps(meta, flags, &facts.fcaps),
        XattrKind::Acl => get_acl(meta, flags, &facts.acl_access, &facts.acl_default),
        XattrKind::Invalid => Ok(meta),
        XattrKind::Plain => match &attr.data {
            AttrData::Data(data) => {
                let mut xattrs = meta.xattrs;
                let ghost list = xattrs@;
                let xattr = XAttr {
                    name: bytes_copy(attr.name.as_slice()),
                    value: bytes_copy(data.as_slice()),
                };
                xattrs.push(xattr);
                assert(xattrs@.map_values(|x: XAttr| x@) =~= list.map_values(|x: XAttr| x@).push(xattr@));
                let r = Metadata {
                    stat: meta.stat,
                    xattrs,
                    acl: meta.acl,
                    fcaps: meta.fcaps,
                    quota_project_id: meta.quota_project_id,
                };
                Ok(r)
            },
            AttrData::NotRead => Ok(meta),
            AttrData::Failed(errno, message) => if passes_read_error_over(*errno) {
                Ok(meta)
            } else {
                Err(MetadataError::Xattr(bytes_copy(attr.name.as_slice()), message.clone()))
            },
        },
    }
}

/// Adds the extended attributes and what they stand for.
pub fn get_xattr_fcaps_acl(meta: Metadata, flags: Flags, facts: &FileFacts) -> (r: Result<
    Metadata,
    MetadataError,
>)
    ensures
        metadata_result(r) == with_xattrs(meta@, flags, *facts),
{
    if flags.with_xattrs {
        return Ok(meta);
    }
    let ghost start = meta@;
    match &facts.xattrs {
        XattrList::Attrs(attrs) => {
            let mut current = meta;
            let mut i: usize = 0;
            #[verifier::loop_isolation(false)]
            while i < attrs.len()
                invariant
                    i <= attrs@.len(),
                    with_attrs(start, flags, attrs@.take(i as int), *facts) == MetadataResult::Ok(current@),
                decreases attrs@.len() - i,
            {
                proof {
                    assert(attrs@.take(i + 1).drop_last() =~= attrs@.take(i as int));
                    assert(attrs@.take(i + 1).last() == attrs@[i as int]);
                }
                match get_attr(current, flags, &attrs[i], facts) {
                    Ok(next) => {
                        current = next;
                    },
                    Err(error) => {
                        proof {
                            lemma_attrs_error(start, flags, attrs@, *facts, i + 1);
                        }
                        return Err(error);
                    },
                }
                i += 1;
            }
            assert(attrs@.take(i as int) =~= attrs@);
            Ok(current)
        },
        XattrList::NotRead => Ok(meta),
        XattrList::Failed(errno, message) => if passes_list_error_over(*errno) {
            Ok(meta)
        } else {
            Err(MetadataError::Xattrs(message.clone()))
        },
    }
}

// ---------------------------------------------------------------------------------------------
// File attributes and quota projects
// ---------------------------------------------------------------------------------------------

/// The metadata with more bits among the file attributes.
pub open spec fn with_bits(meta: MetadataView, bits: u64) -> MetadataView {
    MetadataView { stat: Stat { flags: meta.stat.flags | bits, ..meta.stat }, ..meta }
}

/// The metadata with the file attributes.
pub open spec fn with_chattr(meta: MetadataView, chattr: AttrBits) -> MetadataResult {
    match chattr {
        AttrBits::Bits(bits) => Ok(with_bits(meta, bits)),
        AttrBits::Unsupported => Ok(meta),
        AttrBits::Failed(message) => Err(MetadataErrorView::Chattr(message@)),
    }
}

/// Whether a file system has FAT attributes.
pub open spec fn has_fat_attr(fs_magic: i64) -> bool {
    fs_magic == MSDOS_SUPER_MAGIC || fs_magic == FUSE_SUPER_MAGIC
}

/// The metadata with the FAT attributes, where the file system has them.
pub open spec fn with_fat_attr(meta: MetadataView, fs_magic: i64, fat_attr: AttrBits) -> MetadataResult {
    if !has_fat_attr(fs_magic) {
        Ok(meta)
    } else {
        match fat_attr {
            AttrBits::Bits(bits) => Ok(with_bits(meta, bits)),
            AttrBits::Unsupported => Ok(meta),
            AttrBits::Failed(message) => Err(MetadataErrorView::FatAttr(message@)),
        }
    }
}

/// Whether a file system has quota projects.
pub open spec fn has_quota_projects(fs_magic: i64) -> bool {
    fs_magic == EXT4_SUPER_MAGIC || fs_magic == XFS_SUPER_MAGIC || fs_magic == FUSE_SUPER_MAGIC
        || fs_magic == ZFS_SUPER_MAGIC
}

/// Whether the quota project id of a file is read: directories and regular files have one, where
/// the file system does, unless the flags name it.
pub open spec fn reads_quota(mode: u64, flags: Flags, fs_magic: i64) -> bool {
    (type_bits(mode) == IFDIR || type_bits(mode) == IFREG) && !flags.with_quota_projid
        && has_quota_projects(fs_magic)
}

/// The metadata with the quota project id.
pub open spec fn with_quota(meta: MetadataView, flags: Flags, fs_magic: i64, quota: QuotaData) -> MetadataResult {
    if !reads_quota(meta.stat.mode, flags, fs_magic) {
        Ok(meta)
    } else {
        match quota {
            QuotaData::Id(id) => if id != 0 {
                Ok(MetadataView { quota_project_id: Some(id), ..meta })
            } else {
                Ok(meta)
            },
            QuotaData::Unsupported => Ok(meta),
            QuotaData::NoErrno => Err(MetadataErrorView::Quota(None)),
            QuotaData::Failed(message) => Err(MetadataErrorView::Quota(Some(message@))),
        }
    }
}

/// Adds bits to the file attributes.
fn add_bits(meta: Metadata, bits: u64) -> (r: Metadata)
    ensures
        r@ == with_bits(meta@, bits),
{
    let stat = Stat {
        mode: meta.stat.mode,
        flags: meta.stat.flags | bits,
        uid: meta.stat.uid,
        gid: meta.stat.gid,
        mtime_secs: meta.stat.mtime_secs,
        mtime_nanos: meta.stat.mtime_nanos,
    };
    Metadata {
        stat,
        xattrs: meta.xattrs,
        acl: meta.acl,
        fcaps: meta.fcaps,
        quota_project_id: meta.quota_project_id,
    }
}

/// Adds the file attributes.
pub fn get_chattr(meta: Metadata, chattr: &AttrBits) -> (r: Result<Metadata, MetadataError>)
    ensures
        metadata_result(r) == with_chattr(meta@, *chattr),
{
    match chattr {
        AttrBits::Bits(bits) => Ok(add_bits(meta, *bits)),
        AttrBits::Unsupported => Ok(meta),
        AttrBits::Failed(message) => Err(MetadataError::Chattr(message.clone())),
    }
}

/// Decides whether a file system has FAT attributes.
pub fn needs_fat_attr(fs_magic: i64) -> (r: bool)
    ensures
        r == has_fat_attr(fs_magic),
{
    fs_magic == MSDOS_SUPER_MAGIC || fs_magic == FUSE_SUPER_MAGIC
}

/// Adds the FAT attributes.
pub fn get_fat_attr(meta: Metadata, fs_magic: i64, fat_attr: &AttrBits) -> (r: Result<
    Metadata,
    MetadataError,
>)
    ensures
        metadata_result(r) == with_fat_attr(meta@, fs_magic, *fat_attr),
{
    if !needs_fat_attr(fs_magic) {
        return Ok(meta);
    }
    match fat_attr {
        AttrBits::Bits(bits) => Ok(add_bits(meta, *bits)),
        AttrBits::Unsupported => Ok(meta),
        AttrBits::Failed(message) => Err(MetadataError::FatAttr(message.clone())),
    }
}

/// Decides whether the quota project id of a file is read.
pub fn needs_quota(mode: u64, flags: Flags, fs_magic: i64) -> (r: bool)
    ensures
        r == reads_quota(mode, flags, fs_magic),
{
    let file_type: u64 = mode & (IFMT as u64);
    if !(file_type == IFDIR as u64 || file_type == IFREG as u64) {
        return false;
    }
    if flags.with_quota_projid {
        return false;
    }
    fs_magic == EXT4_SUPER_MAGIC || fs_magic == XFS_SUPER_MAGIC || fs_magic == FUSE_SUPER_MAGIC
        || fs_magic == ZFS_SUPER_MAGIC
}

/// Adds the quota project id.
pub fn get_quota_project_id(meta: Metadata, flags: Flags, fs_magic: i64, quota: &QuotaData) -> (r: Result<
    Metadata,
    MetadataError,
>)
    ensures
        metadata_result(r) == with_quota(meta@, flags, fs_magic, *quota),
{
    if !needs_quota(meta.stat.mode, flags, fs_magic) {
        return Ok(meta);
    }
    match quota {
        QuotaData::Id(id) => {
            if *id != 0 {
                let mut meta = meta;
                meta.quota_project_id = Some(*id);
                Ok(meta)
            } else {
                Ok(meta)
            }
        },
        QuotaData::Unsupported => Ok(meta),
        QuotaData::NoErrno => Err(MetadataError::Quota(None)),
        QuotaData::Failed(message) => Err(MetadataError::Quota(Some(message.clone()))),
    }
}

// ---------------------------------------------------------------------------------------------
// All of it
// ---------------------------------------------------------------------------------------------

/// The metadata that `stat(2)` alone gives.
pub open spec fn stat_metadata(stat: FileStat) -> MetadataView {
    MetadataView {
        stat: Stat {
            mode: stat.st_mode as u64,
            flags: 0,
            uid: stat.st_uid,
            gid: stat.st_gid,
            mtime_secs: stat.st_mtime,
            mtime_nanos: stat.st_mtime_nsec as u32,
        },
        xattrs: Seq::empty(),
        acl: AclView::empty(),
        fcaps: None,
        quota_project_id: None,
    }
}

/// What to do next with metadata, if there is any yet.
pub open spec fn and_next(r: MetadataResult, next: spec_fn(MetadataView) -> MetadataResult) -> MetadataResult {
    match r {
        Ok(meta) => next(meta),
        Err(error) => Err(error),
    }
}

/// The metadata of a file.
pub open spec fn metadata_of(stat: FileStat, flags: Flags, fs_magic: i64, facts: FileFacts) -> MetadataResult {
    let r = with_xattrs(stat_metadata(stat), flags, facts);
    let r = and_next(r, |meta: MetadataView| with_chattr(meta, facts.chattr));
    let r = and_next(r, |meta: MetadataView| with_fat_attr(meta, fs_magic, facts.fat_attr));
    and_next(r, |meta: MetadataView| with_quota(meta, flags, fs_magic, facts.quota))
}

/// Puts the metadata of a file together.
pub fn get_metadata(stat: &FileStat, flags: Flags, fs_magic: i64, facts: &FileFacts) -> (r: Result<
    Metadata,
    MetadataError,
>)
    ensures
        metadata_result(r) == metadata_of(*stat, flags, fs_magic, *facts),
{
    let meta = Metadata {
        stat: Stat {
            mode: stat.st_mode as u64,
            flags: 0,
            uid: stat.st_uid,
            gid: stat.st_gid,
            mtime_secs: stat.st_mtime,
            mtime_nanos: #[verifier::truncate]
            (stat.st_mtime_nsec as u32),
        },
        xattrs: Vec::new(),
        acl: Acl::empty(),
        fcaps: None,
        quota_project_id: None,
    };
    assert(meta@ =~= stat_metadata(*stat));
    let meta = match get_xattr_fcaps_acl(meta, flags, facts) {
        Ok(meta) => meta,
        Err(error) => return Err(error),
    };
    let meta = match get_chattr(meta, &facts.chattr) {
        Ok(meta) => meta,
        Err(error) => return Err(error),
    };
    let meta = match get_fat_attr(meta, fs_magic, &facts.fat_attr) {
        Ok(meta) => meta,
        Err(error) => return Err(error),
    };
    get_quota_project_id(meta, flags, fs_magic, &facts.quota)
}

// ---------------------------------------------------------------------------------------------
// Which facts are needed
// ---------------------------------------------------------------------------------------------

/// Whether the extended attributes are listed.
pub open spec fn reads_xattrs(flags: Flags) -> bool {
    !flags.with_xattrs
}

/// Whether the value of an attribute is read.
pub open spec fn reads_value(kind: XattrKind) -> bool {
    kind == XattrKind::Plain
}

/// Whether an attribute asks for the file capabilities.
pub open spec fn reads_fcaps(flags: Flags, kind: XattrKind) -> bool {
    kind == XattrKind::Capability && !flags.with_fcaps
}

/// Whether an attribute asks for the access list.
pub open spec fn reads_acl(mode: u64, flags: Flags, kind: XattrKind) -> bool {
    kind == XattrKind::Acl && !flags.with_acl && type_bits(mode) != IFLNK
}

/// Whether an attribute asks for the default list.
pub open spec fn reads_default_acl(mode: u64, flags: Flags, kind: XattrKind) -> bool {
    reads_acl(mode, flags, kind) && type_bits(mode) == IFDIR
}

/// Decides whether the extended attributes are listed.
pub fn needs_xattrs(flags: Flags) -> (r: bool)
    ensures
        r == reads_xattrs(flags),
{
    !flags.with_xattrs
}

/// Decides whether the value of an attribute is read.
pub fn needs_value(kind: XattrKind) -> (r: bool)
    ensures
        r == reads_value(kind),
{
    kind == XattrKind::Plain
}

/// Decides whether an attribute asks for the file capabilities.
pub fn needs_fcaps(flags: Flags, kind: XattrKind) -> (r: bool)
    ensures
        r == reads_fcaps(flags, kind),
{
    kind == XattrKind::Capability && !flags.with_fcaps
}

/// Decides whether an attribute asks for the access list.
pub fn needs_acl(mode: u64, flags: Flags, kind: XattrKind) -> (r: bool)
    ensures
        r == reads_acl(mode, flags, kind),
{
    kind == XattrKind::Acl && !flags.with_acl && mode & (IFMT as u64) != IFLNK as u64
}

/// Decides whether an attribute asks for the default list.
pub fn needs_default_acl(mode: u64, flags: Flags, kind: XattrKind) -> (r: bool)
    ensures
        r == reads_default_acl(mode, flags, kind),
{
    needs_acl(mode, flags, kind) && mode & (IFMT as u64) == IFDIR as u64
}

/// Whether two attributes are the same as far as it matters.
pub open spec fn same_attr(a: XattrFact, b: XattrFact) -> bool {
    a.name@ == b.name@ && a.kind == b.kind && (reads_value(a.kind) ==> a.data == b.data)
}

/// Whether the facts agree on what the attributes ask for.
pub open spec fn agree_on_attrs(
    mode: u64,
    flags: Flags,
    a: Seq<XattrFact>,
    b: Seq<XattrFact>,
    f: FileFacts,
    g: FileFacts,
) -> bool {
    &&& a.len() == b.len()
    &&& forall|i: int| 0 <= i < a.len() ==> same_attr(#[trigger] a[i], b[i])
    &&& forall|i: int|
        0 <= i < a.len() ==> {
            &&& reads_fcaps(flags, (#[trigger] a[i]).kind) ==> f.fcaps == g.fcaps
            &&& reads_acl(mode, flags, a[i].kind) ==> f.acl_access == g.acl_access
            &&& reads_default_acl(mode, flags, a[i].kind) ==> f.acl_default == g.acl_default
        }
}

/// Whether the facts agree on all that is needed of a file.
pub open spec fn agree_on_needed(
    stat: FileStat,
    flags: Flags,
    fs_magic: i64,
    f: FileFacts,
    g: FileFacts,
) -> bool {
    &&& reads_xattrs(flags) ==> match (f.xattrs, g.xattrs) {
        (XattrList::Attrs(a), XattrList::Attrs(b)) => agree_on_attrs(
            stat.st_mode as u64,
            flags,
            a@,
            b@,
            f,
            g,
        ),
        (a, b) => a == b,
    }
    &&& f.chattr == g.chattr
    &&& has_fat_attr(fs_magic) ==> f.fat_attr == g.fat_attr
    &&& reads_quota(stat.st_mode as u64, flags, fs_magic) ==> f.quota == g.quota
}

/// Extended attributes leave the basic part and the quota project id as they are.
proof fn lemma_attrs_keep_stat(meta: MetadataView, flags: Flags, attrs: Seq<XattrFact>, facts: FileFacts)
    ensures
        match with_attrs(meta, flags, attrs, facts) {
            Ok(r) => r.stat == meta.stat && r.quota_project_id == meta.quota_project_id,
            Err(_) => true,
        },
    decreases attrs.len(),
{
    if attrs.len() > 0 {
        lemma_attrs_keep_stat(meta, flags, attrs.drop_last(), facts);
    }
}

/// Extended attributes that agree have the same effect.
proof fn lemma_attrs_agree(
    meta: MetadataView,
    flags: Flags,
    a: Seq<XattrFact>,
    b: Seq<XattrFact>,
    f: FileFacts,
    g: FileFacts,
)
    requires
        agree_on_attrs(meta.stat.mode, flags, a, b, f, g),
    ensures
        with_attrs(meta, flags, a, f) == with_attrs(meta, flags, b, g),
    decreases a.len(),
{
    if a.len() > 0 {
        let a1 = a.drop_last();
        let b1 = b.drop_last();
        assert forall|i: int| 0 <= i < a1.len() implies same_attr(#[trigger] a1[i], b1[i]) by {
            assert(same_attr(a[i], b[i]));
        }
        assert forall|i: int| 0 <= i < a1.len() implies {
            &&& reads_fcaps(flags, (#[trigger] a1[i]).kind) ==> f.fcaps == g.fcaps
            &&& reads_acl(meta.stat.mode, flags, a1[i].kind) ==> f.acl_access == g.acl_access
            &&& reads_default_acl(meta.stat.mode, flags, a1[i].kind) ==> f.acl_default
                == g.acl_default
        } by {
            assert(reads_fcaps(flags, a[i].kind) ==> f.fcaps == g.fcaps);
        }
        lemma_attrs_agree(meta, flags, a1, b1, f, g);
        lemma_attrs_keep_stat(meta, flags, a1, f);
        assert(same_attr(a[a.len() - 1], b[a.len() - 1]));
        assert(reads_fcaps(flags, a[a.len() - 1].kind) ==> f.fcaps == g.fcaps);
    }
}

/// What is not needed of a file has no effect on its metadata, and need not be read.
pub proof fn law_only_needed_facts_matter(
    stat: FileStat,
    flags: Flags,
    fs_magic: i64,
    f: FileFacts,
    g: FileFacts,
)
    requires
        agree_on_needed(stat, flags, fs_magic, f, g),
    ensures
        metadata_of(stat, flags, fs_magic, f) == metadata_of(stat, flags, fs_magic, g),
{
    let meta = stat_metadata(stat);
    if reads_xattrs(flags) {
        if let XattrList::Attrs(a) = f.xattrs {
            if let XattrList::Attrs(b) = g.xattrs {
                lemma_attrs_agree(meta, flags, a@, b@, f, g);
                lemma_attrs_keep_stat(meta, flags, a@, f);
            }
        }
    }
}

/// The mode, the owner, the group and the time of a file are kept as `stat(2)` reports them.
pub proof fn law_basic_part_is_kept(stat: FileStat, flags: Flags, fs_magic: i64, facts: FileFacts)
    ensures
        match metadata_of(stat, flags, fs_magic, facts) {
            Ok(meta) => {
                &&& meta.stat.mode == stat.st_mode
                &&& meta.stat.uid == stat.st_uid
                &&& meta.stat.gid == stat.st_gid
                &&& meta.stat.mtime_secs == stat.st_mtime
                &&& meta.stat.mtime_nanos == stat.st_mtime_nsec as u32
            },
            Err(_) => true,
        },
{
    if let XattrList::Attrs(attrs) = facts.xattrs {
        lemma_attrs_keep_stat(stat_metadata(stat), flags, attrs@, facts);
    }
}

/// The permissions of the owning group that the mask of the access list hides are kept, for a
/// directory with a default list as for any other file; and so are the users and groups of both
/// lists, and the default permissions.
pub proof fn law_both_lists_are_kept(
    meta: MetadataView,
    flags: Flags,
    access: Vec<AclItem>,
    default: Vec<AclItem>,
)
    requires
        !flags.with_acl,
        meta.is_dir(),
        first_error(access@) is None,
        first_error(default@) is None,
    ensures
        with_acl(meta, flags, AclData::Items(access), AclData::Items(default)) == MetadataResult::Ok(
            MetadataView {
                acl: AclView {
                    users: sorted_ids(ids_of(access@, AclTag::User)),
                    groups: sorted_ids(ids_of(access@, AclTag::Group)),
                    group_obj: hidden_group(access@),
                    default: default_of(default@),
                    default_users: sorted_ids(ids_of(default@, AclTag::User)),
                    default_groups: sorted_ids(ids_of(default@, AclTag::Group)),
                },
                ..meta
            },
        ),
{
}

} // verus!
