//! The features of a file that an archive may keep.

use vstd::prelude::*;

verus! {

/// A set of features, as far as the reading of metadata depends on them.
#[derive(Clone, Copy, Debug, PartialEq, Eq, Structural)]
pub struct Flags {
    /// Extended attributes.
    pub with_xattrs: bool,
    /// Access control lists.
    pub with_acl: bool,
    /// File capabilities.
    pub with_fcaps: bool,
    /// The quota project id.
    pub with_quota_projid: bool,
}

impl Flags {
    /// The features that are in both sets.
    pub open spec fn spec_and(self, other: Flags) -> Flags {
        Flags {
            with_xattrs: self.with_xattrs && other.with_xattrs,
            with_acl: self.with_acl && other.with_acl,
            with_fcaps: self.with_fcaps && other.with_fcaps,
            with_quota_projid: self.with_quota_projid && other.with_quota_projid,
        }
    }

    /// The features that are in both sets.
    pub fn and(self, other: Flags) -> (r: Flags)
        ensures
            r == self.spec_and(other),
    {
        Flags {
            with_xattrs: self.with_xattrs && other.with_xattrs,
            with_acl: self.with_acl && other.with_acl,
            with_fcaps: self.with_fcaps && other.with_fcaps,
            with_quota_projid: self.with_quota_projid && other.with_quota_projid,
        }
    }
}

} // verus!
