//! The files with more than one name that are in the archive already.

use std::collections::HashMap;

use vstd::prelude::*;

verus! {

/// The mathematical value of a known file: the path under which it was archived, and the place
/// in the archive.
pub struct LinkView {
    /// The path.
    pub path: Seq<u8>,
    /// The place in the archive.
    pub offset: u64,
}

/// The files with more than one name that are in the archive already, by device and inode.
#[derive(Debug)]
pub struct HardLinks {
    links: HashMap<u128, (Vec<u8>, u64)>,
}

/// One number for a device and an inode.
spec fn link_key(st_dev: u64, st_ino: u64) -> int {
    st_dev * 0x1_0000_0000_0000_0000 + st_ino
}

/// One number for a device and an inode.
fn key(st_dev: u64, st_ino: u64) -> (r: u128)
    ensures
        r == link_key(st_dev, st_ino),
{
    st_dev as u128 * 0x1_0000_0000_0000_0000u128 + st_ino as u128
}

impl View for HardLinks {
    type V = Map<(u64, u64), LinkView>;

    closed spec fn view(&self) -> Map<(u64, u64), LinkView> {
        Map::new(
            |id: (u64, u64)| self.links@.contains_key(link_key(id.0, id.1) as u128),
            |id: (u64, u64)| LinkView {
                path: self.links@[link_key(id.0, id.1) as u128].0@,
                offset: self.links@[link_key(id.0, id.1) as u128].1,
            },
        )
    }
}

impl HardLinks {
    /// No file is known.
    pub fn new() -> (r: HardLinks)
        ensures
            r@ == Map::<(u64, u64), LinkView>::empty(),
    {
        broadcast use vstd::std_specs::hash::group_hash_axioms;

        let r = HardLinks { links: HashMap::new() };
        assert(r@ =~= Map::<(u64, u64), LinkView>::empty());
        r
    }

    /// Finds a file.
    pub fn get(&self, st_dev: u64, st_ino: u64) -> (r: Option<(Vec<u8>, u64)>)
        ensures
            match r {
                Some((path, offset)) => {
                    &&& self@.contains_key((st_dev, st_ino))
                    &&& self@[(st_dev, st_ino)] == (LinkView { path: path@, offset })
                },
                None => !self@.contains_key((st_dev, st_ino)),
            },
    {
        broadcast use vstd::std_specs::hash::group_hash_axioms;

        match self.links.get(&key(st_dev, st_ino)) {
            Some(link) => Some((crate::bytes::bytes_copy(link.0.as_slice()), link.1)),
            None => None,
        }
    }

    /// Remembers a file.
    pub fn insert(&mut self, st_dev: u64, st_ino: u64, path: Vec<u8>, offset: u64)
        ensures
            final(self)@ == old(self)@.insert((st_dev, st_ino), LinkView { path: path@, offset }),
    {
        broadcast use vstd::std_specs::hash::group_hash_axioms;

        self.links.insert(key(st_dev, st_ino), (path, offset));
        assert(self@ =~= old(self)@.insert((st_dev, st_ino), LinkView { path: path@, offset }));
    }
}

} // verus!
