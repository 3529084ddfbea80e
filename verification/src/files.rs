//! The entries of a directory that go into an archive.

use vstd::prelude::*;

use crate::bytes::{
    bytes_le, is_bytes_le, lemma_bytes_le_antisymmetric, lemma_bytes_le_total,
    lemma_bytes_le_transitive, SLASH,
};
use crate::mode::FileStat;
use crate::sort::{in_order, sort_descending, Ordered};

verus! {

/// One entry of a directory.
#[derive(Debug, PartialEq, Eq)]
pub struct FileListEntry {
    /// The name in the directory.
    pub name: Vec<u8>,
    /// The path from the source directory on.
    pub path: Vec<u8>,
    /// What is known of the file.
    pub stat: FileStat,
}

/// The mathematical value of a [`FileListEntry`].
pub struct FileView {
    /// The name in the directory.
    pub name: Seq<u8>,
    /// The path from the source directory on.
    pub path: Seq<u8>,
    /// What is known of the file.
    pub stat: FileStat,
}

impl View for FileListEntry {
    type V = FileView;

    open spec fn view(&self) -> FileView {
        FileView { name: self.name@, path: self.path@, stat: self.stat }
    }
}

impl Ordered for FileListEntry {
    open spec fn before(&self, other: &Self) -> bool {
        bytes_le(self.name@, other.name@)
    }

    proof fn before_total(a: &Self, b: &Self) {
        lemma_bytes_le_total(a.name@, b.name@);
    }

    proof fn before_transitive(a: &Self, b: &Self, c: &Self) {
        lemma_bytes_le_transitive(a.name@, b.name@, c.name@);
    }

    fn is_before(&self, other: &Self) -> (r: bool) {
        is_bytes_le(self.name.as_slice(), other.name.as_slice())
    }
}

/// The values of a list of entries.
pub open spec fn file_views(list: Seq<FileListEntry>) -> Seq<FileView> {
    list.map_values(|entry: FileListEntry| entry@)
}

/// Whether a list is ordered by the names of its entries.
pub open spec fn is_sorted_by_name(list: Seq<FileView>) -> bool {
    forall|i: int, j: int|
        0 <= i < j < list.len() ==> bytes_le(#[trigger] list[i].name, #[trigger] list[j].name)
}

/// Whether a list holds the given entries, each as often as it is given, ordered by name.
pub open spec fn is_sorted_list_of(list: Seq<FileView>, entries: Seq<FileView>) -> bool {
    is_sorted_by_name(list) && list.to_multiset() == entries.to_multiset()
}

/// Whether no name occurs twice.
pub open spec fn has_distinct_names(list: Seq<FileView>) -> bool {
    forall|i: int, j: int|
        0 <= i < j < list.len() ==> (#[trigger] list[i]).name != (#[trigger] list[j]).name
}

/// There is only one order by name if no name occurs twice, as in every directory.
pub proof fn law_order_is_unique(a: Seq<FileView>, b: Seq<FileView>)
    requires
        is_sorted_by_name(a),
        is_sorted_by_name(b),
        has_distinct_names(a),
        a.to_multiset() == b.to_multiset(),
    ensures
        a == b,
    decreases a.len(),
{
    broadcast use vstd::seq_lib::group_to_multiset_ensures;

    vstd::seq_lib::to_multiset_len(a);
    vstd::seq_lib::to_multiset_len(b);
    if a.len() == 0 {
        assert(a =~= b);
    } else {
        assert(a.to_multiset().contains(a[0]));
        assert(b.contains(a[0]));
        let k = choose|k: int| 0 <= k < b.len() && b[k] == a[0];
        assert(b.to_multiset().contains(b[0]));
        assert(a.contains(b[0]));
        let m = choose|m: int| 0 <= m < a.len() && a[m] == b[0];
        if k > 0 && m > 0 {
            lemma_bytes_le_antisymmetric(a[0].name, b[0].name);
            assert(a[0].name != a[m].name);
        }
        assert(a[0] == b[0]);
        let rest_a = a.remove(0);
        let rest_b = b.remove(0);
        assert(rest_a.to_multiset() =~= rest_b.to_multiset());
        assert forall|i: int, j: int| 0 <= i < j < rest_a.len() implies bytes_le(
            #[trigger] rest_a[i].name,
            #[trigger] rest_a[j].name,
        ) && rest_a[i].name != rest_a[j].name by {
            assert(a[i + 1].name != a[j + 1].name);
        }
        assert forall|i: int, j: int| 0 <= i < j < rest_b.len() implies bytes_le(
            #[trigger] rest_b[i].name,
            #[trigger] rest_b[j].name,
        ) by {
            assert(bytes_le(b[i + 1].name, b[j + 1].name));
        }
        law_order_is_unique(rest_a, rest_b);
        assert(a =~= seq![a[0]] + rest_a);
        assert(b =~= seq![b[0]] + rest_b);
    }
}

/// An entry can be put into a list that is ordered by name.
proof fn lemma_insert_in_order(list: Seq<FileView>, entry: FileView) -> (r: Seq<FileView>)
    requires
        is_sorted_by_name(list),
    ensures
        is_sorted_by_name(r),
        r.to_multiset() == list.to_multiset().insert(entry),
    decreases list.len(),
{
    broadcast use vstd::seq_lib::group_to_multiset_ensures;

    if list.len() == 0 || bytes_le(list.last().name, entry.name) {
        let r = list.push(entry);
        assert forall|i: int, j: int| 0 <= i < j < r.len() implies bytes_le(
            #[trigger] r[i].name,
            #[trigger] r[j].name,
        ) by {
            if j == list.len() && i < list.len() - 1 {
                lemma_bytes_le_transitive(list[i].name, list.last().name, entry.name);
            }
        }
        r
    } else {
        lemma_bytes_le_total(list.last().name, entry.name);
        let last = list.last();
        let before = list.drop_last();
        assert(before =~= list.remove(list.len() - 1));
        let inner = lemma_insert_in_order(before, entry);
        let r = inner.push(last);
        assert forall|i: int, j: int| 0 <= i < j < r.len() implies bytes_le(
            #[trigger] r[i].name,
            #[trigger] r[j].name,
        ) by {
            if j == inner.len() {
                assert(inner.to_multiset().contains(inner[i]));
                assert(before.to_multiset().contains(inner[i]) || inner[i] == entry);
                if inner[i] != entry {
                    assert(before.contains(inner[i]));
                    let k = choose|k: int| 0 <= k < before.len() && before[k] == inner[i];
                    assert(bytes_le(list[k].name, list[list.len() - 1].name));
                }
            }
        }
        assert(r.to_multiset() =~= list.to_multiset().insert(entry));
        r
    }
}

/// Entries can be ordered by name.
pub proof fn lemma_order_exists(entries: Seq<FileView>) -> (r: Seq<FileView>)
    ensures
        is_sorted_list_of(r, entries),
    decreases entries.len(),
{
    broadcast use vstd::seq_lib::group_to_multiset_ensures;

    if entries.len() == 0 {
        entries
    } else {
        let before = entries.drop_last();
        let order = lemma_order_exists(before);
        assert(before =~= entries.remove(entries.len() - 1));
        let r = lemma_insert_in_order(order, entries.last());
        assert(r.to_multiset() =~= entries.to_multiset());
        r
    }
}

/// What a function makes of two lists with the same values has the same values.
pub proof fn lemma_map_multiset<A, B>(s: Seq<A>, t: Seq<A>, f: spec_fn(A) -> B)
    requires
        s.to_multiset() == t.to_multiset(),
    ensures
        s.map_values(f).to_multiset() == t.map_values(f).to_multiset(),
    decreases s.len(),
{
    broadcast use vstd::seq_lib::group_to_multiset_ensures;

    vstd::seq_lib::to_multiset_len(s);
    vstd::seq_lib::to_multiset_len(t);
    if s.len() == 0 {
        assert(s =~= t);
    } else {
        let x = s.last();
        assert(s.to_multiset().contains(x));
        assert(t.contains(x));
        let j = choose|j: int| 0 <= j < t.len() && t[j] == x;
        let rest = t.remove(j);
        assert(s.drop_last().to_multiset() =~= rest.to_multiset()) by {
            assert(s.drop_last() =~= s.remove(s.len() - 1));
        }
        lemma_map_multiset(s.drop_last(), rest, f);
        assert(s.map_values(f) =~= s.drop_last().map_values(f).push(f(x)));
        assert(t.map_values(f).remove(j) =~= rest.map_values(f));
        assert(t.map_values(f)[j] == f(x));
        assert(t.map_values(f).to_multiset() =~= rest.map_values(f).to_multiset().insert(f(x)));
    }
}

/// A list of entries, ordered by name, that is taken from its start.
#[derive(Debug)]
pub struct FileList {
    rest: Vec<FileListEntry>,
}

impl View for FileList {
    type V = Seq<FileView>;

    closed spec fn view(&self) -> Seq<FileView> {
        file_views(self.rest@).reverse()
    }
}

impl FileList {
    /// The list without entries.
    pub fn empty() -> (r: FileList)
        ensures
            r@ == Seq::<FileView>::empty(),
    {
        let r = FileList { rest: Vec::new() };
        assert(r@ =~= Seq::<FileView>::empty());
        r
    }

    /// Orders entries by name.
    pub fn sorted(entries: Vec<FileListEntry>) -> (r: FileList)
        ensures
            is_sorted_list_of(r@, file_views(entries@)),
    {
        let ghost given = entries@;
        let rest = sort_descending(entries);
        let r = FileList { rest };
        proof {
            let f = |entry: FileListEntry| entry@;
            lemma_map_multiset(r.rest@, given, f);
            file_views(r.rest@).lemma_reverse_to_multiset();
            assert forall|i: int, j: int| 0 <= i < j < r@.len() implies bytes_le(
                #[trigger] r@[i].name,
                #[trigger] r@[j].name,
            ) by {
                let n = r.rest@.len();
                assert(in_order(r.rest@[n - 1 - j], r.rest@[n - 1 - i], false));
            }
        }
        r
    }

    /// Takes the first entry.
    pub fn pop_first(&mut self) -> (r: Option<FileListEntry>)
        ensures
            match r {
                Some(entry) => {
                    &&& old(self)@.len() > 0
                    &&& entry@ == old(self)@[0]
                    &&& final(self)@ == old(self)@.drop_first()
                },
                None => old(self)@.len() == 0 && final(self)@ == old(self)@,
            },
    {
        let r = self.rest.pop();
        proof {
            if r is Some {
                assert(self@ =~= old(self)@.drop_first());
            }
        }
        r
    }
}

/// The path of the entry `name` of the directory at `path`. The source directory has the empty
/// path.
pub open spec fn joined(path: Seq<u8>, name: Seq<u8>) -> Seq<u8> {
    if path.len() == 0 || path.last() == SLASH {
        path + name
    } else {
        path.push(SLASH) + name
    }
}

/// Puts a name to the path of a directory.
pub fn join(path: &[u8], name: &[u8]) -> (r: Vec<u8>)
    ensures
        r@ == joined(path@, name@),
{
    let mut full = crate::bytes::bytes_copy(path);
    if path.len() > 0 && path[path.len() - 1] != SLASH {
        full.push(SLASH);
    }
    crate::bytes::append_bytes(&mut full, name);
    full
}

} // verus!
