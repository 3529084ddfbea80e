//! What the archive of a tree promises, file by file: what of the tree is in it, and what is written
//! for each file.

use vstd::prelude::*;
use vstd::string::*;

use crate::bytes::{bytes_le, law_byte_order};
use crate::exclude_laws::law_pattern_stands_for_itself;
use crate::excludes::{byte_strings, exclude_entries, exclude_errors, excludes_cli};
use crate::files::{joined, FileView};
use crate::flags::Flags;
use crate::fs_magic::virtual_magics;
use crate::hardlinks::LinkView;
use crate::metadata::{
    law_basic_part_is_kept, metadata_of, type_bits, FileFacts, MetadataResult, MetadataView,
};
use crate::metadata_laws::lemma_mode;
use crate::mode::{FileStat, IFBLK, IFDIR, IFIFO, IFLNK, IFREG, IFSOCK};
use crate::patterns::{glob_text, is_excluded, parsed_entry, EntryView, MatchType, PatternView};
use crate::plan::{
    cli_entry, cli_metadata, cli_name, excludes_name, is_skipped_name, lost_and_found, ActionView, EncodeView,
};
use crate::steps::{CatalogOp, EncodeOp, Warning};
use crate::tree::{
    archived_contents, archived_entries, archived_entry, archived_tree, counted, in_name_order, is_archivable,
    is_archivable_entry, is_entered, kept_metadata,
    learnt_inside, lemma_order_holds, listed_upto, listing, source_surroundings, surroundings_below,
    surroundings_inside, writes, Archived, Info, Learnt, Surroundings, Tree,
};

verus! {

// ---------------------------------------------------------------------------------------------
// Names
// ---------------------------------------------------------------------------------------------

/// The names that are passed over, byte by byte.
pub proof fn lemma_names()
    ensures
        ".".spec_bytes() == seq![0x2eu8],
        "..".spec_bytes() == seq![0x2eu8, 0x2e],
        excludes_name() == seq![
            0x2eu8, 0x70, 0x78, 0x61, 0x72, 0x65, 0x78, 0x63, 0x6c, 0x75, 0x64, 0x65,
        ],
        cli_name() == seq![
            0x2eu8, 0x70, 0x78, 0x61, 0x72, 0x65, 0x78, 0x63, 0x6c, 0x75, 0x64, 0x65, 0x2d, 0x63, 0x6c, 0x69,
        ],
{
    broadcast use is_ascii_spec_bytes;

    reveal_strlit(".");
    reveal_strlit("..");
    reveal_strlit(".pxarexclude");
    reveal_strlit(".pxarexclude-cli");
    assert(".".is_ascii());
    assert("..".is_ascii());
    assert(".pxarexclude".is_ascii());
    assert(".pxarexclude-cli".is_ascii());
    assert(".".spec_bytes() =~= seq![0x2eu8]);
    assert("..".spec_bytes() =~= seq![0x2eu8, 0x2e]);
    assert(excludes_name() =~= seq![
        0x2eu8, 0x70, 0x78, 0x61, 0x72, 0x65, 0x78, 0x63, 0x6c, 0x75, 0x64, 0x65,
    ]);
    assert(cli_name() =~= seq![
        0x2eu8, 0x70, 0x78, 0x61, 0x72, 0x65, 0x78, 0x63, 0x6c, 0x75, 0x64, 0x65, 0x2d, 0x63, 0x6c, 0x69,
    ]);
}

/// The names `.`, `..` and `.pxarexclude`, and in the source directory `.pxarexclude-cli`, are passed
/// over, and no other name is.
pub proof fn law_four_names_are_passed_over(name: Seq<u8>, is_root: bool)
    ensures
        is_skipped_name(name, is_root) <==> {
            ||| name == seq![0x2eu8]
            ||| name == seq![0x2eu8, 0x2e]
            ||| name == seq![0x2eu8, 0x70, 0x78, 0x61, 0x72, 0x65, 0x78, 0x63, 0x6c, 0x75, 0x64, 0x65]
            ||| is_root && name == seq![
                0x2eu8, 0x70, 0x78, 0x61, 0x72, 0x65, 0x78, 0x63, 0x6c, 0x75, 0x64, 0x65, 0x2d, 0x63, 0x6c, 0x69,
            ]
        },
{
    lemma_names();
}

/// Whether a name is that of an entry of a directory, and not one of the four that stand for
/// something else.
pub open spec fn is_entry_name(name: Seq<u8>, is_root: bool) -> bool {
    &&& name != seq![0x2eu8]
    &&& name != seq![0x2eu8, 0x2e]
    &&& name != seq![0x2eu8, 0x70, 0x78, 0x61, 0x72, 0x65, 0x78, 0x63, 0x6c, 0x75, 0x64, 0x65]
    &&& is_root ==> name != seq![
        0x2eu8, 0x70, 0x78, 0x61, 0x72, 0x65, 0x78, 0x63, 0x6c, 0x75, 0x64, 0x65, 0x2d, 0x63, 0x6c, 0x69,
    ]
}

/// The path of an entry: its name, after the path of the directory and a slash. The source directory
/// has the empty path.
pub proof fn law_path_of_an_entry(path: Seq<u8>, name: Seq<u8>)
    ensures
        path.len() == 0 ==> joined(path, name) == name,
        path.len() > 0 && path[path.len() - 1] != 0x2f ==> joined(path, name) == path + seq![0x2fu8] + name,
        path.len() > 0 && path[path.len() - 1] == 0x2f ==> joined(path, name) == path + name,
{
    if path.len() == 0 {
        assert(joined(path, name) =~= name);
    } else {
        assert(path.push(0x2f) + name =~= path + seq![0x2fu8] + name);
    }
}

/// A name that is not passed over and that no pattern excludes is listed.
proof fn lemma_listed(tree: Tree, around: Surroundings, path: Seq<u8>, n: nat, k: int)
    requires
        0 <= k < n <= (tree.at)(path).names.len(),
        !is_skipped_name((tree.at)(path).names[k]@, around.is_root),
        !is_excluded(
            around.patterns,
            joined(path, (tree.at)(path).names[k]@),
            (tree.at)(joined(path, (tree.at)(path).names[k]@)).stat.st_mode,
        ),
    ensures
        listed_upto(tree, around, path, n).contains(
            FileView {
                name: (tree.at)(path).names[k]@,
                path: joined(path, (tree.at)(path).names[k]@),
                stat: (tree.at)(joined(path, (tree.at)(path).names[k]@)).stat,
            },
        ),
    decreases n,
{
    let all = listed_upto(tree, around, path, n);
    let before = listed_upto(tree, around, path, (n - 1) as nat);
    let name = (tree.at)(path).names[k]@;
    let entry = FileView { name, path: joined(path, name), stat: (tree.at)(joined(path, name)).stat };
    if k == n - 1 {
        assert(all[all.len() - 1] == entry);
    } else {
        lemma_listed(tree, around, path, (n - 1) as nat, k);
        let i = choose|i: int| 0 <= i < before.len() && before[i] == entry;
        assert(all[i] == entry);
    }
}

/// Every name of a directory is listed, with its path and what is known of the file, unless it is one
/// of the four that are passed over or a pattern excludes it.
pub proof fn law_every_other_name_is_listed(tree: Tree, around: Surroundings, path: Seq<u8>, k: int)
    requires
        0 <= k < (tree.at)(path).names.len(),
        is_entry_name((tree.at)(path).names[k]@, around.is_root),
        !is_excluded(
            around.patterns,
            joined(path, (tree.at)(path).names[k]@),
            (tree.at)(joined(path, (tree.at)(path).names[k]@)).stat.st_mode,
        ),
    ensures
        listing(tree, around, path).contains(
            FileView {
                name: (tree.at)(path).names[k]@,
                path: joined(path, (tree.at)(path).names[k]@),
                stat: (tree.at)(joined(path, (tree.at)(path).names[k]@)).stat,
            },
        ),
{
    law_four_names_are_passed_over((tree.at)(path).names[k]@, around.is_root);
    lemma_listed(tree, around, path, (tree.at)(path).names.len(), k);
}

/// Where an entry that is listed comes from.
proof fn lemma_listed_from(tree: Tree, around: Surroundings, path: Seq<u8>, n: nat, i: int) -> (k: int)
    requires
        n <= (tree.at)(path).names.len(),
        0 <= i < listed_upto(tree, around, path, n).len(),
    ensures
        k < n,
        k < 0 ==> around.is_root && around.patterns.len() > 0 && i == 0 && listed_upto(tree, around, path, n)[i]
            == cli_entry(),
        k >= 0 ==> ({
            let entry = listed_upto(tree, around, path, n)[i];
            &&& entry.name == (tree.at)(path).names[k]@
            &&& entry.path == joined(path, entry.name)
            &&& entry.stat == (tree.at)(entry.path).stat
            &&& !is_skipped_name(entry.name, around.is_root)
            &&& !is_excluded(around.patterns, entry.path, entry.stat.st_mode)
        }),
    decreases n,
{
    if n == 0 {
        -1
    } else {
        let before = listed_upto(tree, around, path, (n - 1) as nat);
        if i < before.len() {
            lemma_listed_from(tree, around, path, (n - 1) as nat, i)
        } else {
            n - 1
        }
    }
}

/// Nothing else is listed: every entry is a name of the directory that is neither passed over nor
/// excluded. Only in the source directory, and only if there are patterns, there is one entry more,
/// for the file that records them.
pub proof fn law_only_such_names_are_listed(tree: Tree, around: Surroundings, path: Seq<u8>, i: int)
    requires
        0 <= i < listing(tree, around, path).len(),
    ensures
        ({
            let entry = listing(tree, around, path)[i];
            ||| {
                &&& i == 0 && around.is_root && around.patterns.len() > 0
                &&& entry.name == seq![
                    0x2eu8, 0x70, 0x78, 0x61, 0x72, 0x65, 0x78, 0x63, 0x6c, 0x75, 0x64, 0x65, 0x2d, 0x63, 0x6c,
                    0x69,
                ]
            }
            ||| {
                &&& exists|k: int|
                    0 <= k < (tree.at)(path).names.len() && entry.name == #[trigger] (tree.at)(path).names[k]@
                &&& is_entry_name(entry.name, around.is_root)
                &&& entry.path == joined(path, entry.name)
                &&& entry.stat == (tree.at)(entry.path).stat
                &&& !is_excluded(around.patterns, entry.path, entry.stat.st_mode)
            }
        }),
{
    lemma_names();
    let entry = listing(tree, around, path)[i];
    let k = lemma_listed_from(tree, around, path, (tree.at)(path).names.len(), i);
    law_four_names_are_passed_over(entry.name, around.is_root);
    if k >= 0 {
        assert(entry.name == (tree.at)(path).names[k]@);
    }
}

/// The file that records the patterns is listed in the source directory if there are any.
pub proof fn law_patterns_are_recorded_in_the_source(tree: Tree, around: Surroundings, path: Seq<u8>, n: nat)
    requires
        around.is_root,
        around.patterns.len() > 0,
        n <= (tree.at)(path).names.len(),
    ensures
        listed_upto(tree, around, path, n).len() > 0,
        listed_upto(tree, around, path, n)[0].name == seq![
            0x2eu8, 0x70, 0x78, 0x61, 0x72, 0x65, 0x78, 0x63, 0x6c, 0x75, 0x64, 0x65, 0x2d, 0x63, 0x6c, 0x69,
        ],
    decreases n,
{
    lemma_names();
    if n > 0 {
        law_patterns_are_recorded_in_the_source(tree, around, path, (n - 1) as nat);
    }
}

/// The patterns of a directory count for its entries, after those from above; nothing else changes.
pub proof fn law_own_patterns_count_inside(tree: Tree, around: Surroundings, path: Seq<u8>)
    ensures
        (tree.at)(path).lines is None ==> surroundings_inside(tree, around, path).patterns == around.patterns,
        (tree.at)(path).lines matches Some(lines) ==> surroundings_inside(tree, around, path).patterns
            == around.patterns + exclude_entries(path, byte_strings(lines@)),
        ({
            let inside = surroundings_inside(tree, around, path);
            &&& inside.dev == around.dev && inside.magic == around.magic && inside.fs_flags == around.fs_flags
            &&& inside.feature_flags == around.feature_flags && inside.is_root == around.is_root
            &&& inside.has_catalog == around.has_catalog && inside.device_set == around.device_set
        }),
{
}

/// Inside a directory the patterns and the settings are those of the directory above. The file
/// system is the same, too, on the same device; on another one it is that of the directory.
pub proof fn law_surroundings_below(tree: Tree, around: Surroundings, entry: FileView)
    ensures
        ({
            let info = (tree.at)(entry.path);
            let below = surroundings_below(around, entry, info);
            &&& below.patterns == around.patterns && !below.is_root
            &&& below.feature_flags == around.feature_flags && below.has_catalog == around.has_catalog
            &&& below.device_set == around.device_set && below.dev == entry.stat.st_dev
            &&& entry.stat.st_dev == around.dev ==> below.magic == around.magic && below.fs_flags
                == around.fs_flags
            &&& entry.stat.st_dev != around.dev ==> below.magic == info.magic && below.fs_flags == info.flags
        }),
{
}

// ---------------------------------------------------------------------------------------------
// What is written
// ---------------------------------------------------------------------------------------------

/// What is in one of two parts is in the whole.
proof fn lemma_in_whole<A>(a: Seq<A>, b: Seq<A>)
    ensures
        forall|x: A| a.contains(x) || b.contains(x) <==> #[trigger] (a + b).contains(x),
{
    assert forall|x: A| a.contains(x) || b.contains(x) <==> #[trigger] (a + b).contains(x) by {
        if a.contains(x) {
            let i = choose|i: int| 0 <= i < a.len() && a[i] == x;
            assert((a + b)[i] == x);
        }
        if b.contains(x) {
            let i = choose|i: int| 0 <= i < b.len() && b[i] == x;
            assert((a + b)[a.len() + i] == x);
        }
        if (a + b).contains(x) {
            let i = choose|i: int| 0 <= i < (a + b).len() && (a + b)[i] == x;
            if i < a.len() {
                assert(a[i] == x);
            } else {
                assert(b[i - a.len()] == x);
            }
        }
    }
}

/// What is written for an entry is part of what is written for all.
proof fn lemma_entry_is_part(
    tree: Tree,
    around: Surroundings,
    entries: Seq<FileView>,
    learnt: Learnt,
    depth: nat,
    i: int,
) -> (known: Learnt)
    requires
        0 <= i < entries.len(),
    ensures
        forall|a: ActionView|
            archived_entry(tree, around, entries[i], known, depth).log.contains(a)
                ==> #[trigger] archived_entries(tree, around, entries, learnt, depth).log.contains(a),
    decreases entries.len(),
{
    let first = archived_entry(tree, around, entries[0], learnt, depth);
    let rest = archived_entries(tree, around, entries.drop_first(), first.learnt, depth);
    lemma_in_whole(first.log, rest.log);
    if i == 0 {
        learnt
    } else {
        lemma_entry_is_part(tree, around, entries.drop_first(), first.learnt, depth, i - 1)
    }
}

/// What is written for an entry that is listed is part of what is written for the directory.
proof fn lemma_listed_is_part(
    tree: Tree,
    around: Surroundings,
    path: Seq<u8>,
    learnt: Learnt,
    depth: nat,
    entry: FileView,
) -> (known: Learnt)
    requires
        listing(tree, surroundings_inside(tree, around, path), path).contains(entry),
    ensures
        forall|a: ActionView|
            archived_entry(tree, surroundings_inside(tree, around, path), entry, known, depth).log.contains(a)
                ==> #[trigger] archived_contents(tree, around, path, learnt, depth).log.contains(a),
{
    broadcast use vstd::seq_lib::group_to_multiset_ensures;

    let inside = surroundings_inside(tree, around, path);
    let entries = listing(tree, inside, path);
    let order = in_name_order(entries);
    lemma_order_holds(entries);
    assert(entries.to_multiset().contains(entry));
    assert(order.contains(entry));
    let i = choose|i: int| 0 <= i < order.len() && order[i] == entry;
    assert(archived_contents(tree, around, path, learnt, depth) == archived_entries(
        tree,
        inside,
        order,
        learnt_inside(tree, path, learnt),
        depth,
    ));
    lemma_entry_is_part(tree, inside, order, learnt_inside(tree, path, learnt), depth, i)
}

/// Every file of a directory is announced, with its path, unless its name is one of the four that are
/// passed over or a pattern excludes it.
pub proof fn law_every_other_file_is_announced(
    tree: Tree,
    around: Surroundings,
    path: Seq<u8>,
    learnt: Learnt,
    depth: nat,
    k: int,
)
    requires
        0 <= k < (tree.at)(path).names.len(),
        is_entry_name((tree.at)(path).names[k]@, around.is_root),
        !is_excluded(
            surroundings_inside(tree, around, path).patterns,
            joined(path, (tree.at)(path).names[k]@),
            (tree.at)(joined(path, (tree.at)(path).names[k]@)).stat.st_mode,
        ),
    ensures
        archived_contents(tree, around, path, learnt, depth).log.contains(
            ActionView::Callback(joined(path, (tree.at)(path).names[k]@)),
        ),
{
    let inside = surroundings_inside(tree, around, path);
    let name = (tree.at)(path).names[k]@;
    let entry = FileView { name, path: joined(path, name), stat: (tree.at)(joined(path, name)).stat };
    lemma_names();
    law_every_other_name_is_listed(tree, inside, path, k);
    let known = lemma_listed_is_part(tree, around, path, learnt, depth, entry);
    let log = archived_entry(tree, inside, entry, known, depth).log;
    assert(log[0] == ActionView::Callback(entry.path));
    assert(log.contains(ActionView::Callback(entry.path)));
}

/// The file type that decides is that of the mode that `stat(2)` reports.
proof fn lemma_type(stat: FileStat, flags: Flags, magic: i64, facts: FileFacts, metadata: MetadataView)
    requires
        metadata_of(stat, flags, magic, facts) == MetadataResult::Ok(metadata),
    ensures
        type_bits(metadata.stat.mode) == stat.st_mode & 0xf000,
{
    law_basic_part_is_kept(stat, flags, magic, facts);
    lemma_mode(stat.st_mode);
}

/// What is written for an entry by itself, according to its file type.
#[verifier::spinoff_prover]
proof fn lemma_entry_writes(
    tree: Tree,
    around: Surroundings,
    entry: FileView,
    known: Learnt,
    depth: nat,
    metadata: MetadataView,
)
    requires
        !(around.is_root && entry.name == cli_name()),
        !is_excluded(around.patterns, entry.path, entry.stat.st_mode),
        metadata_of(
            entry.stat,
            around.feature_flags.spec_and(around.fs_flags),
            around.magic,
            (tree.at)(entry.path).facts,
        ) == MetadataResult::Ok(metadata),
    ensures
        ({
            let name = entry.name;
            let stat = entry.stat;
            let file_type = stat.st_mode & 0xf000;
            let block = archived_entry(tree, around, entry, known, depth);
            let link = known.hardlinks[(stat.st_dev, stat.st_ino)];
            let is_link = stat.st_nlink > 1 && known.hardlinks.contains_key((stat.st_dev, stat.st_ino));
            let (catalog, op) = if file_type == 0x8000 && is_link {
                (
                    CatalogOp::AddHardlink(name),
                    EncodeOp::Hardlink { name, target: link.path, offset: link.offset },
                )
            } else if file_type == 0x8000 {
                (
                    CatalogOp::AddFile { name, size: stat.st_size as u64, mtime: stat.st_mtime as u64 },
                    EncodeOp::File { name, metadata, size: stat.st_size as u64 },
                )
            } else if file_type == 0xc000 {
                (CatalogOp::AddSocket(name), EncodeOp::Socket { name, metadata })
            } else if file_type == 0x1000 {
                (CatalogOp::AddFifo(name), EncodeOp::Fifo { name, metadata })
            } else if file_type == 0xa000 {
                (CatalogOp::AddSymlink(name), EncodeOp::Symlink { name, metadata })
            } else if file_type == 0x6000 {
                (CatalogOp::AddBlockDevice(name), EncodeOp::Device { name, metadata, rdev: stat.st_rdev })
            } else {
                (CatalogOp::AddCharDevice(name), EncodeOp::Device { name, metadata, rdev: stat.st_rdev })
            };
            &&& block.log.len() > 0 && block.log[0] == ActionView::Callback(entry.path)
            &&& file_type != 0x4000 ==> {
                &&& around.has_catalog ==> block.log =~= seq![
                    ActionView::Callback(entry.path),
                    ActionView::Catalog(catalog),
                    ActionView::Encode(op),
                ]
                &&& !around.has_catalog ==> block.log =~= seq![
                    ActionView::Callback(entry.path),
                    ActionView::Encode(op),
                ]
            }
        }),
{
    lemma_type(
        entry.stat,
        around.feature_flags.spec_and(around.fs_flags),
        around.magic,
        (tree.at)(entry.path).facts,
        metadata,
    );
}

/// A file that is no directory is announced and then written once, to the catalog first if there is
/// one: a regular file with its size, or as another name of a file that is in the archive; and every
/// other file as what it is. Nothing else is written for it.
#[verifier::spinoff_prover]
pub proof fn law_file_is_written_once(
    tree: Tree,
    around: Surroundings,
    entry: FileView,
    known: Learnt,
    depth: nat,
    metadata: MetadataView,
)
    requires
        is_entry_name(entry.name, around.is_root),
        !is_excluded(around.patterns, entry.path, entry.stat.st_mode),
        metadata_of(
            entry.stat,
            around.feature_flags.spec_and(around.fs_flags),
            around.magic,
            (tree.at)(entry.path).facts,
        ) == MetadataResult::Ok(metadata),
        entry.stat.st_mode & 0xf000 != 0x4000,
    ensures
        ({
            let name = entry.name;
            let stat = entry.stat;
            let file_type = stat.st_mode & 0xf000;
            let log = archived_entry(tree, around, entry, known, depth).log;
            let id = (stat.st_dev, stat.st_ino);
            &&& log.len() == if around.has_catalog {
                3int
            } else {
                2
            }
            &&& log[0] == ActionView::Callback(entry.path)
            &&& file_type == 0x8000 && (stat.st_nlink <= 1 || !known.hardlinks.contains_key(id)) ==> {
                &&& log[log.len() - 1] == ActionView::Encode(
                    EncodeOp::File { name, metadata, size: stat.st_size as u64 },
                )
                &&& around.has_catalog ==> log[1] == ActionView::Catalog(
                    CatalogOp::AddFile { name, size: stat.st_size as u64, mtime: stat.st_mtime as u64 },
                )
            }
            &&& file_type == 0x8000 && stat.st_nlink > 1 && known.hardlinks.contains_key(id) ==> {
                &&& log[log.len() - 1] == ActionView::Encode(
                    EncodeOp::Hardlink {
                        name,
                        target: known.hardlinks[id].path,
                        offset: known.hardlinks[id].offset,
                    },
                )
                &&& around.has_catalog ==> log[1] == ActionView::Catalog(CatalogOp::AddHardlink(name))
            }
            &&& file_type == 0xc000 ==> {
                &&& log[log.len() - 1] == ActionView::Encode(EncodeOp::Socket { name, metadata })
                &&& around.has_catalog ==> log[1] == ActionView::Catalog(CatalogOp::AddSocket(name))
            }
            &&& file_type == 0x1000 ==> {
                &&& log[log.len() - 1] == ActionView::Encode(EncodeOp::Fifo { name, metadata })
                &&& around.has_catalog ==> log[1] == ActionView::Catalog(CatalogOp::AddFifo(name))
            }
            &&& file_type == 0xa000 ==> {
                &&& log[log.len() - 1] == ActionView::Encode(EncodeOp::Symlink { name, metadata })
                &&& around.has_catalog ==> log[1] == ActionView::Catalog(CatalogOp::AddSymlink(name))
            }
            &&& file_type == 0x6000 || file_type == 0x2000 ==> log[log.len() - 1] == ActionView::Encode(
                EncodeOp::Device { name, metadata, rdev: stat.st_rdev },
            )
            &&& file_type == 0x6000 && around.has_catalog ==> log[1] == ActionView::Catalog(
                CatalogOp::AddBlockDevice(name),
            )
            &&& file_type == 0x2000 && around.has_catalog ==> log[1] == ActionView::Catalog(
                CatalogOp::AddCharDevice(name),
            )
        }),
{
    lemma_names();
    lemma_entry_writes(tree, around, entry, known, depth, metadata);
}

/// A directory is announced, begun and ended, in the catalog too if there is one. What is written for
/// its contents stands between, and nothing else does; where its contents are not entered, nothing
/// does. They are entered on the device of the directory above, and on another device unless it lies
/// on a virtual file system or is not among those asked for.
#[verifier::spinoff_prover]
pub proof fn law_directory_holds_its_contents(
    tree: Tree,
    around: Surroundings,
    entry: FileView,
    known: Learnt,
    depth: nat,
    metadata: MetadataView,
)
    requires
        is_entry_name(entry.name, around.is_root),
        !is_excluded(around.patterns, entry.path, entry.stat.st_mode),
        metadata_of(
            entry.stat,
            around.feature_flags.spec_and(around.fs_flags),
            around.magic,
            (tree.at)(entry.path).facts,
        ) == MetadataResult::Ok(metadata),
        entry.stat.st_mode & 0xf000 == 0x4000,
        depth > 0,
    ensures
        ({
            let name = entry.name;
            let info = (tree.at)(entry.path);
            let block = archived_entry(tree, around, entry, known, depth);
            let contents = archived_contents(
                tree,
                surroundings_below(around, entry, info),
                entry.path,
                known,
                (depth - 1) as nat,
            );
            let entered = entry.stat.st_dev == around.dev || (!virtual_magics().contains(info.magic) && (
            around.device_set matches Some(set) ==> set.contains(entry.stat.st_dev)));
            let between = if entered {
                contents.log
            } else {
                Seq::empty()
            };
            &&& around.has_catalog ==> block.log =~= seq![
                ActionView::Callback(entry.path),
                ActionView::Catalog(CatalogOp::StartDirectory(name)),
                ActionView::Encode(EncodeOp::Directory { name, metadata }),
            ] + between + seq![
                ActionView::Encode(EncodeOp::Finish),
                ActionView::Catalog(CatalogOp::EndDirectory),
            ]
            &&& !around.has_catalog ==> block.log =~= seq![
                ActionView::Callback(entry.path),
                ActionView::Encode(EncodeOp::Directory { name, metadata }),
            ] + between + seq![ActionView::Encode(EncodeOp::Finish)]
            &&& entered ==> block.learnt == contents.learnt
            &&& !entered ==> block.learnt == known
        }),
{
    lemma_names();
    lemma_type(
        entry.stat,
        around.feature_flags.spec_and(around.fs_flags),
        around.magic,
        (tree.at)(entry.path).facts,
        metadata,
    );
}

/// A file is written as what it is, with its name and its metadata.
#[verifier::spinoff_prover]
proof fn lemma_entry_is_written(
    tree: Tree,
    around: Surroundings,
    entry: FileView,
    known: Learnt,
    depth: nat,
    metadata: MetadataView,
)
    requires
        is_entry_name(entry.name, around.is_root),
        !is_excluded(around.patterns, entry.path, entry.stat.st_mode),
        metadata_of(
            entry.stat,
            around.feature_flags.spec_and(around.fs_flags),
            around.magic,
            (tree.at)(entry.path).facts,
        ) == MetadataResult::Ok(metadata),
    ensures
        ({
            let name = entry.name;
            let stat = entry.stat;
            let file_type = stat.st_mode & 0xf000;
            let log = archived_entry(tree, around, entry, known, depth).log;
            &&& file_type == 0x8000 && stat.st_nlink <= 1 ==> log.contains(
                ActionView::Encode(EncodeOp::File { name, metadata, size: stat.st_size as u64 }),
            )
            &&& file_type == 0x8000 && stat.st_nlink > 1 ==> {
                ||| log.contains(
                    ActionView::Encode(EncodeOp::File { name, metadata, size: stat.st_size as u64 }),
                )
                ||| exists|target: Seq<u8>, offset: u64| #[trigger]
                    log.contains(ActionView::Encode(EncodeOp::Hardlink { name, target, offset }))
            }
            &&& file_type == 0x4000 ==> log.contains(
                ActionView::Encode(EncodeOp::Directory { name, metadata }),
            )
            &&& file_type == 0xc000 ==> log.contains(ActionView::Encode(EncodeOp::Socket { name, metadata }))
            &&& file_type == 0x1000 ==> log.contains(ActionView::Encode(EncodeOp::Fifo { name, metadata }))
            &&& file_type == 0xa000 ==> log.contains(ActionView::Encode(EncodeOp::Symlink { name, metadata }))
            &&& file_type == 0x6000 || file_type == 0x2000 ==> log.contains(
                ActionView::Encode(EncodeOp::Device { name, metadata, rdev: stat.st_rdev }),
            )
        }),
{
    lemma_names();
    let log = archived_entry(tree, around, entry, known, depth).log;
    if entry.stat.st_mode & 0xf000 == 0x4000 {
        lemma_type(
            entry.stat,
            around.feature_flags.spec_and(around.fs_flags),
            around.magic,
            (tree.at)(entry.path).facts,
            metadata,
        );
        let at: int = if around.has_catalog {
            2
        } else {
            1
        };
        assert(log[at] == ActionView::Encode(EncodeOp::Directory { name: entry.name, metadata }));
        assert(log.contains(log[at]));
    } else {
        law_file_is_written_once(tree, around, entry, known, depth, metadata);
        assert(log.contains(log[log.len() - 1]));
    }
}

/// Every file that is neither passed over nor excluded is in the archive, with its own name and its
/// own metadata, as what it is.
#[verifier::spinoff_prover]
pub proof fn law_every_other_file_is_written(
    tree: Tree,
    around: Surroundings,
    path: Seq<u8>,
    learnt: Learnt,
    depth: nat,
    k: int,
    metadata: MetadataView,
)
    requires
        0 <= k < (tree.at)(path).names.len(),
        is_entry_name((tree.at)(path).names[k]@, around.is_root),
        !is_excluded(
            surroundings_inside(tree, around, path).patterns,
            joined(path, (tree.at)(path).names[k]@),
            (tree.at)(joined(path, (tree.at)(path).names[k]@)).stat.st_mode,
        ),
        metadata_of(
            (tree.at)(joined(path, (tree.at)(path).names[k]@)).stat,
            around.feature_flags.spec_and(around.fs_flags),
            around.magic,
            (tree.at)(joined(path, (tree.at)(path).names[k]@)).facts,
        ) == MetadataResult::Ok(metadata),
    ensures
        ({
            let name = (tree.at)(path).names[k]@;
            let stat = (tree.at)(joined(path, name)).stat;
            let file_type = stat.st_mode & 0xf000;
            let log = archived_contents(tree, around, path, learnt, depth).log;
            &&& file_type == 0x8000 && stat.st_nlink <= 1 ==> log.contains(
                ActionView::Encode(EncodeOp::File { name, metadata, size: stat.st_size as u64 }),
            )
            &&& file_type == 0x8000 && stat.st_nlink > 1 ==> {
                ||| log.contains(
                    ActionView::Encode(EncodeOp::File { name, metadata, size: stat.st_size as u64 }),
                )
                ||| exists|target: Seq<u8>, offset: u64| #[trigger]
                    log.contains(ActionView::Encode(EncodeOp::Hardlink { name, target, offset }))
            }
            &&& file_type == 0x4000 ==> log.contains(
                ActionView::Encode(EncodeOp::Directory { name, metadata }),
            )
            &&& file_type == 0xc000 ==> log.contains(ActionView::Encode(EncodeOp::Socket { name, metadata }))
            &&& file_type == 0x1000 ==> log.contains(ActionView::Encode(EncodeOp::Fifo { name, metadata }))
            &&& file_type == 0xa000 ==> log.contains(ActionView::Encode(EncodeOp::Symlink { name, metadata }))
            &&& file_type == 0x6000 || file_type == 0x2000 ==> log.contains(
                ActionView::Encode(EncodeOp::Device { name, metadata, rdev: stat.st_rdev }),
            )
        }),
{
    let inside = surroundings_inside(tree, around, path);
    let name = (tree.at)(path).names[k]@;
    let entry = FileView { name, path: joined(path, name), stat: (tree.at)(joined(path, name)).stat };
    law_every_other_name_is_listed(tree, inside, path, k);
    let known = lemma_listed_is_part(tree, around, path, learnt, depth, entry);
    lemma_entry_is_written(tree, inside, entry, known, depth, metadata);
    let log = archived_entry(tree, inside, entry, known, depth).log;
    let whole = archived_contents(tree, around, path, learnt, depth).log;
    if exists|target: Seq<u8>, offset: u64| #[trigger]
        log.contains(ActionView::Encode(EncodeOp::Hardlink { name, target, offset })) {
        let (target, offset) = choose|target: Seq<u8>, offset: u64| #[trigger]
            log.contains(ActionView::Encode(EncodeOp::Hardlink { name, target, offset }));
        assert(whole.contains(ActionView::Encode(EncodeOp::Hardlink { name, target, offset })));
    }
}

/// The contents of a directory that is entered are in the archive, with the directory.
#[verifier::spinoff_prover]
pub proof fn law_contents_are_archived(
    tree: Tree,
    around: Surroundings,
    path: Seq<u8>,
    learnt: Learnt,
    depth: nat,
    k: int,
    metadata: MetadataView,
) -> (known: Learnt)
    requires
        0 <= k < (tree.at)(path).names.len(),
        is_entry_name((tree.at)(path).names[k]@, around.is_root),
        !is_excluded(
            surroundings_inside(tree, around, path).patterns,
            joined(path, (tree.at)(path).names[k]@),
            (tree.at)(joined(path, (tree.at)(path).names[k]@)).stat.st_mode,
        ),
        metadata_of(
            (tree.at)(joined(path, (tree.at)(path).names[k]@)).stat,
            around.feature_flags.spec_and(around.fs_flags),
            around.magic,
            (tree.at)(joined(path, (tree.at)(path).names[k]@)).facts,
        ) == MetadataResult::Ok(metadata),
        (tree.at)(joined(path, (tree.at)(path).names[k]@)).stat.st_mode & 0xf000 == 0x4000,
        (tree.at)(joined(path, (tree.at)(path).names[k]@)).stat.st_dev == around.dev,
        depth > 0,
    ensures
        forall|a: ActionView|
            archived_contents(
                tree,
                Surroundings {
                    is_root: false,
                    patterns: surroundings_inside(tree, around, path).patterns,
                    ..around
                },
                joined(path, (tree.at)(path).names[k]@),
                known,
                (depth - 1) as nat,
            ).log.contains(a) ==> #[trigger] archived_contents(tree, around, path, learnt, depth).log.contains(a),
{
    let inside = surroundings_inside(tree, around, path);
    let name = (tree.at)(path).names[k]@;
    let entry = FileView { name, path: joined(path, name), stat: (tree.at)(joined(path, name)).stat };
    lemma_names();
    law_every_other_name_is_listed(tree, inside, path, k);
    let known = lemma_listed_is_part(tree, around, path, learnt, depth, entry);
    let below = Surroundings { is_root: false, patterns: inside.patterns, ..around };
    assert(surroundings_below(inside, entry, (tree.at)(entry.path)) == below);
    law_directory_holds_its_contents(tree, inside, entry, known, depth, metadata);
    let contents = archived_contents(tree, below, entry.path, known, (depth - 1) as nat).log;
    let (start, end): (Seq<ActionView>, Seq<ActionView>) = if inside.has_catalog {
        (
            seq![
                ActionView::Callback(entry.path),
                ActionView::Catalog(CatalogOp::StartDirectory(name)),
                ActionView::Encode(EncodeOp::Directory { name, metadata }),
            ],
            seq![ActionView::Encode(EncodeOp::Finish), ActionView::Catalog(CatalogOp::EndDirectory)],
        )
    } else {
        (
            seq![
                ActionView::Callback(entry.path),
                ActionView::Encode(EncodeOp::Directory { name, metadata }),
            ],
            seq![ActionView::Encode(EncodeOp::Finish)],
        )
    };
    assert(archived_entry(tree, inside, entry, known, depth).log =~= start + contents + end);
    lemma_in_whole(start, contents);
    lemma_in_whole(start + contents, end);
    known
}

/// Entries are archived one after the other: what is written for a list is what is written for its
/// first part, and then for its second part with what was learnt by then.
pub proof fn law_entries_follow_each_other(
    tree: Tree,
    around: Surroundings,
    first: Seq<FileView>,
    second: Seq<FileView>,
    learnt: Learnt,
    depth: nat,
)
    ensures
        ({
            let one = archived_entries(tree, around, first, learnt, depth);
            let two = archived_entries(tree, around, second, one.learnt, depth);
            let both = archived_entries(tree, around, first + second, learnt, depth);
            both.log == one.log + two.log && both.learnt == two.learnt
        }),
    decreases first.len(),
{
    let both = archived_entries(tree, around, first + second, learnt, depth);
    if first.len() == 0 {
        assert(first + second =~= second);
        assert(both.log =~= archived_entries(tree, around, first, learnt, depth).log + both.log);
    } else {
        let head = archived_entry(tree, around, first[0], learnt, depth);
        assert((first + second).drop_first() =~= first.drop_first() + second);
        law_entries_follow_each_other(tree, around, first.drop_first(), second, head.learnt, depth);
        let one = archived_entries(tree, around, first, learnt, depth);
        let two = archived_entries(tree, around, second, one.learnt, depth);
        assert(both.log =~= one.log + two.log);
    }
}

/// What is written for one entry is what is written for the list of it; for no entry nothing is.
pub proof fn law_one_entry(tree: Tree, around: Surroundings, entry: FileView, learnt: Learnt, depth: nat)
    ensures
        archived_entries(tree, around, seq![entry], learnt, depth).log == archived_entry(
            tree,
            around,
            entry,
            learnt,
            depth,
        ).log,
        archived_entries(tree, around, Seq::<FileView>::empty(), learnt, depth).log.len() == 0,
{
    reveal_with_fuel(archived_entries, 2);
    assert(seq![entry].drop_first() =~= Seq::<FileView>::empty());
    assert(archived_entries(tree, around, seq![entry], learnt, depth).log =~= archived_entry(
        tree,
        around,
        entry,
        learnt,
        depth,
    ).log);
}

/// The file that records the patterns holds them, belongs to root, and may be read and written by its
/// owner only. It is not announced.
pub proof fn law_recorded_patterns(
    tree: Tree,
    around: Surroundings,
    entry: FileView,
    learnt: Learnt,
    depth: nat,
)
    requires
        around.is_root,
        entry.name == seq![
            0x2eu8, 0x70, 0x78, 0x61, 0x72, 0x65, 0x78, 0x63, 0x6c, 0x75, 0x64, 0x65, 0x2d, 0x63, 0x6c, 0x69,
        ],
    ensures
        ({
            let log = archived_entry(tree, around, entry, learnt, depth).log;
            &&& log.len() == if around.has_catalog {
                2int
            } else {
                1
            }
            &&& log[log.len() - 1] matches ActionView::Encode(EncodeOp::Content { name, metadata, content }) && {
                &&& name == entry.name
                &&& content == excludes_cli(around.patterns)
                &&& metadata.stat.mode == 0x8180 && metadata.stat.flags == 0
                &&& metadata.stat.uid == 0 && metadata.stat.gid == 0
                &&& metadata.stat.mtime_secs == 0 && metadata.stat.mtime_nanos == 0
                &&& metadata.xattrs.len() == 0 && metadata.fcaps is None && metadata.quota_project_id is None
                &&& metadata.acl.users.len() == 0 && metadata.acl.groups.len() == 0
                &&& metadata.acl.group_obj is None && metadata.acl.default is None
            }
            &&& around.has_catalog ==> log[0] == ActionView::Catalog(
                CatalogOp::AddFile {
                    name: entry.name,
                    size: excludes_cli(around.patterns).len() as u64,
                    mtime: 0,
                },
            )
            &&& archived_entry(tree, around, entry, learnt, depth).learnt == learnt
        }),
{
    lemma_names();
}

// ---------------------------------------------------------------------------------------------
// Hard links
// ---------------------------------------------------------------------------------------------

/// The second name of a file is archived as another name of the first one: at the path and the place
/// of the file that was written.
#[verifier::spinoff_prover]
pub proof fn law_second_name_is_a_link(
    tree: Tree,
    around: Surroundings,
    first: FileView,
    second: FileView,
    known: Learnt,
    later: Learnt,
    depth: nat,
    one: MetadataView,
    two: MetadataView,
)
    requires
        is_entry_name(first.name, around.is_root),
        is_entry_name(second.name, around.is_root),
        !is_excluded(around.patterns, first.path, first.stat.st_mode),
        !is_excluded(around.patterns, second.path, second.stat.st_mode),
        metadata_of(
            first.stat,
            around.feature_flags.spec_and(around.fs_flags),
            around.magic,
            (tree.at)(first.path).facts,
        ) == MetadataResult::Ok(one),
        metadata_of(
            second.stat,
            around.feature_flags.spec_and(around.fs_flags),
            around.magic,
            (tree.at)(second.path).facts,
        ) == MetadataResult::Ok(two),
        first.stat.st_mode & 0xf000 == 0x8000,
        second.stat.st_mode & 0xf000 == 0x8000,
        first.stat.st_dev == second.stat.st_dev,
        first.stat.st_ino == second.stat.st_ino,
        first.stat.st_nlink > 1,
        second.stat.st_nlink > 1,
        !known.hardlinks.contains_key((first.stat.st_dev, first.stat.st_ino)),
        archived_entry(tree, around, first, known, depth).learnt.hardlinks.submap_of(later.hardlinks),
    ensures
        archived_entry(tree, around, first, known, depth).log.contains(
            ActionView::Encode(EncodeOp::File { name: first.name, metadata: one, size: first.stat.st_size as u64 }),
        ),
        archived_entry(tree, around, second, later, depth).log.contains(
            ActionView::Encode(
                EncodeOp::Hardlink {
                    name: second.name,
                    target: first.path,
                    offset: (tree.at)(first.path).place,
                },
            ),
        ),
{
    lemma_names();
    law_file_is_written_once(tree, around, first, known, depth, one);
    law_file_is_written_once(tree, around, second, later, depth, two);
    let a = archived_entry(tree, around, first, known, depth);
    let b = archived_entry(tree, around, second, later, depth);
    lemma_type(
        first.stat,
        around.feature_flags.spec_and(around.fs_flags),
        around.magic,
        (tree.at)(first.path).facts,
        one,
    );
    let id = (first.stat.st_dev, first.stat.st_ino);
    let link = LinkView { path: first.path, offset: (tree.at)(first.path).place };
    assert(a.learnt.hardlinks == known.hardlinks.insert(id, link));
    assert(a.learnt.hardlinks.contains_key(id));
    assert(later.hardlinks.contains_key(id) && later.hardlinks[id] == link);
    assert(a.log.contains(a.log[a.log.len() - 1]));
    assert(b.log.contains(b.log[b.log.len() - 1]));
}

/// Only regular files with more than one name are remembered; what is known of a file stays.
proof fn lemma_links_stay_in_entry(
    tree: Tree,
    around: Surroundings,
    entry: FileView,
    learnt: Learnt,
    depth: nat,
)
    ensures
        learnt.hardlinks.submap_of(archived_entry(tree, around, entry, learnt, depth).learnt.hardlinks),
    decreases depth, 0nat, 0nat,
{
    let info = (tree.at)(entry.path);
    if depth > 0 {
        lemma_links_stay_in_contents(
            tree,
            surroundings_below(around, entry, info),
            entry.path,
            learnt,
            (depth - 1) as nat,
        );
    }
}

/// What is known of a file stays.
#[verifier::spinoff_prover]
proof fn lemma_links_stay_in_entries(
    tree: Tree,
    around: Surroundings,
    entries: Seq<FileView>,
    learnt: Learnt,
    depth: nat,
)
    ensures
        learnt.hardlinks.submap_of(archived_entries(tree, around, entries, learnt, depth).learnt.hardlinks),
    decreases depth, 1nat, entries.len(),
{
    if entries.len() > 0 {
        let first = archived_entry(tree, around, entries[0], learnt, depth);
        lemma_links_stay_in_entry(tree, around, entries[0], learnt, depth);
        lemma_links_stay_in_entries(tree, around, entries.drop_first(), first.learnt, depth);
        let rest = archived_entries(tree, around, entries.drop_first(), first.learnt, depth);
        let all = archived_entries(tree, around, entries, learnt, depth);
        assert(all.learnt == rest.learnt);
        lemma_submap(learnt.hardlinks, first.learnt.hardlinks, rest.learnt.hardlinks);
        assert(learnt.hardlinks.submap_of(all.learnt.hardlinks));
    } else {
        assert(archived_entries(tree, around, entries, learnt, depth).learnt == learnt);
    }
}

/// What is part of a part is part of the whole.
proof fn lemma_submap(a: Map<(u64, u64), LinkView>, b: Map<(u64, u64), LinkView>, c: Map<(u64, u64), LinkView>)
    requires
        a.submap_of(b),
        b.submap_of(c),
    ensures
        a.submap_of(c),
{
    assert forall|id: (u64, u64)| #[trigger] a.dom().contains(id) implies c.dom().contains(id) && a[id]
        == c[id] by {
        assert(b.dom().contains(id));
    }
}

/// What is known of a file stays.
proof fn lemma_links_stay_in_contents(
    tree: Tree,
    around: Surroundings,
    path: Seq<u8>,
    learnt: Learnt,
    depth: nat,
)
    ensures
        learnt.hardlinks.submap_of(archived_contents(tree, around, path, learnt, depth).learnt.hardlinks),
    decreases depth, 2nat, 0nat,
{
    let inside = surroundings_inside(tree, around, path);
    lemma_links_stay_in_entries(
        tree,
        inside,
        in_name_order(listing(tree, inside, path)),
        learnt_inside(tree, path, learnt),
        depth,
    );
}

/// What is known of the files with more than one name is kept to the end of the archive.
pub proof fn law_links_are_remembered(
    tree: Tree,
    around: Surroundings,
    path: Seq<u8>,
    entries: Seq<FileView>,
    learnt: Learnt,
    depth: nat,
)
    ensures
        learnt.hardlinks.submap_of(archived_contents(tree, around, path, learnt, depth).learnt.hardlinks),
        learnt.hardlinks.submap_of(archived_entries(tree, around, entries, learnt, depth).learnt.hardlinks),
{
    lemma_links_stay_in_contents(tree, around, path, learnt, depth);
    lemma_links_stay_in_entries(tree, around, entries, learnt, depth);
}

// ---------------------------------------------------------------------------------------------
// The catalog
// ---------------------------------------------------------------------------------------------

/// The surroundings with or without a catalog.
pub open spec fn with_catalog(around: Surroundings, has_catalog: bool) -> Surroundings {
    Surroundings { has_catalog, ..around }
}

/// A log without what went into the catalog.
#[verifier::opaque]
pub open spec fn without_catalog(log: Seq<ActionView>) -> Seq<ActionView> {
    log.filter(|action: ActionView| !(action is Catalog))
}

/// What is taken out of a part is taken out of the whole.
proof fn lemma_without_catalog(a: Seq<ActionView>, b: Seq<ActionView>)
    ensures
        without_catalog(a + b) == without_catalog(a) + without_catalog(b),
{
    reveal(without_catalog);
    Seq::filter_distributes_over_add(a, b, |action: ActionView| !(action is Catalog));
}

/// A single action is taken out if it goes into the catalog.
proof fn lemma_without_one(action: ActionView)
    ensures
        without_catalog(seq![action]) == if action is Catalog {
            Seq::empty()
        } else {
            seq![action]
        },
{
    reveal(without_catalog);
    reveal(Seq::filter);
    reveal_with_fuel(Seq::filter, 2);
    assert(seq![action].drop_last() =~= Seq::<ActionView>::empty());
    assert(without_catalog(seq![action]) =~= if action is Catalog {
        Seq::empty()
    } else {
        seq![action]
    });
}

/// What is written for one thing, without the catalog.
proof fn lemma_writes_without(around: Surroundings, catalog: CatalogOp<Seq<u8>>, op: EncodeView)
    ensures
        without_catalog(writes(with_catalog(around, true), catalog, op)) == writes(
            with_catalog(around, false),
            catalog,
            op,
        ),
        without_catalog(writes(with_catalog(around, false), catalog, op)) == writes(
            with_catalog(around, false),
            catalog,
            op,
        ),
{
    let c = ActionView::Catalog(catalog);
    let e = ActionView::Encode(op);
    lemma_without_one(c);
    lemma_without_one(e);
    lemma_without_catalog(seq![c], seq![e]);
    assert(seq![c, e] =~= seq![c] + seq![e]);
    assert(Seq::<ActionView>::empty() + seq![e] =~= seq![e]);
}

/// What is listed does not depend on the catalog.
proof fn lemma_listed_without(tree: Tree, around: Surroundings, path: Seq<u8>, n: nat)
    ensures
        listed_upto(tree, with_catalog(around, true), path, n) == listed_upto(
            tree,
            with_catalog(around, false),
            path,
            n,
        ),
    decreases n,
{
    if n > 0 {
        lemma_listed_without(tree, around, path, (n - 1) as nat);
    }
}

/// What is written for a file that is no directory.
spec fn leaf_writes(around: Surroundings, entry: FileView, info: Info, learnt: Learnt) -> (
    CatalogOp<Seq<u8>>,
    EncodeView,
) {
    let name = entry.name;
    let stat = entry.stat;
    let metadata = kept_metadata(around, stat, info);
    let file_type = type_bits(metadata.stat.mode);
    let id = (stat.st_dev, stat.st_ino);
    if file_type == IFREG && stat.st_nlink > 1 && learnt.hardlinks.contains_key(id) {
        (
            CatalogOp::AddHardlink(name),
            EncodeOp::Hardlink {
                name,
                target: learnt.hardlinks[id].path,
                offset: learnt.hardlinks[id].offset,
            },
        )
    } else if file_type == IFREG {
        (
            CatalogOp::AddFile { name, size: stat.st_size as u64, mtime: stat.st_mtime as u64 },
            EncodeOp::File { name, metadata, size: stat.st_size as u64 },
        )
    } else if file_type == IFSOCK {
        (CatalogOp::AddSocket(name), EncodeOp::Socket { name, metadata })
    } else if file_type == IFIFO {
        (CatalogOp::AddFifo(name), EncodeOp::Fifo { name, metadata })
    } else if file_type == IFLNK {
        (CatalogOp::AddSymlink(name), EncodeOp::Symlink { name, metadata })
    } else if file_type == IFBLK {
        (CatalogOp::AddBlockDevice(name), EncodeOp::Device { name, metadata, rdev: stat.st_rdev })
    } else {
        (CatalogOp::AddCharDevice(name), EncodeOp::Device { name, metadata, rdev: stat.st_rdev })
    }
}

/// What is written for a file that is no directory is one thing.
proof fn lemma_leaf(tree: Tree, around: Surroundings, entry: FileView, learnt: Learnt, depth: nat)
    requires
        !(around.is_root && entry.name == cli_name()),
        !is_excluded(around.patterns, entry.path, entry.stat.st_mode),
        type_bits(kept_metadata(around, entry.stat, (tree.at)(entry.path)).stat.mode) != IFDIR,
    ensures
        ({
            let (catalog, op) = leaf_writes(around, entry, (tree.at)(entry.path), learnt);
            archived_entry(tree, around, entry, learnt, depth).log == seq![ActionView::Callback(entry.path)]
                + writes(around, catalog, op)
        }),
{
}

/// What is learnt from a file that is no directory does not depend on the catalog.
proof fn lemma_leaf_learnt(tree: Tree, around: Surroundings, entry: FileView, learnt: Learnt, depth: nat)
    requires
        type_bits(kept_metadata(around, entry.stat, (tree.at)(entry.path)).stat.mode) != IFDIR,
    ensures
        archived_entry(tree, with_catalog(around, true), entry, learnt, depth).learnt == archived_entry(
            tree,
            with_catalog(around, false),
            entry,
            learnt,
            depth,
        ).learnt,
{
    let info = (tree.at)(entry.path);
    assert(kept_metadata(with_catalog(around, true), entry.stat, info) == kept_metadata(around, entry.stat, info));
    assert(kept_metadata(with_catalog(around, false), entry.stat, info) == kept_metadata(
        around,
        entry.stat,
        info,
    ));
}

/// What is written for a directory, around what is written for its contents.
proof fn lemma_directory_without(
    around: Surroundings,
    path: Seq<u8>,
    start: CatalogOp<Seq<u8>>,
    op: EncodeView,
    c: Seq<ActionView>,
    d: Seq<ActionView>,
)
    requires
        without_catalog(c) == d,
    ensures
        without_catalog(
            seq![ActionView::Callback(path)] + writes(with_catalog(around, true), start, op) + c + seq![
                ActionView::Encode(EncodeOp::Finish),
                ActionView::Catalog(CatalogOp::EndDirectory),
            ],
        ) == seq![ActionView::Callback(path)] + writes(with_catalog(around, false), start, op) + d + seq![
            ActionView::Encode(EncodeOp::Finish),
        ],
{
    let announced = seq![ActionView::Callback(path)];
    let a = with_catalog(around, true);
    let finish = ActionView::Encode(EncodeOp::Finish);
    let end = ActionView::Catalog(CatalogOp::EndDirectory);
    lemma_without_one(ActionView::Callback(path));
    lemma_writes_without(around, start, op);
    lemma_without_one(finish);
    lemma_without_one(end);
    lemma_without_catalog(seq![finish], seq![end]);
    assert(seq![finish, end] =~= seq![finish] + seq![end]);
    assert(seq![finish] + Seq::<ActionView>::empty() =~= seq![finish]);
    lemma_without_catalog(announced, writes(a, start, op));
    lemma_without_catalog(announced + writes(a, start, op), c);
    lemma_without_catalog(announced + writes(a, start, op) + c, seq![finish, end]);
}

/// The catalog changes nothing of what is written for a directory.
proof fn lemma_subtree_without(tree: Tree, around: Surroundings, entry: FileView, learnt: Learnt, depth: nat)
    requires
        !(around.is_root && entry.name == cli_name()),
        !is_excluded(around.patterns, entry.path, entry.stat.st_mode),
        type_bits(kept_metadata(around, entry.stat, (tree.at)(entry.path)).stat.mode) == IFDIR,
    ensures
        ({
            let with = archived_entry(tree, with_catalog(around, true), entry, learnt, depth);
            let plain = archived_entry(tree, with_catalog(around, false), entry, learnt, depth);
            without_catalog(with.log) == plain.log && with.learnt == plain.learnt
        }),
    decreases depth, 0nat, 0nat,
{
    let a = with_catalog(around, true);
    let b = with_catalog(around, false);
    let name = entry.name;
    let info = (tree.at)(entry.path);
    let metadata = kept_metadata(around, entry.stat, info);
    assert(kept_metadata(a, entry.stat, info) == metadata);
    assert(kept_metadata(b, entry.stat, info) == metadata);
    let inside = surroundings_below(around, entry, info);
    let entered = is_entered(around, entry, info) && depth > 0;
    assert(surroundings_below(a, entry, info) == with_catalog(inside, true));
    assert(surroundings_below(b, entry, info) == with_catalog(inside, false));
    let none = Archived { log: Seq::empty(), learnt };
    let c = if entered {
        archived_contents(tree, with_catalog(inside, true), entry.path, learnt, (depth - 1) as nat)
    } else {
        none
    };
    let d = if entered {
        archived_contents(tree, with_catalog(inside, false), entry.path, learnt, (depth - 1) as nat)
    } else {
        none
    };
    if entered {
        lemma_contents_without(tree, inside, entry.path, learnt, (depth - 1) as nat);
    } else {
        assert(without_catalog(none.log) =~= none.log) by {
            reveal(without_catalog);
            reveal(Seq::filter);
        }
    }
    lemma_directory_without(
        around,
        entry.path,
        CatalogOp::StartDirectory(name),
        EncodeOp::Directory { name, metadata },
        c.log,
        d.log,
    );
}

/// The catalog changes nothing of what is written for an entry.
proof fn lemma_entry_without(tree: Tree, around: Surroundings, entry: FileView, learnt: Learnt, depth: nat)
    ensures
        ({
            let with = archived_entry(tree, with_catalog(around, true), entry, learnt, depth);
            let plain = archived_entry(tree, with_catalog(around, false), entry, learnt, depth);
            without_catalog(with.log) == plain.log && with.learnt == plain.learnt
        }),
    decreases depth, 0nat, 1nat,
{
    let a = with_catalog(around, true);
    let b = with_catalog(around, false);
    let info = (tree.at)(entry.path);
    let announced = seq![ActionView::Callback(entry.path)];
    lemma_without_one(ActionView::Callback(entry.path));
    if around.is_root && entry.name == cli_name() {
        let content = excludes_cli(around.patterns);
        lemma_writes_without(
            around,
            CatalogOp::AddFile { name: cli_name(), size: content.len() as u64, mtime: 0 },
            EncodeOp::Content { name: cli_name(), metadata: cli_metadata(), content },
        );
    } else if is_excluded(around.patterns, entry.path, entry.stat.st_mode) {
        assert(archived_entry(tree, a, entry, learnt, depth).log == announced);
        assert(archived_entry(tree, b, entry, learnt, depth).log == announced);
    } else if type_bits(kept_metadata(around, entry.stat, info).stat.mode) == IFDIR {
        lemma_subtree_without(tree, around, entry, learnt, depth);
    } else {
        lemma_leaf(tree, a, entry, learnt, depth);
        lemma_leaf(tree, b, entry, learnt, depth);
        lemma_leaf_learnt(tree, around, entry, learnt, depth);
        let (catalog, op) = leaf_writes(a, entry, info, learnt);
        assert((catalog, op) == leaf_writes(b, entry, info, learnt));
        lemma_writes_without(around, catalog, op);
        lemma_without_catalog(announced, writes(a, catalog, op));
    }
}

/// The catalog changes nothing of what is written for entries.
proof fn lemma_entries_without(
    tree: Tree,
    around: Surroundings,
    entries: Seq<FileView>,
    learnt: Learnt,
    depth: nat,
)
    ensures
        ({
            let with = archived_entries(tree, with_catalog(around, true), entries, learnt, depth);
            let plain = archived_entries(tree, with_catalog(around, false), entries, learnt, depth);
            without_catalog(with.log) == plain.log && with.learnt == plain.learnt
        }),
    decreases depth, 1nat, entries.len(),
{
    let a = with_catalog(around, true);
    let b = with_catalog(around, false);
    let with = archived_entries(tree, a, entries, learnt, depth);
    let plain = archived_entries(tree, b, entries, learnt, depth);
    if entries.len() == 0 {
        assert(without_catalog(with.log) =~= plain.log) by {
            reveal(without_catalog);
            reveal(Seq::filter);
        }
    } else {
        let one = archived_entry(tree, a, entries[0], learnt, depth);
        let two = archived_entry(tree, b, entries[0], learnt, depth);
        lemma_entry_without(tree, around, entries[0], learnt, depth);
        lemma_entries_without(tree, around, entries.drop_first(), one.learnt, depth);
        let rest = archived_entries(tree, a, entries.drop_first(), one.learnt, depth);
        let other = archived_entries(tree, b, entries.drop_first(), two.learnt, depth);
        lemma_without_catalog(one.log, rest.log);
        assert(with.log == one.log + rest.log);
        assert(plain.log == two.log + other.log);
    }
}

/// The catalog changes nothing of what is written for the contents of a directory.
proof fn lemma_contents_without(tree: Tree, around: Surroundings, path: Seq<u8>, learnt: Learnt, depth: nat)
    ensures
        ({
            let with = archived_contents(tree, with_catalog(around, true), path, learnt, depth);
            let plain = archived_contents(tree, with_catalog(around, false), path, learnt, depth);
            without_catalog(with.log) == plain.log && with.learnt == plain.learnt
        }),
    decreases depth, 2nat, 0nat,
{
    let a = with_catalog(around, true);
    let b = with_catalog(around, false);
    let inside = surroundings_inside(tree, around, path);
    assert(surroundings_inside(tree, a, path) == with_catalog(inside, true));
    assert(surroundings_inside(tree, b, path) == with_catalog(inside, false));
    lemma_listed_without(tree, inside, path, (tree.at)(path).names.len());
    let order = in_name_order(listing(tree, with_catalog(inside, true), path));
    lemma_entries_without(tree, inside, order, learnt_inside(tree, path, learnt), depth);
    assert(archived_contents(tree, a, path, learnt, depth) == archived_entries(
        tree,
        with_catalog(inside, true),
        order,
        learnt_inside(tree, path, learnt),
        depth,
    ));
    assert(archived_contents(tree, b, path, learnt, depth) == archived_entries(
        tree,
        with_catalog(inside, false),
        order,
        learnt_inside(tree, path, learnt),
        depth,
    ));
}

/// The archive is the same with and without a catalog: what is written to the catalog comes in
/// addition, and changes nothing of what is announced, of what goes into the archive, and of the order
/// in which it does.
pub proof fn law_catalog_changes_nothing_else(
    tree: Tree,
    around: Surroundings,
    path: Seq<u8>,
    learnt: Learnt,
    depth: nat,
)
    ensures
        archived_contents(tree, Surroundings { has_catalog: true, ..around }, path, learnt, depth).log.filter(
            |action: ActionView| !(action is Catalog),
        ) == archived_contents(tree, Surroundings { has_catalog: false, ..around }, path, learnt, depth).log,
        archived_contents(tree, Surroundings { has_catalog: true, ..around }, path, learnt, depth).learnt
            == archived_contents(tree, Surroundings { has_catalog: false, ..around }, path, learnt, depth).learnt,
{
    reveal(without_catalog);
    lemma_contents_without(tree, around, path, learnt, depth);
}

// ---------------------------------------------------------------------------------------------
// The whole archive
// ---------------------------------------------------------------------------------------------

/// The archive of a tree starts with the metadata of the source directory and ends with success;
/// between stands what is written for the contents of the source directory, and nothing else.
pub proof fn law_archive_holds_the_contents(
    tree: Tree,
    around: Surroundings,
    depth: nat,
    metadata: MetadataView,
)
    requires
        metadata_of(
            (tree.at)(Seq::<u8>::empty()).stat,
            around.feature_flags.spec_and(around.fs_flags),
            around.magic,
            (tree.at)(Seq::<u8>::empty()).facts,
        ) == MetadataResult::Ok(metadata),
    ensures
        archived_tree(tree, around, depth) =~= seq![ActionView::Encode(EncodeOp::NewArchive(metadata))]
            + archived_contents(
            tree,
            around,
            Seq::<u8>::empty(),
            (Learnt { hardlinks: Map::empty(), warnings: Seq::empty() }),
            depth,
        ).log + seq![ActionView::Encode(EncodeOp::Finish), ActionView::Finished(Ok(()))],
{
}

/// Every file of the source directory is announced in the archive of a tree, unless its name is one of
/// the four that are passed over or a pattern excludes it.
pub proof fn law_archive_has_every_other_file(tree: Tree, around: Surroundings, depth: nat, k: int)
    requires
        0 <= k < (tree.at)(Seq::<u8>::empty()).names.len(),
        is_entry_name((tree.at)(Seq::<u8>::empty()).names[k]@, around.is_root),
        !is_excluded(
            surroundings_inside(tree, around, Seq::<u8>::empty()).patterns,
            (tree.at)(Seq::<u8>::empty()).names[k]@,
            (tree.at)((tree.at)(Seq::<u8>::empty()).names[k]@).stat.st_mode,
        ),
    ensures
        archived_tree(tree, around, depth).contains(
            ActionView::Callback((tree.at)(Seq::<u8>::empty()).names[k]@),
        ),
{
    let none: Seq<u8> = Seq::empty();
    let nothing = Learnt { hardlinks: Map::empty(), warnings: Seq::empty() };
    let name = (tree.at)(none).names[k]@;
    law_path_of_an_entry(none, name);
    law_every_other_file_is_announced(tree, around, none, nothing, depth, k);
    let source = (tree.at)(none);
    let start = seq![ActionView::Encode(EncodeOp::NewArchive(kept_metadata(around, source.stat, source)))];
    let contents = archived_contents(tree, around, none, nothing, depth).log;
    let end = seq![ActionView::Encode(EncodeOp::Finish), ActionView::Finished(Ok(()))];
    assert(archived_tree(tree, around, depth) == start + contents + end);
    lemma_in_whole(start, contents);
    lemma_in_whole(start + contents, end);
}

/// No more entries are counted than there are names.
proof fn lemma_counted(tree: Tree, around: Surroundings, path: Seq<u8>, n: nat)
    ensures
        0 <= counted(tree, around, path, n) <= n,
    decreases n,
{
    if n > 0 {
        lemma_counted(tree, around, path, (n - 1) as nat);
    }
}

/// A directory without directories and without patterns of its own can be archived, whatever its files
/// are called, if their metadata can be kept, they are of known types, and there are no more names than
/// the limit allows for.
pub proof fn law_files_can_be_archived(
    tree: Tree,
    around: Surroundings,
    path: Seq<u8>,
    counter: int,
    limit: int,
    depth: nat,
)
    requires
        (tree.at)(path).lines is None,
        counter + (tree.at)(path).names.len() <= limit,
        forall|k: int|
            #![trigger (tree.at)(path).names[k]]
            0 <= k < (tree.at)(path).names.len() ==> ({
                let info = (tree.at)(joined(path, (tree.at)(path).names[k]@));
                let file_type = info.stat.st_mode & 0xf000;
                &&& metadata_of(
                    info.stat,
                    around.feature_flags.spec_and(around.fs_flags),
                    around.magic,
                    info.facts,
                ) is Ok
                &&& file_type == 0x8000 || file_type == 0xa000 || file_type == 0xc000 || file_type == 0x6000
                    || file_type == 0x2000 || file_type == 0x1000
            }),
    ensures
        is_archivable(tree, around, path, counter, limit, depth),
{
    lemma_counted(tree, around, path, (tree.at)(path).names.len());
    let all = listing(tree, around, path);
    let inner = counter + counted(tree, around, path, (tree.at)(path).names.len());
    assert(surroundings_inside(tree, around, path) == around);
    assert forall|i: int| 0 <= i < all.len() implies is_archivable_entry(
        tree,
        around,
        #[trigger] all[i],
        inner,
        limit,
        depth,
    ) by {
        let entry = all[i];
        let k = lemma_listed_from(tree, around, path, (tree.at)(path).names.len(), i);
        if k >= 0 {
            let info = (tree.at)(entry.path);
            assert((tree.at)(path).names[k]@ == entry.name);
            lemma_type(
                entry.stat,
                around.feature_flags.spec_and(around.fs_flags),
                around.magic,
                info.facts,
                kept_metadata(around, entry.stat, info),
            );
        }
    }
}

/// The pattern that leaves `lost+found` out, byte by byte.
pub proof fn lemma_lost_and_found()
    ensures
        lost_and_found() == seq![0x6cu8, 0x6f, 0x73, 0x74, 0x2b, 0x66, 0x6f, 0x75, 0x6e, 0x64],
        glob_text(lost_and_found()) == lost_and_found(),
        parsed_entry(lost_and_found(), 2, MatchType::Exclude) == (EntryView {
            pattern: PatternView::Pattern { text: lost_and_found(), flags: 2 },
            match_type: MatchType::Exclude,
            flags: 0x7f00,
        }),
{
    broadcast use is_ascii_spec_bytes;

    reveal_strlit("lost+found");
    assert("lost+found".is_ascii());
    let name = seq![0x6cu8, 0x6f, 0x73, 0x74, 0x2b, 0x66, 0x6f, 0x75, 0x6e, 0x64];
    assert(lost_and_found() =~= name);
    let none: Seq<u8> = Seq::empty();
    law_pattern_stands_for_itself(name, none, 2, MatchType::Exclude);
    assert(name + none =~= name);
}

/// The settings of an archive are kept for the source directory: `lost+found` is left out, whatever it
/// is, only where that is asked for, and the device of the source directory is always among those that
/// are entered.
pub proof fn law_settings_of_the_source(
    tree: Tree,
    patterns: Seq<EntryView>,
    feature_flags: Flags,
    device_set: Option<Set<u64>>,
    skip_lost_and_found: bool,
    has_catalog: bool,
)
    ensures
        ({
            let source = (tree.at)(Seq::<u8>::empty());
            let around = source_surroundings(
                tree,
                patterns,
                feature_flags,
                device_set,
                skip_lost_and_found,
                has_catalog,
            );
            &&& !skip_lost_and_found ==> around.patterns == patterns
            &&& skip_lost_and_found ==> around.patterns == patterns.push(
                EntryView {
                    pattern: PatternView::Pattern {
                        text: seq![0x6cu8, 0x6f, 0x73, 0x74, 0x2b, 0x66, 0x6f, 0x75, 0x6e, 0x64],
                        flags: 2,
                    },
                    match_type: MatchType::Exclude,
                    flags: 0x7f00,
                },
            )
            &&& around.dev == source.stat.st_dev && around.magic == source.magic && around.fs_flags
                == source.flags
            &&& around.feature_flags == feature_flags && around.is_root && around.has_catalog == has_catalog
            &&& device_set is None <==> around.device_set is None
            &&& device_set matches Some(set) ==> (around.device_set matches Some(all) && forall|dev: u64| #[trigger]
                all.contains(dev) <==> set.contains(dev) || dev == source.stat.st_dev)
        }),
{
    lemma_lost_and_found();
}

/// Which features count: those that are both asked for and there.
pub proof fn law_features_are_in_both(asked: Flags, there: Flags)
    ensures
        asked.spec_and(there).with_xattrs <==> asked.with_xattrs && there.with_xattrs,
        asked.spec_and(there).with_acl <==> asked.with_acl && there.with_acl,
        asked.spec_and(there).with_fcaps <==> asked.with_fcaps && there.with_fcaps,
        asked.spec_and(there).with_quota_projid <==> asked.with_quota_projid && there.with_quota_projid,
{
}

/// The refused patterns of a directory are reported with its path, in their order, after all that was
/// reported before.
pub proof fn law_refused_patterns_are_reported(tree: Tree, path: Seq<u8>, learnt: Learnt)
    ensures
        learnt_inside(tree, path, learnt).hardlinks == learnt.hardlinks,
        (tree.at)(path).lines is None ==> learnt_inside(tree, path, learnt).warnings == learnt.warnings,
        (tree.at)(path).lines matches Some(lines) ==> ({
            let all = learnt_inside(tree, path, learnt).warnings;
            let messages = exclude_errors(path, byte_strings(lines@));
            &&& all.len() == learnt.warnings.len() + messages.len()
            &&& forall|i: int| 0 <= i < learnt.warnings.len() ==> #[trigger] all[i] == learnt.warnings[i]
            &&& forall|i: int|
                0 <= i < messages.len() ==> all[learnt.warnings.len() + i] == Warning::<
                    Seq<u8>,
                    Seq<char>,
                >::BadPattern(path, #[trigger] messages[i])
        }),
{
}

/// The entries of a directory come by name: of two names that are equal up to some place, the one with
/// the smaller byte there comes first, and the one that ends there before the longer one.
pub proof fn law_names_come_in_byte_order(
    entries: Seq<FileView>,
    i: int,
    j: int,
    same: Seq<u8>,
    x: u8,
    y: u8,
    rest: Seq<u8>,
    other: Seq<u8>,
)
    requires
        0 <= i < in_name_order(entries).len(),
        0 <= j < in_name_order(entries).len(),
        x < y,
        in_name_order(entries)[i].name == same + seq![x] + rest || in_name_order(entries)[i].name == same,
        in_name_order(entries)[j].name == same + seq![y] + other,
    ensures
        i < j,
{
    lemma_order_holds(entries);
    let order = in_name_order(entries);
    law_byte_order(same, x, y, rest, other);
    if j < i {
        assert(bytes_le(order[j].name, order[i].name));
    }
    assert(order[i].name != order[j].name);
}

} // verus!
