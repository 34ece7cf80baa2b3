//! What holds of the file operations taken together.
use vstd::prelude::*;
use vstd::utf8::*;

use crate::block::{
    alloc_order, blocks_for, cleared, first_free, lemma_alloc_order, lemma_count_cleared,
    lemma_first_free, used_after,
};
use crate::config::NAME_LENGTH_LIMIT;
use crate::dirent::{
    appended, emptied, entry_count, entry_inode, entry_name, entry_raw, first_nul, is_absent,
    is_first, lemma_appended, lemma_emptied, lemma_first_nul, lemma_listing_same,
    lemma_listing_upto, lemma_lookup_index, lemma_lookup_index_is, listing, listing_upto, lookup,
    lookup_index, names_are_text, plain_name, until_nul,
};
use crate::efs::{
    Rejected, clear_step, create_step, find_answer, hardlink_step, ls_answer, read_answer,
    unlink_step, write_step,
};
use crate::handle::{
    InodeHandle, can_append, content_after_write, created, lemma_handle_of, linked,
    size_after_write, unlinked, with_new_file,
};
use crate::image::{FsImage, FsView, lemma_wf_sound};
use crate::layout::{DiskInode, DiskInodeType, FileView, span};

verus! {

impl FsView {
    /// Inode `i` is a directory.
    pub open spec fn has_dir(self, i: int) -> bool {
        &&& 0 <= i < self.files.len()
        &&& self.files[i].kind == DiskInodeType::Directory
    }
}

/// No two entries of a directory hold one name, but for the empty name of emptied entries.
pub open spec fn names_distinct(content: Seq<u8>) -> bool {
    forall|i: int, j: int|
        0 <= i < j < entry_count(content) && (#[trigger] entry_name(content, i)).len() > 0
            ==> entry_name(content, i) != #[trigger] entry_name(content, j)
}

/// A file system that is well formed is sound.
pub proof fn law_well_formed_is_sound(fs: FsImage)
    requires
        fs.wf(),
    ensures
        fs@.sound(),
{
    lemma_wf_sound(fs);
}

/// Whatever a file's content is replaced with, no block comes to belong to two files: the blocks
/// that a file gains were free, and those that it loses are free from then on. The blocks that are
/// left have to suffice.
pub proof fn law_content_keeps_sound(fs: FsView, i: int, content: Seq<u8>)
    requires
        fs.sound(),
        0 <= i < fs.files.len(),
        content.len() <= u32::MAX,
        fs.can_grow(i, content.len() as int),
    ensures
        fs.with_content(i, content).sound(),
        fs.with_content(i, content).free_blocks() == fs.free_blocks() + blocks_for(
            fs.files[i].content.len() as int,
        ) - blocks_for(content.len() as int),
{
    let after = fs.with_content(i, content);
    let f = fs.files[i];
    let n = blocks_for(content.len() as int);
    let more = (n - f.blocks.len()) as nat;
    let lost = f.blocks.skip(n);
    assert(fs.file_sound(i));
    if n >= f.blocks.len() {
        lemma_alloc_order(fs.data_used, more);
    } else {
        assert forall|a: int| 0 <= a < lost.len() implies (#[trigger] lost[a]) < fs.data_used.len()
            && fs.data_used[lost[a] as int] by {
            assert(lost[a] == f.blocks[n + a]);
        }
        lemma_count_cleared(fs.data_used, lost);
    }
    let order = alloc_order(fs.data_used, more);
    assert forall|j: int| 0 <= j < after.files.len() implies #[trigger] after.file_sound(j) by {
        assert(fs.file_sound(j));
        let g = after.files[j];
        assert forall|a: int| 0 <= a < g.blocks.len() implies (#[trigger] g.blocks[a])
            < after.data_used.len() && after.data_used[g.blocks[a] as int] by {
            if n >= f.blocks.len() {
                if j == i && a >= f.blocks.len() {
                    assert(g.blocks[a] == order[a - f.blocks.len()]);
                    assert(order.contains(g.blocks[a]));
                } else {
                    assert(g.blocks[a] == fs.files[j].blocks[a]);
                }
            } else {
                assert(g.blocks[a] == fs.files[j].blocks[a]);
                if lost.contains(g.blocks[a]) {
                    let b = choose|b: int| 0 <= b < lost.len() && lost[b] == g.blocks[a];
                    assert(lost[b] == f.blocks[n + b]);
                    assert(fs.files[j].blocks[a] == fs.files[i].blocks[n + b]);
                }
            }
        }
        assert(g.blocks.no_duplicates()) by {
            if j == i && n >= f.blocks.len() {
                assert forall|a: int, b: int|
                    0 <= a < g.blocks.len() && 0 <= b < g.blocks.len() && a != b implies g.blocks[a]
                    != g.blocks[b] by {
                    lemma_gained_differ(fs.data_used, f.blocks, order, a, b);
                }
            }
        }
    }
    assert forall|j: int, k: int, a: int, b: int|
        0 <= j < after.files.len() && 0 <= k < after.files.len() && j != k && 0 <= a
            < after.files[j].blocks.len() && 0 <= b < after.files[k].blocks.len() implies
        #[trigger] after.files[j].blocks[a] != #[trigger] after.files[k].blocks[b] by {
        assert(fs.file_sound(j) && fs.file_sound(k));
        if j == i && a >= f.blocks.len() {
            assert(after.files[j].blocks[a] == order[a - f.blocks.len()]);
            assert(after.files[k].blocks[b] == fs.files[k].blocks[b]);
        } else if k == i && b >= f.blocks.len() {
            assert(after.files[k].blocks[b] == order[b - f.blocks.len()]);
            assert(after.files[j].blocks[a] == fs.files[j].blocks[a]);
        } else {
            assert(after.files[j].blocks[a] == fs.files[j].blocks[a]);
            assert(after.files[k].blocks[b] == fs.files[k].blocks[b]);
        }
    }
}

/// Blocks that are taken and blocks that were free behind them: no two are the same.
proof fn lemma_gained_differ(used: Seq<bool>, blocks: Seq<u32>, order: Seq<u32>, a: int, b: int)
    requires
        blocks.no_duplicates(),
        order.no_duplicates(),
        forall|c: int| 0 <= c < blocks.len() ==> used[#[trigger] blocks[c] as int],
        forall|c: int| 0 <= c < order.len() ==> !used[#[trigger] order[c] as int],
        0 <= a < blocks.len() + order.len(),
        0 <= b < blocks.len() + order.len(),
        a != b,
    ensures
        (blocks + order)[a] != (blocks + order)[b],
{
    let m = blocks.len();
    if a < m && b >= m {
        assert(used[blocks[a] as int] && !used[order[b - m] as int]);
    } else if a >= m && b < m {
        assert(used[blocks[b] as int] && !used[order[a - m] as int]);
    } else if a >= m && b >= m {
        assert(order[a - m] != order[b - m]);
    }
}

/// A file may change its kind, its count of links and whether its inode is in use, and stay sound.
proof fn lemma_same_blocks_sound(fs: FsView, after: FsView)
    requires
        fs.sound(),
        after.inode_area_start == fs.inode_area_start,
        after.data_used == fs.data_used,
        after.used.len() == fs.used.len(),
        after.files.len() == fs.files.len(),
        forall|j: int|
            0 <= j < fs.files.len() ==> {
                &&& (#[trigger] after.files[j]).content == fs.files[j].content
                &&& after.files[j].blocks == fs.files[j].blocks
                &&& after.files[j].kind == DiskInodeType::Directory ==> after.used[j]
            } || {
                &&& after.files[j].content.len() == 0
                &&& after.files[j].blocks.len() == 0
                &&& after.files[j].kind == DiskInodeType::File
            },
    ensures
        after.sound(),
{
    assert forall|j: int| 0 <= j < after.files.len() implies #[trigger] after.file_sound(j) by {
        assert(fs.file_sound(j));
        assert(after.files[j].blocks.len() == 0 || after.files[j].blocks == fs.files[j].blocks);
    }
    assert forall|j: int, k: int, a: int, b: int|
        0 <= j < after.files.len() && 0 <= k < after.files.len() && j != k && 0 <= a
            < after.files[j].blocks.len() && 0 <= b < after.files[k].blocks.len() implies
        #[trigger] after.files[j].blocks[a] != #[trigger] after.files[k].blocks[b] by {
        assert(after.files[j].blocks[a] == fs.files[j].blocks[a]);
        assert(after.files[k].blocks[b] == fs.files[k].blocks[b]);
    }
}

/// A name is found in a directory just where the directory lists it, unless it is the empty name,
/// which is never listed.
pub proof fn law_found_iff_listed(content: Seq<u8>, name: Seq<u8>)
    ensures
        listing(content).contains(name) <==> name.len() > 0 && lookup(content, name) is Some,
{
    lemma_listing_upto(content, entry_count(content), name);
    lemma_lookup_index(content, name);
}

/// A new entry for a name that was absent is the one that the name leads to; every other name leads
/// where it led, and the name is listed last.
pub proof fn law_appended_entry(content: Seq<u8>, name: Seq<u8>, id: u32)
    requires
        plain_name(name),
        lookup(content, name) is None,
    ensures
        lookup(appended(content, name, id), name) == Some(id),
        forall|other: Seq<u8>|
            other != name ==> #[trigger] lookup(appended(content, name, id), other) == lookup(
                content,
                other,
            ),
        listing(appended(content, name, id)) == if name.len() == 0 {
            listing(content)
        } else {
            listing(content).push(name)
        },
        names_distinct(content) ==> names_distinct(appended(content, name, id)),
{
    let after = appended(content, name, id);
    let n = entry_count(content);
    lemma_appended(content, name, id);
    lemma_lookup_index(content, name);
    assert forall|i: int| 0 <= i < n implies #[trigger] entry_name(after, i) == entry_name(
        content,
        i,
    ) by {
        assert(entry_raw(after, i) == entry_raw(content, i));
    }
    assert(is_first(after, name, n)) by {
        assert forall|j: int| 0 <= j < n implies #[trigger] entry_name(after, j) != name by {
            assert(entry_name(content, j) != name);
        }
    }
    lemma_lookup_index_is(after, name, n);
    assert forall|other: Seq<u8>| other != name implies #[trigger] lookup(after, other) == lookup(
        content,
        other,
    ) by {
        lemma_lookup_index(content, other);
        match lookup_index(content, other) {
            Some(i) => {
                assert(entry_raw(after, i) == entry_raw(content, i));
                assert(is_first(after, other, i)) by {
                    assert forall|j: int| 0 <= j < i implies #[trigger] entry_name(after, j)
                        != other by {
                        assert(entry_name(content, j) != other);
                    }
                }
                lemma_lookup_index_is(after, other, i);
            },
            None => {
                assert(is_absent(after, other)) by {
                    assert forall|j: int| 0 <= j < entry_count(after) implies #[trigger] entry_name(
                        after,
                        j,
                    ) != other by {
                        if j < n {
                            assert(entry_name(content, j) != other);
                        }
                    }
                }
            },
        }
    }
    lemma_listing_same(content, after, n);
    if names_distinct(content) {
        assert forall|i: int, j: int|
            0 <= i < j < entry_count(after) && (#[trigger] entry_name(after, i)).len() > 0 implies
            entry_name(after, i) != #[trigger] entry_name(after, j) by {
            assert(entry_name(after, i) == entry_name(content, i));
            if j < n {
                assert(entry_name(after, j) == entry_name(content, j));
            } else {
                assert(entry_name(content, i) != name);
            }
        }
    }
}

/// Emptying the entry that a name leads to takes the name out of the list, and no other; where no
/// two entries share a name, the name is not found from then on, and every other name but the empty
/// one leads where it led.
pub proof fn law_emptied_entry(content: Seq<u8>, name: Seq<u8>, i: int)
    requires
        name.len() > 0,
        lookup_index(content, name) == Some(i),
    ensures
        listing(content)[listing_upto(content, i).len() as int] == name,
        listing(emptied(content, i)) == listing(content).remove(
            listing_upto(content, i).len() as int,
        ),
        names_distinct(content) ==> {
            &&& names_distinct(emptied(content, i))
            &&& lookup(emptied(content, i), name) is None
            &&& forall|other: Seq<u8>|
                other != name && other.len() > 0 ==> #[trigger] lookup(emptied(content, i), other)
                    == lookup(content, other)
        },
{
    let after = emptied(content, i);
    lemma_lookup_index(content, name);
    lemma_emptied(content, i);
    assert forall|j: int| 0 <= j < entry_count(content) && j != i implies #[trigger] entry_name(
        after,
        j,
    ) == entry_name(content, j) by {
        assert(entry_raw(after, j) == entry_raw(content, j));
    }
    lemma_listing_without(content, i, entry_count(content));
    if names_distinct(content) {
        assert forall|j: int, k: int|
            0 <= j < k < entry_count(after) && (#[trigger] entry_name(after, j)).len() > 0 implies
            entry_name(after, j) != #[trigger] entry_name(after, k) by {
            assert(entry_name(after, j) == entry_name(content, j));
            if k != i {
                assert(entry_name(after, k) == entry_name(content, k));
            }
        }
        assert(is_absent(after, name)) by {
            assert forall|j: int| 0 <= j < entry_count(after) implies #[trigger] entry_name(after, j)
                != name by {
                if j < i {
                    assert(entry_name(content, j) != name);
                } else if j > i {
                    assert(entry_name(content, i) != entry_name(content, j));
                }
            }
        }
        assert forall|other: Seq<u8>| other != name && other.len() > 0 implies #[trigger] lookup(
            after,
            other,
        ) == lookup(content, other) by {
            lemma_lookup_index(content, other);
            match lookup_index(content, other) {
                Some(k) => {
                    assert(entry_raw(after, k) == entry_raw(content, k));
                    assert(is_first(after, other, k)) by {
                        assert forall|j: int| 0 <= j < k implies #[trigger] entry_name(after, j)
                            != other by {
                            assert(entry_name(content, j) != other);
                        }
                    }
                    lemma_lookup_index_is(after, other, k);
                },
                None => {
                    assert(is_absent(after, other)) by {
                        assert forall|j: int|
                            0 <= j < entry_count(after) implies #[trigger] entry_name(after, j)
                            != other by {
                            if j != i {
                                assert(entry_name(content, j) != other);
                            }
                        }
                    }
                },
            }
        }
    }
}

proof fn lemma_listing_without(content: Seq<u8>, i: int, n: int)
    requires
        0 <= i < n <= entry_count(content),
        entry_name(content, i).len() > 0,
    ensures
        listing_upto(content, i).len() < listing_upto(content, n).len(),
        listing_upto(content, n)[listing_upto(content, i).len() as int] == entry_name(content, i),
        listing_upto(emptied(content, i), n) == listing_upto(content, n).remove(
            listing_upto(content, i).len() as int,
        ),
    decreases n,
{
    let after = emptied(content, i);
    lemma_emptied(content, i);
    let pos = listing_upto(content, i).len() as int;
    if n == i + 1 {
        assert forall|j: int| 0 <= j < i implies #[trigger] entry_name(after, j) == entry_name(
            content,
            j,
        ) by {
            assert(entry_raw(after, j) == entry_raw(content, j));
        }
        lemma_listing_same(content, after, i);
        assert(listing_upto(content, n).remove(pos) =~= listing_upto(content, i));
    } else {
        lemma_listing_without(content, i, n - 1);
        assert(entry_raw(after, n - 1) == entry_raw(content, n - 1));
        assert(listing_upto(after, n) =~= listing_upto(content, n).remove(pos));
    }
}

/// A directory whose names are all text stays one when an entry is added under a name that is text,
/// and when an entry is emptied: it can be listed at all times.
pub proof fn law_names_stay_text(content: Seq<u8>, name: Seq<u8>, id: u32, i: int)
    requires
        names_are_text(content),
        valid_utf8(name),
        name.len() <= NAME_LENGTH_LIMIT,
    ensures
        names_are_text(appended(content, name, id)),
        0 <= i < entry_count(content) ==> names_are_text(emptied(content, i)),
{
    let more = appended(content, name, id);
    lemma_appended(content, name, id);
    lemma_first_nul(name, 0);
    let m = first_nul(name, 0);
    if m < name.len() {
        is_char_boundary_iff_not_is_continuation_byte(name, m);
    } else {
        is_char_boundary_start_end_of_seq(name);
    }
    valid_utf8_split(name, m);
    assert(until_nul(name) =~= name.subrange(0, m));
    assert forall|j: int| 0 <= j < entry_count(more) implies valid_utf8(
        #[trigger] entry_name(more, j),
    ) by {
        if j < entry_count(content) {
            assert(entry_raw(more, j) == entry_raw(content, j));
            assert(valid_utf8(entry_name(content, j)));
        }
    }
    if 0 <= i < entry_count(content) {
        let less = emptied(content, i);
        lemma_emptied(content, i);
        assert forall|j: int| 0 <= j < entry_count(less) implies valid_utf8(
            #[trigger] entry_name(less, j),
        ) by {
            if j != i {
                assert(entry_raw(less, j) == entry_raw(content, j));
                assert(valid_utf8(entry_name(content, j)));
            }
        }
    }
}

/// A file that was made is found under its name: it is empty, is no directory and has one link.
/// Every other name leads where it led, the name is listed last, and no file but the directory and
/// the new one has changed.
pub proof fn law_create_then_find(fs: FsView, dir: int, name: Seq<u8>)
    requires
        fs.sound(),
        fs.has_dir(dir),
        plain_name(name),
        lookup(fs.files[dir].content, name) is None,
        first_free(fs.used) < fs.used.len(),
        can_append(with_new_file(fs), dir),
    ensures
        ({
            let after = created(fs, dir, name);
            let id = first_free(fs.used);
            &&& lookup(after.files[dir].content, name) == Some(id as u32)
            &&& after.files[id] == (FileView {
                kind: DiskInodeType::File,
                ref_cnt: 1,
                content: Seq::empty(),
                blocks: Seq::empty(),
            })
            &&& !fs.used[id] && after.used == fs.used.update(id, true)
            &&& forall|other: Seq<u8>|
                other != name ==> #[trigger] lookup(after.files[dir].content, other) == lookup(
                    fs.files[dir].content,
                    other,
                )
            &&& listing(after.files[dir].content) == if name.len() == 0 {
                listing(fs.files[dir].content)
            } else {
                listing(fs.files[dir].content).push(name)
            }
            &&& forall|j: int|
                0 <= j < fs.files.len() && j != dir && j != id ==> #[trigger] after.files[j]
                    == fs.files[j]
            &&& after.sound() && after.has_dir(dir)
            &&& names_distinct(fs.files[dir].content) ==> names_distinct(after.files[dir].content)
        }),
{
    lemma_first_free(fs.used);
    let id = first_free(fs.used);
    assert(fs.file_sound(dir));
    assert(id != dir);
    law_appended_entry(fs.files[dir].content, name, id as u32);
    lemma_appended(fs.files[dir].content, name, id as u32);
    let with_file = with_new_file(fs);
    assert forall|j: int|
        0 <= j < fs.files.len() && j != id && (#[trigger] with_file.files[j]).kind
            == DiskInodeType::Directory implies with_file.used[j] by {
        assert(fs.file_sound(j));
    }
    lemma_same_blocks_sound(fs, with_file);
    let content = appended(fs.files[dir].content, name, id as u32);
    law_content_keeps_sound(with_file, dir, content);
    lemma_same_blocks_sound(with_file.with_content(dir, content), created(fs, dir, name));
}

/// A file that was given a second name is found under both; it counts one link more and is
/// unchanged otherwise, unless it is the directory itself. Every other name leads where it led, and
/// no file but the directory and this one has changed.
pub proof fn law_hardlink_then_find(fs: FsView, dir: int, src: Seq<u8>, dst: Seq<u8>)
    requires
        fs.sound(),
        fs.has_dir(dir),
        plain_name(dst),
        lookup(fs.files[dir].content, dst) is None,
        lookup(fs.files[dir].content, src) is Some,
        lookup(fs.files[dir].content, src)->0 < fs.files.len(),
        fs.files[lookup(fs.files[dir].content, src)->0 as int].ref_cnt < u32::MAX,
        can_append(fs, dir),
    ensures
        ({
            let id = lookup(fs.files[dir].content, src)->0;
            let after = linked(fs, dir, dst, id);
            &&& lookup(after.files[dir].content, dst) == Some(id)
            &&& lookup(after.files[dir].content, src) == Some(id)
            &&& after.files[id as int].ref_cnt == fs.files[id as int].ref_cnt + 1
            &&& id != dir ==> after.files[id as int].content == fs.files[id as int].content
            &&& forall|other: Seq<u8>|
                other != dst ==> #[trigger] lookup(after.files[dir].content, other) == lookup(
                    fs.files[dir].content,
                    other,
                )
            &&& listing(after.files[dir].content) == if dst.len() == 0 {
                listing(fs.files[dir].content)
            } else {
                listing(fs.files[dir].content).push(dst)
            }
            &&& forall|j: int|
                0 <= j < fs.files.len() && j != dir && j != id ==> #[trigger] after.files[j]
                    == fs.files[j]
            &&& after.sound() && after.has_dir(dir)
            &&& names_distinct(fs.files[dir].content) ==> names_distinct(after.files[dir].content)
        }),
{
    let id = lookup(fs.files[dir].content, src)->0;
    let after = linked(fs, dir, dst, id);
    let counted = fs.with_ref_cnt(id as int, (fs.files[id as int].ref_cnt + 1) as u32);
    assert(counted.files[dir].content == fs.files[dir].content);
    law_appended_entry(fs.files[dir].content, dst, id);
    lemma_appended(fs.files[dir].content, dst, id);
    assert forall|j: int|
        0 <= j < fs.files.len() && (#[trigger] counted.files[j]).kind
            == DiskInodeType::Directory implies counted.used[j] by {
        assert(fs.file_sound(j));
    }
    lemma_same_blocks_sound(fs, counted);
    let content = appended(fs.files[dir].content, dst, id);
    law_content_keeps_sound(counted, dir, content);
    assert forall|j: int|
        0 <= j < fs.files.len() && (#[trigger] after.files[j]).kind
            == DiskInodeType::Directory implies after.used[j] by {
        assert(counted.file_sound(j));
    }
    lemma_same_blocks_sound(counted.with_content(dir, content), after);
}

/// A name that was unlinked is not found any more, where no two entries share a name; every other
/// name but the empty one leads where it led, and the list loses that name alone. The file counts
/// one link less and keeps its content, and its inode and blocks stay taken. No file but the
/// directory and this one has changed.
pub proof fn law_unlink(fs: FsView, dir: int, name: Seq<u8>)
    requires
        fs.sound(),
        fs.has_dir(dir),
        name.len() > 0,
        names_distinct(fs.files[dir].content),
        lookup(fs.files[dir].content, name) is Some,
        lookup(fs.files[dir].content, name)->0 < fs.files.len(),
        fs.files[lookup(fs.files[dir].content, name)->0 as int].ref_cnt > 0,
    ensures
        ({
            let i = lookup_index(fs.files[dir].content, name)->0;
            let id = lookup(fs.files[dir].content, name)->0;
            let after = unlinked(fs, dir, i, id);
            &&& lookup(after.files[dir].content, name) is None
            &&& forall|other: Seq<u8>|
                other != name && other.len() > 0 ==> #[trigger] lookup(
                    after.files[dir].content,
                    other,
                ) == lookup(fs.files[dir].content, other)
            &&& listing(after.files[dir].content) == listing(fs.files[dir].content).remove(
                listing_upto(fs.files[dir].content, i).len() as int,
            )
            &&& listing(fs.files[dir].content)[listing_upto(
                fs.files[dir].content,
                i,
            ).len() as int] == name
            &&& after.files[id as int].ref_cnt == fs.files[id as int].ref_cnt - 1
            &&& id != dir ==> after.files[id as int].content == fs.files[id as int].content
            &&& after.used == fs.used
            &&& after.data_used == fs.data_used
            &&& forall|j: int|
                0 <= j < fs.files.len() && j != dir && j != id ==> #[trigger] after.files[j]
                    == fs.files[j]
            &&& after.sound() && after.has_dir(dir)
            &&& names_distinct(after.files[dir].content)
        }),
{
    let content = fs.files[dir].content;
    lemma_lookup_index(content, name);
    let i = lookup_index(content, name)->0;
    let id = lookup(content, name)->0;
    let after = unlinked(fs, dir, i, id);
    law_emptied_entry(content, name, i);
    lemma_emptied(content, i);
    assert(after.files[dir].content == emptied(content, i));
    lemma_unlinked_sound(fs, dir, i, id);
}

/// Unlinking takes no block and gives none back.
proof fn lemma_unlinked_sound(fs: FsView, dir: int, i: int, id: u32)
    requires
        fs.sound(),
        0 <= dir < fs.files.len(),
        0 <= i < entry_count(fs.files[dir].content),
        id < fs.files.len(),
    ensures
        unlinked(fs, dir, i, id).sound(),
        unlinked(fs, dir, i, id).data_used == fs.data_used,
        forall|j: int|
            0 <= j < fs.files.len() ==> (#[trigger] unlinked(fs, dir, i, id).files[j]).blocks
                == fs.files[j].blocks,
{
    let after = unlinked(fs, dir, i, id);
    let counted = FsView {
        synced: false,
        ..fs.with_ref_cnt(id as int, (fs.files[id as int].ref_cnt - 1) as u32)
    };
    lemma_emptied(fs.files[dir].content, i);
    assert forall|j: int|
        0 <= j < fs.files.len() && (#[trigger] counted.files[j]).kind
            == DiskInodeType::Directory implies counted.used[j] by {
        assert(fs.file_sound(j));
    }
    lemma_same_blocks_sound(fs, counted);
    assert(counted.file_sound(dir));
    law_content_keeps_sound(counted, dir, emptied(counted.files[dir].content, i));
    assert forall|j: int| 0 <= j < fs.files.len() implies (#[trigger] after.files[j]).blocks
        == fs.files[j].blocks by {
        assert(after.files[j].blocks =~= fs.files[j].blocks);
    }
}

/// Emptying the entry that was just added under a name that was absent leaves nothing of it: every
/// name but the empty one leads where it led, and the list is what it was.
pub proof fn law_appended_then_emptied(content: Seq<u8>, name: Seq<u8>, id: u32)
    requires
        plain_name(name),
        name.len() > 0,
        lookup(content, name) is None,
    ensures
        ({
            let more = appended(content, name, id);
            let n = entry_count(content);
            &&& lookup_index(more, name) == Some(n)
            &&& entry_inode(more, n) == id
            &&& forall|other: Seq<u8>|
                other.len() > 0 ==> #[trigger] lookup(emptied(more, n), other) == lookup(
                    content,
                    other,
                )
            &&& listing(emptied(more, n)) == listing(content)
            &&& names_are_text(emptied(more, n)) <==> names_are_text(content)
        }),
{
    let more = appended(content, name, id);
    let n = entry_count(content);
    let back = emptied(more, n);
    lemma_appended(content, name, id);
    lemma_emptied(more, n);
    lemma_lookup_index(content, name);
    assert forall|j: int| 0 <= j < n implies #[trigger] entry_name(more, j) == entry_name(
        content,
        j,
    ) by {
        assert(entry_raw(more, j) == entry_raw(content, j));
    }
    assert forall|j: int| 0 <= j < n implies #[trigger] entry_name(back, j) == entry_name(
        content,
        j,
    ) by {
        assert(entry_raw(back, j) == entry_raw(more, j));
        assert(entry_raw(more, j) == entry_raw(content, j));
    }
    assert(is_first(more, name, n)) by {
        assert forall|j: int| 0 <= j < n implies #[trigger] entry_name(more, j) != name by {
            assert(entry_name(content, j) != name);
        }
    }
    lemma_lookup_index_is(more, name, n);
    assert forall|other: Seq<u8>| other.len() > 0 implies #[trigger] lookup(back, other) == lookup(
        content,
        other,
    ) by {
        lemma_lookup_index(content, other);
        match lookup_index(content, other) {
            Some(i) => {
                assert(entry_raw(back, i) == entry_raw(more, i));
                assert(entry_raw(more, i) == entry_raw(content, i));
                assert(is_first(back, other, i)) by {
                    assert forall|j: int| 0 <= j < i implies #[trigger] entry_name(back, j)
                        != other by {
                        assert(entry_name(content, j) != other);
                    }
                }
                lemma_lookup_index_is(back, other, i);
            },
            None => {
                assert(is_absent(back, other)) by {
                    assert forall|j: int| 0 <= j < entry_count(back) implies #[trigger] entry_name(
                        back,
                        j,
                    ) != other by {
                        if j < n {
                            assert(entry_name(content, j) != other);
                        }
                    }
                }
            },
        }
    }
    lemma_listing_same(content, back, n);
    if names_are_text(back) {
        assert forall|j: int| 0 <= j < n implies valid_utf8(#[trigger] entry_name(content, j)) by {
            assert(valid_utf8(entry_name(back, j)));
        }
    }
    if names_are_text(content) {
        assert forall|j: int| 0 <= j < entry_count(back) implies valid_utf8(
            #[trigger] entry_name(back, j),
        ) by {
            if j < n {
                assert(valid_utf8(entry_name(content, j)));
            }
        }
    }
}

/// Unlinking undoes making a file: the name is gone, every name but the empty one leads where it
/// led, and the list is what it was. The file is left with no link; its inode stays in use. No other
/// file has changed.
pub proof fn law_unlink_undoes_create(fs: FsView, dir: int, name: Seq<u8>)
    requires
        fs.sound(),
        fs.has_dir(dir),
        plain_name(name),
        name.len() > 0,
        lookup(fs.files[dir].content, name) is None,
        first_free(fs.used) < fs.used.len(),
        can_append(with_new_file(fs), dir),
    ensures
        ({
            let id = first_free(fs.used);
            let made = created(fs, dir, name);
            let i = lookup_index(made.files[dir].content, name)->0;
            let after = unlinked(made, dir, i, id as u32);
            &&& lookup(made.files[dir].content, name) == Some(id as u32)
            &&& entry_inode(made.files[dir].content, i) == id
            &&& lookup(after.files[dir].content, name) is None
            &&& forall|other: Seq<u8>|
                other.len() > 0 ==> #[trigger] lookup(after.files[dir].content, other) == lookup(
                    fs.files[dir].content,
                    other,
                )
            &&& listing(after.files[dir].content) == listing(fs.files[dir].content)
            &&& names_are_text(after.files[dir].content) <==> names_are_text(fs.files[dir].content)
            &&& after.files[id].ref_cnt == 0
            &&& after.used == fs.used.update(id, true)
            &&& after.data_used == made.data_used
            &&& forall|j: int|
                0 <= j < fs.files.len() && j != dir && j != id ==> #[trigger] after.files[j]
                    == fs.files[j]
            &&& after.sound() && after.has_dir(dir)
        }),
{
    let content = fs.files[dir].content;
    let id = first_free(fs.used);
    let made = created(fs, dir, name);
    lemma_first_free(fs.used);
    assert(fs.file_sound(dir));
    law_create_then_find(fs, dir, name);
    law_appended_then_emptied(content, name, id as u32);
    assert(made.files[dir].content == appended(content, name, id as u32));
    let i = lookup_index(made.files[dir].content, name)->0;
    lemma_appended(content, name, id as u32);
    lemma_unlinked_sound(made, dir, i, id as u32);
    let after = unlinked(made, dir, i, id as u32);
    assert forall|j: int| 0 <= j < fs.files.len() && j != dir && j != id implies
        #[trigger] after.files[j] == fs.files[j] by {
        assert(made.files[j] == fs.files[j]);
    }
}

/// Unlinking undoes a hard link: the name that was added is gone, the file counts as many links as
/// before, every name but the empty one leads where it led, and the list is what it was.
pub proof fn law_unlink_undoes_hardlink(fs: FsView, dir: int, src: Seq<u8>, dst: Seq<u8>)
    requires
        fs.sound(),
        fs.has_dir(dir),
        plain_name(dst),
        dst.len() > 0,
        lookup(fs.files[dir].content, dst) is None,
        lookup(fs.files[dir].content, src) is Some,
        lookup(fs.files[dir].content, src)->0 < fs.files.len(),
        fs.files[lookup(fs.files[dir].content, src)->0 as int].ref_cnt < u32::MAX,
        can_append(fs, dir),
    ensures
        ({
            let id = lookup(fs.files[dir].content, src)->0;
            let both = linked(fs, dir, dst, id);
            let i = lookup_index(both.files[dir].content, dst)->0;
            let after = unlinked(both, dir, i, id);
            &&& entry_inode(both.files[dir].content, i) == id
            &&& after.files[id as int].ref_cnt == fs.files[id as int].ref_cnt
            &&& forall|name: Seq<u8>|
                name.len() > 0 ==> #[trigger] lookup(after.files[dir].content, name) == lookup(
                    fs.files[dir].content,
                    name,
                )
            &&& listing(after.files[dir].content) == listing(fs.files[dir].content)
        }),
{
    let content = fs.files[dir].content;
    let id = lookup(content, src)->0;
    let both = linked(fs, dir, dst, id);
    law_hardlink_then_find(fs, dir, src, dst);
    law_appended_then_emptied(content, dst, id);
    assert(both.files[dir].content == appended(content, dst, id));
}

/// A directory that was just made shares no name between its entries.
pub proof fn law_empty_dir_distinct()
    ensures
        names_distinct(Seq::<u8>::empty()),
        listing(Seq::<u8>::empty()) == Seq::<Seq<u8>>::empty(),
{
}

/// What was written is what is read back from the same place; the rest of the file is as it was,
/// and a gap before it reads as zeros. The end of what is written has to fit in 32 bits.
pub proof fn law_write_then_read(content: Seq<u8>, offset: int, buf: Seq<u8>)
    requires
        0 <= offset,
        content.len() <= u32::MAX,
        buf.len() > 0 ==> offset + buf.len() <= u32::MAX,
    ensures
        ({
            let after = content_after_write(content, offset, buf);
            &&& span(after.len() as int, offset, buf.len() as int) == buf.len()
            &&& buf.len() > 0 ==> after.subrange(offset, offset + buf.len()) == buf
            &&& forall|p: int|
                0 <= p < after.len() && !(offset <= p < offset + buf.len()) ==> #[trigger] after[p]
                    == if p < content.len() {
                    content[p]
                } else {
                    0
                }
            &&& buf.len() > 0 ==> after.len() == if offset + buf.len() < content.len() {
                content.len() as int
            } else {
                offset + buf.len()
            }
        }),
{
    let after = content_after_write(content, offset, buf);
    if buf.len() > 0 {
        assert(after.subrange(offset, offset + buf.len()) =~= buf);
    }
}

/// Writing to one file leaves every other as it is.
pub proof fn law_write_leaves_others(fs: FsView, i: int, j: int, offset: int, buf: Seq<u8>)
    requires
        fs.sound(),
        0 <= i < fs.files.len(),
        0 <= j < fs.files.len(),
        i != j,
    ensures
        fs.with_content(i, content_after_write(fs.files[i].content, offset, buf)).files[j]
            == fs.files[j],
{
}

/// Emptying a file gives back its blocks and no others, and gives back those that were taken to write
/// to it: in the end it is as if what was written to it never had been.
pub proof fn law_clear_gives_back(fs: FsView, i: int, offset: int, buf: Seq<u8>)
    requires
        fs.sound(),
        0 <= i < fs.files.len(),
        fs.can_grow(
            i,
            size_after_write(fs.files[i].content.len() as int, offset, buf.len() as int),
        ),
    ensures
        ({
            let written = fs.with_content(
                i,
                content_after_write(fs.files[i].content, offset, buf),
            );
            &&& fs.with_content(i, Seq::empty()).data_used == cleared(
                fs.data_used,
                fs.files[i].blocks,
            )
            &&& written.with_content(i, Seq::empty()) == fs.with_content(i, Seq::empty())
            &&& fs.with_content(i, Seq::empty()).free_blocks() == fs.free_blocks() + blocks_for(
                fs.files[i].content.len() as int,
            )
            &&& fs.with_content(i, Seq::empty()).with_content(i, Seq::empty()) == fs.with_content(
                i,
                Seq::empty(),
            )
        }),
{
    let f = fs.files[i];
    let content = content_after_write(f.content, offset, buf);
    let written = fs.with_content(i, content);
    let more = (blocks_for(content.len() as int) - f.blocks.len()) as nat;
    assert(fs.file_sound(i));
    law_content_keeps_sound(fs, i, content);
    law_content_keeps_sound(fs, i, Seq::empty());
    lemma_alloc_order(fs.data_used, more);
    lemma_emptied_file(fs, i);
    lemma_emptied_file(written, i);
    lemma_emptied_file(fs.with_content(i, Seq::empty()), i);
    let gained = alloc_order(fs.data_used, more);
    let blocks = f.blocks + gained;
    assert forall|b: int| 0 <= b < fs.data_used.len() implies #[trigger] cleared(
        used_after(fs.data_used, more),
        blocks,
    )[b] == cleared(fs.data_used, f.blocks)[b] by {
        lemma_either(f.blocks, gained, b as u32);
        if gained.contains(b as u32) {
            let a = choose|a: int| 0 <= a < gained.len() && gained[a] == b as u32;
            assert(!fs.data_used[gained[a] as int]);
        }
    }
    assert(cleared(used_after(fs.data_used, more), blocks) =~= cleared(fs.data_used, f.blocks));
    let gone = fs.with_content(i, Seq::empty());
    assert(written.with_content(i, Seq::empty()) =~= gone);
    assert(cleared(gone.data_used, Seq::empty()) =~= gone.data_used);
    assert(gone.with_content(i, Seq::empty()) =~= gone);
}

/// What is left of a file that was emptied.
proof fn lemma_emptied_file(fs: FsView, i: int)
    requires
        fs.sound(),
        0 <= i < fs.files.len(),
    ensures
        fs.with_content(i, Seq::empty()) == (FsView {
            files: fs.files.update(
                i,
                FileView { content: Seq::empty(), blocks: Seq::empty(), ..fs.files[i] },
            ),
            data_used: cleared(fs.data_used, fs.files[i].blocks),
            ..fs
        }),
{
    let f = fs.files[i];
    assert(fs.file_sound(i));
    assert(f.blocks.skip(0) =~= f.blocks);
    assert(f.blocks.take(0) =~= Seq::empty());
    if f.blocks.len() == 0 {
        assert(cleared(fs.data_used, f.blocks) =~= fs.data_used);
        assert(f.blocks + alloc_order(fs.data_used, 0) =~= Seq::empty());
    }
}

proof fn lemma_either(s: Seq<u32>, t: Seq<u32>, x: u32)
    ensures
        (s + t).contains(x) <==> s.contains(x) || t.contains(x),
{
    let both = s + t;
    if s.contains(x) {
        let a = choose|a: int| 0 <= a < s.len() && s[a] == x;
        assert(both[a] == x);
    }
    if t.contains(x) {
        let a = choose|a: int| 0 <= a < t.len() && t[a] == x;
        assert(both[s.len() + a] == x);
    }
    if both.contains(x) {
        let a = choose|a: int| 0 <= a < both.len() && both[a] == x;
        if a < s.len() {
            assert(s[a] == x);
        } else {
            assert(t[a - s.len()] == x);
        }
    }
}

/// What is read of an inode is what the last change left there: once record `d` was put back in its
/// slot, the handle leads to `d`, and the record stays as it is until the next change. Every other
/// handle leads to what it led to.
pub proof fn law_read_after_modify(pre: FsImage, post: FsImage, inode: InodeHandle, d: DiskInode)
    requires
        pre.wf(),
        inode.valid(pre@),
        post.data == pre.data,
        post.inodes@ == pre.inodes@.update(inode.slot(pre@), d),
        post@ == pre@.with_file(inode.slot(pre@), d.view_in(pre.data)),
    ensures
        inode.valid(post@),
        post.inodes@[inode.slot(post@)] == d,
        inode.file(post@) == d.view_in(post.data),
        forall|other: InodeHandle|
            #![trigger other.file(post@)]
            other.valid(pre@) && other.slot(pre@) != inode.slot(pre@) ==> {
                &&& other.valid(post@)
                &&& post.inodes@[other.slot(post@)] == pre.inodes@[other.slot(pre@)]
                &&& other.file(post@) == other.file(pre@)
            },
{
}

/// The handle that `create` hands out is the one that `find` then finds under the name.
pub proof fn law_find_after_create(
    pre: FsView,
    post: FsView,
    dir: InodeHandle,
    name: Seq<u8>,
    made: InodeHandle,
    found: Result<Option<InodeHandle>, Rejected>,
)
    requires
        pre.sound(),
        plain_name(name),
        create_step(pre, post, dir, name, Ok(Some(made))),
        find_answer(post, dir, name, found),
    ensures
        found == Ok::<Option<InodeHandle>, Rejected>(Some(made)),
        made.valid(post),
        made.file(post) == (FileView {
            kind: DiskInodeType::File,
            ref_cnt: 1,
            content: Seq::empty(),
            blocks: Seq::empty(),
        }),
{
    let id = first_free(pre.used);
    lemma_first_free(pre.used);
    law_create_then_find(pre, dir.slot(pre), name);
    lemma_handle_of(post, id as u32);
}

/// After `hardlink` has given a file a second name, `find` finds one and the same handle under
/// both, and the file counts one link more.
pub proof fn law_find_after_hardlink(
    pre: FsView,
    post: FsView,
    dir: InodeHandle,
    src: Seq<u8>,
    dst: Seq<u8>,
    by_src: Result<Option<InodeHandle>, Rejected>,
    by_dst: Result<Option<InodeHandle>, Rejected>,
)
    requires
        pre.sound(),
        plain_name(dst),
        hardlink_step(pre, post, dir, src, dst, Ok(None)),
        dir.lookup_in(pre, dst) is None,
        dir.lookup_in(pre, src) is Some,
        find_answer(post, dir, src, by_src),
        find_answer(post, dir, dst, by_dst),
    ensures
        by_src == by_dst,
        by_src matches Ok(Some(file)) && file.valid(post) && file.file(post).ref_cnt == file.file(
            pre,
        ).ref_cnt + 1,
{
    let id = dir.lookup_in(pre, src)->0;
    law_hardlink_then_find(pre, dir.slot(pre), src, dst);
    lemma_handle_of(pre, id);
    lemma_handle_of(post, id);
}

/// After `unlink` of a name, `find` finds nothing under it, while it answers every other name but
/// the empty one as before; a file that has another name counts one link less.
pub proof fn law_find_after_unlink(
    pre: FsView,
    post: FsView,
    dir: InodeHandle,
    name: Seq<u8>,
    other: Seq<u8>,
    by_name: Result<Option<InodeHandle>, Rejected>,
    by_other: Result<Option<InodeHandle>, Rejected>,
)
    requires
        pre.sound(),
        name.len() > 0,
        other.len() > 0,
        other != name,
        names_distinct(dir.file(pre).content),
        unlink_step(pre, post, dir, name, Ok(Some(()))),
        find_answer(post, dir, name, by_name),
        find_answer(post, dir, other, by_other),
    ensures
        by_name == Ok::<Option<InodeHandle>, Rejected>(None),
        find_answer(pre, dir, other, by_other),
        dir.lookup_in(pre, other) == dir.lookup_in(pre, name) ==> {
            &&& by_other matches Ok(Some(file))
            &&& file.valid(post)
            &&& file.file(post).ref_cnt == file.file(pre).ref_cnt - 1
        },
{
    lemma_lookup_index(dir.file(pre).content, name);
    law_unlink(pre, dir.slot(pre), name);
    let id = dir.lookup_in(pre, name)->0;
    lemma_handle_of(pre, id);
    lemma_handle_of(post, id);
}

/// `unlink` right after `create` finds the new name and takes it away again: `find` does not find it,
/// `ls` lists what it listed before, and every name but the empty one leads where it led.
pub proof fn law_unlink_after_create(
    pre: FsView,
    mid: FsView,
    post: FsView,
    dir: InodeHandle,
    name: Seq<u8>,
    made: InodeHandle,
    r: Result<Option<()>, Rejected>,
    by_name: Result<Option<InodeHandle>, Rejected>,
    before: Result<Vec<String>, Rejected>,
    after: Result<Vec<String>, Rejected>,
)
    requires
        pre.sound(),
        plain_name(name),
        name.len() > 0,
        create_step(pre, mid, dir, name, Ok(Some(made))),
        unlink_step(mid, post, dir, name, r),
        find_answer(post, dir, name, by_name),
        ls_answer(pre, dir, before),
        ls_answer(post, dir, after),
    ensures
        r == Ok::<Option<()>, Rejected>(Some(())),
        by_name == Ok::<Option<InodeHandle>, Rejected>(None),
        match (before, after) {
            (Ok(v), Ok(w)) => w@.len() == v@.len() && forall|k: int|
                0 <= k < v@.len() ==> (#[trigger] w@[k])@ == v@[k]@,
            (Err(_), Err(_)) => true,
            _ => false,
        },
        forall|other: Seq<u8>|
            other.len() > 0 ==> #[trigger] dir.lookup_in(post, other) == dir.lookup_in(pre, other),
{
    law_create_then_find(pre, dir.slot(pre), name);
    law_unlink_undoes_create(pre, dir.slot(pre), name);
    lemma_first_free(pre.used);
    lemma_lookup_index(dir.file(mid).content, name);
    assert(dir.unlink_ok(mid, name));
    match r {
        Ok(Some(done)) => {
            assert(done == ());
        },
        _ => {},
    }
    if let (Ok(v), Ok(w)) = (before, after) {
        assert forall|k: int| 0 <= k < v@.len() implies (#[trigger] w@[k])@ == v@[k]@ by {
            assert(encode_utf8(w@[k]@) == encode_utf8(v@[k]@));
            encode_utf8_decode_utf8(w@[k]@);
            encode_utf8_decode_utf8(v@[k]@);
        }
    }
}

/// `read_at` gives back what `write_at` wrote in the same place, if the end of it fits in 32 bits.
pub proof fn law_read_after_write(
    pre: FsView,
    post: FsView,
    inode: InodeHandle,
    offset: int,
    buf: Seq<u8>,
    written: usize,
    before: Seq<u8>,
    after: Seq<u8>,
    r: Result<usize, Rejected>,
)
    requires
        pre.sound(),
        0 <= offset,
        buf.len() > 0 ==> offset + buf.len() <= u32::MAX,
        write_step(pre, post, inode, offset, buf, Ok(written)),
        before.len() == buf.len(),
        read_answer(post, inode, offset, before, after, r),
    ensures
        written == buf.len(),
        r == Ok::<usize, Rejected>(written),
        after == buf,
{
    let content = inode.file(pre).content;
    assert(pre.file_sound(inode.slot(pre)));
    law_write_then_read(content, offset, buf);
    let whole = content_after_write(content, offset, buf);
    assert(inode.file(post).content == whole);
    assert forall|k: int| 0 <= k < buf.len() implies after[k] == buf[k] by {
        assert(whole.subrange(offset, offset + buf.len())[k] == buf[k]);
    }
    assert(after =~= buf);
}

/// After `clear` nothing is left to read, and the blocks that are free are those that were, and those
/// of the file.
pub proof fn law_read_after_clear(
    pre: FsView,
    post: FsView,
    inode: InodeHandle,
    offset: int,
    before: Seq<u8>,
    after: Seq<u8>,
    n: usize,
)
    requires
        pre.sound(),
        0 <= offset,
        clear_step(pre, post, inode, Ok(())),
        read_answer(post, inode, offset, before, after, Ok(n)),
    ensures
        n == 0,
        after == before,
        post.data_used == cleared(pre.data_used, inode.file(pre).blocks),
        post.free_blocks() == pre.free_blocks() + inode.file(pre).blocks.len(),
{
    assert(after =~= before);
    lemma_emptied_file(pre, inode.slot(pre));
    assert(pre.file_sound(inode.slot(pre)));
    law_content_keeps_sound(pre, inode.slot(pre), Seq::empty());
}

} // verus!
