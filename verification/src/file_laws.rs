//! What each operation on files does, said of the bytes, link counts and blocks that it finds and
//! leaves behind.
use spin::Mutex;
use std::sync::Arc;
use vstd::bytes::*;
use vstd::prelude::*;
use vstd::utf8::*;

use crate::block::{
    alloc_order, blocks_for, count_free, first_free, lemma_alloc_order, lemma_count_free_none,
    lemma_count_free_set, lemma_first_free, used_after,
};
use crate::dirent::{
    appended, emptied, encode_entry, entry_count, entry_inode, entry_name, entry_raw, first_nul,
    lemma_emptied, lemma_encode_entry, lemma_first_nul, lemma_first_nul_is, lemma_lookup_index,
    listing, listing_upto, lookup, lookup_index, names_are_text,
};
use crate::efs::{
    EasyFileSystem, Rejected, clear_step, create_step, find_answer, hardlink_step, ls_answer,
    read_all_answer, read_answer, stat_answer, unlink_step, write_step,
};
use crate::fs_laws::law_content_keeps_sound;
use crate::handle::{InodeHandle, can_append, handle_of, with_new_file};
use crate::image::{FsImage, FsView, fresh_fs};
use crate::layout::{DiskInodeType, FileView};
use crate::vfs::{Inode, Stat, StatMode, bare, belongs};

verus! {

/// Inode `id` exists, and `h` says where it lies: four inodes lie in a block, 128 bytes each, from
/// the block on in which the inode area begins.
pub open spec fn points_at(h: InodeHandle, fs: FsView, id: int) -> bool {
    &&& 0 <= id < fs.files.len()
    &&& h.block_id == fs.inode_area_start + id / 4
    &&& h.block_offset == (id % 4) * 128
}

/// A handle that points at an inode leads to it.
pub proof fn lemma_points_at(h: InodeHandle, fs: FsView, id: int)
    requires
        points_at(h, fs, id),
    ensures
        h.valid(fs),
        h.slot(fs) == id,
{
}

/// A handle leads somewhere just where it points at an inode, and it points at no two.
pub proof fn law_valid_handle(h: InodeHandle, fs: FsView)
    ensures
        h.valid(fs) <==> exists|id: int| points_at(h, fs, id),
        forall|a: int, b: int| points_at(h, fs, a) && points_at(h, fs, b) ==> a == b,
{
    if h.valid(fs) {
        let id = h.slot(fs);
        assert(points_at(h, fs, id));
    }
    if exists|id: int| points_at(h, fs, id) {
        let id = choose|id: int| points_at(h, fs, id);
        lemma_points_at(h, fs, id);
    }
}

/// A handle that points at no inode is rejected by every operation, which then changes nothing.
pub proof fn law_stray_handle(
    fs: FsView,
    post: FsView,
    h: InodeHandle,
    name: Seq<u8>,
    other: Seq<u8>,
    offset: int,
    buf: Seq<u8>,
    after: Seq<u8>,
)
    requires
        forall|id: int| !points_at(h, fs, id),
    ensures
        forall|r: Result<Option<InodeHandle>, Rejected>| #[trigger]
            find_answer(fs, h, name, r) ==> r is Err,
        forall|r: Result<Stat, Rejected>| #[trigger] stat_answer(fs, h, r) ==> r is Err,
        forall|r: Result<Vec<String>, Rejected>| #[trigger] ls_answer(fs, h, r) ==> r is Err,
        forall|r: Result<usize, Rejected>| #[trigger]
            read_answer(fs, h, offset, buf, after, r) ==> r is Err && after == buf,
        forall|r: Result<Option<InodeHandle>, Rejected>| #[trigger]
            create_step(fs, post, h, name, r) ==> r is Err && post == fs,
        forall|r: Result<Option<InodeHandle>, Rejected>| #[trigger]
            hardlink_step(fs, post, h, name, other, r) ==> r is Err && post == fs,
        forall|r: Result<Option<()>, Rejected>| #[trigger]
            unlink_step(fs, post, h, name, r) ==> r is Err && post == fs,
        forall|r: Result<usize, Rejected>| #[trigger]
            write_step(fs, post, h, offset, buf, r) ==> r is Err && post == fs,
        forall|r: Result<(), Rejected>| #[trigger]
            clear_step(fs, post, h, r) ==> r is Err && post == fs,
{
    law_valid_handle(h, fs);
}

/// Entry `i` of a directory holds just `name`: the bytes of the name, none of them zero, stand at
/// the front of its 32 bytes, with a zero behind them if they do not fill all 28 that are for it.
pub open spec fn entry_holds(content: Seq<u8>, i: int, name: Seq<u8>) -> bool {
    &&& 0 <= i
    &&& 32 * i + 32 <= content.len()
    &&& name.len() <= 28
    &&& forall|k: int|
        0 <= k < name.len() ==> content[32 * i + k] == #[trigger] name[k] && name[k] != 0
    &&& name.len() == 28 || content[32 * i + name.len()] == 0
}

/// The last four bytes of entry `i` of a directory are the number `id`, lowest byte first.
pub open spec fn entry_leads(content: Seq<u8>, i: int, id: int) -> bool {
    &&& 0 <= id <= u32::MAX
    &&& content.subrange(32 * i + 28, 32 * i + 32) == spec_u32_to_le_bytes(id as u32)
}

proof fn lemma_entry_holds(content: Seq<u8>, i: int, name: Seq<u8>)
    requires
        0 <= i < entry_count(content),
    ensures
        entry_holds(content, i, name) <==> entry_name(content, i) == name,
{
    let field = entry_raw(content, i).subrange(0, 28);
    lemma_first_nul(field, 0);
    let m = first_nul(field, 0);
    assert(forall|k: int| 0 <= k < 28 ==> field[k] == content[32 * i + k]);
    if entry_holds(content, i, name) {
        assert forall|k: int| 0 <= k < name.len() implies field[k] != 0 by {
            assert(field[k] == name[k]);
        }
        lemma_first_nul_is(field, 0, name.len() as int);
        assert(field.take(m) =~= name);
    }
    if entry_name(content, i) == name {
        assert(name == field.take(m));
    }
}

proof fn lemma_entry_leads(content: Seq<u8>, i: int)
    requires
        0 <= i < entry_count(content),
    ensures
        entry_leads(content, i, entry_inode(content, i) as int),
{
    let s = entry_raw(content, i).subrange(28, 32);
    assert(s =~= content.subrange(32 * i + 28, 32 * i + 32));
    lemma_auto_spec_u32_to_from_le_bytes();
}

/// A name leads to the number in the first entry that holds it, and to nothing where none does.
pub proof fn law_lookup(content: Seq<u8>, name: Seq<u8>)
    ensures
        match lookup(content, name) {
            Some(id) => exists|i: int|
                {
                    &&& #[trigger] entry_holds(content, i, name)
                    &&& entry_leads(content, i, id as int)
                    &&& forall|j: int| 0 <= j < i ==> !#[trigger] entry_holds(content, j, name)
                },
            None => forall|i: int| !#[trigger] entry_holds(content, i, name),
        },
{
    lemma_lookup_index(content, name);
    match lookup_index(content, name) {
        Some(i) => {
            lemma_entry_holds(content, i, name);
            lemma_entry_leads(content, i);
            assert forall|j: int| 0 <= j < i implies !#[trigger] entry_holds(content, j, name) by {
                lemma_entry_holds(content, j, name);
                assert(entry_name(content, j) != name);
            }
            assert(entry_holds(content, i, name));
        },
        None => {
            assert forall|i: int| !#[trigger] entry_holds(content, i, name) by {
                if entry_holds(content, i, name) {
                    lemma_entry_holds(content, i, name);
                    assert(entry_name(content, i) != name);
                }
            }
        },
    }
}

/// `find` in the inode `d` is rejected just where that is no directory. Else it answers with a handle
/// on the inode that the name leads to, or with nothing where it leads to none.
pub proof fn law_find(
    fs: FsView,
    dir: InodeHandle,
    d: int,
    name: Seq<u8>,
    r: Result<Option<InodeHandle>, Rejected>,
)
    requires
        fs.sound(),
        points_at(dir, fs, d),
        find_answer(fs, dir, name, r),
    ensures
        r is Err <==> fs.files[d].kind != DiskInodeType::Directory,
        r matches Ok(found) ==> match lookup(fs.files[d].content, name) {
            Some(id) => {
                &&& found matches Some(h)
                &&& h.inode_id == id
                &&& h.block_id == fs.inode_area_start + id as int / 4
                &&& h.block_offset == (id as int % 4) * 128
            },
            None => found is None,
        },
{
    lemma_points_at(dir, fs, d);
}

/// `get_fstat` is never rejected for an inode that exists, and tells its kind and its link count.
pub proof fn law_stat(fs: FsView, inode: InodeHandle, id: int, r: Result<Stat, Rejected>)
    requires
        points_at(inode, fs, id),
        stat_answer(fs, inode, r),
    ensures
        r matches Ok(stat) && stat.nlink == fs.files[id].ref_cnt && (stat.mode == StatMode::DIR <==>
            fs.files[id].kind == DiskInodeType::Directory) && (stat.mode == StatMode::FILE <==>
            fs.files[id].kind == DiskInodeType::File) && stat.mode != StatMode::NULL,
{
    lemma_points_at(inode, fs, id);
}

/// The entries among the first `n` whose names are listed.
spec fn listed_at(content: Seq<u8>, n: int) -> Seq<int>
    decreases n,
{
    if n <= 0 {
        Seq::empty()
    } else if entry_name(content, n - 1).len() == 0 {
        listed_at(content, n - 1)
    } else {
        listed_at(content, n - 1).push(n - 1)
    }
}

proof fn lemma_listed_at(content: Seq<u8>, n: int)
    requires
        0 <= n <= entry_count(content),
    ensures
        listed_at(content, n).len() == listing_upto(content, n).len(),
        forall|k: int|
            0 <= k < listed_at(content, n).len() ==> {
                &&& 0 <= #[trigger] listed_at(content, n)[k] < n
                &&& listing_upto(content, n)[k] == entry_name(content, listed_at(content, n)[k])
                &&& listing_upto(content, n)[k].len() > 0
            },
        forall|a: int, b: int|
            0 <= a < b < listed_at(content, n).len() ==> #[trigger] listed_at(content, n)[a]
                < #[trigger] listed_at(content, n)[b],
        forall|i: int|
            0 <= i < n && (#[trigger] entry_name(content, i)).len() > 0 ==> listed_at(
                content,
                n,
            ).contains(i),
    decreases n,
{
    if n > 0 {
        lemma_listed_at(content, n - 1);
        let before = listed_at(content, n - 1);
        let after = listed_at(content, n);
        assert forall|i: int|
            0 <= i < n && (#[trigger] entry_name(content, i)).len() > 0 implies after.contains(i) by {
            if i == n - 1 {
                assert(after[before.len() as int] == i);
            } else {
                let k = choose|k: int| 0 <= k < before.len() && before[k] == i;
                assert(after[k] == i);
            }
        }
    }
}

/// `ls` of the inode `d` lists the names that its entries hold, in the order of the entries, each
/// entry once, and leaves out just those that hold the empty name. It is rejected just where some
/// entry holds a name that is no text.
pub proof fn law_ls(fs: FsView, dir: InodeHandle, d: int, r: Result<Vec<String>, Rejected>)
    requires
        points_at(dir, fs, d),
        ls_answer(fs, dir, r),
    ensures
        r is Err <==> exists|i: int, name: Seq<u8>| #[trigger]
            entry_holds(fs.files[d].content, i, name) && !valid_utf8(name),
        r matches Ok(names) ==> exists|at: Seq<int>|
            {
                &&& #[trigger] at.len() == names@.len()
                &&& forall|k: int|
                    0 <= k < at.len() ==> (#[trigger] names@[k])@.len() > 0 && entry_holds(
                        fs.files[d].content,
                        at[k],
                        encode_utf8(names@[k]@),
                    )
                &&& forall|a: int, b: int|
                    0 <= a < b < at.len() ==> #[trigger] at[a] < #[trigger] at[b]
                &&& forall|i: int, name: Seq<u8>| #[trigger]
                    entry_holds(fs.files[d].content, i, name) && name.len() > 0 ==> at.contains(i)
            },
{
    lemma_points_at(dir, fs, d);
    let content = fs.files[d].content;
    if names_are_text(content) {
        assert forall|i: int, name: Seq<u8>| #[trigger] entry_holds(content, i, name) implies
            valid_utf8(name) by {
            lemma_entry_holds(content, i, name);
            assert(valid_utf8(entry_name(content, i)));
        }
    } else {
        let i = choose|i: int|
            0 <= i < entry_count(content) && !valid_utf8(#[trigger] entry_name(content, i));
        lemma_entry_holds(content, i, entry_name(content, i));
        assert(entry_holds(content, i, entry_name(content, i)));
    }
    if let Ok(names) = r {
        let n = entry_count(content);
        lemma_listed_at(content, n);
        let at = listed_at(content, n);
        assert forall|k: int| 0 <= k < at.len() implies (#[trigger] names@[k])@.len() > 0
            && entry_holds(content, at[k], encode_utf8(names@[k]@)) by {
            lemma_entry_holds(content, at[k], encode_utf8(names@[k]@));
            assert(encode_utf8(names@[k]@) == listing(content)[k]);
        }
        assert forall|i: int, name: Seq<u8>| #[trigger]
            entry_holds(content, i, name) && name.len() > 0 implies at.contains(i) by {
            lemma_entry_holds(content, i, name);
        }
        assert(at.len() == names@.len());
    }
}

/// `read_at` is rejected just where the end of what is asked for cannot be counted, and then leaves
/// the buffer as it is. Else it fills the front of the buffer with the bytes of the file from
/// `offset` on, as many as the buffer holds or the file has left, and says how many; the rest of the
/// buffer is as it was.
pub proof fn law_read(
    fs: FsView,
    inode: InodeHandle,
    id: int,
    offset: int,
    before: Seq<u8>,
    after: Seq<u8>,
    r: Result<usize, Rejected>,
)
    requires
        points_at(inode, fs, id),
        0 <= offset,
        read_answer(fs, inode, offset, before, after, r),
    ensures
        r is Err <==> offset + before.len() > usize::MAX,
        r is Err ==> after == before,
        r matches Ok(n) ==> {
            let content = fs.files[id].content;
            &&& n <= before.len()
            &&& n == 0 || offset + n <= content.len()
            &&& n == before.len() || offset + n >= content.len()
            &&& after.len() == before.len()
            &&& forall|k: int| 0 <= k < n ==> #[trigger] after[k] == content[offset + k]
            &&& forall|k: int| n <= k < before.len() ==> #[trigger] after[k] == before[k]
        },
{
    lemma_points_at(inode, fs, id);
}

/// File `i` has the blocks that it had, and behind them as many more as its length asks for: blocks
/// that were free, and that no free block comes before. Those are taken then, and the bitmap is as
/// it was otherwise.
pub open spec fn blocks_grown(pre: FsView, post: FsView, i: int) -> bool {
    let had = pre.files[i].blocks;
    let has = post.files[i].blocks;
    &&& has.len() == (post.files[i].content.len() + 511) / 512
    &&& had.len() <= has.len()
    &&& forall|a: int| 0 <= a < had.len() ==> #[trigger] has[a] == had[a]
    &&& forall|a: int|
        had.len() <= a < has.len() ==> {
            &&& (#[trigger] has[a]) < pre.data_used.len()
            &&& !pre.data_used[has[a] as int]
            &&& forall|b: int| 0 <= b < has[a] ==> #[trigger] post.data_used[b]
        }
    &&& post.data_used.len() == pre.data_used.len()
    &&& forall|b: int|
        0 <= b < pre.data_used.len() ==> (#[trigger] post.data_used[b] <==> pre.data_used[b]
            || has.contains(b as u32))
}

/// Where the first clear entries of a bitmap are set, none is left clear before them.
proof fn lemma_lowest_first(used: Seq<bool>, n: nat)
    requires
        used.len() <= u32::MAX,
        n <= count_free(used),
    ensures
        forall|a: int, b: int|
            0 <= a < n && 0 <= b < #[trigger] alloc_order(used, n)[a] ==> #[trigger] used_after(
                used,
                n,
            )[b],
    decreases n,
{
    lemma_alloc_order(used, n);
    if n > 0 {
        let m = (n - 1) as nat;
        lemma_alloc_order(used, m);
        lemma_lowest_first(used, m);
        let before = used_after(used, m);
        lemma_first_free(before);
        if first_free(before) == before.len() {
            lemma_count_free_none(before);
        }
        assert forall|a: int, b: int|
            0 <= a < n && 0 <= b < #[trigger] alloc_order(used, n)[a] implies #[trigger] used_after(
            used,
            n,
        )[b] by {
            if a < m {
                assert(alloc_order(used, n)[a] == alloc_order(used, m)[a]);
                assert(used_after(used, m)[b]);
            }
        }
    }
}

proof fn lemma_blocks_grown(fs: FsView, post: FsView, i: int, content: Seq<u8>)
    requires
        fs.sound(),
        0 <= i < fs.files.len(),
        fs.files[i].content.len() <= content.len() <= u32::MAX,
        fs.can_grow(i, content.len() as int),
        post.files == fs.with_content(i, content).files,
        post.data_used == fs.with_content(i, content).data_used,
    ensures
        blocks_grown(fs, post, i),
        post.files[i].content == content,
        post.files[i].kind == fs.files[i].kind,
        post.files[i].ref_cnt == fs.files[i].ref_cnt,
        post.files.len() == fs.files.len(),
        forall|j: int| 0 <= j < fs.files.len() && j != i ==> #[trigger] post.files[j] == fs.files[j],
{
    assert(fs.file_sound(i));
    let had = fs.files[i].blocks;
    let more = (blocks_for(content.len() as int) - had.len()) as nat;
    lemma_alloc_order(fs.data_used, more);
    lemma_lowest_first(fs.data_used, more);
    let order = alloc_order(fs.data_used, more);
    let has = post.files[i].blocks;
    assert(has == had + order);
    assert forall|a: int| had.len() <= a < has.len() implies {
        &&& (#[trigger] has[a]) < fs.data_used.len()
        &&& !fs.data_used[has[a] as int]
        &&& forall|b: int| 0 <= b < has[a] ==> #[trigger] post.data_used[b]
    } by {
        assert(has[a] == order[a - had.len()]);
    }
    assert forall|b: int| 0 <= b < fs.data_used.len() implies (#[trigger] post.data_used[b]
        <==> fs.data_used[b] || has.contains(b as u32)) by {
        if order.contains(b as u32) {
            let a = choose|a: int| 0 <= a < order.len() && order[a] == b as u32;
            assert(has[had.len() + a] == b as u32);
        }
        if has.contains(b as u32) {
            let a = choose|a: int| 0 <= a < has.len() && has[a] == b as u32;
            if a < had.len() {
                assert(had[a] == b as u32);
            } else {
                assert(order[a - had.len()] == b as u32);
                assert(order.contains(b as u32));
            }
        }
    }
}

/// No more different blocks can be named that are free than are counted as free.
proof fn lemma_spare(used: Seq<bool>, spare: Seq<u32>)
    requires
        spare.no_duplicates(),
        forall|a: int|
            0 <= a < spare.len() ==> (#[trigger] spare[a]) < used.len() && !used[spare[a] as int],
    ensures
        spare.len() <= count_free(used),
    decreases spare.len(),
{
    if spare.len() > 0 {
        let last = spare.last();
        let rest = spare.drop_last();
        assert(spare[spare.len() - 1] == last);
        lemma_count_free_set(used, last as int);
        assert forall|a: int| 0 <= a < rest.len() implies (#[trigger] rest[a]) < used.len()
            && !used.update(last as int, true)[rest[a] as int] by {
            assert(rest[a] == spare[a]);
            assert(spare[a] != spare[spare.len() - 1]);
        }
        lemma_spare(used.update(last as int, true), rest);
    }
}

/// `write_at` to file `id`. Where it succeeds, the file is as long as it was, or reaches to the end of
/// what is written if that lies behind, which is held in 32 bits. Each of its bytes is then the one
/// that was to be written there, or else the one that was there before, or else zero; the answer is
/// how many bytes of the buffer lie in the file. Every other file is as it was. Where it is
/// rejected nothing changes: the end cannot be counted, or fewer blocks are free than the file lacks.
pub proof fn law_write(
    pre: FsView,
    post: FsView,
    inode: InodeHandle,
    id: int,
    offset: int,
    buf: Seq<u8>,
    r: Result<usize, Rejected>,
)
    requires
        pre.sound(),
        points_at(inode, pre, id),
        0 <= offset,
        write_step(pre, post, inode, offset, buf, r),
    ensures
        r is Err ==> post == pre && (offset + buf.len() > usize::MAX || forall|spare: Seq<u32>|
            {
                &&& #[trigger] spare.no_duplicates()
                &&& forall|a: int|
                    0 <= a < spare.len() ==> (#[trigger] spare[a]) < pre.data_used.len()
                        && !pre.data_used[spare[a] as int]
            } ==> spare.len() < ((offset + buf.len()) % 0x1_0000_0000 + 511) / 512 - (
            pre.files[id].content.len() + 511) / 512),
        r matches Ok(n) ==> {
            let old = pre.files[id].content;
            let new = post.files[id].content;
            let end = (offset + buf.len()) % 0x1_0000_0000;
            &&& offset + buf.len() <= usize::MAX
            &&& new.len() == if old.len() > end {
                old.len() as int
            } else {
                end
            }
            &&& offset + buf.len() <= u32::MAX ==> n == buf.len()
            &&& n <= buf.len()
            &&& n == 0 || offset + n <= new.len()
            &&& n == buf.len() || offset + n >= new.len()
            &&& forall|p: int|
                0 <= p < new.len() ==> #[trigger] new[p] == if offset <= p < offset + buf.len() {
                    buf[p - offset]
                } else if p < old.len() {
                    old[p]
                } else {
                    0
                }
            &&& post.files[id].kind == pre.files[id].kind
            &&& post.files[id].ref_cnt == pre.files[id].ref_cnt
            &&& post.files.len() == pre.files.len()
            &&& forall|j: int|
                0 <= j < pre.files.len() && j != id ==> #[trigger] post.files[j] == pre.files[j]
            &&& blocks_grown(pre, post, id)
            &&& post.used == pre.used
            &&& post.inode_area_start == pre.inode_area_start
            &&& post.synced
            &&& post.sound()
        },
{
    lemma_points_at(inode, pre, id);
    assert(pre.file_sound(id));
    match r {
        Ok(n) => {
            let content = post.files[id].content;
            lemma_blocks_grown(pre, post, id, content);
            law_content_keeps_sound(pre, id, content);
            lemma_synced_sound(pre.with_content(id, content), post);
        },
        Err(_) => {
            if offset + buf.len() <= usize::MAX {
                assert forall|spare: Seq<u32>|
                    {
                        &&& #[trigger] spare.no_duplicates()
                        &&& forall|a: int|
                            0 <= a < spare.len() ==> (#[trigger] spare[a]) < pre.data_used.len()
                                && !pre.data_used[spare[a] as int]
                    } implies spare.len() < ((offset + buf.len()) % 0x1_0000_0000 + 511) / 512 - (
                pre.files[id].content.len() + 511) / 512 by {
                    lemma_spare(pre.data_used, spare);
                }
            }
        },
    }
}

/// Whether everything was written back has no part in soundness.
proof fn lemma_synced_sound(fs: FsView, post: FsView)
    requires
        fs.sound(),
        post == (FsView { synced: post.synced, ..fs }),
    ensures
        post.sound(),
{
    assert forall|i: int| 0 <= i < post.files.len() implies #[trigger] post.file_sound(i) by {
        assert(fs.file_sound(i));
    }
}

/// `clear` of file `id` is never rejected. The file is empty and has no block then; just its blocks
/// have become free. Everything else is as it was.
pub proof fn law_clear(
    pre: FsView,
    post: FsView,
    inode: InodeHandle,
    id: int,
    r: Result<(), Rejected>,
)
    requires
        pre.sound(),
        points_at(inode, pre, id),
        clear_step(pre, post, inode, r),
    ensures
        r is Ok,
        post.files == pre.files.update(
            id,
            FileView { content: Seq::empty(), blocks: Seq::empty(), ..pre.files[id] },
        ),
        post.data_used.len() == pre.data_used.len(),
        forall|b: int|
            0 <= b < pre.data_used.len() ==> (#[trigger] post.data_used[b] <==> pre.data_used[b]
                && !pre.files[id].blocks.contains(b as u32)),
        post.used == pre.used,
        post.inode_area_start == pre.inode_area_start,
        post.synced,
{
    lemma_points_at(inode, pre, id);
    assert(pre.file_sound(id));
    let blocks = pre.files[id].blocks;
    assert(blocks.skip(0) =~= blocks);
    assert(blocks.take(0) =~= Seq::empty());
    if blocks.len() == 0 {
        assert(blocks + alloc_order(pre.data_used, 0) =~= Seq::empty());
    }
}

/// `after` is `before` with one more entry behind its whole ones: the name and zeros in 28 bytes, and
/// the number in four.
spec fn entry_added(before: Seq<u8>, after: Seq<u8>, name: Seq<u8>, id: int) -> bool {
    let at = before.len() as int / 32;
    &&& after.len() == 32 * at + 32
    &&& forall|p: int| 0 <= p < 32 * at ==> #[trigger] after[p] == before[p]
    &&& forall|k: int|
        0 <= k < 28 ==> #[trigger] after[32 * at + k] == if k < name.len() {
            name[k]
        } else {
            0
        }
    &&& entry_leads(after, at, id)
}

proof fn lemma_entry_added(before: Seq<u8>, name: Seq<u8>, id: u32)
    requires
        name.len() <= 27,
    ensures
        entry_added(before, appended(before, name, id), name, id as int),
        before.len() <= appended(before, name, id).len(),
{
    let at = before.len() as int / 32;
    let after = appended(before, name, id);
    let raw = encode_entry(name, id);
    lemma_encode_entry(name, id);
    assert(forall|k: int| 0 <= k < 32 ==> after[32 * at + k] == raw[k]);
    assert(entry_raw(after, at) =~= raw);
    lemma_entry_leads(after, at);
}

/// No block is free.
spec fn disk_full(fs: FsView) -> bool {
    forall|b: int| 0 <= b < fs.data_used.len() ==> #[trigger] fs.data_used[b]
}

/// There is no room for one more entry in file `d`: it would be too long, or it lacks a block and
/// none is free.
spec fn no_room(fs: FsView, d: int) -> bool {
    ||| (fs.files[d].content.len() as int / 32) * 32 + 32 > u32::MAX
    ||| fs.files[d].content.len() % 512 == 0 && disk_full(fs)
}

proof fn lemma_no_room(fs: FsView, d: int)
    requires
        fs.sound(),
        0 <= d < fs.files.len(),
    ensures
        no_room(fs, d) <==> !can_append(fs, d),
        count_free(fs.data_used) == 0 <==> disk_full(fs),
{
    let len = fs.files[d].content.len() as int;
    if disk_full(fs) {
        lemma_count_free_none(fs.data_used);
    } else {
        let b = choose|b: int| 0 <= b < fs.data_used.len() && !#[trigger] fs.data_used[b];
        lemma_count_free_set(fs.data_used, b);
    }
    lemma_one_entry_more(len);
}

/// One more entry behind the whole ones takes one more block just where all blocks are full.
proof fn lemma_one_entry_more(len: int)
    requires
        0 <= len,
    ensures
        blocks_for((len / 32 + 1) * 32) - blocks_for(len) == if len % 512 == 0 {
            1int
        } else {
            0int
        },
        len < (len / 32 + 1) * 32,
{
    let q = len / 512;
    let r = len % 512;
    assert(len == 512 * q + r);
    assert(len / 32 == 16 * q + r / 32);
    let new_size = (len / 32 + 1) * 32;
    assert(new_size == 512 * q + (r / 32 + 1) * 32);
    assert(0 < (r / 32 + 1) * 32 <= 512);
    assert(blocks_for(new_size) == q + 1);
}

/// `create` in the inode `d`. It is rejected, and changes nothing, just where that is no directory,
/// or where the name is new and is too long, no inode is left, or there is no room for an entry. A
/// name that is taken is answered with nothing, and nothing changes: no file loses anything. Else the
/// first inode that was not in use is in use and an empty file with one link, of which a handle is
/// handed out; the directory has one more entry, which gives it the name, and every other file is as
/// it was.
pub proof fn law_create(
    pre: FsView,
    post: FsView,
    dir: InodeHandle,
    d: int,
    name: Seq<u8>,
    r: Result<Option<InodeHandle>, Rejected>,
)
    requires
        pre.sound(),
        points_at(dir, pre, d),
        create_step(pre, post, dir, name, r),
    ensures
        r is Err ==> post == pre,
        r is Err <==> {
            ||| pre.files[d].kind != DiskInodeType::Directory
            ||| lookup(pre.files[d].content, name) is None && {
                ||| name.len() > 27
                ||| forall|j: int| 0 <= j < pre.used.len() ==> #[trigger] pre.used[j]
                ||| (pre.files[d].content.len() as int / 32) * 32 + 32 > u32::MAX
                ||| pre.files[d].content.len() % 512 == 0 && forall|b: int|
                    0 <= b < pre.data_used.len() ==> #[trigger] pre.data_used[b]
            }
        },
        r is Ok && lookup(pre.files[d].content, name) is Some ==> r == Ok::<
            Option<InodeHandle>,
            Rejected,
        >(None) && post == pre,
        lookup(pre.files[d].content, name) is None ==> (r matches Ok(made) ==> made is Some),
        r matches Ok(Some(made)) ==> {
            let id = made.inode_id as int;
            let at = pre.files[d].content.len() as int / 32;
            &&& points_at(made, post, id)
            &&& id != d
            &&& !pre.used[id]
            &&& forall|j: int| 0 <= j < id ==> #[trigger] pre.used[j]
            &&& post.used == pre.used.update(id, true)
            &&& post.files.len() == pre.files.len()
            &&& post.files[id].kind == DiskInodeType::File
            &&& post.files[id].ref_cnt == 1
            &&& post.files[id].content.len() == 0
            &&& post.files[id].blocks.len() == 0
            &&& post.files[d].kind == pre.files[d].kind
            &&& post.files[d].ref_cnt == pre.files[d].ref_cnt
            &&& post.files[d].content.len() == 32 * at + 32
            &&& forall|p: int|
                0 <= p < 32 * at ==> #[trigger] post.files[d].content[p] == pre.files[d].content[p]
            &&& forall|k: int|
                0 <= k < 28 ==> #[trigger] post.files[d].content[32 * at + k] == if k < name.len() {
                    name[k]
                } else {
                    0
                }
            &&& entry_leads(post.files[d].content, at, id as int)
            &&& blocks_grown(pre, post, d)
            &&& forall|j: int|
                0 <= j < pre.files.len() && j != d && j != id ==> #[trigger] post.files[j]
                    == pre.files[j]
            &&& post.inode_area_start == pre.inode_area_start
            &&& post.synced
        },
{
    lemma_points_at(dir, pre, d);
    lemma_first_free(pre.used);
    let id = first_free(pre.used);
    assert(pre.file_sound(d));
    if pre.files[d].kind == DiskInodeType::Directory && lookup(pre.files[d].content, name) is None
        && id < pre.used.len() {
        let fresh = with_new_file(pre);
        assert(id != d);
        lemma_new_file_sound(pre);
        lemma_no_room(fresh, d);
        assert(no_room(fresh, d) <==> no_room(pre, d));
        if let Ok(Some(made)) = r {
            let content = appended(pre.files[d].content, name, id as u32);
            lemma_entry_added(pre.files[d].content, name, id as u32);
            lemma_blocks_grown(fresh, post, d, content);
            assert(blocks_grown(pre, post, d));
            assert(points_at(made, post, id));
            assert(made.inode_id == id);
        }
    }
}

proof fn lemma_new_file_sound(fs: FsView)
    requires
        fs.sound(),
        first_free(fs.used) < fs.used.len(),
    ensures
        with_new_file(fs).sound(),
{
    let after = with_new_file(fs);
    lemma_first_free(fs.used);
    assert forall|j: int| 0 <= j < after.files.len() implies #[trigger] after.file_sound(j) by {
        assert(fs.file_sound(j));
    }
    assert forall|i: int, j: int, a: int, b: int|
        0 <= i < after.files.len() && 0 <= j < after.files.len() && i != j && 0 <= a
            < after.files[i].blocks.len() && 0 <= b < after.files[j].blocks.len() implies
        #[trigger] after.files[i].blocks[a] != #[trigger] after.files[j].blocks[b] by {
        assert(after.files[i].blocks[a] == fs.files[i].blocks[a]);
        assert(after.files[j].blocks[b] == fs.files[j].blocks[b]);
    }
}

/// A link count that is replaced leaves everything sound.
proof fn lemma_ref_cnt_sound(fs: FsView, id: int, ref_cnt: u32)
    requires
        fs.sound(),
        0 <= id < fs.files.len(),
    ensures
        fs.with_ref_cnt(id, ref_cnt).sound(),
{
    let after = fs.with_ref_cnt(id, ref_cnt);
    assert forall|j: int| 0 <= j < after.files.len() implies #[trigger] after.file_sound(j) by {
        assert(fs.file_sound(j));
    }
    assert forall|i: int, j: int, a: int, b: int|
        0 <= i < after.files.len() && 0 <= j < after.files.len() && i != j && 0 <= a
            < after.files[i].blocks.len() && 0 <= b < after.files[j].blocks.len() implies
        #[trigger] after.files[i].blocks[a] != #[trigger] after.files[j].blocks[b] by {
        assert(after.files[i].blocks[a] == fs.files[i].blocks[a]);
        assert(after.files[j].blocks[b] == fs.files[j].blocks[b]);
    }
}

/// `hardlink` in the inode `d`. It never hands out a handle. It is rejected, and changes nothing,
/// just where that is no directory, or where `dst` is new and `src` is there and `dst` is too long,
/// what `src` stands for does not exist or cannot count one link more, or there is no room for an
/// entry. Where `dst` is taken or `src` is not there, nothing changes. Else the file that `src`
/// stands for counts one link more, and the directory has one more entry, which gives it `dst`; all
/// else is as it was.
pub proof fn law_hardlink(
    pre: FsView,
    post: FsView,
    dir: InodeHandle,
    d: int,
    src: Seq<u8>,
    dst: Seq<u8>,
    r: Result<Option<InodeHandle>, Rejected>,
)
    requires
        pre.sound(),
        points_at(dir, pre, d),
        hardlink_step(pre, post, dir, src, dst, r),
    ensures
        r matches Ok(made) ==> made is None,
        r is Err ==> post == pre,
        r is Err <==> {
            ||| pre.files[d].kind != DiskInodeType::Directory
            ||| lookup(pre.files[d].content, dst) is None && {
                &&& lookup(pre.files[d].content, src) matches Some(id)
                &&& {
                    ||| dst.len() > 27
                    ||| id >= pre.files.len()
                    ||| pre.files[id as int].ref_cnt == u32::MAX
                    ||| (pre.files[d].content.len() as int / 32) * 32 + 32 > u32::MAX
                    ||| pre.files[d].content.len() % 512 == 0 && forall|b: int|
                        0 <= b < pre.data_used.len() ==> #[trigger] pre.data_used[b]
                }
            }
        },
        lookup(pre.files[d].content, dst) is Some ==> post == pre,
        lookup(pre.files[d].content, src) is None ==> post == pre,
        r is Ok && lookup(pre.files[d].content, dst) is None ==> (lookup(
            pre.files[d].content,
            src,
        ) matches Some(id) ==> {
            let at = pre.files[d].content.len() as int / 32;
            &&& post.files.len() == pre.files.len()
            &&& post.files[id as int].ref_cnt == pre.files[id as int].ref_cnt + 1
            &&& id != d ==> post.files[id as int] == (FileView {
                ref_cnt: post.files[id as int].ref_cnt,
                ..pre.files[id as int]
            })
            &&& id != d ==> post.files[d].ref_cnt == pre.files[d].ref_cnt
            &&& post.files[d].kind == pre.files[d].kind
            &&& post.files[d].content.len() == 32 * at + 32
            &&& forall|p: int|
                0 <= p < 32 * at ==> #[trigger] post.files[d].content[p] == pre.files[d].content[p]
            &&& forall|k: int|
                0 <= k < 28 ==> #[trigger] post.files[d].content[32 * at + k] == if k < dst.len() {
                    dst[k]
                } else {
                    0
                }
            &&& entry_leads(post.files[d].content, at, id as int)
            &&& blocks_grown(pre, post, d)
            &&& forall|j: int|
                0 <= j < pre.files.len() && j != d && j != id ==> #[trigger] post.files[j]
                    == pre.files[j]
            &&& post.used == pre.used
            &&& post.inode_area_start == pre.inode_area_start
            &&& !post.synced
        }),
{
    lemma_points_at(dir, pre, d);
    lemma_no_room(pre, d);
    assert(pre.file_sound(d));
    if r is Ok && lookup(pre.files[d].content, dst) is None {
        if let Some(id) = lookup(pre.files[d].content, src) {
            let cnt = (pre.files[id as int].ref_cnt + 1) as u32;
            let counted = pre.with_ref_cnt(id as int, cnt);
            lemma_ref_cnt_sound(pre, id as int, cnt);
            assert(counted.files[d].content == pre.files[d].content);
            assert(counted.files[d].blocks == pre.files[d].blocks);
            lemma_entry_added(pre.files[d].content, dst, id);
            let content = appended(pre.files[d].content, dst, id);
            lemma_blocks_grown(counted, post, d, content);
            assert(blocks_grown(pre, post, d));
        }
    }
}

/// `unlink` in the inode `d`. It is rejected, and changes nothing, just where that is no directory,
/// or where the name stands for an inode that does not exist or has no link left. Where the name
/// stands for nothing, the answer is nothing and nothing changes. Else the file counts one link
/// less, and in the first entry that holds the name, zeros stand for the name and the number is 0;
/// all else is as it was: every other byte of the directory, every other file, and which inodes and
/// blocks are taken.
pub proof fn law_unlink_entry(
    pre: FsView,
    post: FsView,
    dir: InodeHandle,
    d: int,
    name: Seq<u8>,
    r: Result<Option<()>, Rejected>,
)
    requires
        pre.sound(),
        points_at(dir, pre, d),
        unlink_step(pre, post, dir, name, r),
    ensures
        r is Err ==> post == pre,
        r is Err <==> {
            ||| pre.files[d].kind != DiskInodeType::Directory
            ||| {
                &&& lookup(pre.files[d].content, name) matches Some(id)
                &&& id >= pre.files.len() || pre.files[id as int].ref_cnt == 0
            }
        },
        r matches Ok(done) ==> match lookup(pre.files[d].content, name) {
            None => done is None && post == pre,
            Some(id) => {
                &&& done is Some
                &&& post.files.len() == pre.files.len()
                &&& post.files[id as int].ref_cnt == pre.files[id as int].ref_cnt - 1
                &&& id != d ==> post.files[id as int] == (FileView {
                    ref_cnt: post.files[id as int].ref_cnt,
                    ..pre.files[id as int]
                })
                &&& id != d ==> post.files[d].ref_cnt == pre.files[d].ref_cnt
                &&& post.files[d].kind == pre.files[d].kind
                &&& post.files[d].blocks == pre.files[d].blocks
                &&& post.files[d].content.len() == pre.files[d].content.len()
                &&& exists|i: int|
                    {
                        &&& #[trigger] entry_holds(pre.files[d].content, i, name)
                        &&& entry_leads(pre.files[d].content, i, id as int)
                        &&& forall|j: int|
                            0 <= j < i ==> !#[trigger] entry_holds(pre.files[d].content, j, name)
                        &&& forall|p: int|
                            0 <= p < pre.files[d].content.len() && !(32 * i + 28 <= p < 32 * i + 32)
                                ==> #[trigger] post.files[d].content[p] == if 32 * i <= p < 32 * i
                                + 28 {
                                0
                            } else {
                                pre.files[d].content[p]
                            }
                        &&& entry_leads(post.files[d].content, i, 0)
                    }
                &&& forall|j: int|
                    0 <= j < pre.files.len() && j != d && j != id ==> #[trigger] post.files[j]
                        == pre.files[j]
                &&& post.used == pre.used
                &&& post.data_used == pre.data_used
                &&& post.inode_area_start == pre.inode_area_start
                &&& !post.synced
            },
        },
{
    lemma_points_at(dir, pre, d);
    assert(pre.file_sound(d));
    let content = pre.files[d].content;
    lemma_lookup_index(content, name);
    if r is Ok {
        if let Some(i) = lookup_index(content, name) {
            let id = entry_inode(content, i);
            lemma_entry_holds(content, i, name);
            lemma_entry_leads(content, i);
            assert forall|j: int| 0 <= j < i implies !#[trigger] entry_holds(content, j, name) by {
                lemma_entry_holds(content, j, name);
                assert(entry_name(content, j) != name);
            }
            lemma_encode_entry(Seq::empty(), 0);
            lemma_emptied(content, i);
            assert(post.files[d].content == emptied(content, i));
            lemma_entry_leads(post.files[d].content, i);
            assert(post.files[d].blocks =~= pre.files[d].blocks);
            assert(entry_holds(content, i, name));
        }
    }
}

/// What a file system shows of a file is what lies on disk: the kind, the link count and the blocks
/// of its record, and as its bytes those of the blocks, 512 of each, up to its size.
pub proof fn law_file_on_disk(fs: FsImage, i: int)
    requires
        fs.wf(),
        0 <= i < fs.inodes@.len(),
    ensures
        fs@.files.len() == fs.inodes@.len(),
        fs@.used == fs.inode_used@,
        fs@.data_used == fs.data.used@,
        fs@.inode_area_start == fs.inode_area_start_block,
        fs@.files[i].kind == fs.inodes@[i].type_,
        fs@.files[i].ref_cnt == fs.inodes@[i].ref_cnt,
        fs@.files[i].blocks == fs.inodes@[i].blocks@,
        fs@.files[i].content.len() == fs.inodes@[i].size,
        forall|p: int|
            0 <= p < fs.inodes@[i].size ==> #[trigger] fs@.files[i].content[p]
                == fs.data.bytes@[fs.inodes@[i].blocks@[p / 512] * 512 + p % 512],
{
}

/// The handle on an inode that exists points at it and carries its number, and no two have one
/// handle.
pub proof fn law_handles(fs: FsView, id: u32, other: u32)
    requires
        fs.sound(),
        id < fs.files.len(),
    ensures
        handle_of(fs.inode_area_start, id).inode_id == id,
        points_at(handle_of(fs.inode_area_start, id), fs, id as int),
        handle_of(fs.inode_area_start, id) == handle_of(fs.inode_area_start, other) ==> id == other,
{
}

/// What an inode is handed out with is the answer itself: neither the handle nor the lack of one nor
/// a rejection is lost.
pub proof fn law_bare(r: Result<Option<Arc<Inode>>, Rejected>)
    ensures
        match r {
            Ok(Some(inode)) => bare(r) == Ok::<Option<InodeHandle>, Rejected>(Some(inode.handle)),
            Ok(None) => bare(r) == Ok::<Option<InodeHandle>, Rejected>(None),
            Err(_) => bare(r) is Err,
        },
{
}

/// An inode that is handed out belongs to the file system of the one that it was asked of.
pub proof fn law_belongs(
    r: Result<Option<Arc<Inode>>, Rejected>,
    fs: Arc<Mutex<EasyFileSystem>>,
    inode: Arc<Inode>,
)
    requires
        belongs(r, fs),
        r == Ok::<Option<Arc<Inode>>, Rejected>(Some(inode)),
    ensures
        inode.fs == fs,
{
}

/// Byte `off` of data block `b`, as it lies on disk.
pub open spec fn disk_byte(fs: FsImage, b: int, off: int) -> u8 {
    fs.data.bytes@[b * 512 + off]
}

/// There are as many marks of use as inodes, and every directory is in use. Inodes and blocks can be
/// counted in 32 bits, and so can the blocks of the inode area.
pub open spec fn tables_fit(fs: FsImage) -> bool {
    &&& fs.inode_used@.len() == fs.inodes@.len()
    &&& fs.inodes@.len() <= u32::MAX
    &&& fs.inode_area_start_block <= 0xbfff_ffff
    &&& fs.data.used@.len() <= u32::MAX
    &&& fs.data.bytes@.len() == fs.data.used@.len() * 512
    &&& forall|i: int|
        0 <= i < fs.inodes@.len() && (#[trigger] fs.inodes@[i]).type_ == DiskInodeType::Directory
            ==> fs.inode_used@[i]
}

/// Each file has one block for every 512 bytes that it begins. All of them exist and are taken; no
/// file has a block twice, and no two files share one.
pub open spec fn blocks_fit(fs: FsImage) -> bool {
    &&& forall|i: int|
        0 <= i < fs.inodes@.len() ==> (#[trigger] fs.inodes@[i]).blocks@.len() == (
        fs.inodes@[i].size + 511) / 512
    &&& forall|i: int, a: int|
        0 <= i < fs.inodes@.len() && 0 <= a < fs.inodes@[i].blocks@.len()
            ==> #[trigger] fs.inodes@[i].blocks@[a] < fs.data.used@.len()
            && fs.data.used@[fs.inodes@[i].blocks@[a] as int]
    &&& forall|i: int, a: int, j: int, b: int|
        0 <= i < fs.inodes@.len() && 0 <= a < fs.inodes@[i].blocks@.len() && 0 <= j
            < fs.inodes@.len() && 0 <= b < fs.inodes@[j].blocks@.len() && (i != j || a != b)
            ==> #[trigger] fs.inodes@[i].blocks@[a] != #[trigger] fs.inodes@[j].blocks@[b]
}

/// What is not part of a file is zero: blocks that are free, and what lies in the blocks of a file
/// behind its end.
pub open spec fn rest_is_zero(fs: FsImage) -> bool {
    &&& forall|b: int, off: int|
        0 <= b < fs.data.used@.len() && !fs.data.used@[b] && 0 <= off < 512
            ==> #[trigger] disk_byte(fs, b, off) == 0
    &&& forall|i: int, a: int, off: int|
        0 <= i < fs.inodes@.len() && 0 <= a < fs.inodes@[i].blocks@.len() && 0 <= off < 512 && a
            * 512 + off >= fs.inodes@[i].size ==> #[trigger] disk_byte(
            fs,
            fs.inodes@[i].blocks@[a] as int,
            off,
        ) == 0
}

/// Which file systems are well formed, and can be put into use: those whose tables fit together,
/// whose blocks are shared out among the files, and in which the rest is zero.
pub proof fn law_well_formed(fs: FsImage)
    ensures
        fs.wf() <==> tables_fit(fs) && blocks_fit(fs) && rest_is_zero(fs),
{
    if fs.wf() {
        assert forall|b: int, off: int|
            0 <= b < fs.data.used@.len() && !fs.data.used@[b] && 0 <= off < 512 implies
            #[trigger] disk_byte(fs, b, off) == 0 by {
            assert(fs.data.at(b, off) == 0);
        }
        assert forall|i: int, a: int, off: int|
            0 <= i < fs.inodes@.len() && 0 <= a < fs.inodes@[i].blocks@.len() && 0 <= off < 512 && a
                * 512 + off >= fs.inodes@[i].size implies #[trigger] disk_byte(
            fs,
            fs.inodes@[i].blocks@[a] as int,
            off,
        ) == 0 by {
            let p = a * 512 + off;
            assert(fs.inodes@[i].wf(fs.data));
            assert(fs.inodes@[i].byte(fs.data, p) == 0);
        }
        assert forall|i: int, a: int|
            0 <= i < fs.inodes@.len() && 0 <= a < fs.inodes@[i].blocks@.len() implies
            #[trigger] fs.inodes@[i].blocks@[a] < fs.data.used@.len()
            && fs.data.used@[fs.inodes@[i].blocks@[a] as int] by {
            assert(fs.inodes@[i].wf(fs.data));
            assert(fs.data.taken(fs.inodes@[i].blocks@[a] as int));
        }
        assert forall|i: int, a: int, j: int, b: int|
            0 <= i < fs.inodes@.len() && 0 <= a < fs.inodes@[i].blocks@.len() && 0 <= j
                < fs.inodes@.len() && 0 <= b < fs.inodes@[j].blocks@.len() && (i != j || a
                != b) implies #[trigger] fs.inodes@[i].blocks@[a]
            != #[trigger] fs.inodes@[j].blocks@[b] by {
            assert(fs.inodes@[i].wf(fs.data));
            if i != j {
                assert(fs.inodes@[i].disjoint(fs.inodes@[j]));
            }
        }
        assert(blocks_fit(fs));
    }
    if tables_fit(fs) && blocks_fit(fs) && rest_is_zero(fs) {
        assert forall|id: int, off: int|
            0 <= id < fs.data.used@.len() && !fs.data.used@[id] && 0 <= off < 512 implies
            #[trigger] fs.data.at(id, off) == 0 by {
            assert(disk_byte(fs, id, off) == 0);
        }
        assert(fs.data.wf());
        assert forall|i: int| 0 <= i < fs.inodes@.len() implies (#[trigger] fs.inodes@[i]).wf(
            fs.data,
        ) by {
            let d = fs.inodes@[i];
            assert forall|p: int| d.size <= p < d.blocks@.len() * 512 implies #[trigger] d.byte(
                fs.data,
                p,
            ) == 0 by {
                assert(disk_byte(fs, fs.inodes@[i].blocks@[p / 512] as int, p % 512) == 0);
            }
            assert forall|a: int| 0 <= a < d.blocks@.len() implies fs.data.taken(
                #[trigger] d.blocks@[a] as int,
            ) by {
                assert(fs.inodes@[i].blocks@[a] < fs.data.used@.len());
            }
            assert forall|a: int, b: int| 0 <= a < b < d.blocks@.len() implies
                #[trigger] d.blocks@[a] != #[trigger] d.blocks@[b] by {
                assert(fs.inodes@[i].blocks@[a] != fs.inodes@[i].blocks@[b]);
            }
        }
        assert forall|i: int, j: int|
            0 <= i < fs.inodes@.len() && 0 <= j < fs.inodes@.len() && i != j implies (
        #[trigger] fs.inodes@[i]).disjoint(#[trigger] fs.inodes@[j]) by {
            assert forall|a: int, b: int|
                0 <= a < fs.inodes@[i].blocks@.len() && 0 <= b < fs.inodes@[j].blocks@.len() implies
                #[trigger] fs.inodes@[i].blocks@[a] != #[trigger] fs.inodes@[j].blocks@[b] by {}
        }
    }
}

/// In a new file system inode 0 is a directory with one link, which is in use, and every other is a
/// file with none, which is not. All are empty, and no block is taken.
pub proof fn law_new_file_system(start: int, inode_count: nat, block_count: nat)
    ensures
        ({
            let fs = fresh_fs(start, inode_count, block_count);
            &&& fs.inode_area_start == start
            &&& fs.files.len() == inode_count
            &&& fs.used.len() == inode_count
            &&& fs.data_used.len() == block_count
            &&& fs.synced
            &&& forall|i: int|
                0 <= i < inode_count ==> {
                    &&& (#[trigger] fs.files[i]).content.len() == 0
                    &&& fs.files[i].blocks.len() == 0
                    &&& fs.files[i].kind == DiskInodeType::Directory <==> i == 0
                    &&& fs.files[i].ref_cnt == if i == 0 {
                        1u32
                    } else {
                        0u32
                    }
                }
            &&& forall|i: int| 0 <= i < inode_count ==> (#[trigger] fs.used[i] <==> i == 0)
            &&& forall|b: int| 0 <= b < block_count ==> !#[trigger] fs.data_used[b]
        }),
{
}

/// `read_all` of a file that exists gives back all of its bytes, and is rejected for no other reason
/// than that there is none.
pub proof fn law_read_all(fs: FsView, inode: InodeHandle, id: int, r: Result<Vec<u8>, Rejected>)
    requires
        read_all_answer(fs, inode, r),
    ensures
        points_at(inode, fs, id) ==> (r matches Ok(all) && all@ == fs.files[id].content),
        r is Err <==> forall|j: int| !points_at(inode, fs, j),
{
    law_valid_handle(inode, fs);
    if points_at(inode, fs, id) {
        lemma_points_at(inode, fs, id);
    }
}

} // verus!
