//! The file system on disk: the table of disk inodes, the bitmap of those in use, and the data
//! area.
use vstd::prelude::*;

use crate::block::{
    DataArea, alloc_order, blocks_for, cleared, count_free, find_first_free, first_free, used_after,
};
use crate::config::{BLOCK_SZ, DISK_INODE_SZ, INODES_PER_BLOCK};
use crate::layout::{DiskInode, DiskInodeType, FileView, overwritten, span};

verus! {

/// A file system as its users see it.
#[verifier::ext_equal]
pub struct FsView {
    /// The block in which the inode area begins.
    pub inode_area_start: int,
    /// Which inodes are in use.
    pub used: Seq<bool>,
    /// The file that each inode holds.
    pub files: Seq<FileView>,
    /// Which data blocks are taken.
    pub data_used: Seq<bool>,
    /// Nothing was changed since it was last called for that everything be written back.
    pub synced: bool,
}

impl FsView {
    /// Data blocks that are left.
    pub open spec fn free_blocks(self) -> int {
        count_free(self.data_used) as int
    }

    /// File `i` is no longer than 32 bits can count, has as many blocks as its content takes, each
    /// of them taken and none twice, and is in use if it is a directory.
    pub open spec fn file_sound(self, i: int) -> bool {
        let f = self.files[i];
        &&& f.content.len() <= u32::MAX
        &&& f.blocks.len() == blocks_for(f.content.len() as int)
        &&& f.blocks.no_duplicates()
        &&& forall|a: int|
            0 <= a < f.blocks.len() ==> (#[trigger] f.blocks[a]) < self.data_used.len()
                && self.data_used[f.blocks[a] as int]
        &&& f.kind == DiskInodeType::Directory ==> self.used[i]
    }

    /// What holds of every file system that is well formed. No block belongs to two files.
    pub open spec fn sound(self) -> bool {
        &&& 0 <= self.inode_area_start
        &&& self.inode_area_start + 0x4000_0000 <= u32::MAX
        &&& self.used.len() == self.files.len()
        &&& self.files.len() <= u32::MAX
        &&& self.data_used.len() <= u32::MAX
        &&& forall|i: int| 0 <= i < self.files.len() ==> #[trigger] self.file_sound(i)
        &&& forall|i: int, j: int, a: int, b: int|
            0 <= i < self.files.len() && 0 <= j < self.files.len() && i != j && 0 <= a
                < self.files[i].blocks.len() && 0 <= b < self.files[j].blocks.len()
                ==> #[trigger] self.files[i].blocks[a] != #[trigger] self.files[j].blocks[b]
    }

    /// The file system with `file` at inode `i`.
    pub open spec fn with_file(self, i: int, file: FileView) -> FsView {
        FsView { files: self.files.update(i, file), ..self }
    }

    /// The file system with the content of file `i` replaced. The blocks that the file lacks are
    /// those that are free, the lowest first; those that it has too many are given back from its
    /// end.
    pub open spec fn with_content(self, i: int, content: Seq<u8>) -> FsView {
        let f = self.files[i];
        let n = blocks_for(content.len() as int);
        if n >= f.blocks.len() {
            let more = (n - f.blocks.len()) as nat;
            let blocks = f.blocks + alloc_order(self.data_used, more);
            FsView {
                files: self.files.update(i, FileView { content, blocks, ..f }),
                data_used: used_after(self.data_used, more),
                ..self
            }
        } else {
            FsView {
                files: self.files.update(i, FileView { content, blocks: f.blocks.take(n), ..f }),
                data_used: cleared(self.data_used, f.blocks.skip(n)),
                ..self
            }
        }
    }

    /// The file system with the link count of file `i` replaced.
    pub open spec fn with_ref_cnt(self, i: int, ref_cnt: u32) -> FsView {
        FsView { files: self.files.update(i, FileView { ref_cnt, ..self.files[i] }), ..self }
    }

    /// The blocks that are left suffice to lengthen file `i` to `new_size` bytes.
    pub open spec fn can_grow(self, i: int, new_size: int) -> bool {
        new_size >= self.files[i].content.len() ==> blocks_for(new_size) - blocks_for(
            self.files[i].content.len() as int,
        ) <= self.free_blocks()
    }
}

/// Where inode `id` lies: its block, and the offset in it.
pub open spec fn inode_pos(start: int, id: int) -> (int, int) {
    (start + id / (INODES_PER_BLOCK as int), (id % (INODES_PER_BLOCK as int)) * DISK_INODE_SZ)
}

/// The inode that lies at `offset` in block `block_id`.
pub open spec fn slot_at(start: int, block_id: int, offset: int) -> int {
    (block_id - start) * INODES_PER_BLOCK + offset / (DISK_INODE_SZ as int)
}

/// An inode begins at `offset` in block `block_id`.
pub open spec fn pos_in_area(start: int, count: int, block_id: int, offset: int) -> bool {
    &&& start <= block_id
    &&& 0 <= offset < BLOCK_SZ
    &&& offset % (DISK_INODE_SZ as int) == 0
    &&& slot_at(start, block_id, offset) < count
}

/// No two inodes lie at one place: the place of an inode leads back to it.
pub proof fn lemma_inode_pos_slot(start: int, id: int)
    requires
        0 <= id,
    ensures
        slot_at(start, inode_pos(start, id).0, inode_pos(start, id).1) == id,
        forall|count: int|
            id < count ==> #[trigger] pos_in_area(
                start,
                count,
                inode_pos(start, id).0,
                inode_pos(start, id).1,
            ),
{
}

/// A file keeps its content where neither its blocks nor the bitmap at them change.
pub proof fn lemma_untouched(inode: DiskInode, d1: DataArea, d2: DataArea)
    requires
        inode.wf(d1),
        forall|id: int, off: int|
            inode.owns(id) && 0 <= off < BLOCK_SZ ==> #[trigger] d2.at(id, off) == d1.at(id, off),
        forall|id: int| inode.owns(id) ==> #[trigger] d2.taken(id),
    ensures
        inode.wf(d2),
        inode.content(d2) == inode.content(d1),
{
    assert forall|p: int| 0 <= p < inode.blocks@.len() * BLOCK_SZ implies #[trigger] inode.byte(
        d2,
        p,
    ) == inode.byte(d1, p) by {
        let id = inode.blocks@[p / 512] as int;
        assert(inode.owns(id));
        assert(d2.at(id, p % 512) == d1.at(id, p % 512));
    }
    assert forall|a: int| 0 <= a < inode.blocks@.len() implies d2.taken(
        #[trigger] inode.blocks@[a] as int,
    ) by {
        assert(inode.owns(inode.blocks@[a] as int));
    }
    assert(inode.content(d2) =~= inode.content(d1));
}

/// A file system that is well formed is sound.
pub proof fn lemma_wf_sound(fs: FsImage)
    requires
        fs.wf(),
    ensures
        fs@.sound(),
{
    assert forall|i: int| 0 <= i < fs@.files.len() implies #[trigger] fs@.file_sound(i) by {
        let d = fs.inodes@[i];
        assert(d.wf(fs.data));
        assert forall|a: int| 0 <= a < d.blocks@.len() implies (#[trigger] d.blocks@[a])
            < fs@.data_used.len() && fs@.data_used[d.blocks@[a] as int] by {
            assert(fs.data.taken(d.blocks@[a] as int));
        }
    }
    assert forall|i: int, j: int, a: int, b: int|
        0 <= i < fs@.files.len() && 0 <= j < fs@.files.len() && i != j && 0 <= a
            < fs@.files[i].blocks.len() && 0 <= b < fs@.files[j].blocks.len() implies
        #[trigger] fs@.files[i].blocks[a] != #[trigger] fs@.files[j].blocks[b] by {
        assert(fs.inodes@[i].disjoint(fs.inodes@[j]));
        assert(fs.inodes@[i].blocks@[a] != fs.inodes@[j].blocks@[b]);
    }
}

/// The file that inode `i` of a new file system holds.
pub open spec fn fresh_file(i: int) -> FileView {
    if i == 0 {
        FileView {
            kind: DiskInodeType::Directory,
            ref_cnt: 1,
            content: Seq::empty(),
            blocks: Seq::empty(),
        }
    } else {
        FileView {
            kind: DiskInodeType::File,
            ref_cnt: 0,
            content: Seq::empty(),
            blocks: Seq::empty(),
        }
    }
}

/// A new file system of `inode_count` inodes and `block_count` data blocks.
pub open spec fn fresh_fs(inode_area_start: int, inode_count: nat, block_count: nat) -> FsView {
    FsView {
        inode_area_start,
        used: Seq::new(inode_count, |i: int| i == 0),
        files: Seq::new(inode_count, |i: int| fresh_file(i)),
        data_used: Seq::new(block_count, |b: int| false),
        synced: true,
    }
}

/// A file system.
pub struct FsImage {
    pub inode_area_start_block: u32,
    pub inode_used: Vec<bool>,
    pub inodes: Vec<DiskInode>,
    pub data: DataArea,
    pub cache_synced: bool,
}

impl View for FsImage {
    type V = FsView;

    open spec fn view(&self) -> FsView {
        FsView {
            inode_area_start: self.inode_area_start_block as int,
            used: self.inode_used@,
            files: Seq::new(self.inodes@.len(), |i: int| self.inodes@[i].view_in(self.data)),
            data_used: self.data.used@,
            synced: self.cache_synced,
        }
    }
}

impl FsImage {
    /// Every file is sound, no data block belongs to two of them, and the inode of every directory
    /// is in use.
    pub open spec fn wf(self) -> bool {
        &&& self.data.wf()
        &&& self.inode_used@.len() == self.inodes@.len()
        &&& self.inodes@.len() <= u32::MAX
        &&& self.inode_area_start_block + 0x4000_0000 <= u32::MAX
        &&& forall|i: int|
            0 <= i < self.inodes@.len() ==> (#[trigger] self.inodes@[i]).wf(self.data)
        &&& forall|i: int, j: int|
            0 <= i < self.inodes@.len() && 0 <= j < self.inodes@.len() && i != j ==> (
            #[trigger] self.inodes@[i]).disjoint(#[trigger] self.inodes@[j])
        &&& forall|i: int|
            0 <= i < self.inodes@.len() && (#[trigger] self.inodes@[i]).type_
                == DiskInodeType::Directory ==> self.inode_used@[i]
    }

    /// `d` is a sound file that shares no block with those in the table.
    pub open spec fn detached(self, d: DiskInode) -> bool {
        &&& d.wf(self.data)
        &&& forall|i: int| 0 <= i < self.inodes@.len() ==> (#[trigger] self.inodes@[i]).disjoint(d)
    }

    /// A file system of `inode_count` inodes and `block_count` data blocks whose inode area begins
    /// at block `inode_area_start_block`. Inode 0 is in use, as the empty root directory.
    pub fn new(inode_area_start_block: u32, inode_count: u32, block_count: u32) -> (r:
        FsImage)
        requires
            inode_area_start_block + 0x4000_0000 <= u32::MAX,
            0 < inode_count,
            block_count * 512 <= usize::MAX,
        ensures
            r.wf(),
            r@ == fresh_fs(inode_area_start_block as int, inode_count as nat, block_count as nat),
    {
        let mut inodes: Vec<DiskInode> = Vec::new();
        let mut inode_used: Vec<bool> = Vec::new();
        let mut root = DiskInode::blank();
        root.initialize(DiskInodeType::Directory);
        root.ref_cnt = 1;
        inodes.push(root);
        inode_used.push(true);
        let mut i: u32 = 1;
        while i < inode_count
            invariant
                1 <= i <= inode_count,
                inodes@.len() == i,
                inode_used@.len() == i,
                forall|j: int|
                    0 <= j < i ==> {
                        let d = #[trigger] inodes@[j];
                        &&& d.size == 0
                        &&& d.blocks@.len() == 0
                        &&& d.ref_cnt == if j == 0 {
                            1u32
                        } else {
                            0u32
                        }
                        &&& d.type_ == if j == 0 {
                            DiskInodeType::Directory
                        } else {
                            DiskInodeType::File
                        }
                    },
                forall|j: int| 0 <= j < i ==> #[trigger] inode_used@[j] == (j == 0),
            decreases inode_count - i,
        {
            inodes.push(DiskInode::blank());
            inode_used.push(false);
            i = i + 1;
        }
        let data = DataArea::new(block_count);
        let r = FsImage {
            inode_area_start_block,
            inode_used,
            inodes,
            data,
            cache_synced: true,
        };
        proof {
            assert(r@.used =~= Seq::new(inode_count as nat, |i: int| i == 0));
            assert(r@.data_used =~= Seq::new(block_count as nat, |b: int| false)) by {
                assert forall|b: int| 0 <= b < block_count implies !#[trigger] r@.data_used[b] by {
                    assert(!r.data.taken(b));
                }
            }
            assert forall|j: int| 0 <= j < inode_count implies #[trigger] r@.files[j] == fresh_file(
                j,
            ) by {
                assert(r@.files[j] =~= fresh_file(j));
            }
            assert(r@.files =~= Seq::new(inode_count as nat, |i: int| fresh_file(i)));
        }
        r
    }

    /// Whether the file system is well formed.
    pub fn check_wf(&self) -> (ok: bool)
        ensures
            ok == self.wf(),
    {
        let count: usize = self.inodes.len();
        if !self.data.check_wf() || self.inode_used.len() != count || count as u64 > u32::MAX as u64
            || self.inode_area_start_block > u32::MAX - 0x4000_0000 {
            return false;
        }
        let mut i: usize = 0;
        while i < count
            invariant
                i <= count,
                count == self.inodes@.len(),
                count == self.inode_used@.len(),
                self.data.wf(),
                forall|a: int| 0 <= a < i ==> (#[trigger] self.inodes@[a]).wf(self.data),
                forall|a: int, b: int|
                    0 <= a < i && 0 <= b < count && a != b ==> (#[trigger] self.inodes@[a]).disjoint(
                        #[trigger] self.inodes@[b],
                    ),
                forall|a: int|
                    0 <= a < i && (#[trigger] self.inodes@[a]).type_ == DiskInodeType::Directory
                        ==> self.inode_used@[a],
            decreases count - i,
        {
            if !self.inodes[i].check_wf(&self.data) || (self.inodes[i].is_dir()
                && !self.inode_used[i]) {
                return false;
            }
            let mut j: usize = 0;
            while j < count
                invariant
                    i < count,
                    j <= count,
                    count == self.inodes@.len(),
                    forall|b: int|
                        0 <= b < j && b != i ==> self.inodes@[i as int].disjoint(
                            #[trigger] self.inodes@[b],
                        ),
                decreases count - j,
            {
                if j != i && !self.inodes[i].check_disjoint(&self.inodes[j]) {
                    return false;
                }
                j = j + 1;
            }
            i = i + 1;
        }
        true
    }

    /// Where inode `inode_id` lies on disk: its block, and the offset in it.
    pub fn get_disk_inode_pos(&self, inode_id: u32) -> (r: (u32, usize))
        requires
            self.wf(),
        ensures
            (r.0 as int, r.1 as int) == inode_pos(
                self.inode_area_start_block as int,
                inode_id as int,
            ),
    {
        let block_id: u32 = self.inode_area_start_block + inode_id / INODES_PER_BLOCK;
        let offset: usize = (inode_id % INODES_PER_BLOCK) as usize * DISK_INODE_SZ;
        (block_id, offset)
    }

    /// Takes the first inode that is not in use.
    pub fn alloc_inode(&mut self) -> (id: u32)
        requires
            old(self).wf(),
            first_free(old(self)@.used) < old(self)@.used.len(),
        ensures
            final(self).wf(),
            id == first_free(old(self)@.used),
            id < old(self)@.used.len(),
            final(self)@ == (FsView {
                used: old(self)@.used.update(id as int, true),
                ..old(self)@
            }),
            final(self).inodes == old(self).inodes,
            final(self).data == old(self).data,
    {
        let i = find_first_free(&self.inode_used);
        self.inode_used[i] = true;
        proof {
            assert(self@.files =~= old(self)@.files);
        }
        i as u32
    }

    /// Takes a data block. It holds zeros and belongs to no file.
    pub fn alloc_data(&mut self) -> (id: u32)
        requires
            old(self).wf(),
            old(self)@.free_blocks() > 0,
        ensures
            final(self).wf(),
            final(self).inodes == old(self).inodes,
            final(self).data.bytes == old(self).data.bytes,
            final(self).data.used@ == old(self).data.used@.update(id as int, true),
            id == first_free(old(self).data.used@),
            id < old(self).data.block_count(),
            !old(self).data.taken(id as int),
            forall|off: int|
                0 <= off < BLOCK_SZ ==> #[trigger] final(self).data.at(id as int, off) == 0,
            final(self)@ == (FsView {
                data_used: old(self)@.data_used.update(id as int, true),
                ..old(self)@
            }),
            final(self)@.free_blocks() == old(self)@.free_blocks() - 1,
    {
        let id = self.data.alloc_block();
        proof {
            assert forall|off: int| 0 <= off < BLOCK_SZ implies #[trigger] self.data.at(
                id as int,
                off,
            ) == 0 by {
                assert(old(self).data.at(id as int, off) == 0);
            }
            assert forall|i: int| 0 <= i < self.inodes@.len() implies (
            #[trigger] self.inodes@[i]).wf(self.data) && self.inodes@[i].content(self.data)
                == self.inodes@[i].content(old(self).data) by {
                assert forall|b: int| self.inodes@[i].owns(b) implies #[trigger] self.data.taken(
                    b,
                ) by {
                    let a = choose|a: int|
                        0 <= a < self.inodes@[i].blocks@.len()
                            && #[trigger] self.inodes@[i].blocks@[a] == b;
                    assert(old(self).data.taken(self.inodes@[i].blocks@[a] as int));
                }
                lemma_untouched(self.inodes@[i], old(self).data, self.data);
            }
            assert(self@.files =~= old(self)@.files);
        }
        id
    }

    /// Gives back a data block that no file holds.
    pub fn dealloc_data(&mut self, id: u32)
        requires
            old(self).wf(),
            old(self).data.taken(id as int),
            forall|i: int|
                0 <= i < old(self).inodes@.len() ==> !(#[trigger] old(self).inodes@[i]).owns(
                    id as int,
                ),
        ensures
            final(self).wf(),
            final(self).inodes == old(self).inodes,
            final(self).data.used@ == old(self).data.used@.update(id as int, false),
            final(self)@ == (FsView {
                data_used: old(self)@.data_used.update(id as int, false),
                ..old(self)@
            }),
    {
        self.data.dealloc_block(id);
        proof {
            assert forall|i: int| 0 <= i < self.inodes@.len() implies (
            #[trigger] self.inodes@[i]).wf(self.data) && self.inodes@[i].content(self.data)
                == self.inodes@[i].content(old(self).data) by {
                assert(!old(self).inodes@[i].owns(id as int));
                assert forall|b: int| self.inodes@[i].owns(b) implies #[trigger] self.data.taken(
                    b,
                ) && b != id && 0 <= b < self.data.block_count() by {
                    let a = choose|a: int|
                        0 <= a < self.inodes@[i].blocks@.len()
                            && #[trigger] self.inodes@[i].blocks@[a] == b;
                    assert(old(self).data.taken(self.inodes@[i].blocks@[a] as int));
                }
                assert forall|b: int, off: int|
                    self.inodes@[i].owns(b) && 0 <= off < BLOCK_SZ implies #[trigger] self.data.at(
                    b,
                    off,
                ) == old(self).data.at(b, off) by {
                    assert(self.data.taken(b));
                }
                lemma_untouched(self.inodes@[i], old(self).data, self.data);
            }
            assert(self@.files =~= old(self)@.files);
        }
    }

    /// Takes the inode in slot `slot` out of the table, to be changed; a blank one stays in its
    /// place.
    pub fn take_inode(&mut self, slot: usize) -> (d: DiskInode)
        requires
            old(self).wf(),
            slot < old(self).inodes@.len(),
        ensures
            final(self).wf(),
            final(self).detached(d),
            d == old(self).inodes@[slot as int],
            final(self)@.used == old(self)@.used,
            d.type_ == DiskInodeType::Directory ==> final(self)@.used[slot as int],
            final(self).data == old(self).data,
            d.view_in(final(self).data) == old(self)@.files[slot as int],
            forall|f: FileView|
                #[trigger] final(self)@.with_file(slot as int, f) == old(self)@.with_file(
                    slot as int,
                    f,
                ),
            final(self).inodes@.len() == old(self).inodes@.len(),
    {
        let mut d = DiskInode::blank();
        let ghost blank = d;
        core::mem::swap(&mut self.inodes[slot], &mut d);
        proof {
            assert(self.inodes@ =~= old(self).inodes@.update(slot as int, blank));
            assert(d.view_in(self.data) == old(self)@.files[slot as int]);
            assert forall|f: FileView|
                #[trigger] self@.with_file(slot as int, f) == old(self)@.with_file(
                slot as int,
                f,
            ) by {
                assert(self@.files.update(slot as int, f) =~= old(self)@.files.update(
                    slot as int,
                    f,
                ));
            }
        }
        d
    }

    /// Puts an inode into slot `slot` of the table.
    pub fn put_inode(&mut self, slot: usize, d: DiskInode)
        requires
            old(self).wf(),
            old(self).detached(d),
            slot < old(self).inodes@.len(),
            d.type_ == DiskInodeType::Directory ==> old(self)@.used[slot as int],
        ensures
            final(self).wf(),
            final(self).data == old(self).data,
            final(self)@ == old(self)@.with_file(slot as int, d.view_in(old(self).data)),
            final(self).inodes@ == old(self).inodes@.update(slot as int, d),
    {
        self.inodes[slot] = d;
        proof {
            assert(self@.files =~= old(self)@.files.update(
                slot as int,
                d.view_in(old(self).data),
            ));
        }
    }

    /// Writes `buf` over the file of an inode that was taken out of the table.
    pub fn write_detached(&mut self, d: &DiskInode, offset: usize, buf: &[u8]) -> (n: usize)
        requires
            old(self).wf(),
            old(self).detached(*d),
            offset + buf@.len() <= usize::MAX,
        ensures
            final(self).wf(),
            final(self).detached(*d),
            n == span(d.size as int, offset as int, buf@.len() as int),
            d.content(final(self).data) == overwritten(
                d.content(old(self).data),
                offset as int,
                buf@,
            ),
            final(self)@ == old(self)@,
            final(self).inodes == old(self).inodes,
    {
        let n = d.write_at(offset, buf, &mut self.data);
        proof {
            assert forall|i: int| 0 <= i < self.inodes@.len() implies (
            #[trigger] self.inodes@[i]).wf(self.data) && self.inodes@[i].content(self.data)
                == self.inodes@[i].content(old(self).data) by {
                let inode = self.inodes@[i];
                assert(old(self).inodes@[i].disjoint(*d));
                assert forall|b: int| inode.owns(b) implies #[trigger] self.data.taken(b)
                    && !d.owns(b) by {
                    let a = choose|a: int|
                        0 <= a < inode.blocks@.len() && #[trigger] inode.blocks@[a] == b;
                    assert(old(self).data.taken(inode.blocks@[a] as int));
                    if d.owns(b) {
                        let c = choose|c: int|
                            0 <= c < d.blocks@.len() && #[trigger] d.blocks@[c] == b;
                        assert(inode.blocks@[a] != d.blocks@[c]);
                    }
                }
                assert forall|b: int, off: int|
                    inode.owns(b) && 0 <= off < BLOCK_SZ implies #[trigger] self.data.at(b, off)
                    == old(self).data.at(b, off) by {
                    assert(self.data.taken(b));
                }
                lemma_untouched(inode, old(self).data, self.data);
            }
            assert(self@.files =~= old(self)@.files);
        }
        n
    }

    /// Calls for everything that was changed to be written back to the device, which is up to
    /// whoever keeps the image there.
    pub fn block_cache_sync_all(&mut self)
        requires
            old(self).wf(),
        ensures
            final(self).wf(),
            final(self)@ == (FsView { synced: true, ..old(self)@ }),
    {
        self.cache_synced = true;
        proof {
            assert(self@.files =~= old(self)@.files);
        }
    }

    /// Notes that something was changed without a call for it to be written back.
    pub fn mark_unsynced(&mut self)
        requires
            old(self).wf(),
        ensures
            final(self).wf(),
            final(self)@ == (FsView { synced: false, ..old(self)@ }),
    {
        self.cache_synced = false;
        proof {
            assert(self@.files =~= old(self)@.files);
        }
    }
}

} // verus!
