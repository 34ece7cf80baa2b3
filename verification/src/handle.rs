//! Where an inode lies, and what can be done to it there: looking up, making, linking and removing
//! names in a directory, and reading and writing files.
use vstd::prelude::*;
use vstd::utf8::*;

use crate::block::{
    alloc_order, blocks_for, cleared, find_first_free, first_free, lemma_cleared_push,
    lemma_first_free, used_after,
};
use crate::config::{BLOCK_SZ, DIRENT_SZ, DISK_INODE_SZ, INODES_PER_BLOCK, NAME_LENGTH_LIMIT};
use crate::dirent::{
    DirEntry, appended, bytes_eq, emptied, entry_count, entry_inode, entry_name, entry_raw,
    is_absent, is_first, lemma_encode_entry, lemma_lookup_index_is, listing, listing_upto, lookup,
    lookup_index, names_are_text,
};
use crate::image::{FsImage, FsView, inode_pos, lemma_inode_pos_slot, pos_in_area, slot_at};
use crate::layout::{
    DiskInode, DiskInodeType, FileView, grown, lemma_same_blocks, overwritten, span,
};
use crate::vfs::{Stat, StatMode};

verus! {

/// A handle on an inode: its number, and where its record lies on disk.
#[derive(Clone, Copy, PartialEq, Eq, Structural, Debug)]
pub struct InodeHandle {
    pub inode_id: usize,
    pub block_id: usize,
    pub block_offset: usize,
}

/// The handle on inode `id` of a file system whose inode area begins at block `start`.
pub open spec fn handle_of(start: int, id: u32) -> InodeHandle {
    InodeHandle {
        inode_id: id as usize,
        block_id: inode_pos(start, id as int).0 as usize,
        block_offset: inode_pos(start, id as int).1 as usize,
    }
}

/// The handle on an inode that exists leads to it.
pub proof fn lemma_handle_of(fs: FsView, id: u32)
    requires
        fs.sound(),
        id < fs.files.len(),
    ensures
        handle_of(fs.inode_area_start, id).valid(fs),
        handle_of(fs.inode_area_start, id).slot(fs) == id,
{
    lemma_inode_pos_slot(fs.inode_area_start, id as int);
}

/// One more entry fits into directory `dir`.
pub open spec fn can_append(fs: FsView, dir: int) -> bool {
    let new_size = (entry_count(fs.files[dir].content) + 1) * DIRENT_SZ;
    &&& new_size <= u32::MAX
    &&& fs.can_grow(dir, new_size)
}

/// The file system with one more entry in directory `dir`.
pub open spec fn with_entry(fs: FsView, dir: int, name: Seq<u8>, id: u32) -> FsView {
    fs.with_content(dir, appended(fs.files[dir].content, name, id))
}

/// The file system with its first free inode made an empty file that is linked once.
pub open spec fn with_new_file(fs: FsView) -> FsView {
    let id = first_free(fs.used);
    FsView {
        used: fs.used.update(id, true),
        files: fs.files.update(
            id,
            FileView {
                kind: DiskInodeType::File,
                ref_cnt: 1,
                content: Seq::empty(),
                blocks: Seq::empty(),
            },
        ),
        ..fs
    }
}

/// The file system after a file was made in directory `dir` under the name `name`.
pub open spec fn created(fs: FsView, dir: int, name: Seq<u8>) -> FsView {
    FsView {
        synced: true,
        ..with_entry(with_new_file(fs), dir, name, first_free(fs.used) as u32)
    }
}

/// The file system after file `id` got one more link, `name` in directory `dir`.
pub open spec fn linked(fs: FsView, dir: int, name: Seq<u8>, id: u32) -> FsView {
    let counted = fs.with_ref_cnt(id as int, (fs.files[id as int].ref_cnt + 1) as u32);
    FsView { synced: false, ..with_entry(counted, dir, name, id) }
}

/// The file system after a link of file `id`, whose name is in entry `i` of directory `dir`, was
/// given up: the file counts one link less, and the entry is emptied.
pub open spec fn unlinked(fs: FsView, dir: int, i: int, id: u32) -> FsView {
    let counted = FsView {
        synced: false,
        ..fs.with_ref_cnt(id as int, (fs.files[id as int].ref_cnt - 1) as u32)
    };
    counted.with_content(dir, emptied(counted.files[dir].content, i))
}

/// The size that a file of `size` bytes has once `len` bytes were written to it from `offset` on.
/// The end of what is written is held in 32 bits.
pub open spec fn size_after_write(size: int, offset: int, len: int) -> int {
    let end = (offset + len) % 0x1_0000_0000;
    if end < size {
        size
    } else {
        end
    }
}

/// A file's content once `buf` was written to it from `offset` on.
pub open spec fn content_after_write(content: Seq<u8>, offset: int, buf: Seq<u8>) -> Seq<u8> {
    overwritten(
        grown(content, size_after_write(content.len() as int, offset, buf.len() as int)),
        offset,
        buf,
    )
}

impl InodeHandle {
    /// The slot of the inode table that the handle leads to.
    pub open spec fn slot(self, fs: FsView) -> int {
        slot_at(fs.inode_area_start, self.block_id as int, self.block_offset as int)
    }

    /// The handle leads to an inode.
    pub open spec fn valid(self, fs: FsView) -> bool {
        pos_in_area(
            fs.inode_area_start,
            fs.files.len() as int,
            self.block_id as int,
            self.block_offset as int,
        )
    }

    /// The file that the handle leads to.
    pub open spec fn file(self, fs: FsView) -> FileView {
        fs.files[self.slot(fs)]
    }

    /// The handle leads to a directory.
    pub open spec fn is_dir_in(self, fs: FsView) -> bool {
        self.valid(fs) && self.file(fs).kind == DiskInodeType::Directory
    }

    /// The inode that `name` stands for in the directory that the handle leads to.
    pub open spec fn lookup_in(self, fs: FsView, name: Seq<u8>) -> Option<u32> {
        lookup(self.file(fs).content, name)
    }

    /// The handle leads to a directory in which a file can be made under the name `name`, or in
    /// which that name is taken.
    pub open spec fn create_ok(self, fs: FsView, name: Seq<u8>) -> bool {
        &&& self.is_dir_in(fs)
        &&& self.lookup_in(fs, name) is None ==> {
            &&& name.len() <= NAME_LENGTH_LIMIT
            &&& first_free(fs.used) < fs.used.len()
            &&& can_append(with_new_file(fs), self.slot(fs))
        }
    }

    /// The handle leads to a directory in which the file `src` can be given the name `dst`, or in
    /// which there is nothing to do as `dst` is taken or `src` is not there.
    pub open spec fn hardlink_ok(self, fs: FsView, src: Seq<u8>, dst: Seq<u8>) -> bool {
        &&& self.is_dir_in(fs)
        &&& match (self.lookup_in(fs, dst), self.lookup_in(fs, src)) {
            (None, Some(id)) => {
                &&& dst.len() <= NAME_LENGTH_LIMIT
                &&& id < fs.files.len()
                &&& fs.files[id as int].ref_cnt < u32::MAX
                &&& can_append(fs, self.slot(fs))
            },
            _ => true,
        }
    }

    /// The handle leads to a directory in which `name` stands for a file that has links, or for
    /// nothing.
    pub open spec fn unlink_ok(self, fs: FsView, name: Seq<u8>) -> bool {
        &&& self.is_dir_in(fs)
        &&& match self.lookup_in(fs, name) {
            Some(id) => id < fs.files.len() && fs.files[id as int].ref_cnt > 0,
            None => true,
        }
    }

    /// The handle leads to a file whose content can be read as a list of names.
    pub open spec fn ls_ok(self, fs: FsView) -> bool {
        self.valid(fs) && names_are_text(self.file(fs).content)
    }

    /// The handle leads to a file, and the blocks that are left suffice to write `len` bytes to it
    /// from `offset` on.
    pub open spec fn write_ok(self, fs: FsView, offset: int, len: int) -> bool {
        &&& self.valid(fs)
        &&& offset + len <= usize::MAX
        &&& fs.can_grow(
            self.slot(fs),
            size_after_write(self.file(fs).content.len() as int, offset, len),
        )
    }

    /// The file system after a file was made under the name `name` in the directory that the handle
    /// leads to; nothing changes where the name is taken.
    pub open spec fn after_create(self, fs: FsView, name: Seq<u8>) -> FsView {
        match self.lookup_in(fs, name) {
            Some(_) => fs,
            None => created(fs, self.slot(fs), name),
        }
    }

    /// The file system after the file `src` was given the name `dst` too in the directory that the
    /// handle leads to; nothing changes where `dst` is taken or `src` is not there.
    pub open spec fn after_hardlink(self, fs: FsView, src: Seq<u8>, dst: Seq<u8>) -> FsView {
        match (self.lookup_in(fs, dst), self.lookup_in(fs, src)) {
            (None, Some(id)) => linked(fs, self.slot(fs), dst, id),
            _ => fs,
        }
    }

    /// The file system after a link of the file `name` was given up in the directory that the
    /// handle leads to; nothing changes where there is no such file.
    pub open spec fn after_unlink(self, fs: FsView, name: Seq<u8>) -> FsView {
        match lookup_index(self.file(fs).content, name) {
            Some(i) => unlinked(fs, self.slot(fs), i, entry_inode(self.file(fs).content, i)),
            None => fs,
        }
    }

    /// The file system after `buf` was written from `offset` on to the file that the handle leads
    /// to.
    pub open spec fn after_write(self, fs: FsView, offset: int, buf: Seq<u8>) -> FsView {
        FsView {
            synced: true,
            ..fs.with_content(
                self.slot(fs),
                content_after_write(self.file(fs).content, offset, buf),
            )
        }
    }

    /// The file system after the file that the handle leads to was emptied.
    pub open spec fn after_clear(self, fs: FsView) -> FsView {
        FsView { synced: true, ..fs.with_content(self.slot(fs), Seq::empty()) }
    }

    /// Makes a handle.
    pub fn new(inode_id: usize, block_id: u32, block_offset: usize) -> (r: InodeHandle)
        ensures
            r == (InodeHandle { inode_id, block_id: block_id as usize, block_offset }),
    {
        InodeHandle { inode_id, block_id: block_id as usize, block_offset }
    }

    /// The handle on inode `id`.
    pub fn of_id(fs: &FsImage, id: u32) -> (r: InodeHandle)
        requires
            fs.wf(),
        ensures
            r == handle_of(fs@.inode_area_start, id),
            r.slot(fs@) == id,
            id < fs@.files.len() ==> r.valid(fs@),
    {
        let (block_id, block_offset) = fs.get_disk_inode_pos(id);
        proof {
            lemma_inode_pos_slot(fs@.inode_area_start, id as int);
        }
        InodeHandle::new(id as usize, block_id, block_offset)
    }

    /// The slot of the inode table that the handle leads to.
    fn slot_index(&self, fs: &FsImage) -> (r: usize)
        requires
            fs.wf(),
            self.valid(fs@),
        ensures
            r == self.slot(fs@),
            r < fs.inodes@.len(),
    {
        let start: usize = fs.inode_area_start_block as usize;
        assert(fs.inodes.len() <= usize::MAX);
        (self.block_id - start) * (INODES_PER_BLOCK as usize) + self.block_offset / DISK_INODE_SZ
    }

    /// The record on disk, to be read.
    pub fn read_disk_inode<'a>(&self, fs: &'a FsImage) -> (d: &'a DiskInode)
        requires
            fs.wf(),
            self.valid(fs@),
        ensures
            *d == fs.inodes@[self.slot(fs@)],
            d.wf(fs.data),
            d.view_in(fs.data) == self.file(fs@),
    {
        let slot = self.slot_index(fs);
        &fs.inodes[slot]
    }

    /// Reads entry `i` of the directory that `disk_inode` holds.
    fn read_entry(fs: &FsImage, disk_inode: &DiskInode, i: usize) -> (dirent: DirEntry)
        requires
            fs.wf(),
            disk_inode.wf(fs.data),
            0 <= i < entry_count(disk_inode.content(fs.data)),
        ensures
            dirent.raw@ == entry_raw(disk_inode.content(fs.data), i as int),
    {
        let ghost content = disk_inode.content(fs.data);
        let mut dirent = DirEntry::empty();
        let n = disk_inode.read_at(DIRENT_SZ * i, &mut dirent.raw, &fs.data);
        assert(n == DIRENT_SZ);
        assert(dirent.raw@ =~= entry_raw(content, i as int));
        dirent
    }

    /// Finds the inode that `name` stands for in the directory that `disk_inode` holds.
    fn find_inode_id(&self, name: &str, disk_inode: &DiskInode, fs: &FsImage) -> (r: Option<u32>)
        requires
            fs.wf(),
            disk_inode.wf(fs.data),
            disk_inode.type_ == DiskInodeType::Directory,
        ensures
            r == lookup(disk_inode.content(fs.data), encode_utf8(name@)),
    {
        let ghost content = disk_inode.content(fs.data);
        let ghost bytes = encode_utf8(name@);
        let file_count: usize = disk_inode.size as usize / DIRENT_SZ;
        let mut i: usize = 0;
        while i < file_count
            invariant
                i <= file_count,
                file_count == entry_count(content),
                content == disk_inode.content(fs.data),
                bytes == encode_utf8(name@),
                fs.wf(),
                disk_inode.wf(fs.data),
                forall|j: int| 0 <= j < i ==> #[trigger] entry_name(content, j) != bytes,
            decreases file_count - i,
        {
            let dirent = Self::read_entry(fs, disk_inode, i);
            if bytes_eq(dirent.name().as_slice(), name.as_bytes()) {
                proof {
                    assert(is_first(content, bytes, i as int));
                    lemma_lookup_index_is(content, bytes, i as int);
                }
                return Some(dirent.inode_number());
            }
            i = i + 1;
        }
        assert(is_absent(content, bytes));
        None
    }

    /// Finds the inode that `name` stands for in this directory.
    pub fn find(&self, fs: &FsImage, name: &str) -> (r: Option<InodeHandle>)
        requires
            fs.wf(),
            self.is_dir_in(fs@),
        ensures
            match self.lookup_in(fs@, encode_utf8(name@)) {
                Some(id) => r == Some(handle_of(fs@.inode_area_start, id)),
                None => r is None,
            },
    {
        let disk_inode = self.read_disk_inode(fs);
        match self.find_inode_id(name, disk_inode, fs) {
            Some(inode_id) => Some(InodeHandle::of_id(fs, inode_id)),
            None => None,
        }
    }

    /// Lengthens the file of an inode that was taken out of the table; one that is long enough
    /// stays as it is.
    fn increase_size(&self, new_size: u32, disk_inode: &mut DiskInode, fs: &mut FsImage)
        requires
            old(fs).wf(),
            old(fs).detached(*old(disk_inode)),
            new_size >= old(disk_inode).size ==> blocks_for(new_size as int) - blocks_for(
                old(disk_inode).size as int,
            ) <= old(fs)@.free_blocks(),
        ensures
            final(fs).wf(),
            final(fs).detached(*final(disk_inode)),
            final(fs).inodes@.len() == old(fs).inodes@.len(),
            ({
                let more = (blocks_for(final(disk_inode).size as int) - blocks_for(
                    old(disk_inode).size as int,
                )) as nat;
                &&& final(disk_inode).view_in(final(fs).data) == (FileView {
                    content: grown(old(disk_inode).content(old(fs).data), new_size as int),
                    blocks: old(disk_inode).blocks@ + alloc_order(old(fs)@.data_used, more),
                    ..old(disk_inode).view_in(old(fs).data)
                })
                &&& final(fs)@ == (FsView {
                    data_used: used_after(old(fs)@.data_used, more),
                    ..old(fs)@
                })
            }),
    {
        if new_size < disk_inode.size {
            assert(disk_inode.blocks@ =~= disk_inode.blocks@ + alloc_order(fs.data.used@, 0));
            return ;
        }
        let blocks_needed: u32 = disk_inode.blocks_num_needed(new_size);
        let mut v: Vec<u32> = Vec::new();
        let ghost d = *disk_inode;
        let mut k: u32 = 0;
        proof {
            assert(d.content(fs.data) =~= d.content(old(fs).data));
        }
        while k < blocks_needed
            invariant
                k <= blocks_needed,
                blocks_needed - k <= fs@.free_blocks(),
                v@ == alloc_order(old(fs).data.used@, k as nat),
                fs.data.used@ == used_after(old(fs).data.used@, k as nat),
                v@.len() == k,
                d == *disk_inode,
                fs.wf(),
                fs.detached(d),
                fs.inodes@ == old(fs).inodes@,
                fs.data.bytes == old(fs).data.bytes,
                d.content(fs.data) == d.content(old(fs).data),
                fs@ == (FsView {
                    data_used: used_after(old(fs)@.data_used, k as nat),
                    ..old(fs)@
                }),
                forall|a: int|
                    0 <= a < v@.len() ==> fs.data.taken(#[trigger] v@[a] as int) && !d.owns(
                        v@[a] as int,
                    ) && forall|i: int|
                        0 <= i < fs.inodes@.len() ==> !(#[trigger] fs.inodes@[i]).owns(v@[a] as int),
                forall|a: int, b: int|
                    0 <= a < b < v@.len() ==> #[trigger] v@[a] != #[trigger] v@[b],
                forall|a: int, off: int|
                    0 <= a < v@.len() && 0 <= off < BLOCK_SZ ==> #[trigger] fs.data.at(
                        v@[a] as int,
                        off,
                    ) == 0,
            decreases blocks_needed - k,
        {
            let ghost before = *fs;
            let id = fs.alloc_data();
            v.push(id);
            proof {
                assert forall|a: int| 0 <= a < d.blocks@.len() implies fs.data.taken(
                    #[trigger] d.blocks@[a] as int,
                ) && d.blocks@[a] != id by {
                    assert(before.data.taken(d.blocks@[a] as int));
                }
                assert forall|p: int| 0 <= p < d.blocks@.len() * BLOCK_SZ implies #[trigger] d.byte(
                    fs.data,
                    p,
                ) == d.byte(before.data, p) by {}
                assert(d.content(fs.data) =~= d.content(before.data));
                assert forall|a: int| 0 <= a < v@.len() implies fs.data.taken(
                    #[trigger] v@[a] as int,
                ) && !d.owns(v@[a] as int) && forall|i: int|
                    0 <= i < fs.inodes@.len() ==> !(#[trigger] fs.inodes@[i]).owns(v@[a] as int) by {
                    if a < k {
                        assert(before.data.taken(v@[a] as int));
                    } else {
                        assert forall|i: int| 0 <= i < fs.inodes@.len() implies !(
                        #[trigger] fs.inodes@[i]).owns(v@[a] as int) by {
                            let inode = before.inodes@[i];
                            assert(inode.wf(before.data));
                            if inode.owns(id as int) {
                                let c = choose|c: int|
                                    0 <= c < inode.blocks@.len() && #[trigger] inode.blocks@[c]
                                        == id;
                                assert(before.data.taken(inode.blocks@[c] as int));
                            }
                        }
                    }
                }
                assert forall|a: int, b: int| 0 <= a < b < v@.len() implies #[trigger] v@[a]
                    != #[trigger] v@[b] by {
                    assert(before.data.taken(v@[a] as int));
                }
                assert forall|a: int, off: int|
                    0 <= a < v@.len() && 0 <= off < BLOCK_SZ implies #[trigger] fs.data.at(
                    v@[a] as int,
                    off,
                ) == 0 by {
                    if a < k {
                        assert(before.data.at(v@[a] as int, off) == 0);
                    }
                }
            }
            k = k + 1;
        }
        let ghost added = v@;
        disk_inode.increase_size(new_size, v, &fs.data);
        proof {
            assert forall|i: int| 0 <= i < fs.inodes@.len() implies (
            #[trigger] fs.inodes@[i]).disjoint(*disk_inode) by {
                let inode = fs.inodes@[i];
                assert forall|a: int, b: int|
                    0 <= a < inode.blocks@.len() && 0 <= b < disk_inode.blocks@.len() implies
                    #[trigger] inode.blocks@[a] != #[trigger] disk_inode.blocks@[b] by {
                    assert(inode.disjoint(d));
                    if b < d.blocks@.len() {
                        assert(disk_inode.blocks@[b] == d.blocks@[b]);
                    } else {
                        assert(disk_inode.blocks@[b] == added[b - d.blocks@.len()]);
                        assert(!inode.owns(added[b - d.blocks@.len()] as int));
                    }
                }
            }
            assert(disk_inode.view_in(fs.data) =~= (FileView {
                content: grown(d.content(old(fs).data), new_size as int),
                blocks: d.blocks@ + added,
                ..d.view_in(old(fs).data)
            }));
        }
    }

    /// Writes one more entry behind the whole ones of this directory.
    fn append_entry(&self, fs: &mut FsImage, name: &str, id: u32)
        requires
            old(fs).wf(),
            self.valid(old(fs)@),
            encode_utf8(name@).len() <= NAME_LENGTH_LIMIT,
            can_append(old(fs)@, self.slot(old(fs)@)),
        ensures
            final(fs).wf(),
            final(fs)@ == with_entry(old(fs)@, self.slot(old(fs)@), encode_utf8(name@), id),
    {
        let slot = self.slot_index(fs);
        let ghost content = self.file(fs@).content;
        let ghost bytes = encode_utf8(name@);
        let mut root_inode = fs.take_inode(slot);
        let ghost taken = *fs;
        let file_count: usize = root_inode.size as usize / DIRENT_SZ;
        let new_size: usize = (file_count + 1) * DIRENT_SZ;
        self.increase_size(new_size as u32, &mut root_inode, fs);
        let dirent = DirEntry::new(name, id);
        fs.write_detached(&root_inode, file_count * DIRENT_SZ, dirent.raw.as_slice());
        fs.put_inode(slot, root_inode);
        proof {
            lemma_encode_entry(bytes, id);
            let after = root_inode.content(fs.data);
            assert(after =~= appended(content, bytes, id));
            let f = root_inode.view_in(fs.data);
            assert(taken@.with_file(slot as int, f) == old(fs)@.with_file(slot as int, f));
            assert(fs@ =~= with_entry(old(fs)@, slot as int, bytes, id));
        }
    }

    /// Makes an empty file in this directory under the name `name`, unless the name is taken.
    pub fn create(&self, fs: &mut FsImage, name: &str) -> (r: Option<InodeHandle>)
        requires
            old(fs).wf(),
            self.create_ok(old(fs)@, encode_utf8(name@)),
        ensures
            final(fs).wf(),
            match self.lookup_in(old(fs)@, encode_utf8(name@)) {
                Some(_) => r is None,
                None => r == Some(
                    handle_of(old(fs)@.inode_area_start, first_free(old(fs)@.used) as u32),
                ),
            },
            final(fs)@ == self.after_create(old(fs)@, encode_utf8(name@)),
    {
        let root_inode = self.read_disk_inode(fs);
        if self.find_inode_id(name, root_inode, fs).is_some() {
            return None;
        }
        let new_inode_id = fs.alloc_inode();
        let inode = InodeHandle::of_id(fs, new_inode_id);
        let new_slot = inode.slot_index(fs);
        let ghost allocated = fs@;
        let mut new_inode = fs.take_inode(new_slot);
        new_inode.initialize(DiskInodeType::File);
        new_inode.ref_cnt = 1;
        fs.put_inode(new_slot, new_inode);
        proof {
            let f = new_inode.view_in(fs.data);
            assert(f =~= FileView {
                kind: DiskInodeType::File,
                ref_cnt: 1,
                content: Seq::empty(),
                blocks: Seq::empty(),
            });
            assert(fs@ == allocated.with_file(new_slot as int, f));
            assert(fs@ =~= with_new_file(old(fs)@));
        }
        self.append_entry(fs, name, new_inode_id);
        fs.block_cache_sync_all();
        Some(inode)
    }

    /// Gives the file that `src_name` stands for in this directory the name `dst_name` too, unless
    /// that is taken. No handle is handed out.
    pub fn hardlink(&self, fs: &mut FsImage, src_name: &str, dst_name: &str) -> (r: Option<
        InodeHandle,
    >)
        requires
            old(fs).wf(),
            self.hardlink_ok(old(fs)@, encode_utf8(src_name@), encode_utf8(dst_name@)),
        ensures
            final(fs).wf(),
            r is None,
            final(fs)@ == self.after_hardlink(
                old(fs)@,
                encode_utf8(src_name@),
                encode_utf8(dst_name@),
            ),
    {
        let root_inode = self.read_disk_inode(fs);
        if self.find_inode_id(dst_name, root_inode, fs).is_some() {
            return None;
        }
        let src_inode_id: u32 = match self.find_inode_id(src_name, root_inode, fs) {
            Some(id) => id,
            None => {
                return None;
            },
        };
        let src_inode = InodeHandle::of_id(fs, src_inode_id);
        let ghost pre = fs@;
        src_inode.add_link(fs);
        proof {
            assert(fs@.files[self.slot(pre)].content == pre.files[self.slot(pre)].content);
        }
        self.append_entry(fs, dst_name, src_inode_id);
        fs.mark_unsynced();
        None
    }

    /// Counts one more link to this inode.
    fn add_link(&self, fs: &mut FsImage)
        requires
            old(fs).wf(),
            self.valid(old(fs)@),
            self.file(old(fs)@).ref_cnt < u32::MAX,
        ensures
            final(fs).wf(),
            final(fs)@ == old(fs)@.with_ref_cnt(
                self.slot(old(fs)@),
                (self.file(old(fs)@).ref_cnt + 1) as u32,
            ),
    {
        let slot = self.slot_index(fs);
        let mut disk_inode = fs.take_inode(slot);
        let ghost before = disk_inode;
        disk_inode.ref_cnt = disk_inode.ref_cnt + 1;
        proof {
            lemma_same_blocks(before, disk_inode, fs.data);
        }
        fs.put_inode(slot, disk_inode);
        proof {
            let f = disk_inode.view_in(fs.data);
            assert(f =~= FileView { ref_cnt: f.ref_cnt, ..old(fs)@.files[slot as int] });
            assert(fs@ == old(fs)@.with_file(slot as int, f));
        }
    }

    /// Counts one link less to this inode.
    fn drop_link(&self, fs: &mut FsImage)
        requires
            old(fs).wf(),
            self.valid(old(fs)@),
            self.file(old(fs)@).ref_cnt > 0,
        ensures
            final(fs).wf(),
            final(fs)@ == old(fs)@.with_ref_cnt(
                self.slot(old(fs)@),
                (self.file(old(fs)@).ref_cnt - 1) as u32,
            ),
    {
        let slot = self.slot_index(fs);
        let mut disk_inode = fs.take_inode(slot);
        let ghost before = disk_inode;
        disk_inode.ref_cnt = disk_inode.ref_cnt - 1;
        proof {
            lemma_same_blocks(before, disk_inode, fs.data);
        }
        fs.put_inode(slot, disk_inode);
        proof {
            let f = disk_inode.view_in(fs.data);
            assert(f =~= FileView { ref_cnt: f.ref_cnt, ..old(fs)@.files[slot as int] });
            assert(fs@ == old(fs)@.with_file(slot as int, f));
        }
    }

    /// Empties the first entry of this directory that holds `name`: as no file has an empty name,
    /// the entry is not found from then on.
    fn empty_entry(&self, fs: &mut FsImage, name: &str)
        requires
            old(fs).wf(),
            self.valid(old(fs)@),
        ensures
            final(fs).wf(),
            match lookup_index(self.file(old(fs)@).content, encode_utf8(name@)) {
                Some(i) => final(fs)@ == old(fs)@.with_content(
                    self.slot(old(fs)@),
                    emptied(self.file(old(fs)@).content, i),
                ),
                None => final(fs)@ == old(fs)@,
            },
    {
        let slot = self.slot_index(fs);
        let ghost content = self.file(fs@).content;
        let ghost bytes = encode_utf8(name@);
        let file_count: usize = fs.inodes[slot].size as usize / DIRENT_SZ;
        let mut i: usize = 0;
        while i < file_count
            invariant
                i <= file_count,
                file_count == entry_count(content),
                slot < fs.inodes@.len(),
                slot == self.slot(old(fs)@),
                *fs == *old(fs),
                content == fs.inodes@[slot as int].content(fs.data),
                content == self.file(old(fs)@).content,
                bytes == encode_utf8(name@),
                fs.wf(),
                forall|j: int| 0 <= j < i ==> #[trigger] entry_name(content, j) != bytes,
            decreases file_count - i,
        {
            let dirent = Self::read_entry(fs, &fs.inodes[slot], i);
            if bytes_eq(dirent.name().as_slice(), name.as_bytes()) {
                proof {
                    assert(is_first(content, bytes, i as int));
                    lemma_lookup_index_is(content, bytes, i as int);
                }
                let root_inode = fs.take_inode(slot);
                let ghost taken = *fs;
                proof {
                    reveal_strlit("");
                    assert(encode_utf8(""@) =~= Seq::<u8>::empty());
                }
                let dirent = DirEntry::new("", 0);
                fs.write_detached(&root_inode, i * DIRENT_SZ, dirent.raw.as_slice());
                fs.put_inode(slot, root_inode);
                proof {
                    let f = root_inode.view_in(fs.data);
                    assert(f =~= FileView {
                        content: emptied(content, i as int),
                        ..old(fs)@.files[slot as int]
                    });
                    assert(taken@.with_file(slot as int, f) == old(fs)@.with_file(slot as int, f));
                    assert(fs@ =~= old(fs)@.with_content(slot as int, emptied(content, i as int)));
                }
                return ;
            }
            i = i + 1;
        }
        assert(is_absent(content, bytes));
    }

    /// Gives up a link of the file that `name` stands for in this directory: the file counts one
    /// link less, and the name goes.
    pub fn unlink(&self, fs: &mut FsImage, name: &str) -> (r: Option<()>)
        requires
            old(fs).wf(),
            self.unlink_ok(old(fs)@, encode_utf8(name@)),
        ensures
            final(fs).wf(),
            r is Some <==> self.lookup_in(old(fs)@, encode_utf8(name@)) is Some,
            final(fs)@ == self.after_unlink(old(fs)@, encode_utf8(name@)),
    {
        let root_inode = self.read_disk_inode(fs);
        let src_inode_id: u32 = match self.find_inode_id(name, root_inode, fs) {
            Some(id) => id,
            None => {
                return None;
            },
        };
        let src_inode = InodeHandle::of_id(fs, src_inode_id);
        let ghost pre = fs@;
        src_inode.drop_link(fs);
        proof {
            assert(fs@.files[self.slot(pre)].content == pre.files[self.slot(pre)].content);
        }
        self.empty_entry(fs, name);
        fs.mark_unsynced();
        Some(())
    }

    /// The kind of this inode and its number of links.
    pub fn get_fstat(&self, fs: &FsImage) -> (r: Stat)
        requires
            fs.wf(),
            self.valid(fs@),
        ensures
            r.mode == match self.file(fs@).kind {
                DiskInodeType::Directory => StatMode::DIR,
                DiskInodeType::File => StatMode::FILE,
            },
            r.nlink == self.file(fs@).ref_cnt,
    {
        let d = self.read_disk_inode(fs);
        let mode = if d.is_dir() {
            StatMode::DIR
        } else {
            StatMode::FILE
        };
        Stat { mode, nlink: d.ref_cnt }
    }

    /// The names in this directory, in order. Emptied entries are left out.
    pub fn ls(&self, fs: &FsImage) -> (r: Vec<String>)
        requires
            fs.wf(),
            self.ls_ok(fs@),
        ensures
            r@.len() == listing(self.file(fs@).content).len(),
            forall|k: int|
                0 <= k < r@.len() ==> encode_utf8(#[trigger] r@[k]@) == listing(
                    self.file(fs@).content,
                )[k],
    {
        let disk_inode = self.read_disk_inode(fs);
        let ghost content = disk_inode.content(fs.data);
        let file_count: usize = disk_inode.size as usize / DIRENT_SZ;
        let mut v: Vec<String> = Vec::new();
        let mut i: usize = 0;
        while i < file_count
            invariant
                i <= file_count,
                file_count == entry_count(content),
                content == disk_inode.content(fs.data),
                names_are_text(content),
                fs.wf(),
                disk_inode.wf(fs.data),
                v@.len() == listing_upto(content, i as int).len(),
                forall|k: int|
                    0 <= k < v@.len() ==> encode_utf8(#[trigger] v@[k]@) == listing_upto(
                        content,
                        i as int,
                    )[k],
            decreases file_count - i,
        {
            let dirent = Self::read_entry(fs, disk_inode, i);
            let name = dirent.name();
            assert(name@ == entry_name(content, i as int));
            if name.len() != 0 {
                match string_from_utf8(name) {
                    Some(text) => {
                        v.push(text);
                    },
                    None => {},
                }
            }
            i = i + 1;
        }
        v
    }

    /// The number of this inode.
    pub fn get_inode_id(&self) -> (r: usize)
        ensures
            r == self.inode_id,
    {
        self.inode_id
    }

    /// Copies what the file holds from `offset` on to the front of `buf`, as far as both reach.
    pub fn read_at(&self, fs: &FsImage, offset: usize, buf: &mut [u8]) -> (n: usize)
        requires
            fs.wf(),
            self.valid(fs@),
            offset + old(buf)@.len() <= usize::MAX,
        ensures
            n == span(
                self.file(fs@).content.len() as int,
                offset as int,
                old(buf)@.len() as int,
            ),
            final(buf)@.len() == old(buf)@.len(),
            forall|k: int|
                0 <= k < final(buf)@.len() ==> #[trigger] final(buf)@[k] == if k < n {
                    self.file(fs@).content[offset + k]
                } else {
                    old(buf)@[k]
                },
    {
        let disk_inode = self.read_disk_inode(fs);
        disk_inode.read_at(offset, buf, &fs.data)
    }

    /// Reads the whole file.
    pub fn read_all(&self, fs: &FsImage) -> (all: Vec<u8>)
        requires
            fs.wf(),
            self.valid(fs@),
        ensures
            all@ == self.file(fs@).content,
    {
        self.read_disk_inode(fs).read_all(&fs.data)
    }

    /// Writes `buf` to the file from `offset` on. A file that is too short is lengthened.
    pub fn write_at(&self, fs: &mut FsImage, offset: usize, buf: &[u8]) -> (n: usize)
        requires
            old(fs).wf(),
            self.write_ok(old(fs)@, offset as int, buf@.len() as int),
        ensures
            final(fs).wf(),
            n == span(
                size_after_write(
                    self.file(old(fs)@).content.len() as int,
                    offset as int,
                    buf@.len() as int,
                ),
                offset as int,
                buf@.len() as int,
            ),
            final(fs)@ == self.after_write(old(fs)@, offset as int, buf@),
    {
        let slot = self.slot_index(fs);
        let ghost content = self.file(fs@).content;
        let new_size: u32 = ((offset as u64 + buf.len() as u64) % 0x1_0000_0000) as u32;
        let mut disk_inode = fs.take_inode(slot);
        let ghost taken = *fs;
        self.increase_size(new_size, &mut disk_inode, fs);
        let n = fs.write_detached(&disk_inode, offset, buf);
        fs.put_inode(slot, disk_inode);
        proof {
            let f = disk_inode.view_in(fs.data);
            assert(f.content =~= content_after_write(content, offset as int, buf@));
            assert(taken@.with_file(slot as int, f) == old(fs)@.with_file(slot as int, f));
            assert(fs@ =~= old(fs)@.with_content(
                slot as int,
                content_after_write(content, offset as int, buf@),
            ));
        }
        fs.block_cache_sync_all();
        n
    }

    /// Empties the file and gives its blocks back.
    pub fn clear(&self, fs: &mut FsImage)
        requires
            old(fs).wf(),
            self.valid(old(fs)@),
        ensures
            final(fs).wf(),
            final(fs)@ == self.after_clear(old(fs)@),
            final(fs)@.data_used == cleared(old(fs)@.data_used, self.file(old(fs)@).blocks),
    {
        let slot = self.slot_index(fs);
        let mut disk_inode = fs.take_inode(slot);
        let ghost taken = *fs;
        let ghost d = disk_inode;
        let data_blocks_dealloc = disk_inode.clear_size();
        let mut k: usize = 0;
        assert(cleared(fs@.data_used, d.blocks@.take(0)) =~= fs@.data_used);
        while k < data_blocks_dealloc.len()
            invariant
                k <= data_blocks_dealloc@.len(),
                data_blocks_dealloc == d.blocks,
                d.wf(taken.data),
                taken.detached(d),
                fs.wf(),
                fs.inodes@ == taken.inodes@,
                fs.data.used@.len() == taken.data.used@.len(),
                forall|a: int|
                    k <= a < d.blocks@.len() ==> fs.data.taken(#[trigger] d.blocks@[a] as int),
                taken.data.used@.len() <= u32::MAX,
                fs@ == (FsView {
                    data_used: cleared(taken@.data_used, d.blocks@.take(k as int)),
                    ..taken@
                }),
            decreases data_blocks_dealloc@.len() - k,
        {
            let ghost before = *fs;
            let data_block: u32 = data_blocks_dealloc[k];
            proof {
                assert(fs.data.taken(d.blocks@[k as int] as int));
                assert forall|i: int| 0 <= i < fs.inodes@.len() implies !(
                #[trigger] fs.inodes@[i]).owns(data_block as int) by {
                    let inode = fs.inodes@[i];
                    assert(taken.inodes@[i].disjoint(d));
                    if inode.owns(data_block as int) {
                        let a = choose|a: int|
                            0 <= a < inode.blocks@.len() && #[trigger] inode.blocks@[a]
                                == data_block;
                        assert(inode.blocks@[a] != d.blocks@[k as int]);
                    }
                }
            }
            fs.dealloc_data(data_block);
            proof {
                assert forall|a: int| k < a < d.blocks@.len() implies fs.data.taken(
                    #[trigger] d.blocks@[a] as int,
                ) by {
                    assert(before.data.taken(d.blocks@[a] as int));
                    assert(d.blocks@[k as int] != d.blocks@[a]);
                }
                lemma_cleared_push(taken@.data_used, d.blocks@.take(k as int), data_block);
                assert(d.blocks@.take(k + 1) =~= d.blocks@.take(k as int).push(data_block));
            }
            k = k + 1;
        }
        assert(data_blocks_dealloc@.len() == blocks_for(d.size as int));
        fs.put_inode(slot, disk_inode);
        proof {
            let f = disk_inode.view_in(fs.data);
            assert(f =~= FileView {
                content: Seq::empty(),
                blocks: Seq::empty(),
                ..old(fs)@.files[slot as int]
            });
            assert(d.blocks@.take(k as int) =~= d.blocks@);
            assert(d.blocks@.skip(0) =~= d.blocks@);
            assert(d.blocks@.take(0) =~= Seq::empty());
            assert(taken@.with_file(slot as int, f) == old(fs)@.with_file(slot as int, f));
            assert(fs@ =~= old(fs)@.with_content(slot as int, Seq::empty()));
        }
        fs.block_cache_sync_all();
    }
}

/// Telling beforehand whether an operation can be carried out.
impl InodeHandle {
    /// Whether the handle leads to an inode.
    pub fn check_valid(&self, fs: &FsImage) -> (ok: bool)
        requires
            fs.wf(),
        ensures
            ok == self.valid(fs@),
    {
        let start: usize = fs.inode_area_start_block as usize;
        let count: usize = fs.inodes.len();
        if self.block_id < start || self.block_offset >= BLOCK_SZ || self.block_offset
            % DISK_INODE_SZ != 0 {
            return false;
        }
        let row: usize = self.block_id - start;
        if row >= count {
            return false;
        }
        let slot: u64 = row as u64 * 4 + (self.block_offset / DISK_INODE_SZ) as u64;
        slot < count as u64
    }

    /// Whether the handle leads to a directory.
    pub fn check_dir(&self, fs: &FsImage) -> (ok: bool)
        requires
            fs.wf(),
        ensures
            ok == self.is_dir_in(fs@),
    {
        self.check_valid(fs) && self.read_disk_inode(fs).is_dir()
    }

    /// Whether one more entry fits behind a directory content of `size` bytes.
    fn check_append(size: u32, fs: &FsImage) -> (ok: bool)
        requires
            fs.wf(),
        ensures
            ok == ({
                let new_size = (size as int / 32 + 1) * 32;
                &&& new_size <= u32::MAX
                &&& blocks_for(new_size) - blocks_for(size as int) <= fs@.free_blocks()
            }),
    {
        let new_size: u64 = (size as u64 / 32 + 1) * 32;
        if new_size > u32::MAX as u64 {
            return false;
        }
        let needed: u32 = DiskInode::total_blocks(new_size as u32) - DiskInode::total_blocks(size);
        needed as usize <= fs.data.free_count()
    }

    /// Whether `create` can be carried out.
    pub fn check_create(&self, fs: &FsImage, name: &str) -> (ok: bool)
        requires
            fs.wf(),
        ensures
            ok == self.create_ok(fs@, encode_utf8(name@)),
    {
        if !self.check_dir(fs) {
            return false;
        }
        let disk_inode = self.read_disk_inode(fs);
        if self.find_inode_id(name, disk_inode, fs).is_some() {
            return true;
        }
        if name.as_bytes().len() > NAME_LENGTH_LIMIT {
            return false;
        }
        let id = find_first_free(&fs.inode_used);
        if id >= fs.inode_used.len() {
            return false;
        }
        proof {
            lemma_first_free(fs@.used);
        }
        Self::check_append(disk_inode.size, fs)
    }

    /// Whether `hardlink` can be carried out.
    pub fn check_hardlink(&self, fs: &FsImage, src_name: &str, dst_name: &str) -> (ok: bool)
        requires
            fs.wf(),
        ensures
            ok == self.hardlink_ok(fs@, encode_utf8(src_name@), encode_utf8(dst_name@)),
    {
        if !self.check_dir(fs) {
            return false;
        }
        let disk_inode = self.read_disk_inode(fs);
        if self.find_inode_id(dst_name, disk_inode, fs).is_some() {
            return true;
        }
        match self.find_inode_id(src_name, disk_inode, fs) {
            Some(id) => dst_name.as_bytes().len() <= NAME_LENGTH_LIMIT && (id as usize)
                < fs.inodes.len() && (fs.inodes[id as usize].ref_cnt < u32::MAX)
                && Self::check_append(disk_inode.size, fs),
            None => true,
        }
    }

    /// Whether `unlink` can be carried out.
    pub fn check_unlink(&self, fs: &FsImage, name: &str) -> (ok: bool)
        requires
            fs.wf(),
        ensures
            ok == self.unlink_ok(fs@, encode_utf8(name@)),
    {
        if !self.check_dir(fs) {
            return false;
        }
        let disk_inode = self.read_disk_inode(fs);
        match self.find_inode_id(name, disk_inode, fs) {
            Some(id) => (id as usize) < fs.inodes.len() && fs.inodes[id as usize].ref_cnt > 0,
            None => true,
        }
    }

    /// Whether `ls` can be carried out.
    pub fn check_ls(&self, fs: &FsImage) -> (ok: bool)
        requires
            fs.wf(),
        ensures
            ok == self.ls_ok(fs@),
    {
        if !self.check_valid(fs) {
            return false;
        }
        let disk_inode = self.read_disk_inode(fs);
        let ghost content = disk_inode.content(fs.data);
        let file_count: usize = disk_inode.size as usize / DIRENT_SZ;
        let mut i: usize = 0;
        while i < file_count
            invariant
                i <= file_count,
                file_count == entry_count(content),
                content == disk_inode.content(fs.data),
                fs.wf(),
                disk_inode.wf(fs.data),
                content == self.file(fs@).content,
                forall|j: int| 0 <= j < i ==> valid_utf8(#[trigger] entry_name(content, j)),
            decreases file_count - i,
        {
            let dirent = Self::read_entry(fs, disk_inode, i);
            let name = dirent.name();
            assert(name@ == entry_name(content, i as int));
            if string_from_utf8(name).is_none() {
                return false;
            }
            i = i + 1;
        }
        true
    }

    /// Whether `write_at` can be carried out with `len` bytes.
    pub fn check_write(&self, fs: &FsImage, offset: usize, len: usize) -> (ok: bool)
        requires
            fs.wf(),
        ensures
            ok == self.write_ok(fs@, offset as int, len as int),
    {
        if !self.check_valid(fs) || offset > usize::MAX - len {
            return false;
        }
        let size: u32 = self.read_disk_inode(fs).size;
        let new_size: u32 = ((offset as u64 + len as u64) % 0x1_0000_0000) as u32;
        if new_size < size {
            return true;
        }
        let needed: u32 = DiskInode::total_blocks(new_size) - DiskInode::total_blocks(size);
        needed as usize <= fs.data.free_count()
    }
}

/// `String::from_utf8` of std: bytes that are UTF-8 become the text that they encode, and others
/// are refused.
#[verifier::external_body]
fn string_from_utf8(bytes: Vec<u8>) -> (r: Option<String>)
    ensures
        r is Some <==> valid_utf8(bytes@),
        r matches Some(text) ==> encode_utf8(text@) == bytes@,
{
    String::from_utf8(bytes).ok()
}

} // verus!
