//! Disk inodes: what the file system keeps of one file, and how its bytes lie in the data area.
use vstd::prelude::*;

use crate::block::{DataArea, blocks_for};
use crate::config::BLOCK_SZ;

verus! {

/// What a disk inode stands for.
#[derive(Clone, Copy, PartialEq, Eq, Structural, Debug)]
pub enum DiskInodeType {
    File,
    Directory,
}

/// A file as its users see it.
#[verifier::ext_equal]
pub struct FileView {
    pub kind: DiskInodeType,
    pub ref_cnt: u32,
    pub content: Seq<u8>,
    /// The data blocks that hold the content, in order.
    pub blocks: Seq<u32>,
}

/// `content`, lengthened with zeros to `new_size` bytes where it is shorter.
pub open spec fn grown(content: Seq<u8>, new_size: int) -> Seq<u8> {
    if new_size < content.len() {
        content
    } else {
        Seq::new(
            new_size as nat,
            |p: int|
                if p < content.len() {
                    content[p]
                } else {
                    0u8
                },
        )
    }
}

/// `content` with `buf` written over it from `offset` on; what would lie behind its end is cut off.
pub open spec fn overwritten(content: Seq<u8>, offset: int, buf: Seq<u8>) -> Seq<u8> {
    Seq::new(
        content.len(),
        |p: int|
            if offset <= p < offset + buf.len() {
                buf[p - offset]
            } else {
                content[p]
            },
    )
}

/// Number of bytes from `offset` on that a transfer of `len` bytes finds in a file of `size` bytes.
pub open spec fn span(size: int, offset: int, len: int) -> int {
    if offset >= size {
        0
    } else if offset + len <= size {
        len
    } else {
        size - offset
    }
}

/// The soundness and the content of a file rest on its size and its blocks alone.
pub proof fn lemma_same_blocks(d1: DiskInode, d2: DiskInode, data: DataArea)
    requires
        d1.wf(data),
        d2.size == d1.size,
        d2.blocks == d1.blocks,
    ensures
        d2.wf(data),
        d2.content(data) == d1.content(data),
{
    assert forall|p: int| #[trigger] d2.byte(data, p) == d1.byte(data, p) by {}
    assert(d2.content(data) =~= d1.content(data));
}

/// The record of one file: its kind, size and link count, and the data blocks that hold it.
pub struct DiskInode {
    pub size: u32,
    pub ref_cnt: u32,
    pub type_: DiskInodeType,
    pub blocks: Vec<u32>,
}

impl DiskInode {
    /// Byte `p` of the file, counted over all of its blocks.
    pub open spec fn byte(self, data: DataArea, p: int) -> u8 {
        data.at(self.blocks@[p / (BLOCK_SZ as int)] as int, p % (BLOCK_SZ as int))
    }

    pub open spec fn content(self, data: DataArea) -> Seq<u8> {
        Seq::new(self.size as nat, |p: int| self.byte(data, p))
    }

    pub open spec fn view_in(self, data: DataArea) -> FileView {
        FileView {
            kind: self.type_,
            ref_cnt: self.ref_cnt,
            content: self.content(data),
            blocks: self.blocks@,
        }
    }

    /// Block `id` is one of the file's.
    pub open spec fn owns(self, id: int) -> bool {
        exists|a: int| 0 <= a < self.blocks@.len() && #[trigger] self.blocks@[a] == id
    }

    /// The file has as many blocks as its size takes, each of them taken and none twice, and holds
    /// zeros behind its end.
    pub open spec fn wf(self, data: DataArea) -> bool {
        &&& self.blocks@.len() == blocks_for(self.size as int)
        &&& forall|a: int|
            0 <= a < self.blocks@.len() ==> data.taken(#[trigger] self.blocks@[a] as int)
        &&& forall|a: int, b: int|
            0 <= a < b < self.blocks@.len() ==> #[trigger] self.blocks@[a]
                != #[trigger] self.blocks@[b]
        &&& forall|p: int|
            self.size <= p < self.blocks@.len() * BLOCK_SZ ==> #[trigger] self.byte(data, p) == 0
    }

    /// No block belongs to both files.
    pub open spec fn disjoint(self, other: DiskInode) -> bool {
        forall|a: int, b: int|
            0 <= a < self.blocks@.len() && 0 <= b < other.blocks@.len()
                ==> #[trigger] self.blocks@[a] != #[trigger] other.blocks@[b]
    }

    /// An inode that holds nothing.
    pub fn blank() -> (r: DiskInode)
        ensures
            r.size == 0,
            r.ref_cnt == 0,
            r.type_ == DiskInodeType::File,
            r.blocks@ == Seq::<u32>::empty(),
    {
        DiskInode { size: 0, ref_cnt: 0, type_: DiskInodeType::File, blocks: Vec::new() }
    }

    /// Makes this the inode of an empty file of the given kind, linked from nowhere.
    pub fn initialize(&mut self, type_: DiskInodeType)
        ensures
            final(self).size == 0,
            final(self).ref_cnt == 0,
            final(self).type_ == type_,
            final(self).blocks@ == Seq::<u32>::empty(),
    {
        self.size = 0;
        self.ref_cnt = 0;
        self.type_ = type_;
        self.blocks = Vec::new();
    }

    pub fn is_dir(&self) -> (r: bool)
        ensures
            r == (self.type_ == DiskInodeType::Directory),
    {
        match self.type_ {
            DiskInodeType::Directory => true,
            DiskInodeType::File => false,
        }
    }

    /// Whether the file is sound.
    pub fn check_wf(&self, data: &DataArea) -> (ok: bool)
        requires
            data.wf(),
        ensures
            ok == self.wf(*data),
    {
        if self.blocks.len() as u64 != Self::total_blocks(self.size) as u64 {
            return false;
        }
        let mut a: usize = 0;
        while a < self.blocks.len()
            invariant
                a <= self.blocks.len(),
                forall|i: int|
                    0 <= i < a ==> data.taken(#[trigger] self.blocks@[i] as int),
                forall|i: int, j: int|
                    0 <= i < j < a ==> #[trigger] self.blocks@[i] != #[trigger] self.blocks@[j],
            decreases self.blocks.len() - a,
        {
            let id: usize = self.blocks[a] as usize;
            if id >= data.used.len() || !data.used[id] {
                assert(!data.taken(self.blocks@[a as int] as int));
                return false;
            }
            let mut b: usize = 0;
            while b < a
                invariant
                    b <= a < self.blocks.len(),
                    forall|i: int| 0 <= i < b ==> #[trigger] self.blocks@[i] != self.blocks@[a as int],
                decreases a - b,
            {
                if self.blocks[b] == self.blocks[a] {
                    return false;
                }
                b = b + 1;
            }
            a = a + 1;
        }
        let end: u64 = self.blocks.len() as u64 * 512;
        let mut p: u64 = self.size as u64;
        while p < end
            invariant
                self.size <= p <= end,
                end == self.blocks@.len() * 512,
                data.wf(),
                self.blocks@.len() == blocks_for(self.size as int),
                forall|i: int|
                    0 <= i < self.blocks@.len() ==> data.taken(#[trigger] self.blocks@[i] as int),
                forall|q: int| self.size <= q < p ==> #[trigger] self.byte(*data, q) == 0,
            decreases end - p,
        {
            let id: u32 = self.blocks[(p / 512) as usize];
            assert(data.taken(self.blocks@[p as int / 512] as int));
            if data.get(id, (p % 512) as usize) != 0 {
                assert(self.byte(*data, p as int) != 0);
                return false;
            }
            p = p + 1;
        }
        true
    }

    /// Whether no block belongs to both files.
    pub fn check_disjoint(&self, other: &DiskInode) -> (ok: bool)
        ensures
            ok == self.disjoint(*other),
    {
        let mut a: usize = 0;
        while a < self.blocks.len()
            invariant
                a <= self.blocks.len(),
                forall|i: int, j: int|
                    0 <= i < a && 0 <= j < other.blocks@.len() ==> #[trigger] self.blocks@[i]
                        != #[trigger] other.blocks@[j],
            decreases self.blocks.len() - a,
        {
            let mut b: usize = 0;
            while b < other.blocks.len()
                invariant
                    a < self.blocks.len(),
                    b <= other.blocks.len(),
                    forall|j: int|
                        0 <= j < b ==> self.blocks@[a as int] != #[trigger] other.blocks@[j],
                decreases other.blocks.len() - b,
            {
                if self.blocks[a] == other.blocks[b] {
                    return false;
                }
                b = b + 1;
            }
            a = a + 1;
        }
        true
    }

    /// Number of blocks that a file of `size` bytes has.
    pub fn total_blocks(size: u32) -> (r: u32)
        ensures
            r == blocks_for(size as int),
    {
        let whole: u32 = size / 512;
        if size % 512 == 0 {
            whole
        } else {
            whole + 1
        }
    }

    /// Number of blocks that the file lacks to hold `new_size` bytes.
    pub fn blocks_num_needed(&self, new_size: u32) -> (r: u32)
        requires
            self.size <= new_size,
        ensures
            r == blocks_for(new_size as int) - blocks_for(self.size as int),
    {
        Self::total_blocks(new_size) - Self::total_blocks(self.size)
    }

    /// Lengthens the file to `new_size` bytes with the blocks `new_blocks`, which hold zeros and
    /// belong to no file.
    pub fn increase_size(&mut self, new_size: u32, new_blocks: Vec<u32>, data: &DataArea)
        requires
            data.wf(),
            old(self).wf(*data),
            old(self).size <= new_size,
            new_blocks@.len() == blocks_for(new_size as int) - blocks_for(old(self).size as int),
            forall|a: int|
                0 <= a < new_blocks@.len() ==> data.taken(#[trigger] new_blocks@[a] as int)
                    && !old(self).owns(new_blocks@[a] as int),
            forall|a: int, b: int|
                0 <= a < b < new_blocks@.len() ==> #[trigger] new_blocks@[a]
                    != #[trigger] new_blocks@[b],
            forall|a: int, off: int|
                0 <= a < new_blocks@.len() && 0 <= off < BLOCK_SZ ==> #[trigger] data.at(
                    new_blocks@[a] as int,
                    off,
                ) == 0,
        ensures
            final(self).wf(*data),
            final(self).size == new_size,
            final(self).ref_cnt == old(self).ref_cnt,
            final(self).type_ == old(self).type_,
            final(self).blocks@ == old(self).blocks@ + new_blocks@,
            final(self).content(*data) == grown(old(self).content(*data), new_size as int),
    {
        let mut more = new_blocks;
        self.blocks.append(&mut more);
        self.size = new_size;
        proof {
            let n = old(self).blocks@.len();
            assert(self.blocks@ =~= old(self).blocks@ + new_blocks@);
            assert forall|p: int| 0 <= p < n * BLOCK_SZ implies #[trigger] self.byte(*data, p)
                == old(self).byte(*data, p) by {
                assert(self.blocks@[p / 512] == old(self).blocks@[p / 512]);
            }
            assert forall|p: int|
                n * BLOCK_SZ <= p < self.blocks@.len() * BLOCK_SZ implies #[trigger] self.byte(
                *data,
                p,
            ) == 0 by {
                assert(self.blocks@[p / 512] == new_blocks@[p / 512 - n]);
                assert(data.at(new_blocks@[p / 512 - n] as int, p % 512) == 0);
            }
            assert forall|a: int, b: int| 0 <= a < b < self.blocks@.len() implies
                #[trigger] self.blocks@[a] != #[trigger] self.blocks@[b] by {
                if a < n {
                    assert(self.blocks@[a] == old(self).blocks@[a]);
                    if b >= n {
                        assert(self.blocks@[b] == new_blocks@[b - n]);
                        assert(!old(self).owns(new_blocks@[b - n] as int));
                    }
                } else {
                    assert(self.blocks@[a] == new_blocks@[a - n]);
                    assert(self.blocks@[b] == new_blocks@[b - n]);
                }
            }
            assert forall|a: int| 0 <= a < self.blocks@.len() implies data.taken(
                #[trigger] self.blocks@[a] as int,
            ) by {
                if a >= n {
                    assert(self.blocks@[a] == new_blocks@[a - n]);
                }
            }
            assert(self.content(*data) =~= grown(old(self).content(*data), new_size as int));
        }
    }

    /// Empties the file and hands out the blocks that it had.
    pub fn clear_size(&mut self) -> (freed: Vec<u32>)
        ensures
            final(self).size == 0,
            final(self).ref_cnt == old(self).ref_cnt,
            final(self).type_ == old(self).type_,
            final(self).blocks@ == Seq::<u32>::empty(),
            freed == old(self).blocks,
    {
        let mut freed: Vec<u32> = Vec::new();
        core::mem::swap(&mut freed, &mut self.blocks);
        self.size = 0;
        freed
    }

    /// Copies what the file holds from `offset` on to the front of `buf`, as far as both reach.
    pub fn read_at(&self, offset: usize, buf: &mut [u8], data: &DataArea) -> (n: usize)
        requires
            data.wf(),
            self.wf(*data),
            offset + old(buf)@.len() <= usize::MAX,
        ensures
            n == span(self.size as int, offset as int, old(buf)@.len() as int),
            final(buf)@.len() == old(buf)@.len(),
            forall|k: int|
                0 <= k < final(buf)@.len() ==> #[trigger] final(buf)@[k] == if k < n {
                    self.content(*data)[offset + k]
                } else {
                    old(buf)@[k]
                },
    {
        let size: usize = self.size as usize;
        let len: usize = buf.len();
        if offset >= size {
            return 0;
        }
        let n: usize = if offset + len <= size {
            len
        } else {
            size - offset
        };
        let mut k: usize = 0;
        while k < n
            invariant
                k <= n <= len,
                buf@.len() == len,
                old(buf)@.len() == len,
                offset + n <= self.size,
                self.size <= usize::MAX,
                data.wf(),
                self.wf(*data),
                forall|j: int|
                    0 <= j < len ==> #[trigger] buf@[j] == if j < k {
                        self.content(*data)[offset + j]
                    } else {
                        old(buf)@[j]
                    },
            decreases n - k,
        {
            let p: usize = offset + k;
            let id: u32 = self.blocks[p / BLOCK_SZ];
            assert(data.taken(self.blocks@[p as int / 512] as int));
            let b: u8 = data.get(id, p % BLOCK_SZ);
            assert(b == self.content(*data)[offset + k]);
            buf[k] = b;
            k = k + 1;
        }
        n
    }

    /// Reads the whole file.
    pub fn read_all(&self, data: &DataArea) -> (all: Vec<u8>)
        requires
            data.wf(),
            self.wf(*data),
        ensures
            all@ == self.content(*data),
    {
        let mut all: Vec<u8> = Vec::new();
        let mut p: usize = 0;
        while p < self.size as usize
            invariant
                p <= self.size <= usize::MAX,
                data.wf(),
                self.wf(*data),
                all@ == self.content(*data).take(p as int),
            decreases self.size - p,
        {
            let id: u32 = self.blocks[p / BLOCK_SZ];
            assert(data.taken(self.blocks@[p as int / 512] as int));
            all.push(data.get(id, p % BLOCK_SZ));
            assert(all@ =~= self.content(*data).take(p + 1));
            p = p + 1;
        }
        assert(all@ =~= self.content(*data));
        all
    }

    /// Writes `buf` over the file from `offset` on, as far as the file reaches.
    pub fn write_at(&self, offset: usize, buf: &[u8], data: &mut DataArea) -> (n: usize)
        requires
            old(data).wf(),
            self.wf(*old(data)),
            offset + buf@.len() <= usize::MAX,
        ensures
            final(data).wf(),
            self.wf(*final(data)),
            n == span(self.size as int, offset as int, buf@.len() as int),
            self.content(*final(data)) == overwritten(
                self.content(*old(data)),
                offset as int,
                buf@,
            ),
            final(data).used == old(data).used,
            forall|id: int, off: int|
                #![trigger final(data).at(id, off)]
                #![trigger old(data).at(id, off)]
                0 <= id < old(data).block_count() && 0 <= off < BLOCK_SZ && !self.owns(id)
                    ==> final(data).at(id, off) == old(data).at(id, off),
    {
        let size: usize = self.size as usize;
        let len: usize = buf.len();
        let n: usize = if offset >= size {
            0
        } else if offset + len <= size {
            len
        } else {
            size - offset
        };
        let mut k: usize = 0;
        proof {
            assert(self.content(*data) =~= overwritten(
                self.content(*old(data)),
                offset as int,
                buf@.take(0),
            ));
        }
        while k < n
            invariant
                k <= n <= len,
                len == buf@.len(),
                n > 0 ==> offset + n <= self.size,
                self.size <= usize::MAX,
                data.wf(),
                self.wf(*data),
                self.wf(*old(data)),
                data.used == old(data).used,
                self.content(*data) == overwritten(
                    self.content(*old(data)),
                    offset as int,
                    buf@.take(k as int),
                ),
                forall|id: int, off: int|
                    #![trigger data.at(id, off)]
                    #![trigger old(data).at(id, off)]
                    0 <= id < old(data).block_count() && 0 <= off < BLOCK_SZ && !self.owns(id)
                        ==> data.at(id, off) == old(data).at(id, off),
            decreases n - k,
        {
            let ghost before = *data;
            let p: usize = offset + k;
            let id: u32 = self.blocks[p / BLOCK_SZ];
            assert(data.taken(self.blocks@[p as int / 512] as int));
            data.set(id, p % BLOCK_SZ, buf[k]);
            proof {
                assert(self.owns(id as int));
                assert forall|q: int|
                    0 <= q < self.blocks@.len() * BLOCK_SZ && q != p implies #[trigger] self.byte(
                    *data,
                    q,
                ) == self.byte(before, q) by {
                    assert(before.taken(self.blocks@[q / 512] as int));
                    assert(data.at(self.blocks@[q / 512] as int, q % 512) == before.at(
                        self.blocks@[q / 512] as int,
                        q % 512,
                    ));
                }
                assert(self.byte(*data, p as int) == buf@[k as int]);
                assert forall|a: int| 0 <= a < self.blocks@.len() implies data.taken(
                    #[trigger] self.blocks@[a] as int,
                ) by {
                    assert(before.taken(self.blocks@[a] as int));
                }
                assert(self.content(*data) =~= overwritten(
                    self.content(*old(data)),
                    offset as int,
                    buf@.take(k + 1),
                )) by {
                    assert forall|q: int| 0 <= q < self.size implies #[trigger] self.content(*data)[q]
                        == overwritten(
                        self.content(*old(data)),
                        offset as int,
                        buf@.take(k + 1),
                    )[q] by {
                        assert(self.content(before)[q] == overwritten(
                            self.content(*old(data)),
                            offset as int,
                            buf@.take(k as int),
                        )[q]);
                        if q != p {
                            assert(self.byte(*data, q) == self.byte(before, q));
                        }
                    }
                }
            }
            k = k + 1;
        }
        proof {
            assert(self.content(*data) =~= overwritten(
                self.content(*old(data)),
                offset as int,
                buf@,
            ));
        }
        n
    }
}

} // verus!
