//! The data area: the blocks that hold file contents, and the bitmap that says which are taken.
use vstd::prelude::*;

use crate::config::BLOCK_SZ;



verus! {

/// Number of blocks that `size` bytes fill.
pub open spec fn blocks_for(size: int) -> int {
    (size + BLOCK_SZ - 1) / (BLOCK_SZ as int)
}

/// Number of entries of a bitmap that are not set.
pub open spec fn count_free(used: Seq<bool>) -> nat
    decreases used.len(),
{
    if used.len() == 0 {
        0
    } else {
        count_free(used.drop_last()) + if used.last() {
            0nat
        } else {
            1nat
        }
    }
}

/// The least index at which a bitmap is not set, or its length where all of it is set.
pub open spec fn first_free(used: Seq<bool>) -> int
    decreases used.len(),
{
    if used.len() == 0 || !used[0] {
        0
    } else {
        1 + first_free(used.skip(1))
    }
}

/// A bitmap after its first clear entry was set, `n` times over.
pub open spec fn used_after(used: Seq<bool>, n: nat) -> Seq<bool>
    decreases n,
{
    if n == 0 {
        used
    } else {
        let before = used_after(used, (n - 1) as nat);
        before.update(first_free(before), true)
    }
}

/// The entries that are set when the first clear entry of a bitmap is set, `n` times over, in the
/// order in which they are set.
pub open spec fn alloc_order(used: Seq<bool>, n: nat) -> Seq<u32>
    decreases n,
{
    if n == 0 {
        Seq::empty()
    } else {
        alloc_order(used, (n - 1) as nat).push(first_free(used_after(used, (n - 1) as nat)) as u32)
    }
}

/// A bitmap with the entries `blocks` cleared, and no other.
pub open spec fn cleared(used: Seq<bool>, blocks: Seq<u32>) -> Seq<bool> {
    Seq::new(used.len(), |b: int| used[b] && !blocks.contains(b as u32))
}

/// Setting one entry of a bitmap that was clear takes one away from the count.
pub proof fn lemma_count_free_set(used: Seq<bool>, i: int)
    requires
        0 <= i < used.len(),
        !used[i],
    ensures
        count_free(used) == count_free(used.update(i, true)) + 1,
    decreases used.len(),
{
    let after = used.update(i, true);
    if i == used.len() - 1 {
        assert(after.drop_last() =~= used.drop_last());
    } else {
        assert(after.drop_last() =~= used.drop_last().update(i, true));
        lemma_count_free_set(used.drop_last(), i);
    }
}

/// Clearing one entry of a bitmap that was set adds one to the count.
pub proof fn lemma_count_free_clear(used: Seq<bool>, i: int)
    requires
        0 <= i < used.len(),
        used[i],
    ensures
        count_free(used.update(i, false)) == count_free(used) + 1,
{
    lemma_count_free_set(used.update(i, false), i);
    assert(used.update(i, false).update(i, true) =~= used);
}

/// A bitmap with nothing clear counts none.
pub proof fn lemma_count_free_none(used: Seq<bool>)
    requires
        forall|i: int| 0 <= i < used.len() ==> used[i],
    ensures
        count_free(used) == 0,
    decreases used.len(),
{
    if used.len() > 0 {
        lemma_count_free_none(used.drop_last());
    }
}

/// A bitmap with nothing set counts all of it.
pub proof fn lemma_count_free_all(used: Seq<bool>)
    requires
        forall|i: int| 0 <= i < used.len() ==> !used[i],
    ensures
        count_free(used) == used.len(),
    decreases used.len(),
{
    if used.len() > 0 {
        lemma_count_free_all(used.drop_last());
    }
}

/// What pins down the first clear entry of a bitmap.
pub proof fn lemma_first_free_is(used: Seq<bool>, i: int)
    requires
        0 <= i <= used.len(),
        forall|j: int| 0 <= j < i ==> used[j],
        i == used.len() || !used[i],
    ensures
        first_free(used) == i,
    decreases used.len(),
{
    if i > 0 {
        assert forall|j: int| 0 <= j < i - 1 implies used.skip(1)[j] by {
            assert(used[j + 1]);
        }
        lemma_first_free_is(used.skip(1), i - 1);
    }
}

/// The first clear entry of a bitmap that has one.
pub proof fn lemma_first_free(used: Seq<bool>)
    ensures
        0 <= first_free(used) <= used.len(),
        forall|j: int| 0 <= j < first_free(used) ==> used[j],
        first_free(used) < used.len() ==> !used[first_free(used)],
    decreases used.len(),
{
    if used.len() > 0 && used[0] {
        lemma_first_free(used.skip(1));
        assert forall|j: int| 0 <= j < first_free(used) implies used[j] by {
            if j > 0 {
                assert(used.skip(1)[j - 1] == used[j]);
            }
        }
    }
}

/// The entries that are set one after the other were all clear, and differ from each other.
pub proof fn lemma_alloc_order(used: Seq<bool>, n: nat)
    requires
        used.len() <= u32::MAX,
        n <= count_free(used),
    ensures
        alloc_order(used, n).len() == n,
        alloc_order(used, n).no_duplicates(),
        forall|a: int|
            0 <= a < n ==> (#[trigger] alloc_order(used, n)[a]) < used.len()
                && !used[alloc_order(used, n)[a] as int],
        used_after(used, n).len() == used.len(),
        forall|b: int|
            0 <= b < used.len() ==> (#[trigger] used_after(used, n)[b] <==> used[b]
                || alloc_order(used, n).contains(b as u32)),
        count_free(used_after(used, n)) == count_free(used) - n,
    decreases n,
{
    if n > 0 {
        let m = (n - 1) as nat;
        lemma_alloc_order(used, m);
        let before = used_after(used, m);
        let order = alloc_order(used, m);
        let id = first_free(before);
        lemma_first_free(before);
        if id == before.len() {
            lemma_count_free_none(before);
        }
        lemma_count_free_set(before, id);
        let after = order.push(id as u32);
        assert(!before[id]);
        assert forall|a: int, b: int| 0 <= a < n && 0 <= b < n && a != b implies after[a]
            != after[b] by {
            if a == m {
                assert(order[b] == after[b]);
                assert(order.contains(order[b]));
                assert(before[order[b] as int]);
            } else if b == m {
                assert(order[a] == after[a]);
                assert(order.contains(order[a]));
                assert(before[order[a] as int]);
            }
        }
        assert forall|b: int| 0 <= b < used.len() implies (#[trigger] used_after(used, n)[b]
            <==> used[b] || after.contains(b as u32)) by {
            if order.contains(b as u32) {
                let a = choose|a: int| 0 <= a < order.len() && order[a] == b as u32;
                assert(after[a] == b as u32);
            }
            if b == id {
                assert(after[m as int] == b as u32);
            }
            if after.contains(b as u32) && b != id {
                let a = choose|a: int| 0 <= a < after.len() && after[a] == b as u32;
                assert(order[a] == b as u32);
            }
        }
    }
}

/// Clearing entries that are set and differ from each other adds as many to the count.
pub proof fn lemma_count_cleared(used: Seq<bool>, blocks: Seq<u32>)
    requires
        used.len() <= u32::MAX,
        blocks.no_duplicates(),
        forall|a: int|
            0 <= a < blocks.len() ==> (#[trigger] blocks[a]) < used.len() && used[blocks[a] as int],
    ensures
        count_free(cleared(used, blocks)) == count_free(used) + blocks.len(),
    decreases blocks.len(),
{
    if blocks.len() == 0 {
        assert(cleared(used, blocks) =~= used);
    } else {
        let rest = blocks.drop_last();
        let last = blocks.last();
        assert forall|a: int| 0 <= a < rest.len() implies (#[trigger] rest[a]) < used.len()
            && used[rest[a] as int] by {
            assert(rest[a] == blocks[a]);
        }
        lemma_count_cleared(used, rest);
        let before = cleared(used, rest);
        assert(!rest.contains(last)) by {
            if rest.contains(last) {
                let a = choose|a: int| 0 <= a < rest.len() && rest[a] == last;
                assert(blocks[a] == blocks[blocks.len() - 1]);
            }
        }
        assert(blocks[blocks.len() - 1] == last);
        lemma_cleared_push(used, rest, last);
        assert(rest.push(last) =~= blocks);
        lemma_count_free_clear(before, last as int);
    }
}

/// Clearing one entry more.
pub proof fn lemma_cleared_push(used: Seq<bool>, blocks: Seq<u32>, id: u32)
    requires
        used.len() <= u32::MAX,
        id < used.len(),
    ensures
        cleared(used, blocks.push(id)) == cleared(used, blocks).update(id as int, false),
{
    let more = blocks.push(id);
    assert forall|b: int| 0 <= b < used.len() implies #[trigger] cleared(used, more)[b] == cleared(
        used,
        blocks,
    ).update(id as int, false)[b] by {
        if blocks.contains(b as u32) {
            let a = choose|a: int| 0 <= a < blocks.len() && blocks[a] == b as u32;
            assert(more[a] == b as u32);
        }
        if b == id {
            assert(more[blocks.len() as int] == b as u32);
        }
        if more.contains(b as u32) && b != id {
            let a = choose|a: int| 0 <= a < more.len() && more[a] == b as u32;
            assert(blocks[a] == b as u32);
        }
    }
    assert(cleared(used, more) =~= cleared(used, blocks).update(id as int, false));
}

/// Finds the first clear entry of a bitmap.
pub fn find_first_free(used: &Vec<bool>) -> (i: usize)
    ensures
        i == first_free(used@),
        i <= used.len(),
{
    let mut i: usize = 0;
    while i < used.len()
        invariant_except_break
            i <= used.len(),
            forall|j: int| 0 <= j < i ==> used@[j],
        ensures
            i <= used.len(),
            forall|j: int| 0 <= j < i ==> used@[j],
            i == used.len() || !used@[i as int],
        decreases used.len() - i,
    {
        if !used[i] {
            break;
        }
        i = i + 1;
    }
    proof {
        lemma_first_free_is(used@, i as int);
    }
    i
}

/// The data blocks of a file system, one behind the other, and which of them are taken.
pub struct DataArea {
    pub bytes: Vec<u8>,
    pub used: Vec<bool>,
}

impl DataArea {
    /// Byte `off` of block `id`.
    pub open spec fn at(self, id: int, off: int) -> u8 {
        self.bytes@[id * BLOCK_SZ + off]
    }

    pub open spec fn block_count(self) -> nat {
        self.used@.len()
    }

    /// Blocks that are not taken.
    pub open spec fn free(self) -> nat {
        count_free(self.used@)
    }

    /// Block `id` exists and is taken.
    pub open spec fn taken(self, id: int) -> bool {
        0 <= id < self.used@.len() && self.used@[id]
    }

    /// A block that is not taken holds zeros.
    pub open spec fn wf(self) -> bool {
        &&& self.bytes.len() == self.used@.len() * BLOCK_SZ
        &&& self.used@.len() <= u32::MAX
        &&& forall|id: int, off: int|
            0 <= id < self.used@.len() && !self.used@[id] && 0 <= off < BLOCK_SZ
                ==> #[trigger] self.at(id, off) == 0
    }

    /// Whether the data area is well formed.
    pub fn check_wf(&self) -> (ok: bool)
        ensures
            ok == self.wf(),
    {
        if self.used.len() as u64 > u32::MAX as u64 {
            return false;
        }
        if self.bytes.len() as u64 != self.used.len() as u64 * 512 {
            return false;
        }
        let mut id: usize = 0;
        while id < self.used.len()
            invariant
                id <= self.used.len(),
                self.used@.len() <= u32::MAX,
                self.bytes.len() == self.used@.len() * 512,
                forall|b: int, off: int|
                    0 <= b < id && !self.used@[b] && 0 <= off < BLOCK_SZ ==> #[trigger] self.at(
                        b,
                        off,
                    ) == 0,
            decreases self.used.len() - id,
        {
            if !self.used[id] {
                let mut off: usize = 0;
                while off < BLOCK_SZ
                    invariant
                        off <= BLOCK_SZ,
                        id < self.used.len(),
                        !self.used@[id as int],
                        self.bytes.len() == self.used@.len() * 512,
                        forall|o: int| 0 <= o < off ==> #[trigger] self.at(id as int, o) == 0,
                    decreases BLOCK_SZ - off,
                {
                    if self.bytes[id * 512 + off] != 0 {
                        assert(self.at(id as int, off as int) != 0);
                        return false;
                    }
                    off = off + 1;
                }
            }
            id = id + 1;
        }
        true
    }

    /// A data area of `count` blocks, none taken.
    pub fn new(count: u32) -> (r: DataArea)
        requires
            count * BLOCK_SZ <= usize::MAX,
        ensures
            r.wf(),
            r.block_count() == count,
            r.free() == count,
            forall|id: int| 0 <= id < count ==> !r.taken(id),
    {
        let n: usize = count as usize;
        let mut bytes: Vec<u8> = Vec::new();
        bytes.resize(n * BLOCK_SZ, 0u8);
        let mut used: Vec<bool> = Vec::new();
        used.resize(n, false);
        let r = DataArea { bytes, used };
        proof {
            lemma_count_free_all(r.used@);
        }
        r
    }

    /// Counts the blocks that are not taken.
    pub fn free_count(&self) -> (n: usize)
        requires
            self.wf(),
        ensures
            n == self.free(),
    {
        let mut n: usize = 0;
        let mut i: usize = 0;
        while i < self.used.len()
            invariant
                i <= self.used@.len(),
                n <= i,
                n == count_free(self.used@.take(i as int)),
            decreases self.used@.len() - i,
        {
            assert(self.used@.take(i + 1).drop_last() =~= self.used@.take(i as int));
            if !self.used[i] {
                n = n + 1;
            }
            i = i + 1;
        }
        assert(self.used@.take(i as int) =~= self.used@);
        n
    }

    /// Takes the first block that is not taken.
    pub fn alloc_block(&mut self) -> (id: u32)
        requires
            old(self).wf(),
            old(self).free() > 0,
        ensures
            final(self).wf(),
            final(self).bytes == old(self).bytes,
            id == first_free(old(self).used@),
            id < old(self).block_count(),
            !old(self).taken(id as int),
            final(self).used@ == old(self).used@.update(id as int, true),
            final(self).free() == old(self).free() - 1,
    {
        let i = find_first_free(&self.used);
        proof {
            lemma_first_free(self.used@);
            if i == self.used@.len() {
                lemma_count_free_none(self.used@);
            }
            lemma_count_free_set(self.used@, i as int);
        }
        self.used[i] = true;
        proof {
            assert forall|id: int, off: int|
                0 <= id < self.used@.len() && !self.used@[id] && 0 <= off
                    < BLOCK_SZ implies #[trigger] self.at(id, off) == 0 by {
                assert(old(self).at(id, off) == 0);
            }
        }
        i as u32
    }

    /// Gives block `id` back, filled with zeros.
    pub fn dealloc_block(&mut self, id: u32)
        requires
            old(self).wf(),
            old(self).taken(id as int),
        ensures
            final(self).wf(),
            final(self).used@ == old(self).used@.update(id as int, false),
            final(self).free() == old(self).free() + 1,
            forall|b: int, off: int|
                #![trigger final(self).at(b, off)]
                #![trigger old(self).at(b, off)]
                0 <= b < old(self).block_count() && b != id && 0 <= off < BLOCK_SZ
                    ==> final(self).at(b, off) == old(self).at(b, off),
    {
        let start: usize = id as usize * BLOCK_SZ;
        let mut k: usize = 0;
        while k < BLOCK_SZ
            invariant
                k <= BLOCK_SZ,
                start == id * BLOCK_SZ,
                old(self).wf(),
                old(self).taken(id as int),
                self.used == old(self).used,
                self.bytes@.len() == old(self).bytes@.len(),
                forall|b: int, off: int|
                    #![trigger self.at(b, off)]
                    #![trigger old(self).at(b, off)]
                    0 <= b < old(self).block_count() && b != id && 0 <= off < BLOCK_SZ
                        ==> self.at(b, off) == old(self).at(b, off),
                forall|off: int| 0 <= off < k ==> #[trigger] self.at(id as int, off) == 0,
            decreases BLOCK_SZ - k,
        {
            let ghost before = *self;
            self.bytes[start + k] = 0;
            assert forall|off: int| 0 <= off <= k implies #[trigger] self.at(id as int, off)
                == 0 by {
                if off < k {
                    assert(before.at(id as int, off) == 0);
                }
            }
            k = k + 1;
        }
        let ghost zeroed = *self;
        self.used[id as usize] = false;
        proof {
            assert(forall|b: int, off: int| self.at(b, off) == #[trigger] zeroed.at(b, off));
            lemma_count_free_clear(old(self).used@, id as int);
            assert forall|b: int, off: int|
                0 <= b < self.used@.len() && !self.used@[b] && 0 <= off
                    < BLOCK_SZ implies #[trigger] self.at(b, off) == 0 by {
                assert(self.at(b, off) == zeroed.at(b, off));
                if b != id {
                    assert(old(self).at(b, off) == 0);
                }
            }
        }
    }

    /// Reads byte `off` of block `id`.
    pub fn get(&self, id: u32, off: usize) -> (b: u8)
        requires
            self.wf(),
            id < self.block_count(),
            off < BLOCK_SZ,
        ensures
            b == self.at(id as int, off as int),
    {
        self.bytes[id as usize * BLOCK_SZ + off]
    }

    /// Writes byte `off` of block `id`, which is taken.
    pub fn set(&mut self, id: u32, off: usize, b: u8)
        requires
            old(self).wf(),
            old(self).taken(id as int),
            off < BLOCK_SZ,
        ensures
            final(self).wf(),
            final(self).used == old(self).used,
            final(self).at(id as int, off as int) == b,
            forall|c: int, o: int|
                #![trigger final(self).at(c, o)]
                #![trigger old(self).at(c, o)]
                0 <= c < old(self).block_count() && 0 <= o < BLOCK_SZ && (c != id || o != off)
                    ==> final(self).at(c, o) == old(self).at(c, o),
    {
        self.bytes[id as usize * BLOCK_SZ + off] = b;
        proof {
            assert forall|c: int, o: int|
                0 <= c < self.used@.len() && !self.used@[c] && 0 <= o
                    < BLOCK_SZ implies #[trigger] self.at(c, o) == 0 by {
                assert(old(self).at(c, o) == 0);
            }
        }
    }
}

} // verus!
