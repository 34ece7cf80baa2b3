//! A task's memory: which pages are mapped, and what may be done with them.
use std::collections::BTreeMap;
use vstd::prelude::*;

use crate::config::PAGE_SIZE;

verus! {

broadcast use vstd::std_specs::btree::group_btree_axioms;

/// What may be done with a page: read, write, execute, and whether the user may do it.
#[derive(Clone, Copy, PartialEq, Eq, Structural, Debug)]
pub struct MapPermission {
    pub r: bool,
    pub w: bool,
    pub x: bool,
    pub u: bool,
}

/// The page that address `addr` lies in.
pub open spec fn page_floor(addr: int) -> int {
    addr / (PAGE_SIZE as int)
}

/// The first page that begins at `addr` or behind it.
pub open spec fn page_ceil(addr: int) -> int {
    (addr + PAGE_SIZE - 1) / (PAGE_SIZE as int)
}

/// None of the pages from `start` up to `end` is mapped.
pub open spec fn range_unmapped(m: Map<usize, MapPermission>, start: int, end: int) -> bool {
    forall|v: usize| start <= v < end ==> !#[trigger] m.contains_key(v)
}

/// All of the pages from `start` up to `end` are mapped.
pub open spec fn range_mapped(m: Map<usize, MapPermission>, start: int, end: int) -> bool {
    forall|v: usize| start <= v < end ==> #[trigger] m.contains_key(v)
}

/// The memory with the pages from `start` up to `end` mapped.
pub open spec fn with_range(
    m: Map<usize, MapPermission>,
    start: int,
    end: int,
    permission: MapPermission,
) -> Map<usize, MapPermission> {
    Map::new(
        |v: usize| m.contains_key(v) || start <= v < end,
        |v: usize|
            if start <= v < end {
                permission
            } else {
                m[v]
            },
    )
}

/// The memory without the pages from `start` up to `end`.
pub open spec fn without_range(m: Map<usize, MapPermission>, start: int, end: int) -> Map<
    usize,
    MapPermission,
> {
    Map::new(|v: usize| m.contains_key(v) && !(start <= v < end), |v: usize| m[v])
}

/// The `len` bytes from `start` on can be unmapped: they begin with a page, and each page that they
/// touch is mapped.
pub open spec fn can_munmap(m: Map<usize, MapPermission>, start: int, len: int) -> bool {
    &&& start % (PAGE_SIZE as int) == 0
    &&& start + len <= usize::MAX
    &&& range_mapped(m, page_floor(start), page_ceil(start + len))
}

/// Rounds an address down to a page.
pub fn floor_page(addr: usize) -> (r: usize)
    ensures
        r == page_floor(addr as int),
{
    addr / PAGE_SIZE
}

/// Rounds an address up to a page.
pub fn ceil_page(addr: usize) -> (r: usize)
    ensures
        r == page_ceil(addr as int),
{
    if addr % PAGE_SIZE == 0 {
        addr / PAGE_SIZE
    } else {
        addr / PAGE_SIZE + 1
    }
}

/// The pages that a task has mapped.
pub struct MemorySet {
    pub pages: BTreeMap<usize, MapPermission>,
}

impl View for MemorySet {
    type V = Map<usize, MapPermission>;

    open spec fn view(&self) -> Map<usize, MapPermission> {
        self.pages@
    }
}

impl MemorySet {
    /// Memory with nothing mapped.
    pub fn new() -> (r: MemorySet)
        ensures
            r@ == Map::<usize, MapPermission>::empty(),
    {
        MemorySet { pages: BTreeMap::new() }
    }

    /// Memory with the same pages mapped.
    pub fn duplicate(&self) -> (r: MemorySet)
        ensures
            r@ == self@,
    {
        MemorySet { pages: self.pages.clone() }
    }

    /// Maps the pages from `start` up to `end`, unless one of them is mapped already.
    pub fn mmap(&mut self, start: usize, end: usize, permission: MapPermission) -> (ok: bool)
        ensures
            ok == range_unmapped(old(self)@, start as int, end as int),
            final(self)@ == if ok {
                with_range(old(self)@, start as int, end as int, permission)
            } else {
                old(self)@
            },
    {
        let mut v: usize = start;
        while v < end
            invariant
                start <= v,
                start <= end ==> v <= end,
                start > end ==> v == start,
                range_unmapped(self@, start as int, v as int),
                *self == *old(self),
            decreases end - v,
        {
            if self.pages.contains_key(&v) {
                assert(self@.contains_key(v));
                return false;
            }
            v = v + 1;
        }
        let mut v: usize = start;
        assert(self@ =~= with_range(old(self)@, start as int, v as int, permission));
        while v < end
            invariant
                start <= v,
                start <= end ==> v <= end,
                start > end ==> v == start,
                self@ == with_range(old(self)@, start as int, v as int, permission),
            decreases end - v,
        {
            self.pages.insert(v, permission);
            assert(self@ =~= with_range(old(self)@, start as int, v + 1, permission));
            v = v + 1;
        }
        assert(self@ =~= with_range(old(self)@, start as int, end as int, permission));
        true
    }

    /// Unmaps the pages that the `len` bytes from `start` on touch, if they begin with a page and
    /// all of those pages are mapped.
    pub fn munmap(&mut self, start: usize, len: usize) -> (ok: bool)
        ensures
            ok == can_munmap(old(self)@, start as int, len as int),
            final(self)@ == if ok {
                without_range(old(self)@, page_floor(start as int), page_ceil(start + len))
            } else {
                old(self)@
            },
    {
        if start % PAGE_SIZE != 0 || start > usize::MAX - len {
            return false;
        }
        let first = floor_page(start);
        let end = ceil_page(start + len);
        let mut v: usize = first;
        while v < end
            invariant
                first <= v <= end,
                range_mapped(self@, first as int, v as int),
                first == page_floor(start as int),
                end == page_ceil(start + len),
                *self == *old(self),
            decreases end - v,
        {
            if !self.pages.contains_key(&v) {
                assert(!self@.contains_key(v));
                return false;
            }
            v = v + 1;
        }
        let mut v: usize = first;
        assert(self@ =~= without_range(old(self)@, first as int, v as int));
        while v < end
            invariant
                first <= v <= end,
                self@ == without_range(old(self)@, first as int, v as int),
            decreases end - v,
        {
            self.pages.remove(&v);
            assert(self@ =~= without_range(old(self)@, first as int, v + 1));
            v = v + 1;
        }
        true
    }
}

} // verus!
