//! Directory entries: a name and the number of the inode that it stands for, in a fixed number of
//! bytes. A directory's content is a row of them.
use vstd::bytes::*;
use vstd::prelude::*;
use vstd::slice::slice_subrange;
use vstd::utf8::*;

use crate::config::{DIRENT_SZ, NAME_FIELD_SZ, NAME_LENGTH_LIMIT};
use crate::layout::overwritten;

verus! {

/// The least index from `k` on at which `s` holds a zero byte, or its length.
pub open spec fn first_nul(s: Seq<u8>, k: int) -> int
    decreases s.len() - k,
{
    if k >= s.len() || s[k] == 0 {
        k
    } else {
        first_nul(s, k + 1)
    }
}

/// What stands in `s` before its first zero byte.
pub open spec fn until_nul(s: Seq<u8>) -> Seq<u8> {
    s.take(first_nul(s, 0))
}

/// `name` holds no zero byte and fits into a directory entry.
pub open spec fn plain_name(name: Seq<u8>) -> bool {
    &&& name.len() <= NAME_LENGTH_LIMIT
    &&& forall|k: int| 0 <= k < name.len() ==> name[k] != 0
}

/// The name that the bytes of a directory entry hold.
pub open spec fn raw_name(raw: Seq<u8>) -> Seq<u8> {
    until_nul(raw.subrange(0, NAME_FIELD_SZ as int))
}

/// The inode number that the bytes of a directory entry hold.
pub open spec fn raw_inode(raw: Seq<u8>) -> u32 {
    spec_u32_from_le_bytes(raw.subrange(NAME_FIELD_SZ as int, DIRENT_SZ as int))
}

/// The bytes of the directory entry that gives `name` to inode `id`.
pub open spec fn encode_entry(name: Seq<u8>, id: u32) -> Seq<u8> {
    name + Seq::new((NAME_FIELD_SZ - name.len()) as nat, |k: int| 0u8) + spec_u32_to_le_bytes(id)
}

/// Number of whole entries in a directory's content.
pub open spec fn entry_count(content: Seq<u8>) -> int {
    content.len() as int / (DIRENT_SZ as int)
}

/// The bytes of entry `i`.
pub open spec fn entry_raw(content: Seq<u8>, i: int) -> Seq<u8> {
    content.subrange(i * DIRENT_SZ, (i + 1) * DIRENT_SZ)
}

/// The name in entry `i`.
pub open spec fn entry_name(content: Seq<u8>, i: int) -> Seq<u8> {
    raw_name(entry_raw(content, i))
}

/// The inode number in entry `i`.
pub open spec fn entry_inode(content: Seq<u8>, i: int) -> u32 {
    raw_inode(entry_raw(content, i))
}

/// Entry `i` is the first that holds `name`.
pub open spec fn is_first(content: Seq<u8>, name: Seq<u8>, i: int) -> bool {
    &&& 0 <= i < entry_count(content)
    &&& entry_name(content, i) == name
    &&& forall|j: int| 0 <= j < i ==> #[trigger] entry_name(content, j) != name
}

/// No entry holds `name`.
pub open spec fn is_absent(content: Seq<u8>, name: Seq<u8>) -> bool {
    forall|j: int| 0 <= j < entry_count(content) ==> #[trigger] entry_name(content, j) != name
}

/// The first entry that holds `name`, if there is one.
pub open spec fn lookup_index(content: Seq<u8>, name: Seq<u8>) -> Option<int> {
    if is_absent(content, name) {
        None
    } else {
        Some(choose|i: int| is_first(content, name, i))
    }
}

/// The inode that `name` stands for, if there is one.
pub open spec fn lookup(content: Seq<u8>, name: Seq<u8>) -> Option<u32> {
    match lookup_index(content, name) {
        Some(i) => Some(entry_inode(content, i)),
        None => None,
    }
}

/// The names in the first `n` entries, in order, without those that are empty.
pub open spec fn listing_upto(content: Seq<u8>, n: int) -> Seq<Seq<u8>>
    decreases n,
{
    if n <= 0 {
        Seq::empty()
    } else if entry_name(content, n - 1).len() == 0 {
        listing_upto(content, n - 1)
    } else {
        listing_upto(content, n - 1).push(entry_name(content, n - 1))
    }
}

/// The names in a directory, in order, without those that are empty.
pub open spec fn listing(content: Seq<u8>) -> Seq<Seq<u8>> {
    listing_upto(content, entry_count(content))
}

/// A directory's content with one more entry behind the whole ones.
pub open spec fn appended(content: Seq<u8>, name: Seq<u8>, id: u32) -> Seq<u8> {
    content.take(entry_count(content) * DIRENT_SZ) + encode_entry(name, id)
}

/// A directory's content with entry `i` emptied.
pub open spec fn emptied(content: Seq<u8>, i: int) -> Seq<u8> {
    overwritten(content, i * DIRENT_SZ, encode_entry(Seq::empty(), 0))
}

/// Every name in the directory is UTF-8.
pub open spec fn names_are_text(content: Seq<u8>) -> bool {
    forall|i: int| 0 <= i < entry_count(content) ==> valid_utf8(#[trigger] entry_name(content, i))
}

pub proof fn lemma_first_nul_is(s: Seq<u8>, k: int, m: int)
    requires
        0 <= k <= m <= s.len(),
        forall|j: int| k <= j < m ==> s[j] != 0,
        m == s.len() || s[m] == 0,
    ensures
        first_nul(s, k) == m,
    decreases m - k,
{
    if k < m {
        lemma_first_nul_is(s, k + 1, m);
    }
}

pub proof fn lemma_first_nul(s: Seq<u8>, k: int)
    requires
        0 <= k <= s.len(),
    ensures
        k <= first_nul(s, k) <= s.len(),
        forall|j: int| k <= j < first_nul(s, k) ==> s[j] != 0,
        first_nul(s, k) < s.len() ==> s[first_nul(s, k)] == 0,
    decreases s.len() - k,
{
    if k < s.len() && s[k] != 0 {
        lemma_first_nul(s, k + 1);
    }
}

/// An entry holds the inode number that it was made with, and its name up to the first zero byte.
pub proof fn lemma_encode_entry(name: Seq<u8>, id: u32)
    requires
        name.len() <= NAME_LENGTH_LIMIT,
    ensures
        encode_entry(name, id).len() == DIRENT_SZ,
        raw_inode(encode_entry(name, id)) == id,
        raw_name(encode_entry(name, id)) == until_nul(name),
        plain_name(name) ==> raw_name(encode_entry(name, id)) == name,
{
    lemma_auto_spec_u32_to_from_le_bytes();
    let raw = encode_entry(name, id);
    assert(raw.subrange(NAME_FIELD_SZ as int, DIRENT_SZ as int) =~= spec_u32_to_le_bytes(id));
    let field = raw.subrange(0, NAME_FIELD_SZ as int);
    lemma_first_nul(name, 0);
    let m = first_nul(name, 0);
    assert(forall|j: int| 0 <= j < name.len() ==> field[j] == name[j]);
    lemma_first_nul_is(field, 0, m);
    assert(field.take(m) =~= name.take(m));
    if plain_name(name) {
        assert(name.take(m) =~= name);
    }
}

/// What pins down the first entry that holds a name.
pub proof fn lemma_lookup_index_is(content: Seq<u8>, name: Seq<u8>, i: int)
    requires
        is_first(content, name, i),
    ensures
        lookup_index(content, name) == Some(i),
{
    let c = choose|c: int| is_first(content, name, c);
    assert(is_first(content, name, c));
    if c < i {
        assert(entry_name(content, c) != name);
    } else if i < c {
        assert(entry_name(content, i) != name);
    }
}

/// A name that some entry holds has a first entry that holds it.
pub proof fn lemma_lookup_index(content: Seq<u8>, name: Seq<u8>)
    ensures
        match lookup_index(content, name) {
            Some(i) => is_first(content, name, i),
            None => is_absent(content, name),
        },
{
    if !is_absent(content, name) {
        let j = choose|j: int|
            0 <= j < entry_count(content) && #[trigger] entry_name(content, j) == name;
        lemma_first_below(content, name, j);
    }
}

proof fn lemma_first_below(content: Seq<u8>, name: Seq<u8>, j: int)
    requires
        0 <= j < entry_count(content),
        entry_name(content, j) == name,
    ensures
        exists|i: int| is_first(content, name, i),
    decreases j,
{
    if forall|k: int| 0 <= k < j ==> #[trigger] entry_name(content, k) != name {
        assert(is_first(content, name, j));
    } else {
        let k = choose|k: int| 0 <= k < j && #[trigger] entry_name(content, k) == name;
        lemma_first_below(content, name, k);
    }
}

/// An entry that is appended leaves those before it as they are.
pub proof fn lemma_appended(content: Seq<u8>, name: Seq<u8>, id: u32)
    requires
        name.len() <= NAME_LENGTH_LIMIT,
    ensures
        entry_count(appended(content, name, id)) == entry_count(content) + 1,
        appended(content, name, id).len() == (entry_count(content) + 1) * DIRENT_SZ,
        forall|i: int|
            0 <= i < entry_count(content) ==> #[trigger] entry_raw(appended(content, name, id), i)
                == entry_raw(content, i),
        entry_name(appended(content, name, id), entry_count(content)) == until_nul(name),
        plain_name(name) ==> entry_name(appended(content, name, id), entry_count(content)) == name,
        entry_inode(appended(content, name, id), entry_count(content)) == id,
{
    lemma_encode_entry(name, id);
    let after = appended(content, name, id);
    assert forall|i: int| 0 <= i < entry_count(content) implies #[trigger] entry_raw(after, i)
        == entry_raw(content, i) by {
        assert(entry_raw(after, i) =~= entry_raw(content, i));
    }
    assert(entry_raw(after, entry_count(content)) =~= encode_entry(name, id));
}

/// Emptying an entry leaves the others as they are.
pub proof fn lemma_emptied(content: Seq<u8>, i: int)
    requires
        0 <= i < entry_count(content),
    ensures
        emptied(content, i).len() == content.len(),
        forall|j: int|
            0 <= j < entry_count(content) && j != i ==> #[trigger] entry_raw(
                emptied(content, i),
                j,
            ) == entry_raw(content, j),
        entry_name(emptied(content, i), i) == Seq::<u8>::empty(),
        entry_inode(emptied(content, i), i) == 0,
{
    let zeros = encode_entry(Seq::empty(), 0);
    lemma_encode_entry(Seq::empty(), 0);
    let after = emptied(content, i);
    assert forall|j: int| 0 <= j < entry_count(content) && j != i implies #[trigger] entry_raw(
        after,
        j,
    ) == entry_raw(content, j) by {
        assert(entry_raw(after, j) =~= entry_raw(content, j));
    }
    assert(entry_raw(after, i) =~= zeros);
}

/// The names that are listed are those that an entry holds, but for the empty one.
pub proof fn lemma_listing_upto(content: Seq<u8>, n: int, name: Seq<u8>)
    requires
        0 <= n <= entry_count(content),
    ensures
        listing_upto(content, n).contains(name) <==> name.len() > 0 && exists|i: int|
            0 <= i < n && #[trigger] entry_name(content, i) == name,
    decreases n,
{
    if n > 0 {
        lemma_listing_upto(content, n - 1, name);
        let before = listing_upto(content, n - 1);
        let last = entry_name(content, n - 1);
        if last.len() > 0 {
            let after = before.push(last);
            if before.contains(name) {
                let k = choose|k: int| 0 <= k < before.len() && before[k] == name;
                assert(after[k] == name);
            }
            if name == last {
                assert(after[before.len() as int] == name);
            }
            if after.contains(name) {
                let k = choose|k: int| 0 <= k < after.len() && after[k] == name;
                if k < before.len() {
                    assert(before[k] == name);
                }
            }
        }
    }
}

/// What is listed rests on the entries alone.
pub proof fn lemma_listing_same(c1: Seq<u8>, c2: Seq<u8>, n: int)
    requires
        forall|i: int| 0 <= i < n ==> #[trigger] entry_name(c2, i) == entry_name(c1, i),
    ensures
        listing_upto(c2, n) == listing_upto(c1, n),
    decreases n,
{
    if n > 0 {
        lemma_listing_same(c1, c2, n - 1);
        assert(entry_name(c2, n - 1) == entry_name(c1, n - 1));
    }
}

/// Compares two byte strings.
pub fn bytes_eq(a: &[u8], b: &[u8]) -> (r: bool)
    ensures
        r == (a@ == b@),
{
    if a.len() != b.len() {
        return false;
    }
    let mut k: usize = 0;
    while k < a.len()
        invariant
            k <= a@.len(),
            a@.len() == b@.len(),
            forall|j: int| 0 <= j < k ==> a@[j] == b@[j],
        decreases a@.len() - k,
    {
        if a[k] != b[k] {
            return false;
        }
        k = k + 1;
    }
    assert(a@ =~= b@);
    true
}

/// A directory entry, as the bytes that lie on disk.
pub struct DirEntry {
    pub raw: [u8; 32],
}

impl DirEntry {
    /// An entry of zeros.
    pub fn empty() -> (r: DirEntry)
        ensures
            forall|k: int| 0 <= k < DIRENT_SZ ==> r.raw@[k] == 0,
    {
        DirEntry { raw: [0u8; 32] }
    }

    /// The entry that gives `name` to inode `id`.
    pub fn new(name: &str, id: u32) -> (r: DirEntry)
        requires
            encode_utf8(name@).len() <= NAME_LENGTH_LIMIT,
        ensures
            r.raw@ == encode_entry(encode_utf8(name@), id),
    {
        let bytes = name.as_bytes();
        let mut raw: [u8; 32] = [0u8; 32];
        let mut k: usize = 0;
        while k < bytes.len()
            invariant
                k <= bytes@.len() <= NAME_LENGTH_LIMIT,
                forall|j: int|
                    0 <= j < DIRENT_SZ ==> raw@[j] == if j < k {
                        bytes@[j]
                    } else {
                        0
                    },
            decreases bytes@.len() - k,
        {
            raw[k] = bytes[k];
            k = k + 1;
        }
        let number = u32_to_le_bytes(id);
        proof {
            lemma_auto_spec_u32_to_from_le_bytes();
        }
        raw[28] = number[0];
        raw[29] = number[1];
        raw[30] = number[2];
        raw[31] = number[3];
        assert(raw@ =~= encode_entry(encode_utf8(name@), id));
        DirEntry { raw }
    }

    /// The name in this entry.
    pub fn name(&self) -> (r: Vec<u8>)
        ensures
            r@ == raw_name(self.raw@),
    {
        let mut r: Vec<u8> = Vec::new();
        let ghost field = self.raw@.subrange(0, NAME_FIELD_SZ as int);
        let mut k: usize = 0;
        while k < NAME_FIELD_SZ
            invariant_except_break
                k <= NAME_FIELD_SZ,
                field == self.raw@.subrange(0, NAME_FIELD_SZ as int),
                r@ =~= field.take(k as int),
                forall|j: int| 0 <= j < k ==> field[j] != 0,
            ensures
                k <= NAME_FIELD_SZ,
                r@ =~= field.take(k as int),
                forall|j: int| 0 <= j < k ==> field[j] != 0,
                k == NAME_FIELD_SZ || field[k as int] == 0,
            decreases NAME_FIELD_SZ - k,
        {
            if self.raw[k] == 0 {
                break;
            }
            r.push(self.raw[k]);
            k = k + 1;
        }
        proof {
            lemma_first_nul_is(field, 0, k as int);
        }
        r
    }

    /// The inode number in this entry.
    pub fn inode_number(&self) -> (r: u32)
        ensures
            r == raw_inode(self.raw@),
    {
        let raw = self.raw.as_slice();
        u32_from_le_bytes(slice_subrange(raw, NAME_FIELD_SZ, DIRENT_SZ))
    }
}

} // verus!
