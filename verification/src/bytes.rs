//! Byte strings.
use vstd::prelude::*;

verus! {

/// `a` and `b` hold the same bytes.
pub fn same_bytes(a: &[u8], b: &[u8]) -> (r: bool)
    ensures
        r == (a@ == b@),
{
    if a.len() != b.len() {
        return false;
    }
    let mut i: usize = 0;
    while i < a.len()
        invariant
            a@.len() == b@.len(),
            i <= a@.len(),
            forall|j: int| 0 <= j < i ==> a@[j] == b@[j],
        decreases a@.len() - i,
    {
        if a[i] != b[i] {
            return false;
        }
        i += 1;
    }
    assert(a@ =~= b@);
    true
}

/// A copy of the bytes of `a` in `[lo, hi)`.
pub fn copied(a: &[u8], lo: usize, hi: usize) -> (r: Vec<u8>)
    requires
        lo <= hi <= a@.len(),
    ensures
        r@ == a@.subrange(lo as int, hi as int),
{
    let mut r: Vec<u8> = Vec::new();
    let mut i: usize = lo;
    while i < hi
        invariant
            lo <= i <= hi <= a@.len(),
            r@ =~= a@.subrange(lo as int, i as int),
        decreases hi - i,
    {
        r.push(a[i]);
        i += 1;
    }
    r
}

/// The array of `N` bytes with these contents.
pub open spec fn array_of<const N: usize>(s: Seq<u8>) -> [u8; N] {
    choose|a: [u8; N]| a@ == s
}

pub proof fn lemma_array_of<const N: usize>(a: [u8; N])
    ensures
        array_of::<N>(a@) == a,
{
    let b = array_of::<N>(a@);
    assert(b@ == a@);
    assert(b =~= a);
}

/// An array that agrees with `s` on the first `n` bytes.
proof fn lemma_array_prefix<const N: usize>(s: Seq<u8>, n: int) -> (a: [u8; N])
    requires
        s.len() == N,
        0 <= n <= N,
    ensures
        a@.take(n) == s.take(n),
    decreases n,
{
    if n == 0 {
        let a = vstd::array::spec_array_fill_for_copy_type::<u8, N>(0);
        assert(a@.take(0) =~= s.take(0));
        a
    } else {
        let b = lemma_array_prefix::<N>(s, n - 1);
        let a = vstd::array::spec_array_update(b, n - 1, s[n - 1]);
        assert forall|i: int| 0 <= i < n implies #[trigger] a@[i] == s[i] by {
            if i < n - 1 {
                assert(b@.take(n - 1)[i] == s.take(n - 1)[i]);
            }
        }
        assert(a@.take(n) =~= s.take(n));
        a
    }
}

/// Every sequence of the right length is the content of an array.
pub proof fn lemma_array_holds<const N: usize>(s: Seq<u8>)
    requires
        s.len() == N,
    ensures
        array_of::<N>(s)@ == s,
{
    let a = lemma_array_prefix::<N>(s, N as int);
    assert(a@.take(N as int) =~= a@);
    assert(s.take(N as int) =~= s);
    assert(a@ == s);
}

/// The 16-bit little-endian number at `at`.
pub open spec fn le16(d: Seq<u8>, at: int) -> u16 {
    (d[at] + 256 * d[at + 1]) as u16
}

/// The 32-bit little-endian number at `at`.
pub open spec fn le32(d: Seq<u8>, at: int) -> u32 {
    (le16(d, at) + 0x1_0000 * le16(d, at + 2)) as u32
}

/// The 64-bit little-endian number at `at`.
pub open spec fn le64(d: Seq<u8>, at: int) -> u64 {
    (le32(d, at) + 0x1_0000_0000 * le32(d, at + 4)) as u64
}

pub fn read_u16(data: &[u8], off: usize) -> (r: u16)
    requires
        off + 2 <= data@.len(),
    ensures
        r == le16(data@, off as int),
{
    data[off] as u16 + 256 * (data[off + 1] as u16)
}

pub fn read_u32(data: &[u8], off: usize) -> (r: u32)
    requires
        off + 4 <= data@.len(),
    ensures
        r == le32(data@, off as int),
{
    assert(data.len() <= usize::MAX);
    read_u16(data, off) as u32 + 0x1_0000 * (read_u16(data, off + 2) as u32)
}

pub fn read_u64(data: &[u8], off: usize) -> (r: u64)
    requires
        off + 8 <= data@.len(),
    ensures
        r == le64(data@, off as int),
{
    assert(data.len() <= usize::MAX);
    read_u32(data, off) as u64 + 0x1_0000_0000 * (read_u32(data, off + 4) as u64)
}

/// The bytes of `v`, least significant first.
pub open spec fn le_bytes(v: nat, n: nat) -> Seq<u8>
    decreases n,
{
    if n == 0 {
        Seq::empty()
    } else {
        seq![(v % 256) as u8] + le_bytes(v / 256, (n - 1) as nat)
    }
}

/// The `n` low bytes of `v`, least significant first.
pub fn to_le_bytes(v: u64, n: usize) -> (r: Vec<u8>)
    ensures
        r@ == le_bytes(v as nat, n as nat),
{
    let mut r: Vec<u8> = Vec::new();
    let mut rest: u64 = v;
    let mut i: usize = 0;
    assert(Seq::<u8>::empty() + le_bytes(v as nat, n as nat) =~= le_bytes(v as nat, n as nat));
    while i < n
        invariant
            i <= n,
            r@ + le_bytes(rest as nat, (n - i) as nat) == le_bytes(v as nat, n as nat),
        decreases n - i,
    {
        let ghost before = r@;
        r.push((rest % 256) as u8);
        proof {
            let b = (rest as nat % 256) as u8;
            let tail = le_bytes(rest as nat / 256, (n - i - 1) as nat);
            assert(before + (seq![b] + tail) =~= before.push(b) + tail);
        }
        rest = rest / 256;
        i += 1;
    }
    assert(r@ + Seq::<u8>::empty() =~= r@);
    r
}

/// A 32-bit number is read back from its bytes.
pub proof fn law_word_read_back(v: u32)
    ensures
        le_bytes(v as nat, 4).len() == 4,
        le32(le_bytes(v as nat, 4), 0) == v,
{
    reveal_with_fuel(le_bytes, 5);
    let a = v as nat;
    let b = a / 256;
    let c = b / 256;
    let d = c / 256;
    assert(d < 256);
    let s = le_bytes(a, 4);
    assert(s =~= seq![(a % 256) as u8, (b % 256) as u8, (c % 256) as u8, (d % 256) as u8]);
}

/// A 64-bit number is read back from its bytes.
pub proof fn law_number_read_back(v: u64)
    ensures
        le_bytes(v as nat, 8).len() == 8,
        le64(le_bytes(v as nat, 8), 0) == v,
{
    reveal_with_fuel(le_bytes, 9);
    let a = v as nat;
    let b = a / 256;
    let c = b / 256;
    let d = c / 256;
    let e = d / 256;
    let f = e / 256;
    let g = f / 256;
    let h = g / 256;
    assert(h < 256);
    let s = le_bytes(a, 8);
    assert(s =~= seq![
        (a % 256) as u8,
        (b % 256) as u8,
        (c % 256) as u8,
        (d % 256) as u8,
        (e % 256) as u8,
        (f % 256) as u8,
        (g % 256) as u8,
        (h % 256) as u8,
    ]);
    assert(le32(s, 0) == (a % 256) + 256 * (b % 256) + 0x1_0000 * (c % 256) + 0x100_0000 * (d % 256));
    assert(le32(s, 4) == (e % 256) + 256 * (f % 256) + 0x1_0000 * (g % 256) + 0x100_0000 * (h % 256));
}

/// A number is read the same from the part of a text that holds it.
pub proof fn lemma_le64_at(d: Seq<u8>, at: int)
    requires
        0 <= at,
        at + 8 <= d.len(),
    ensures
        le64(d, at) == le64(d.subrange(at, at + 8), 0),
{
}

pub proof fn lemma_le32_at(d: Seq<u8>, at: int)
    requires
        0 <= at,
        at + 4 <= d.len(),
    ensures
        le32(d, at) == le32(d.subrange(at, at + 4), 0),
{
}

} // verus!
