//! What a program prints, piece by piece.
use vstd::prelude::*;

verus! {

/// A piece of output: a fixed text, bytes, or a number in decimal.
pub enum Piece<T, B> {
    Say(T),
    Bytes(B),
    Number(u64),
}

pub open spec fn piece_of(p: Piece<&'static str, Vec<u8>>) -> Piece<Seq<char>, Seq<u8>> {
    match p {
        Piece::Say(t) => Piece::Say(t@),
        Piece::Bytes(b) => Piece::Bytes(b@),
        Piece::Number(n) => Piece::Number(n),
    }
}

/// The output that `v` stands for.
pub open spec fn out_of(v: Seq<Piece<&'static str, Vec<u8>>>) -> Seq<Piece<Seq<char>, Seq<u8>>> {
    Seq::new(v.len(), |i: int| piece_of(v[i]))
}

pub fn nothing() -> (r: Vec<Piece<&'static str, Vec<u8>>>)
    ensures
        out_of(r@) == Seq::<Piece<Seq<char>, Seq<u8>>>::empty(),
{
    let r: Vec<Piece<&'static str, Vec<u8>>> = Vec::new();
    assert(out_of(r@) =~= Seq::<Piece<Seq<char>, Seq<u8>>>::empty());
    r
}

fn add(out: &mut Vec<Piece<&'static str, Vec<u8>>>, p: Piece<&'static str, Vec<u8>>)
    ensures
        out_of(final(out)@) == out_of(old(out)@).push(piece_of(p)),
{
    out.push(p);
    assert(out_of(out@) =~= out_of(old(out)@).push(piece_of(p)));
}

pub fn say(out: &mut Vec<Piece<&'static str, Vec<u8>>>, t: &'static str)
    ensures
        out_of(final(out)@) == out_of(old(out)@).push(Piece::Say(t@)),
{
    self::add(out, Piece::Say(t));
}

pub fn say_bytes(out: &mut Vec<Piece<&'static str, Vec<u8>>>, b: Vec<u8>)
    ensures
        out_of(final(out)@) == out_of(old(out)@).push(Piece::Bytes(b@)),
{
    self::add(out, Piece::Bytes(b));
}

pub fn say_number(out: &mut Vec<Piece<&'static str, Vec<u8>>>, n: u64)
    ensures
        out_of(final(out)@) == out_of(old(out)@).push(Piece::Number(n)),
{
    self::add(out, Piece::Number(n));
}

/// What the buffer `b` holds at `i`; it is zero where nothing was written.
pub open spec fn byte_at(b: Seq<u8>, i: int) -> u8 {
    if 0 <= i < b.len() {
        b[i]
    } else {
        0
    }
}

pub fn get(b: &Vec<u8>, i: u64) -> (r: u8)
    ensures
        r == byte_at(b@, i as int),
{
    if i < b.len() as u64 {
        b[i as usize]
    } else {
        0
    }
}

/// The zero-terminated string in `b` at `i`.
pub open spec fn string_in(b: Seq<u8>, i: int) -> Seq<u8>
    decreases b.len() - i,
{
    if !(0 <= i < b.len()) || b[i] == 0 {
        Seq::empty()
    } else {
        seq![b[i]] + string_in(b, i + 1)
    }
}

pub fn get_string(b: &Vec<u8>, i: u64) -> (r: Vec<u8>)
    ensures
        r@ == string_in(b@, i as int),
{
    let mut r: Vec<u8> = Vec::new();
    let mut j: u64 = i;
    assert(r@ + string_in(b@, i as int) =~= string_in(b@, i as int));
    while j < b.len() as u64 && b[j as usize] != 0
        invariant
            i <= j,
            r@ + string_in(b@, j as int) == string_in(b@, i as int),
        decreases b@.len() - j,
    {
        let ghost before = r@;
        r.push(b[j as usize]);
        proof {
            let c = b@[j as int];
            let rest = string_in(b@, j + 1);
            assert(before + (seq![c] + rest) =~= before.push(c) + rest);
        }
        j += 1;
    }
    assert(r@ + Seq::<u8>::empty() =~= r@);
    r
}

/// The little-endian number of 32 bits in `b` at `i`.
pub open spec fn word_in(b: Seq<u8>, i: int) -> u32 {
    (byte_at(b, i) + 0x100 * byte_at(b, i + 1) + 0x1_0000 * byte_at(b, i + 2) + 0x100_0000
        * byte_at(b, i + 3)) as u32
}

pub fn get_word(b: &Vec<u8>, i: u64) -> (r: u32)
    requires
        i + 3 <= u64::MAX,
    ensures
        r == word_in(b@, i as int),
{
    get(b, i) as u32 + 0x100 * get(b, i + 1) as u32 + 0x1_0000 * get(b, i + 2) as u32 + 0x100_0000
        * get(b, i + 3) as u32
}

} // verus!
