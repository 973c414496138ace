//! Decimal notation.
use vstd::prelude::*;

verus! {

/// The digit 0.
pub const ZERO: u8 = 48;

/// The decimal digits of `n`, without leading zeros.
pub open spec fn digits(n: nat) -> Seq<u8>
    decreases n,
{
    if n < 10 {
        seq![(ZERO + n) as u8]
    } else {
        digits(n / 10).push((ZERO + n % 10) as u8)
    }
}

/// The number that a sequence of digits stands for.
pub open spec fn value(d: Seq<u8>) -> int
    decreases d.len(),
{
    if d.len() == 0 {
        0
    } else {
        10 * value(d.drop_last()) + (d.last() - ZERO)
    }
}

/// Decimal notation reads back as the number, uses the digits 0 to 9 only, and
/// starts with 0 only where the number is 0.
pub proof fn law_digits_read_back(n: nat)
    ensures
        value(digits(n)) == n,
        digits(n).len() > 0,
        forall|i: int| 0 <= i < digits(n).len() ==> ZERO <= #[trigger] digits(n)[i] <= ZERO + 9,
        n > 0 ==> digits(n)[0] != ZERO,
    decreases n,
{
    let d = digits(n);
    if n < 10 {
        assert(d.drop_last() =~= Seq::<u8>::empty());
        assert(value(d.drop_last()) == 0);
    } else {
        law_digits_read_back(n / 10);
        assert(d.drop_last() =~= digits(n / 10));
        assert(d[0] == digits(n / 10)[0]);
    }
}

/// The decimal digits of `v`.
pub fn decimal(v: u64) -> (r: Vec<u8>)
    ensures
        r@ == digits(v as nat),
    decreases v,
{
    if v < 10 {
        let mut r: Vec<u8> = Vec::new();
        r.push(ZERO + v as u8);
        assert(r@ =~= digits(v as nat));
        return r;
    }
    let mut r: Vec<u8> = decimal(v / 10);
    r.push(ZERO + (v % 10) as u8);
    r
}

} // verus!
