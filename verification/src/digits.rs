//! Decimal rendering of unsigned numbers, for status codes, content
//! lengths and statistics counts.

use vstd::prelude::*;

verus! {

/// The ASCII decimal digits of `n`, most significant first.
pub open spec fn dec_rep(n: nat) -> Seq<u8>
    decreases n,
{
    if n < 10 {
        seq![(48 + n) as u8]
    } else {
        dec_rep(n / 10).push((48 + n % 10) as u8)
    }
}

/// Renders `n` in decimal ASCII.
pub fn u64_to_dec(n: u64) -> (r: Vec<u8>)
    ensures
        r@ == dec_rep(n as nat),
{
    let mut out: Vec<u8> = Vec::new();
    let mut m: u64 = n;
    while m >= 10
        invariant
            dec_rep(n as nat) =~= dec_rep(m as nat) + out@,
        decreases m,
    {
        let ghost m0 = m;
        let ghost out0 = out@;
        let d: u8 = 48 + (m % 10) as u8;
        out.insert(0, d);
        m = m / 10;
        proof {
            assert(dec_rep(m0 as nat) =~= dec_rep(m as nat).push(d));
            assert(out@ =~= seq![d] + out0);
            assert(dec_rep(n as nat) =~= dec_rep(m as nat) + out@);
        }
    }
    let ghost out0 = out@;
    out.insert(0, 48 + m as u8);
    proof {
        assert(dec_rep(m as nat) =~= seq![(48 + m as nat) as u8]);
        assert(out@ =~= seq![(48 + m as nat) as u8] + out0);
        assert(dec_rep(n as nat) =~= out@);
    }
    out
}

/// Renders a `usize` count in decimal ASCII.
pub fn usize_to_dec(n: usize) -> (r: Vec<u8>)
    ensures
        r@ == dec_rep(n as nat),
{
    u64_to_dec(n as u64)
}

/// Renders a status code in decimal ASCII.
pub fn u32_to_dec(n: u32) -> (r: Vec<u8>)
    ensures
        r@ == dec_rep(n as nat),
{
    u64_to_dec(n as u64)
}

} // verus!
