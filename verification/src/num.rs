//! Numeric renderings used by the ledger and the destination paths:
//! 4-byte little-endian storage keys/values and decimal path components.

use vstd::prelude::*;

verus! {

/// The 4-byte little-endian encoding of `n`.
pub open spec fn le4_spec(n: u32) -> Seq<u8> {
    seq![
        (n % 0x100) as u8,
        ((n / 0x100) % 0x100) as u8,
        ((n / 0x10000) % 0x100) as u8,
        ((n / 0x1000000) % 0x100) as u8,
    ]
}

/// The value stored little-endian in a 4-byte sequence.
pub open spec fn from_le4_spec(s: Seq<u8>) -> u32
    recommends
        s.len() == 4,
{
    (s[0] + s[1] * 0x100 + s[2] * 0x10000 + s[3] * 0x1000000) as u32
}

/// Decoding inverts encoding: the 4 little-endian bytes of `n` read back as `n`.
pub proof fn lemma_le4_round_trip(n: u32)
    ensures
        from_le4_spec(le4_spec(n)) == n,
{
}

/// Encoding is injective: distinct values have distinct 4-byte encodings.
pub proof fn lemma_le4_injective(a: u32, b: u32)
    requires
        le4_spec(a) == le4_spec(b),
    ensures
        a == b,
{
    lemma_le4_round_trip(a);
    lemma_le4_round_trip(b);
}

/// Encodes `n` as 4 little-endian bytes.
pub fn u32_to_le(n: u32) -> (r: Vec<u8>)
    ensures
        r@ == le4_spec(n),
{
    let mut r: Vec<u8> = Vec::new();
    r.push((n % 0x100) as u8);
    r.push(((n / 0x100) % 0x100) as u8);
    r.push(((n / 0x10000) % 0x100) as u8);
    r.push(((n / 0x1000000) % 0x100) as u8);
    proof {
        assert(r@ =~= le4_spec(n));
    }
    r
}

/// Reads a 4-byte little-endian value.
pub fn u32_from_le(b: &[u8]) -> (r: u32)
    requires
        b@.len() == 4,
    ensures
        r == from_le4_spec(b@),
{
    let b0 = b[0] as u32;
    let b1 = b[1] as u32;
    let b2 = b[2] as u32;
    let b3 = b[3] as u32;
    b0 + b1 * 0x100 + b2 * 0x10000 + b3 * 0x1000000
}

/// The decimal digits of `n`, as ASCII bytes, most significant first,
/// without leading zeros (a lone `0` for zero).
pub open spec fn dec_spec(n: nat) -> Seq<u8>
    decreases n,
{
    if n < 10 {
        seq![(48 + n) as u8]
    } else {
        dec_spec(n / 10) + seq![(48 + n % 10) as u8]
    }
}

/// The numeric value of a sequence of ASCII digit bytes.
pub open spec fn dec_val(s: Seq<u8>) -> nat
    decreases s.len(),
{
    if s.len() == 0 {
        0
    } else {
        dec_val(s.drop_last()) * 10 + (s.last() - 48) as nat
    }
}

/// Reading the decimal rendering back gives the value rendered.
pub proof fn lemma_dec_round_trip(n: nat)
    ensures
        dec_val(dec_spec(n)) == n,
    decreases n,
{
    if n < 10 {
        let s = dec_spec(n);
        assert(s =~= seq![(48 + n) as u8]);
        assert(s.drop_last() =~= Seq::<u8>::empty());
        assert(dec_val(s.drop_last()) == 0);
        assert(s.last() == (48 + n) as u8);
        assert(dec_val(s) == (s.last() - 48) as nat);
    } else {
        lemma_dec_round_trip(n / 10);
        let s = dec_spec(n);
        assert(s =~= dec_spec(n / 10) + seq![(48 + n % 10) as u8]);
        assert(s.drop_last() =~= dec_spec(n / 10));
        assert(s.last() == (48 + n % 10) as u8);
        assert(dec_val(s) == dec_val(s.drop_last()) * 10 + (s.last() - 48) as nat);
        assert(dec_val(s) == (n / 10) * 10 + n % 10);
    }
}

/// Decimal rendering is injective: distinct numbers render as distinct digit
/// strings, so per-owner destination file names never coincide.
pub proof fn lemma_dec_injective(a: nat, b: nat)
    requires
        dec_spec(a) == dec_spec(b),
    ensures
        a == b,
{
    lemma_dec_round_trip(a);
    lemma_dec_round_trip(b);
}

/// Every byte of a decimal rendering is an ASCII digit.
pub proof fn lemma_dec_ascii(n: nat)
    ensures
        forall|j: int| 0 <= j < dec_spec(n).len() ==> 48 <= #[trigger] dec_spec(n)[j] < 58,
    decreases n,
{
    if n < 10 {
    } else {
        lemma_dec_ascii(n / 10);
        let s = dec_spec(n);
        assert forall|j: int| 0 <= j < s.len() implies 48 <= #[trigger] s[j] < 58 by {
            assert(s =~= dec_spec(n / 10) + seq![(48 + n % 10) as u8]);
            if j < dec_spec(n / 10).len() {
                assert(s[j] == dec_spec(n / 10)[j]);
            } else {
                assert(s[j] == (48 + n % 10) as u8);
            }
        }
    }
}

/// Renders `n` in decimal, as ASCII digit bytes.
pub fn u32_to_dec(n: u32) -> (r: Vec<u8>)
    ensures
        r@ == dec_spec(n as nat),
{
    let mut rev: Vec<u8> = Vec::new();
    let mut m: u32 = n;
    let d0: u8 = 48 + (m % 10) as u8;
    rev.push(d0);
    m = m / 10;
    proof {
        assert(rev@.reverse() =~= seq![d0]);
        if n >= 10 {
            assert(dec_spec(n as nat) =~= dec_spec((n / 10) as nat) + seq![d0]);
        }
    }
    while m > 0
        invariant
            dec_spec(n as nat) =~= (if m > 0 {
                dec_spec(m as nat)
            } else {
                Seq::<u8>::empty()
            }) + rev@.reverse(),
        decreases m,
    {
        let d: u8 = 48 + (m % 10) as u8;
        let ghost prev = rev@;
        rev.push(d);
        proof {
            assert(rev@.reverse() =~= seq![d] + prev.reverse());
            if m >= 10 {
                assert(dec_spec(m as nat) =~= dec_spec((m / 10) as nat) + seq![d]);
            } else {
                assert(dec_spec(m as nat) =~= seq![d]);
            }
        }
        m = m / 10;
    }
    let mut r: Vec<u8> = Vec::new();
    let mut i: usize = rev.len();
    while i > 0
        invariant
            i <= rev@.len(),
            r@ =~= rev@.subrange(i as int, rev@.len() as int).reverse(),
        decreases i,
    {
        i = i - 1;
        let d = rev[i];
        r.push(d);
        proof {
            let tail = rev@.subrange(i as int, rev@.len() as int);
            assert(tail.drop_first() =~= rev@.subrange(i as int + 1, rev@.len() as int));
            assert(tail.reverse() =~= tail.drop_first().reverse() + seq![tail[0]]);
        }
    }
    proof {
        assert(rev@.subrange(0, rev@.len() as int) =~= rev@);
        assert(Seq::<u8>::empty() + rev@.reverse() =~= rev@.reverse());
    }
    r
}

} // verus!
