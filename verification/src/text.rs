//! Conversion between ASCII byte sequences and `String`, and plain-text
//! helpers shared by the codec, the audit line and the export stage.

use vstd::prelude::*;

use vstd::string::StringSliceAdditionalSpecFns;

verus! {

/// The UTF-8 bytes of a string, as an owned vector.
pub fn str_bytes(s: &str) -> (r: Vec<u8>)
    ensures
        r@ == s.spec_bytes(),
{
    vstd::slice::slice_to_vec(s.as_bytes())
}

/// The byte views of a vector of byte-string pairs.
pub open spec fn pairs_view(ps: Seq<(Vec<u8>, Vec<u8>)>) -> Seq<(Seq<u8>, Seq<u8>)> {
    ps.map(|i: int, p: (Vec<u8>, Vec<u8>)| (p.0@, p.1@))
}

/// `ps` lists exactly the pairs of the map `m`: every listed pair is in
/// `m`, and every key of `m` is listed.
pub open spec fn lists_map(ps: Seq<(Seq<u8>, Seq<u8>)>, m: Map<Seq<u8>, Seq<u8>>) -> bool {
    &&& forall|i: int| 0 <= i < ps.len() ==> #[trigger] m.contains_pair(ps[i].0, ps[i].1)
    &&& forall|k: Seq<u8>| #[trigger]
        m.dom().contains(k) ==> exists|i: int| 0 <= i < ps.len() && ps[i].0 == k
}

/// The characters of an ASCII byte sequence, one per byte.
pub open spec fn ascii_chars(s: Seq<u8>) -> Seq<char> {
    Seq::new(s.len(), |i: int| s[i] as char)
}

/// Relies on String::from_utf8: ASCII bytes are valid UTF-8 and become a
/// string whose characters are exactly those bytes, one per byte.
#[verifier::external_body]
pub fn ascii_string(b: Vec<u8>) -> (r: String)
    requires
        forall|i: int| 0 <= i < b@.len() ==> b@[i] < 0x80,
    ensures
        r@ == ascii_chars(b@),
{
    match String::from_utf8(b) {
        Ok(s) => s,
        Err(_) => String::new(),
    }
}

/// Pads `s` on the left with spaces up to `width` bytes; a longer value is
/// returned unchanged.
pub open spec fn pad_left_spec(s: Seq<u8>, width: nat) -> Seq<u8> {
    if s.len() >= width {
        s
    } else {
        Seq::new((width - s.len()) as nat, |i: int| 0x20u8) + s
    }
}

/// Left-pads a byte string with spaces to the given width.
pub fn pad_left(s: &Vec<u8>, width: usize) -> (r: Vec<u8>)
    ensures
        r@ == pad_left_spec(s@, width as nat),
{
    let mut r: Vec<u8> = Vec::new();
    if s.len() < width {
        let pad = width - s.len();
        let mut i: usize = 0;
        while i < pad
            invariant
                i <= pad,
                pad == width - s@.len(),
                r@ =~= Seq::new(i as nat, |j: int| 0x20u8),
            decreases pad - i,
        {
            r.push(0x20);
            i = i + 1;
            proof {
                assert(r@ =~= Seq::new(i as nat, |j: int| 0x20u8));
            }
        }
    }
    let mut k: usize = 0;
    let ghost base = r@;
    while k < s.len()
        invariant
            k <= s@.len(),
            r@ =~= base + s@.subrange(0, k as int),
        decreases s@.len() - k,
    {
        let b = s[k];
        r.push(b);
        k = k + 1;
        proof {
            assert(r@ =~= base + s@.subrange(0, k as int));
        }
    }
    proof {
        assert(s@.subrange(0, s@.len() as int) =~= s@);
        if s@.len() >= width as nat {
            assert(base =~= Seq::<u8>::empty());
            assert(base + s@ =~= s@);
        }
    }
    r
}

/// Appends the bytes of `tail` to `out`.
pub fn extend_bytes(out: &mut Vec<u8>, tail: &Vec<u8>)
    ensures
        final(out)@ == old(out)@ + tail@,
{
    let mut k: usize = 0;
    let ghost base = out@;
    while k < tail.len()
        invariant
            k <= tail@.len(),
            out@ =~= base + tail@.subrange(0, k as int),
        decreases tail@.len() - k,
    {
        let b = tail[k];
        out.push(b);
        k = k + 1;
        proof {
            assert(out@ =~= base + tail@.subrange(0, k as int));
        }
    }
    proof {
        assert(tail@.subrange(0, tail@.len() as int) =~= tail@);
    }
}

} // verus!
