//! Rendering of one owner's provenance map as a JSON object.
//!
//! Keys and values are the codec's shell-safe encodings, so in practice
//! printable ASCII; a byte outside that range (foreign data in the store)
//! is written as a `\u00..` escape rather than failing the export.

use vstd::prelude::*;

use crate::text::ascii_chars;
use crate::text::ascii_string;
use crate::text::pairs_view;

verus! {

/// The ASCII code of a hexadecimal digit, lower case.
pub open spec fn hex_digit(n: u8) -> u8
    recommends
        n < 16,
{
    if n < 10 {
        (48 + n) as u8
    } else {
        (87 + n) as u8
    }
}

/// How one byte stands inside a JSON string literal.
pub open spec fn json_escape_byte(b: u8) -> Seq<u8> {
    if b == 0x22 {
        seq![0x5cu8, 0x22u8]
    } else if b == 0x5c {
        seq![0x5cu8, 0x5cu8]
    } else if b < 0x20 || b >= 0x7f {
        seq![0x5cu8, 0x75u8, 0x30u8, 0x30u8, hex_digit(b / 16), hex_digit(b % 16)]
    } else {
        seq![b]
    }
}

/// The body of a JSON string literal from position `i` on.
pub open spec fn json_body(s: Seq<u8>, i: int) -> Seq<u8>
    decreases s.len() - i,
{
    if i < 0 || i >= s.len() {
        Seq::<u8>::empty()
    } else {
        json_escape_byte(s[i]) + json_body(s, i + 1)
    }
}

/// A JSON string literal for a byte string.
pub open spec fn json_string(s: Seq<u8>) -> Seq<u8> {
    seq![0x22u8] + json_body(s, 0) + seq![0x22u8]
}

/// The members of a JSON object from entry `i` on, comma-separated.
pub open spec fn json_members(ps: Seq<(Seq<u8>, Seq<u8>)>, i: int) -> Seq<u8>
    decreases ps.len() - i,
{
    if i < 0 || i >= ps.len() {
        Seq::<u8>::empty()
    } else {
        (if i > 0 {
            seq![0x2cu8]
        } else {
            Seq::<u8>::empty()
        }) + json_string(ps[i].0) + seq![0x3au8] + json_string(ps[i].1) + json_members(ps, i + 1)
    }
}

/// A whole JSON object mapping each pair's key to its value.
pub open spec fn json_object_spec(ps: Seq<(Seq<u8>, Seq<u8>)>) -> Seq<u8> {
    seq![0x7bu8] + json_members(ps, 0) + seq![0x7du8]
}

/// Every byte of a one-byte escape is ASCII.
proof fn lemma_escape_byte_ascii(b: u8)
    ensures
        forall|j: int|
            0 <= j < json_escape_byte(b).len() ==> #[trigger] json_escape_byte(b)[j] < 0x80,
{
}

/// Every byte of a string-literal body is ASCII.
proof fn lemma_json_body_ascii(s: Seq<u8>, i: int)
    ensures
        forall|j: int| 0 <= j < json_body(s, i).len() ==> #[trigger] json_body(s, i)[j] < 0x80,
    decreases s.len() - i,
{
    if i < 0 || i >= s.len() {
    } else {
        lemma_escape_byte_ascii(s[i]);
        lemma_json_body_ascii(s, i + 1);
        let e = json_escape_byte(s[i]);
        let rest = json_body(s, i + 1);
        assert forall|j: int| 0 <= j < json_body(s, i).len() implies #[trigger] json_body(
            s,
            i,
        )[j] < 0x80 by {
            assert(json_body(s, i) =~= e + rest);
            if j < e.len() {
                assert(json_body(s, i)[j] == e[j]);
            } else {
                assert(json_body(s, i)[j] == rest[j - e.len()]);
            }
        }
    }
}

/// Every byte of a string literal is ASCII.
proof fn lemma_json_string_ascii(s: Seq<u8>)
    ensures
        forall|j: int| 0 <= j < json_string(s).len() ==> #[trigger] json_string(s)[j] < 0x80,
{
    lemma_json_body_ascii(s, 0);
    let body = json_body(s, 0);
    assert forall|j: int| 0 <= j < json_string(s).len() implies #[trigger] json_string(s)[j]
        < 0x80 by {
        assert(json_string(s) =~= seq![0x22u8] + body + seq![0x22u8]);
        if 1 <= j < 1 + body.len() {
            assert(json_string(s)[j] == body[j - 1]);
        }
    }
}

/// Every byte of an object's member list is ASCII.
proof fn lemma_json_members_ascii(ps: Seq<(Seq<u8>, Seq<u8>)>, i: int)
    ensures
        forall|j: int|
            0 <= j < json_members(ps, i).len() ==> #[trigger] json_members(ps, i)[j] < 0x80,
    decreases ps.len() - i,
{
    if i < 0 || i >= ps.len() {
    } else {
        lemma_json_string_ascii(ps[i].0);
        lemma_json_string_ascii(ps[i].1);
        lemma_json_members_ascii(ps, i + 1);
        let sep: Seq<u8> = if i > 0 {
            seq![0x2cu8]
        } else {
            Seq::<u8>::empty()
        };
        let k = json_string(ps[i].0);
        let v = json_string(ps[i].1);
        let rest = json_members(ps, i + 1);
        assert forall|j: int| 0 <= j < json_members(ps, i).len() implies #[trigger] json_members(
            ps,
            i,
        )[j] < 0x80 by {
            assert(json_members(ps, i) =~= sep + k + seq![0x3au8] + v + rest);
            let jk = j - sep.len();
            let jv = j - sep.len() - k.len() - 1;
            let jr = j - sep.len() - k.len() - 1 - v.len();
            if j < sep.len() {
                assert(json_members(ps, i)[j] == sep[j]);
            } else if jk < k.len() {
                assert(json_members(ps, i)[j] == k[jk]);
            } else if jk == k.len() {
                assert(json_members(ps, i)[j] == 0x3a);
            } else if jv < v.len() {
                assert(json_members(ps, i)[j] == v[jv]);
            } else {
                assert(json_members(ps, i)[j] == rest[jr]);
            }
        }
    }
}

/// Every byte of the rendered object is ASCII, so the rendering reads as
/// a string of as many characters.
pub proof fn lemma_json_object_ascii(ps: Seq<(Seq<u8>, Seq<u8>)>)
    ensures
        forall|j: int|
            0 <= j < json_object_spec(ps).len() ==> #[trigger] json_object_spec(ps)[j] < 0x80,
{
    lemma_json_members_ascii(ps, 0);
    let m = json_members(ps, 0);
    assert forall|j: int| 0 <= j < json_object_spec(ps).len() implies #[trigger] json_object_spec(
        ps,
    )[j] < 0x80 by {
        assert(json_object_spec(ps) =~= seq![0x7bu8] + m + seq![0x7du8]);
        if 1 <= j < 1 + m.len() {
            assert(json_object_spec(ps)[j] == m[j - 1]);
        }
    }
}

/// Appends the JSON string literal for `s` to `out`.
fn push_json_string(out: &mut Vec<u8>, s: &Vec<u8>)
    ensures
        final(out)@ == old(out)@ + json_string(s@),
{
    let ghost base = out@;
    out.push(0x22);
    let mut i: usize = 0;
    while i < s.len()
        invariant
            i <= s@.len(),
            base + seq![0x22u8] + json_body(s@, 0) =~= out@ + json_body(s@, i as int),
        decreases s@.len() - i,
    {
        let b = s[i];
        let ghost out0 = out@;
        if b == 0x22 {
            out.push(0x5c);
            out.push(0x22);
        } else if b == 0x5c {
            out.push(0x5c);
            out.push(0x5c);
        } else if b < 0x20 || b >= 0x7f {
            out.push(0x5c);
            out.push(0x75);
            out.push(0x30);
            out.push(0x30);
            let hi = b / 16;
            let lo = b % 16;
            out.push(if hi < 10 {
                48 + hi
            } else {
                87 + hi
            });
            out.push(if lo < 10 {
                48 + lo
            } else {
                87 + lo
            });
        } else {
            out.push(b);
        }
        proof {
            assert(out@ =~= out0 + json_escape_byte(s@[i as int]));
            assert(json_body(s@, i as int) =~= json_escape_byte(s@[i as int]) + json_body(
                s@,
                i as int + 1,
            ));
            assert(out0 + (json_escape_byte(s@[i as int]) + json_body(s@, i as int + 1)) =~= (
            out0 + json_escape_byte(s@[i as int])) + json_body(s@, i as int + 1));
        }
        i = i + 1;
    }
    proof {
        assert(json_body(s@, s@.len() as int) =~= Seq::<u8>::empty());
        assert(out@ + Seq::<u8>::empty() =~= out@);
    }
    out.push(0x22);
    proof {
        assert(out@ =~= base + json_string(s@));
    }
}

/// Renders the provenance pairs as one JSON object, in the order given.
pub fn json_object_text(ps: &Vec<(Vec<u8>, Vec<u8>)>) -> (r: String)
    ensures
        r@ == ascii_chars(json_object_spec(pairs_view(ps@))),
{
    let ghost pv = pairs_view(ps@);
    let mut out: Vec<u8> = Vec::new();
    out.push(0x7b);
    let mut i: usize = 0;
    proof {
        assert(out@ =~= seq![0x7bu8]);
    }
    while i < ps.len()
        invariant
            i <= ps@.len(),
            pv == pairs_view(ps@),
            pv.len() == ps@.len(),
            seq![0x7bu8] + json_members(pv, 0) =~= out@ + json_members(pv, i as int),
        decreases ps@.len() - i,
    {
        let ghost out0 = out@;
        if i > 0 {
            out.push(0x2c);
        }
        let ghost sep: Seq<u8> = if i > 0 {
            seq![0x2cu8]
        } else {
            Seq::<u8>::empty()
        };
        proof {
            assert(out@ =~= out0 + sep);
        }
        push_json_string(&mut out, &ps[i].0);
        out.push(0x3a);
        push_json_string(&mut out, &ps[i].1);
        proof {
            assert(pv[i as int].0 == ps@[i as int].0@);
            assert(pv[i as int].1 == ps@[i as int].1@);
            assert(out@ =~= out0 + (sep + json_string(pv[i as int].0) + seq![0x3au8]
                + json_string(pv[i as int].1)));
            assert(json_members(pv, i as int) =~= (sep + json_string(pv[i as int].0) + seq![
                0x3au8,
            ] + json_string(pv[i as int].1)) + json_members(pv, i as int + 1));
            assert(out0 + ((sep + json_string(pv[i as int].0) + seq![0x3au8] + json_string(
                pv[i as int].1,
            )) + json_members(pv, i as int + 1)) =~= out@ + json_members(pv, i as int + 1));
        }
        i = i + 1;
    }
    proof {
        assert(json_members(pv, pv.len() as int) =~= Seq::<u8>::empty());
        assert(out@ + Seq::<u8>::empty() =~= out@);
    }
    out.push(0x7d);
    proof {
        assert(out@ =~= json_object_spec(pv));
        lemma_json_object_ascii(pv);
    }
    ascii_string(out)
}

} // verus!
