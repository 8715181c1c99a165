//! Path codec: renders an arbitrary byte path as a shell-safe quoted word.
//!
//! The whole value is wrapped in single quotes. A run of non-printable
//! bytes switches to an ANSI-C-quoted segment (`$'...'`), each byte written
//! as a backslash and three octal digits; printable runs stand in plain
//! single quotes; a literal single quote is closed, backslash-escaped and
//! reopened. The result is safe to print, to store as a key, and to hand
//! to a POSIX shell, and it loses no information: evaluating the word under
//! shell quoting rules gives back the original bytes.

use vstd::prelude::*;

use crate::text::ascii_chars;
use crate::text::ascii_string;

verus! {

/// A byte rendered as itself inside single quotes: printable and not the
/// quote itself.
pub open spec fn plain_byte(b: u8) -> bool {
    0x20 <= b && b < 0x7f && b != 0x27
}

/// A byte rendered as an octal escape: a control byte or one above ASCII.
pub open spec fn octal_byte(b: u8) -> bool {
    b < 0x20 || b >= 0x7f
}

/// The ANSI-C escape for one byte: a backslash and three octal digits.
pub open spec fn octal3(b: u8) -> Seq<u8> {
    seq![0x5c, (48 + b / 64) as u8, (48 + (b / 8) % 8) as u8, (48 + b % 8) as u8]
}

/// The encoding of `s` from position `i` on, including the final closing
/// quote; `enc` says whether the encoder stands inside an ANSI-C segment.
pub open spec fn encode_tail(s: Seq<u8>, i: int, enc: bool) -> Seq<u8>
    decreases s.len() - i,
{
    if i < 0 || i >= s.len() {
        seq![0x27u8]
    } else {
        let b = s[i];
        if octal_byte(b) {
            (if enc {
                Seq::<u8>::empty()
            } else {
                seq![0x27u8, 0x24u8, 0x27u8]
            }) + octal3(b) + encode_tail(s, i + 1, true)
        } else if b == 0x27 {
            (if enc {
                seq![0x27u8, 0x27u8]
            } else {
                Seq::<u8>::empty()
            }) + seq![0x27u8, 0x5cu8, 0x27u8, 0x27u8] + encode_tail(s, i + 1, false)
        } else {
            (if enc {
                seq![0x27u8, 0x27u8]
            } else {
                Seq::<u8>::empty()
            }) + seq![b] + encode_tail(s, i + 1, false)
        }
    }
}

/// The full shell-safe encoding of a byte path.
pub open spec fn escape_spec(s: Seq<u8>) -> Seq<u8> {
    seq![0x27u8] + encode_tail(s, 0, false)
}

/// Evaluates a quoted word under POSIX-shell quoting rules, restricted to
/// the constructs the codec emits: single-quoted runs, `$'...'` segments
/// with three-digit octal escapes, and a backslash-escaped quote between
/// runs. `enc` says whether evaluation stands inside an ANSI-C segment;
/// the word must end by closing its quote. `None` marks a malformed word.
pub open spec fn eval_tail(cs: Seq<u8>, enc: bool) -> Option<Seq<u8>>
    decreases cs.len(),
{
    if cs.len() == 0 {
        None
    } else if cs[0] == 0x27 {
        if cs.len() == 1 {
            Some(Seq::<u8>::empty())
        } else if !enc && cs.len() >= 3 && cs[1] == 0x24 && cs[2] == 0x27 {
            eval_tail(cs.skip(3), true)
        } else if !enc && cs.len() >= 4 && cs[1] == 0x5c && cs[2] == 0x27 && cs[3] == 0x27 {
            match eval_tail(cs.skip(4), false) {
                Some(t) => Some(seq![0x27u8] + t),
                None => None,
            }
        } else if enc && cs[1] == 0x27 {
            eval_tail(cs.skip(2), false)
        } else {
            None
        }
    } else if !enc && plain_byte(cs[0]) {
        match eval_tail(cs.skip(1), false) {
            Some(t) => Some(seq![cs[0]] + t),
            None => None,
        }
    } else if enc && cs[0] == 0x5c && cs.len() >= 4 && 48 <= cs[1] && cs[1] < 56 && 48 <= cs[2]
        && cs[2] < 56 && 48 <= cs[3] && cs[3] < 56 {
        match eval_tail(cs.skip(4), true) {
            Some(t) => Some(
                seq![(((cs[1] - 48) * 64 + (cs[2] - 48) * 8 + (cs[3] - 48)) as u8)] + t,
            ),
            None => None,
        }
    } else {
        None
    }
}

/// Evaluates a whole quoted word: it must open with a single quote.
pub open spec fn shell_eval(cs: Seq<u8>) -> Option<Seq<u8>> {
    if cs.len() >= 1 && cs[0] == 0x27 {
        eval_tail(cs.skip(1), false)
    } else {
        None
    }
}

/// A byte is the sum of its three octal digits' places.
proof fn lemma_octal_value(b: u8)
    ensures
        (b / 64) * 64 + ((b / 8) % 8) * 8 + b % 8 == b,
{
    assert((b / 64) * 64 + ((b / 8) % 8) * 8 + b % 8 == b) by (nonlinear_arith);
}

/// Evaluating the encoded tail gives back the remaining input bytes.
proof fn lemma_eval_encode(s: Seq<u8>, i: int, enc: bool)
    requires
        0 <= i <= s.len(),
    ensures
        eval_tail(encode_tail(s, i, enc), enc) == Some(s.skip(i)),
    decreases s.len() - i,
{
    if i >= s.len() {
        assert(encode_tail(s, i, enc) =~= seq![0x27u8]);
        assert(s.skip(i) =~= Seq::<u8>::empty());
    } else {
        lemma_eval_encode(s, i + 1, if octal_byte(s[i]) {
            true
        } else {
            false
        });
        let b = s[i];
        let tail = encode_tail(s, i + 1, if octal_byte(b) {
            true
        } else {
            false
        });
        assert(seq![b] + s.skip(i + 1) =~= s.skip(i));
        if octal_byte(b) {
            lemma_octal_value(b);
            let seg = octal3(b) + tail;
            assert(seg.len() >= 5);
            assert(seg[0] == 0x5c);
            assert(48 <= seg[1] && seg[1] < 56);
            assert(48 <= seg[2] && seg[2] < 56);
            assert(48 <= seg[3] && seg[3] < 56);
            assert(seg.skip(4) =~= tail);
            assert(((seg[1] - 48) * 64 + (seg[2] - 48) * 8 + (seg[3] - 48)) as u8 == b);
            assert(eval_tail(seg, true) == Some(s.skip(i)));
            if !enc {
                let cs = encode_tail(s, i, false);
                assert(cs =~= seq![0x27u8, 0x24u8, 0x27u8] + seg);
                assert(cs[0] == 0x27 && cs[1] == 0x24 && cs[2] == 0x27);
                assert(cs.len() >= 3);
                assert(cs.skip(3) =~= seg);
            } else {
                assert(encode_tail(s, i, true) =~= seg);
            }
        } else if b == 0x27 {
            let seg = seq![0x27u8, 0x5cu8, 0x27u8, 0x27u8] + tail;
            assert(seg[0] == 0x27 && seg[1] == 0x5c && seg[2] == 0x27 && seg[3] == 0x27);
            assert(seg.len() >= 5);
            assert(seg.skip(4) =~= tail);
            assert(eval_tail(seg, false) == Some(seq![0x27u8] + s.skip(i + 1)));
            if enc {
                let cs = encode_tail(s, i, true);
                assert(cs =~= seq![0x27u8, 0x27u8] + seg);
                assert(cs[0] == 0x27 && cs[1] == 0x27);
                assert(cs.len() >= 2);
                assert(cs.skip(2) =~= seg);
            } else {
                assert(encode_tail(s, i, false) =~= seg);
            }
        } else {
            let seg = seq![b] + tail;
            assert(plain_byte(b));
            assert(seg[0] == b);
            assert(seg.len() >= 2);
            assert(seg.skip(1) =~= tail);
            assert(eval_tail(seg, false) == Some(seq![b] + s.skip(i + 1)));
            if enc {
                let cs = encode_tail(s, i, true);
                assert(cs =~= seq![0x27u8, 0x27u8] + seg);
                assert(cs[0] == 0x27 && cs[1] == 0x27);
                assert(cs.len() >= 2);
                assert(cs.skip(2) =~= seg);
            } else {
                assert(encode_tail(s, i, false) =~= seg);
            }
        }
    }
}

/// Round-trip safety: evaluating the encoding of any byte path under the
/// shell quoting rules above reproduces exactly the original bytes.
pub proof fn lemma_escape_round_trip(s: Seq<u8>)
    ensures
        shell_eval(escape_spec(s)) == Some(s),
{
    let cs = escape_spec(s);
    assert(cs[0] == 0x27);
    assert(cs.len() >= 1);
    assert(cs.skip(1) =~= encode_tail(s, 0, false));
    lemma_eval_encode(s, 0, false);
    assert(s.skip(0) =~= s);
}

/// Encodes a byte path as a shell-safe quoted word; every output byte is
/// printable ASCII.
pub fn escape_bytes(input: &[u8]) -> (r: Vec<u8>)
    ensures
        r@ == escape_spec(input@),
        forall|j: int| 0 <= j < r@.len() ==> 0x20 <= #[trigger] r@[j] < 0x80,
{
    let ghost s = input@;
    let mut out: Vec<u8> = Vec::new();
    out.push(0x27);
    let mut enc: bool = false;
    let mut i: usize = 0;
    proof {
        assert(out@ + encode_tail(s, 0, false) =~= escape_spec(s));
    }
    while i < input.len()
        invariant
            i <= s.len(),
            s == input@,
            out@ + encode_tail(s, i as int, enc) =~= escape_spec(s),
            forall|j: int| 0 <= j < out@.len() ==> 0x20 <= #[trigger] out@[j] < 0x80,
        decreases s.len() - i,
    {
        let b = input[i];
        let ghost out0 = out@;
        let ghost tail = encode_tail(s, i + 1, if octal_byte(b) {
            true
        } else {
            false
        });
        if b < 0x20 || b >= 0x7f {
            if !enc {
                out.push(0x27);
                out.push(0x24);
                out.push(0x27);
            }
            out.push(0x5c);
            out.push(48 + b / 64);
            out.push(48 + (b / 8) % 8);
            out.push(48 + b % 8);
            proof {
                if enc {
                    assert(out@ =~= out0 + octal3(b));
                    assert(encode_tail(s, i as int, true) =~= octal3(b) + tail);
                    assert(out0 + (octal3(b) + tail) =~= (out0 + octal3(b)) + tail);
                } else {
                    assert(out@ =~= out0 + (seq![0x27u8, 0x24u8, 0x27u8] + octal3(b)));
                    assert(encode_tail(s, i as int, false) =~= (seq![0x27u8, 0x24u8, 0x27u8]
                        + octal3(b)) + tail);
                    assert(out0 + ((seq![0x27u8, 0x24u8, 0x27u8] + octal3(b)) + tail) =~= (out0
                        + (seq![0x27u8, 0x24u8, 0x27u8] + octal3(b))) + tail);
                }
            }
            enc = true;
        } else if b == 0x27 {
            if enc {
                out.push(0x27);
                out.push(0x27);
            }
            out.push(0x27);
            out.push(0x5c);
            out.push(0x27);
            out.push(0x27);
            proof {
                let quad = seq![0x27u8, 0x5cu8, 0x27u8, 0x27u8];
                if enc {
                    assert(out@ =~= out0 + (seq![0x27u8, 0x27u8] + quad));
                    assert(encode_tail(s, i as int, true) =~= (seq![0x27u8, 0x27u8] + quad)
                        + tail);
                    assert(out0 + ((seq![0x27u8, 0x27u8] + quad) + tail) =~= (out0 + (seq![
                        0x27u8,
                        0x27u8,
                    ] + quad)) + tail);
                } else {
                    assert(out@ =~= out0 + quad);
                    assert(encode_tail(s, i as int, false) =~= quad + tail);
                    assert(out0 + (quad + tail) =~= (out0 + quad) + tail);
                }
            }
            enc = false;
        } else {
            if enc {
                out.push(0x27);
                out.push(0x27);
            }
            out.push(b);
            proof {
                if enc {
                    assert(out@ =~= out0 + (seq![0x27u8, 0x27u8] + seq![b]));
                    assert(encode_tail(s, i as int, true) =~= (seq![0x27u8, 0x27u8] + seq![b])
                        + tail);
                    assert(out0 + ((seq![0x27u8, 0x27u8] + seq![b]) + tail) =~= (out0 + (seq![
                        0x27u8,
                        0x27u8,
                    ] + seq![b])) + tail);
                } else {
                    assert(out@ =~= out0 + seq![b]);
                    assert(encode_tail(s, i as int, false) =~= seq![b] + tail);
                    assert(out0 + (seq![b] + tail) =~= (out0 + seq![b]) + tail);
                }
            }
            enc = false;
        }
        i = i + 1;
    }
    out.push(0x27);
    proof {
        assert(encode_tail(s, s.len() as int, enc) =~= seq![0x27u8]);
        assert(out@ =~= escape_spec(s));
    }
    out
}

/// Encodes a byte path as shell-safe text, for display and audit lines.
pub fn escape_path(input: &[u8]) -> (r: String)
    ensures
        r@ == ascii_chars(escape_spec(input@)),
{
    let bytes = escape_bytes(input);
    ascii_string(bytes)
}

} // verus!
