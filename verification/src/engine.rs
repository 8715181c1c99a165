//! The relocation engine: for each walker candidate it decides age,
//! assigns the owner's next sequence number through the ledger, and
//! computes the destination path, the audit line and the provenance pair.
//! The surrounding binary performs the physical move and the printing.

use vstd::prelude::*;

use vstd::string::StringExecFns;

use crate::age::is_old;
use crate::age::selected;
use crate::age::AgeRule;
use crate::clock::format_time;
use crate::codec::escape_bytes;
use crate::codec::escape_path;
use crate::codec::escape_spec;
use crate::errors::CleanupError;
use crate::jsonout::json_object_spec;
use crate::jsonout::json_object_text;
use crate::text::lists_map;
use crate::text::pairs_view;
use crate::ledger::Ledger;
use crate::num::dec_spec;
use crate::num::from_le4_spec;
use crate::num::le4_spec;
use crate::num::lemma_dec_ascii;
use crate::num::lemma_dec_injective;
use crate::num::u32_from_le;
use crate::num::u32_to_dec;
use crate::seqno::bump_spec;
use crate::seqno::lemma_resumption_no_collision;
use crate::seqno::lemma_sequence_unique;
use crate::seqno::nth_assigned;
use crate::text::ascii_chars;
use crate::text::ascii_string;
use crate::text::extend_bytes;
use crate::text::pad_left;
use crate::text::pad_left_spec;

verus! {

/// One qualifying regular file, as the walker reports it: its absolute
/// path in raw bytes, its owner, and its three timestamps.
pub struct FileCandidate {
    pub path: Vec<u8>,
    pub uid: u32,
    pub atime: i64,
    pub mtime: i64,
    pub ctime: i64,
}

/// The run's configuration, fixed before the walk: the age rule, the
/// destination root (absolute, canonical, raw bytes), and whether this is
/// a dry run. The engine computes the same staging either way; only the
/// physical actions around it are skipped in a dry run.
pub struct RunConfig {
    pub rule: AgeRule,
    pub dest: Vec<u8>,
    pub dry_run: bool,
}

/// What the engine stages for one selected file: the assigned number, the
/// destination path, the audit line, and the provenance pair to record.
pub struct Staged {
    pub seq: u32,
    pub dest_path: Vec<u8>,
    pub audit: String,
    pub prov_key: Vec<u8>,
    pub prov_val: Vec<u8>,
}

/// The destination of a file: `dest/<uid>/<n>`.
pub open spec fn dest_path_spec(dest: Seq<u8>, uid: u32, n: u32) -> Seq<u8> {
    dest + seq![0x2fu8] + dec_spec(uid as nat) + seq![0x2fu8] + dec_spec(n as nat)
}

/// One audit line: formatted atime, ctime and mtime, the owner id padded
/// to six columns, and the encoded original path, comma-separated.
pub open spec fn audit_line_spec(
    a: Seq<char>,
    c: Seq<char>,
    m: Seq<char>,
    uid: u32,
    epath: Seq<char>,
) -> Seq<char> {
    a + ", "@ + c + ", "@ + m + ", "@ + ascii_chars(pad_left_spec(dec_spec(uid as nat), 6))
        + ", "@ + epath
}

/// Builds the destination path `dest/<uid>/<n>`.
pub fn dest_path(dest: &Vec<u8>, uid: u32, n: u32) -> (r: Vec<u8>)
    ensures
        r@ == dest_path_spec(dest@, uid, n),
{
    let mut r: Vec<u8> = Vec::new();
    extend_bytes(&mut r, dest);
    r.push(0x2f);
    let uid_dec = u32_to_dec(uid);
    extend_bytes(&mut r, &uid_dec);
    r.push(0x2f);
    let n_dec = u32_to_dec(n);
    extend_bytes(&mut r, &n_dec);
    proof {
        assert(r@ =~= dest_path_spec(dest@, uid, n));
    }
    r
}

/// Builds one audit line from the three formatted timestamps, the owner
/// id and the encoded original path.
pub fn audit_line(a: String, c: String, m: String, uid: u32, epath: &String) -> (r: String)
    ensures
        r@ == audit_line_spec(a@, c@, m@, uid, epath@),
{
    let ghost a0 = a@;
    let mut line = a;
    line.append(", ");
    line.append(c.as_str());
    line.append(", ");
    line.append(m.as_str());
    line.append(", ");
    let uid_dec = u32_to_dec(uid);
    let uid_pad = pad_left(&uid_dec, 6);
    proof {
        lemma_dec_ascii(uid as nat);
        let padded = pad_left_spec(dec_spec(uid as nat), 6);
        assert forall|j: int| 0 <= j < uid_pad@.len() implies uid_pad@[j] < 0x80 by {
            let d = dec_spec(uid as nat);
            if d.len() >= 6 {
                assert(padded == d);
            } else {
                assert(padded =~= Seq::new((6 - d.len()) as nat, |i: int| 0x20u8) + d);
                if j >= 6 - d.len() {
                    assert(padded[j] == d[j - (6 - d.len())]);
                } else {
                    assert(padded[j] == 0x20);
                }
            }
        }
    }
    let uid_txt = ascii_string(uid_pad);
    line.append(uid_txt.as_str());
    line.append(", ");
    line.append(epath.as_str());
    proof {
        assert(line@ =~= audit_line_spec(a0, c@, m@, uid, epath@));
    }
    line
}

/// What a staged outcome owes, given the owner's counter cell before the
/// assignment: the number is the cell's step, the destination is
/// `dest/<uid>/<n>`, the provenance pair carries the encoded destination
/// and the encoded original, and the audit line ends with the owner and
/// the encoded original path.
pub open spec fn staged_ok(
    cfg: RunConfig,
    cand: FileCandidate,
    st: Staged,
    prior: Option<Seq<u8>>,
) -> bool {
    &&& st.seq == bump_spec(prior)
    &&& st.dest_path@ == dest_path_spec(cfg.dest@, cand.uid, st.seq)
    &&& st.prov_key@ == escape_spec(st.dest_path@)
    &&& st.prov_val@ == escape_spec(cand.path@)
    &&& exists|a: Seq<char>, c: Seq<char>, m: Seq<char>|
        st.audit@ == #[trigger] audit_line_spec(
            a,
            c,
            m,
            cand.uid,
            ascii_chars(escape_spec(cand.path@)),
        )
}

/// Handles one walker candidate. A file that is not old enough is passed
/// over and the ledger is untouched. A selected file consumes its owner's
/// next sequence number and is staged; the caller performs the move and
/// then records the provenance pair. An error after selection abandons
/// the file, as the audit stream reports.
pub fn process_candidate(ledger: &mut Ledger, cfg: &RunConfig, cand: &FileCandidate) -> (r:
    Result<Option<Staged>, CleanupError>)
    ensures
        !selected(cfg.rule, cand.atime, cand.mtime, cand.ctime) ==> r is Ok && r->Ok_0 is None
            && *final(ledger) == *old(ledger),
        r is Ok && r->Ok_0 is None ==> !selected(cfg.rule, cand.atime, cand.mtime, cand.ctime),
        r is Ok && r->Ok_0 is Some ==> {
            &&& selected(cfg.rule, cand.atime, cand.mtime, cand.ctime)
            &&& staged_ok(*cfg, *cand, r->Ok_0->0, old(ledger).counter_cell(cand.uid))
            &&& final(ledger).counters_view() == old(ledger).counters_view().insert(
                le4_spec(cand.uid),
                le4_spec(r->Ok_0->0.seq),
            )
        },
        r is Err ==> selected(cfg.rule, cand.atime, cand.mtime, cand.ctime),
        final(ledger).prov_trees() == old(ledger).prov_trees(),
        old(ledger).wf() ==> final(ledger).wf(),
{
    if !is_old(&cfg.rule, cand.atime, cand.mtime, cand.ctime) {
        return Ok(None);
    }
    let n = match ledger.next_seq(cand.uid) {
        Ok(n) => n,
        Err(e) => {
            return Err(e);
        },
    };
    let atime_txt = match format_time(cand.atime) {
        Ok(t) => t,
        Err(e) => {
            return Err(e);
        },
    };
    let ctime_txt = match format_time(cand.ctime) {
        Ok(t) => t,
        Err(e) => {
            return Err(e);
        },
    };
    let mtime_txt = match format_time(cand.mtime) {
        Ok(t) => t,
        Err(e) => {
            return Err(e);
        },
    };
    let dpath = dest_path(&cfg.dest, cand.uid, n);
    let prov_key = escape_bytes(dpath.as_slice());
    let prov_val = escape_bytes(cand.path.as_slice());
    let epath_txt = escape_path(cand.path.as_slice());
    let ghost ga = atime_txt@;
    let ghost gc = ctime_txt@;
    let ghost gm = mtime_txt@;
    let audit = audit_line(atime_txt, ctime_txt, mtime_txt, cand.uid, &epath_txt);
    let st = Staged { seq: n, dest_path: dpath, audit, prov_key, prov_val };
    proof {
        assert(st.audit@ == audit_line_spec(
            ga,
            gc,
            gm,
            cand.uid,
            ascii_chars(escape_spec(cand.path@)),
        ));
    }
    Ok(Some(st))
}

/// Exports one keyspace of the ledger: a 4-byte name is an owner id, and
/// its provenance pairs are rendered as one JSON object to be written to
/// that owner's bucket; exactly the other names are passed over. For an
/// owner this run recorded for, the object lists exactly the provenance
/// map the run built.
pub fn export_owner(ledger: &mut Ledger, name: &Vec<u8>) -> (r: Result<
    Option<(u32, String)>,
    CleanupError,
>)
    ensures
        name@.len() != 4 ==> r is Ok && r->Ok_0 is None,
        r is Ok && r->Ok_0 is None ==> name@.len() != 4,
        r is Ok && r->Ok_0 is Some ==> {
            let pair = r->Ok_0->0;
            &&& name@.len() == 4
            &&& pair.0 == from_le4_spec(name@)
            &&& exists|ps: Seq<(Seq<u8>, Seq<u8>)>|
                pair.1@ == ascii_chars(#[trigger] json_object_spec(ps))
        },
        r is Ok && r->Ok_0 is Some && old(ledger).prov_view(from_le4_spec(name@)) is Some ==> {
            let pair = r->Ok_0->0;
            exists|ps: Seq<(Seq<u8>, Seq<u8>)>|
                {
                    &&& pair.1@ == ascii_chars(#[trigger] json_object_spec(ps))
                    &&& lists_map(ps, old(ledger).prov_view(from_le4_spec(name@))->0)
                }
        },
        final(ledger).counters_view() == old(ledger).counters_view(),
        final(ledger).prov_trees() == old(ledger).prov_trees(),
        old(ledger).wf() ==> final(ledger).wf(),
{
    if name.len() != 4 {
        return Ok(None);
    }
    let uid = u32_from_le(name.as_slice());
    let pairs = match ledger.owner_pairs(name) {
        Ok(p) => p,
        Err(e) => {
            return Err(e);
        },
    };
    let txt = json_object_text(&pairs);
    proof {
        assert(txt@ == ascii_chars(json_object_spec(pairs_view(pairs@))));
    }
    Ok(Some((uid, txt)))
}

/// Two sequences appended to one prefix are equal only if they are equal.
proof fn lemma_append_cancel(p: Seq<u8>, a: Seq<u8>, b: Seq<u8>)
    requires
        p + a == p + b,
    ensures
        a == b,
{
    assert((p + a).len() == p.len() + a.len());
    assert((p + b).len() == p.len() + b.len());
    assert(a.len() == b.len());
    assert forall|i: int| 0 <= i < a.len() implies a[i] == b[i] by {
        assert((p + a)[p.len() + i] == a[i]);
        assert((p + b)[p.len() + i] == b[i]);
    }
    assert(a =~= b);
}

/// Distinct sequence numbers give one owner distinct destination paths.
pub proof fn lemma_dest_path_injective(dest: Seq<u8>, uid: u32, n1: u32, n2: u32)
    requires
        n1 != n2,
    ensures
        dest_path_spec(dest, uid, n1) != dest_path_spec(dest, uid, n2),
{
    let p = dest + seq![0x2fu8] + dec_spec(uid as nat) + seq![0x2fu8];
    if dest_path_spec(dest, uid, n1) == dest_path_spec(dest, uid, n2) {
        lemma_append_cancel(p, dec_spec(n1 as nat), dec_spec(n2 as nat));
        lemma_dec_injective(n1 as nat, n2 as nat);
    }
}

/// Sequence uniqueness, at the path level: in a run against a fresh
/// destination, two distinct files of one owner are assigned distinct
/// destination paths.
pub proof fn lemma_run_paths_distinct(dest: Seq<u8>, uid: u32, j: nat, k: nat)
    requires
        j < k <= 0xffff_ffff,
    ensures
        dest_path_spec(dest, uid, nth_assigned(Option::None, j)) != dest_path_spec(
            dest,
            uid,
            nth_assigned(Option::None, k),
        ),
{
    lemma_sequence_unique(j, k);
    lemma_dest_path_injective(
        dest,
        uid,
        nth_assigned(Option::None, j),
        nth_assigned(Option::None, k),
    );
}

/// Idempotent resumption, at the path level: a run resumed after `m`
/// numbers were handed out never assigns a destination path that an
/// earlier run against the same destination already assigned.
pub proof fn lemma_resumed_paths_distinct(dest: Seq<u8>, uid: u32, m: u32, j: nat, k: nat)
    requires
        j <= m,
        m + 1 + k <= 0xffff_ffff,
    ensures
        dest_path_spec(dest, uid, nth_assigned(Option::Some(le4_spec(m)), k)) != dest_path_spec(
            dest,
            uid,
            nth_assigned(Option::None, j),
        ),
{
    lemma_resumption_no_collision(m, j, k);
    lemma_dest_path_injective(
        dest,
        uid,
        nth_assigned(Option::Some(le4_spec(m)), k),
        nth_assigned(Option::None, j),
    );
}

} // verus!
