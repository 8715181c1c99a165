//! Per-owner sequence numbering: the pure step applied atomically to a
//! counter cell in the durable store, and the laws that make assigned
//! numbers unique and contiguous, within a run and across resumed runs.

use vstd::prelude::*;

use crate::num::from_le4_spec;
use crate::num::le4_spec;
use crate::num::lemma_le4_round_trip;
use crate::num::u32_from_le;
use crate::num::u32_to_le;

verus! {

/// The number assigned from a stored counter cell: an absent cell assigns
/// zero; a 4-byte cell assigns one past the value it holds, saturating at
/// the largest representable value; a malformed cell restarts at zero.
/// The cell is then rewritten to hold the assigned number, so the stored
/// value is always the last number handed out.
pub open spec fn bump_spec(cell: Option<Seq<u8>>) -> u32 {
    match cell {
        Option::None => 0,
        Option::Some(b) => if b.len() == 4 {
            let cur = from_le4_spec(b);
            if cur < 0xffff_ffff {
                (cur + 1) as u32
            } else {
                0xffff_ffff
            }
        } else {
            0
        },
    }
}

/// The bytes of an optional stored cell.
pub open spec fn cell_view(cell: Option<&[u8]>) -> Option<Seq<u8>> {
    match cell {
        Option::None => Option::None,
        Option::Some(b) => Option::Some(b@),
    }
}

/// Computes the replacement cell for one counter step; this is the function
/// the store applies atomically under `update_and_fetch`.
pub fn next_counter_cell(cell: Option<&[u8]>) -> (r: Vec<u8>)
    ensures
        r@ == le4_spec(bump_spec(cell_view(cell))),
{
    let n: u32 = match cell {
        Option::None => 0,
        Option::Some(b) => {
            if b.len() == 4 {
                let cur = u32_from_le(b);
                if cur < 0xffff_ffff {
                    cur + 1
                } else {
                    0xffff_ffff
                }
            } else {
                0
            }
        },
    };
    u32_to_le(n)
}

/// The number assigned to the `k`-th file of one owner (0-based), when the
/// owner's counter cell initially holds `start` and each assignment
/// rewrites the cell as `bump_spec` describes.
pub open spec fn nth_assigned(start: Option<Seq<u8>>, k: nat) -> u32
    decreases k,
{
    if k == 0 {
        bump_spec(start)
    } else {
        bump_spec(Option::Some(le4_spec(nth_assigned(start, (k - 1) as nat))))
    }
}

/// Against a fresh destination the `k`-th file of an owner is assigned
/// exactly `k`: the numbers form the contiguous range from zero, in
/// assignment order, as long as the counter does not saturate.
pub proof fn lemma_fresh_assignment(k: nat)
    requires
        k <= 0xffff_ffff,
    ensures
        nth_assigned(Option::None, k) == k,
    decreases k,
{
    if k > 0 {
        lemma_fresh_assignment((k - 1) as nat);
        lemma_le4_round_trip((k - 1) as u32);
    }
}

/// Sequence uniqueness: two distinct files of one owner in a fresh run
/// never receive the same number.
pub proof fn lemma_sequence_unique(j: nat, k: nat)
    requires
        j < k <= 0xffff_ffff,
    ensures
        nth_assigned(Option::None, j) != nth_assigned(Option::None, k),
{
    lemma_fresh_assignment(j);
    lemma_fresh_assignment(k);
}

/// A resumed run continues where the last one stopped: with the cell
/// holding `m` (the last number handed out), the `k`-th new assignment is
/// `m + 1 + k`.
pub proof fn lemma_resumed_assignment(m: u32, k: nat)
    requires
        m + 1 + k <= 0xffff_ffff,
    ensures
        nth_assigned(Option::Some(le4_spec(m)), k) == m + 1 + k,
    decreases k,
{
    lemma_le4_round_trip(m);
    if k > 0 {
        lemma_resumed_assignment(m, (k - 1) as nat);
        lemma_le4_round_trip((m + k) as u32);
    }
}

/// Idempotent resumption: a number handed out by a resumed run is distinct
/// from every number the earlier runs handed out against the same
/// destination, so no destination path is ever assigned twice.
pub proof fn lemma_resumption_no_collision(m: u32, j: nat, k: nat)
    requires
        j <= m,
        m + 1 + k <= 0xffff_ffff,
    ensures
        nth_assigned(Option::Some(le4_spec(m)), k) != nth_assigned(Option::None, j),
{
    lemma_fresh_assignment(j);
    lemma_resumed_assignment(m, k);
}

} // verus!
