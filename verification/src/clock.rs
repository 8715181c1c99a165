//! Local-time rendering of file timestamps for the audit stream.

use vstd::prelude::*;

use chrono::offset::Local;
use chrono::offset::TimeZone;

use crate::errors::CleanupError;

verus! {

/// What the local clock makes of a timestamp: the instant may not exist
/// in the local calendar, render as one text, or fall in a fold where the
/// calendar names it twice.
pub enum LocalStamp {
    Invalid,
    Shown(String),
    Folded,
}

/// Relies on chrono's Local::timestamp_opt and DateTime::format with
/// "%Y-%m-%d %H:%M". The rendering depends on the machine's time zone,
/// so nothing is assumed of the text, only which of the three shapes
/// chrono reported.
#[verifier::external_body]
fn local_stamp(ts: i64) -> (r: LocalStamp)
{
    match Local.timestamp_opt(ts, 0) {
        chrono::LocalResult::None => LocalStamp::Invalid,
        chrono::LocalResult::Single(d) => LocalStamp::Shown(
            d.format("%Y-%m-%d %H:%M").to_string(),
        ),
        chrono::LocalResult::Ambiguous(_, _) => LocalStamp::Folded,
    }
}

/// The audit text owed for each shape of stamp: a fixed placeholder for
/// an unrepresentable instant, the rendering itself for a plain one, and
/// an error for a folded one.
pub open spec fn render_spec(s: LocalStamp) -> Result<Seq<char>, CleanupError> {
    match s {
        LocalStamp::Invalid => Result::Ok("Invalid date    "@),
        LocalStamp::Shown(t) => Result::Ok(t@),
        LocalStamp::Folded => Result::Err(CleanupError::FoldedTime),
    }
}

/// Turns a stamp into its audit text, exactly as `render_spec` says.
pub fn render_stamp(s: LocalStamp) -> (r: Result<String, CleanupError>)
    ensures
        (r is Ok ==> render_spec(s) == Result::<Seq<char>, CleanupError>::Ok(r->Ok_0@)),
        (r is Err ==> render_spec(s) == Result::<Seq<char>, CleanupError>::Err(r->Err_0)),
{
    match s {
        LocalStamp::Invalid => Ok("Invalid date    ".to_owned()),
        LocalStamp::Shown(t) => Ok(t),
        LocalStamp::Folded => Err(CleanupError::FoldedTime),
    }
}

/// Formats a timestamp for the audit line: the zone's rendering, or the
/// placeholder for an unrepresentable instant, exactly as `render_stamp`
/// says of what the zone reported. The only possible error is the
/// folded-time one.
pub fn format_time(ts: i64) -> (r: Result<String, CleanupError>)
    ensures
        r is Err ==> r->Err_0 is FoldedTime,
{
    render_stamp(local_stamp(ts))
}

} // verus!
