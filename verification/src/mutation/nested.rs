//! Changing a record inside a file.

use crate::diagnostics::{Diagnostic, Severity};
use crate::json::{json_text, jv, JsonView, ObjectBuilder};
use crate::saga::plan::Reject;
use crate::text::{join_texts, joined3, joined_by, lemma_views_push, opt_view, same, views};
use vstd::prelude::*;

verus! {

/// What to do with a change that adds validation errors.
#[derive(Debug, Clone, Copy, PartialEq, Eq, Structural)]
pub enum OnInvalid {
    Reject,
    Advise,
}

/// The refusal of a change to a file that is not what the caller read.
pub open spec fn stale_message(current: Seq<char>) -> Seq<char> {
    "expected_hash mismatch: the file changed since it was read (current "@ + current + ")"@
}

/// Whether the file is what the caller read: `current` is its digest. Without an
/// expectation it always is.
pub fn check_expected(expected: &Option<String>, current: &str) -> (r: Result<(), Reject>)
    ensures
        if expected is None || opt_view(*expected) == Some(current@) {
            r is Ok
        } else {
            r matches Err(e) && e.message@ == stale_message(current@) && (e.detail matches Some(d)
                && jv(d) == JsonView::Object(seq![("current_hash"@, JsonView::Text(current@))]))
        },
{
    let fresh = match expected {
        Some(h) => same(current, h.as_str()),
        None => true,
    };
    if fresh {
        return Ok(());
    }
    let mut b = ObjectBuilder::new();
    b.put("current_hash", json_text(current));
    assert(b@ =~= seq![("current_hash"@, JsonView::Text(current@))]);
    Err(
        Reject {
            message: joined3(
                "expected_hash mismatch: the file changed since it was read (current ",
                current,
                ")",
            ),
            detail: Some(b.done()),
        },
    )
}

/// The codes of the errors among the first `n` diagnostics.
pub open spec fn error_codes(ds: Seq<Diagnostic>, n: int) -> Seq<Seq<char>>
    decreases n,
{
    if n <= 0 {
        Seq::empty()
    } else if ds[n - 1].severity == Severity::Error {
        error_codes(ds, n - 1).push(ds[n - 1].code@)
    } else {
        error_codes(ds, n - 1)
    }
}

/// How many of the diagnostics are errors.
pub open spec fn error_count(ds: Seq<Diagnostic>) -> nat {
    error_codes(ds, ds.len() as int).len()
}

fn collect_errors(ds: &Vec<Diagnostic>) -> (r: Vec<String>)
    ensures
        views(r@) == error_codes(ds@, ds@.len() as int),
{
    let mut r: Vec<String> = Vec::new();
    assert(views(r@) =~= Seq::empty());
    for i in 0..ds.len()
        invariant
            views(r@) == error_codes(ds@, i as int),
    {
        if ds[i].severity == Severity::Error {
            let ghost before = r@;
            r.push(ds[i].code.clone());
            proof {
                lemma_views_push(before, ds@[i as int].code);
            }
        }
    }
    r
}

/// How many of the diagnostics are errors.
pub fn instance_error_count(ds: &Vec<Diagnostic>) -> (r: usize)
    ensures
        r == error_count(ds@),
{
    let codes = collect_errors(ds);
    assert(views(codes@).len() == codes@.len());
    codes.len()
}

/// The refusal of a change that adds errors.
pub open spec fn new_errors_message(codes: Seq<Seq<char>>) -> Seq<char> {
    "on_invalid=reject: the edit adds validation errors ("@ + joined_by(codes, ", "@)
        + "); nothing written"@
}

/// Refuses a change after which the file has more errors than before. Errors that
/// are there already never stand in the way.
pub fn reject_on_new_errors(before: &Vec<Diagnostic>, after: &Vec<Diagnostic>) -> (r: Result<
    (),
    Reject,
>)
    ensures
        if error_count(after@) > error_count(before@) {
            r matches Err(e) && e.detail is None && e.message@ == new_errors_message(
                error_codes(after@, after@.len() as int),
            )
        } else {
            r is Ok
        },
{
    let had: usize = instance_error_count(before);
    let codes = collect_errors(after);
    assert(views(codes@).len() == codes@.len());
    if codes.len() > had {
        Err(
            Reject::new(
                joined3(
                    "on_invalid=reject: the edit adds validation errors (",
                    join_texts(&codes, ", ").as_str(),
                    "); nothing written",
                ),
            ),
        )
    } else {
        Ok(())
    }
}

/// Whether a change goes through: it does when it may add errors, or adds none.
pub fn gate_invalid(on_invalid: OnInvalid, before: &Vec<Diagnostic>, after: &Vec<Diagnostic>) -> (r:
    Result<(), Reject>)
    ensures
        r is Err == (on_invalid == OnInvalid::Reject && error_count(after@) > error_count(before@)),
        r matches Err(e) ==> e.detail is None && e.message@ == new_errors_message(
            error_codes(after@, after@.len() as int),
        ),
{
    if on_invalid == OnInvalid::Reject {
        reject_on_new_errors(before, after)
    } else {
        Ok(())
    }
}

/// Why a change of a record is not written, if it is not: the file is not what the
/// caller read, or the change adds errors that may not be added. `before` and `after`
/// are the diagnostics of the file without and with the change.
pub fn nested_record_reject(
    expected: &Option<String>,
    current: &str,
    on_invalid: OnInvalid,
    before: &Vec<Diagnostic>,
    after: &Vec<Diagnostic>,
) -> (r: Option<Reject>)
    ensures
        if expected is Some && opt_view(*expected) != Some(current@) {
            r matches Some(e) && e.message@ == stale_message(current@) && (e.detail matches Some(d)
                && jv(d) == JsonView::Object(seq![("current_hash"@, JsonView::Text(current@))]))
        } else if on_invalid == OnInvalid::Reject && error_count(after@) > error_count(before@) {
            r matches Some(e) && e.detail is None && e.message@ == new_errors_message(
                error_codes(after@, after@.len() as int),
            )
        } else {
            r is None
        },
{
    match check_expected(expected, current) {
        Err(e) => Some(e),
        Ok(_) => match gate_invalid(on_invalid, before, after) {
            Err(e) => Some(e),
            Ok(_) => None,
        },
    }
}

/// A change that leaves the errors as they are is never refused.
pub proof fn standing_errors_never_block(before: Seq<Diagnostic>, after: Seq<Diagnostic>)
    requires
        error_codes(before, before.len() as int) == error_codes(after, after.len() as int),
    ensures
        !(error_count(after) > error_count(before)),
{
}

} // verus!
