//! What rides a write: stamps in the frontmatter and mixins on the type claim.

use crate::json::{jv, Json, JsonView, ListBuilder, Member, ObjectBuilder};
use crate::saga::plan::Reject;
use crate::text::{joined, opt_view};
use vstd::prelude::*;

verus! {

/// Whether the first `n` stamps were folded in.
pub open spec fn folded(stamps: Seq<Result<Option<String>, Reject>>, n: int) -> bool {
    forall|k: int| #![trigger stamps[k]] 0 <= k < n && k < stamps.len() ==> stamps[k] is Ok
}

/// The digest of the file after the first `n` stamps: the last that changed it
/// gives its own.
pub open spec fn stamped_hash(
    primary: String,
    stamps: Seq<Result<Option<String>, Reject>>,
    n: int,
) -> String
    decreases n,
{
    if n <= 0 || n > stamps.len() {
        primary
    } else {
        match stamps[n - 1] {
            Ok(Some(h)) => h,
            _ => stamped_hash(primary, stamps, n - 1),
        }
    }
}

/// The digest that a write answers with, after its stamps. A stamp that failed
/// refuses the write; the digest of a stamp that changed nothing is the one
/// before it.
pub fn fold_write_stamps(primary: String, stamps: Vec<Result<Option<String>, Reject>>) -> (r: Result<
    String,
    Reject,
>)
    ensures
        match r {
            Ok(h) => folded(stamps@, stamps@.len() as int) && h == stamped_hash(
                primary,
                stamps@,
                stamps@.len() as int,
            ),
            Err(e) => exists|k: int|
                #![trigger stamps@[k]]
                0 <= k < stamps@.len() && folded(stamps@, k) && stamps@[k] == Err::<
                    Option<String>,
                    Reject,
                >(e),
        },
{
    let mut hash = primary;
    let ghost all = stamps@;
    let size: usize = stamps.len();
    let mut rest = stamps;
    let mut done: usize = 0;
    while rest.len() > 0
        invariant
            rest@ == all.skip(done as int),
            done <= all.len() == size,
            folded(all, done as int),
            hash == stamped_hash(primary, all, done as int),
            all == stamps@,
        decreases rest@.len(),
    {
        let next = rest.remove(0);
        assert(next == all[done as int]);
        match next {
            Ok(Some(h)) => {
                hash = h;
            },
            Ok(None) => {},
            Err(e) => {
                return Err(e);
            },
        }
        proof {
            assert(rest@ =~= all.skip(done + 1));
        }
        done += 1;
    }
    Ok(hash)
}

/// What came of ensuring one mixin.
pub enum MixinStep {
    /// The file already claims it.
    NoOp,
    /// The file claims it now and has this digest.
    Applied(String),
    /// It cannot be applied, and why.
    UnAppliable(String),
    /// The file could not be read or written, or the engine was not ready.
    Failed(Reject),
}

/// How one mixin of a write fared.
#[derive(Debug)]
pub struct MixinOutcome {
    pub mixin: String,
    /// `applied`, `no_op` or `skipped`.
    pub outcome: &'static str,
    pub reason: Option<String>,
}

/// The contents of a [`MixinOutcome`].
pub open spec fn outcome_view(o: MixinOutcome) -> (Seq<char>, Seq<char>, Option<Seq<char>>) {
    (o.mixin@, o.outcome@, opt_view(o.reason))
}

/// How a mixin fared, when the write goes on.
pub open spec fn outcome_of(mixin: Seq<char>, step: MixinStep) -> (
    Seq<char>,
    Seq<char>,
    Option<Seq<char>>,
) {
    match step {
        MixinStep::NoOp => (mixin, "no_op"@, None),
        MixinStep::Applied(_) => (mixin, "applied"@, None),
        MixinStep::UnAppliable(reason) => (mixin, "skipped"@, Some(reason@)),
        MixinStep::Failed(_) => (mixin, "skipped"@, None),
    }
}

/// The outcomes of the first `n` mixins.
pub open spec fn outcomes(mixins: Seq<String>, steps: Seq<MixinStep>, n: int) -> Seq<(
    Seq<char>,
    Seq<char>,
    Option<Seq<char>>,
)>
    decreases n,
{
    if n <= 0 {
        Seq::empty()
    } else {
        outcomes(mixins, steps, n - 1).push(outcome_of(mixins[n - 1]@, steps[n - 1]))
    }
}

/// The digest of the file after the first `n` mixins.
pub open spec fn mixed_hash(primary: String, steps: Seq<MixinStep>, n: int) -> String
    decreases n,
{
    if n <= 0 || n > steps.len() {
        primary
    } else {
        match steps[n - 1] {
            MixinStep::Applied(h) => h,
            _ => mixed_hash(primary, steps, n - 1),
        }
    }
}

/// Whether a mixin stops the write. One that cannot be applied does so only when
/// the write is strict.
pub open spec fn stops(step: MixinStep, strict: bool) -> bool {
    step is Failed || (strict && step is UnAppliable)
}

/// Whether a mixin stops the write.
pub fn stops_write(step: &MixinStep, strict: bool) -> (r: bool)
    ensures
        r == stops(*step, strict),
{
    match step {
        MixinStep::Failed(_) => true,
        MixinStep::UnAppliable(_) => strict,
        _ => false,
    }
}

/// Why a strict write was refused.
pub open spec fn strict_message(mixin: Seq<char>, reason: Seq<char>) -> Seq<char> {
    "ensure_mixin '"@ + mixin + "' cannot be applied cleanly and ensure_mixins_strict is set: "@
        + reason
}

/// Whether a refusal is the one that this mixin gives.
pub open spec fn is_stop(reject: Reject, mixin: Seq<char>, step: MixinStep) -> bool {
    match step {
        MixinStep::Failed(r) => reject == r,
        MixinStep::UnAppliable(reason) => reject.message@ == strict_message(mixin, reason@)
            && reject.detail is None,
        _ => false,
    }
}

/// Whether none of the first `n` mixins stops the write.
pub open spec fn goes_on(steps: Seq<MixinStep>, strict: bool, n: int) -> bool {
    forall|k: int| #![trigger steps[k]] 0 <= k < n ==> !stops(steps[k], strict)
}

/// The digest that a write answers with after its mixins, and how each fared. The
/// first that stops the write refuses it.
pub fn fold_write_mixins(
    primary: String,
    mixins: &Vec<String>,
    strict: bool,
    steps: Vec<MixinStep>,
) -> (r: Result<(String, Vec<MixinOutcome>), Reject>)
    requires
        mixins@.len() >= steps@.len(),
    ensures
        match r {
            Ok((h, os)) => {
                &&& goes_on(steps@, strict, steps@.len() as int)
                &&& h == mixed_hash(primary, steps@, steps@.len() as int)
                &&& os@.map_values(|o: MixinOutcome| outcome_view(o)) == outcomes(
                    mixins@,
                    steps@,
                    steps@.len() as int,
                )
            },
            Err(e) => exists|k: int|
                #![trigger steps@[k]]
                0 <= k < steps@.len() && goes_on(steps@, strict, k) && stops(steps@[k], strict)
                    && is_stop(e, mixins@[k]@, steps@[k]),
        },
{
    let mut hash = primary;
    let mut os: Vec<MixinOutcome> = Vec::new();
    let ghost all = steps@;
    let size: usize = steps.len();
    let mut rest = steps;
    let mut done: usize = 0;
    let ghost f = |o: MixinOutcome| outcome_view(o);
    assert(os@.map_values(f) =~= Seq::empty());
    while rest.len() > 0
        invariant
            all == steps@,
            rest@ == all.skip(done as int),
            done <= all.len() <= mixins@.len(),
            all.len() == size,
            goes_on(all, strict, done as int),
            hash == mixed_hash(primary, all, done as int),
            f == (|o: MixinOutcome| outcome_view(o)),
            os@.map_values(f) == outcomes(mixins@, all, done as int),
        decreases rest@.len(),
    {
        let next = rest.remove(0);
        assert(next == all[done as int]);
        let mixin = &mixins[done];
        let ghost before = os@;
        let o = match next {
            MixinStep::NoOp => MixinOutcome {
                mixin: mixin.clone(),
                outcome: "no_op",
                reason: None,
            },
            MixinStep::Applied(h) => {
                hash = h;
                MixinOutcome { mixin: mixin.clone(), outcome: "applied", reason: None }
            },
            MixinStep::UnAppliable(reason) => {
                if strict {
                    let mut m = joined("ensure_mixin '", mixin.as_str());
                    m.append("' cannot be applied cleanly and ensure_mixins_strict is set: ");
                    m.append(reason.as_str());
                    return Err(Reject::new(m));
                }
                MixinOutcome { mixin: mixin.clone(), outcome: "skipped", reason: Some(reason) }
            },
            MixinStep::Failed(reject) => {
                return Err(reject);
            },
        };
        os.push(o);
        proof {
            assert(os@.map_values(f) =~= before.map_values(f).push(outcome_view(o)));
            assert(rest@ =~= all.skip(done + 1));
        }
        done += 1;
    }
    Ok((hash, os))
}

/// The wire form of an outcome: the reason is left out where there is none.
pub open spec fn outcome_json(o: (Seq<char>, Seq<char>, Option<Seq<char>>)) -> JsonView {
    let head = seq![("mixin"@, JsonView::Text(o.0)), ("outcome"@, JsonView::Text(o.1))];
    JsonView::Object(
        match o.2 {
            Some(reason) => head.push(("reason"@, JsonView::Text(reason))),
            None => head,
        },
    )
}

fn one_outcome(o: &MixinOutcome) -> (r: Json)
    ensures
        jv(r) == outcome_json(outcome_view(*o)),
{
    let mut b = ObjectBuilder::new();
    b.put_text("mixin", o.mixin.as_str());
    b.put_text("outcome", o.outcome);
    assert(b@ =~= seq![
        ("mixin"@, JsonView::Text(o.mixin@)),
        ("outcome"@, JsonView::Text(o.outcome@)),
    ]);
    if let Some(reason) = &o.reason {
        b.put_text("reason", reason.as_str());
    }
    b.done()
}

/// The outcomes as members of a response: none when the write had no mixins.
pub fn mixin_outcomes_extra(os: &Vec<MixinOutcome>) -> (r: Vec<Member>)
    ensures
        os@.len() == 0 ==> r@.len() == 0,
        os@.len() > 0 ==> r@.len() == 1 && r@[0].key@ == "ensure_mixins"@ && jv(r@[0].value)
            == JsonView::List(os@.map_values(|o: MixinOutcome| outcome_json(outcome_view(o)))),
{
    let mut extra: Vec<Member> = Vec::new();
    if os.len() > 0 {
        let mut b = ListBuilder::new();
        let ghost all = os@.map_values(|o: MixinOutcome| outcome_json(outcome_view(o)));
        assert(b@ =~= all.take(0));
        for i in 0..os.len()
            invariant
                all == os@.map_values(|o: MixinOutcome| outcome_json(outcome_view(o))),
                b@ == all.take(i as int),
        {
            b.put(one_outcome(&os[i]));
            assert(b@ =~= all.take(i + 1));
        }
        assert(all.take(all.len() as int) =~= all);
        extra.push(Member { key: "ensure_mixins".to_owned(), value: b.done() });
    }
    extra
}

} // verus!
