//! Validating a value that is no file: the document that stands for it, and the
//! verdicts on it.

use crate::diagnostics::Diagnostic;
use crate::encoding::{compact_text, json_quoted, quote_json, written};
use crate::json::{jv, lemma_members_view, members_view, Json, JsonView};
use crate::model::{entry_of, find_entry, CatalogEntry};
use crate::paths::{same_path, same_path_spec};
use crate::sorting::{in_rank, sort};
use crate::text::{
    contains, copy_opt, has_char, holds, joined3, lemma_views_push, opt_view, same, views,
};
use vstd::prelude::*;

verus! {

/// A line of the document for each of the first `n` members. A `type` that repeats
/// the claim is left out; one that contradicts it stays, to be found.
pub open spec fn member_lines(ty: Seq<char>, members: Seq<(Seq<char>, JsonView)>, n: int) -> Seq<char>
    decreases n,
{
    if n <= 0 {
        Seq::empty()
    } else {
        let before = member_lines(ty, members, n - 1);
        let (key, value) = members[n - 1];
        if key == "type"@ && value == JsonView::Text(ty) {
            before
        } else {
            before + json_quoted(key) + ": "@ + written(value) + "\n"@
        }
    }
}

/// The frontmatter document that stands for a value that claims a type. A value that
/// is no object is its own document.
pub open spec fn frontmatter(ty: Seq<char>, value: JsonView) -> Seq<char> {
    match value {
        JsonView::Object(members) => "type: "@ + json_quoted(ty) + "\n"@ + member_lines(
            ty,
            members,
            members.len() as int,
        ),
        _ => written(value),
    }
}

/// Writes the frontmatter document that stands for a value. JSON is YAML too, so a
/// member is a line with its key and its value.
pub fn synthesize_frontmatter(ty: &str, value: &Json) -> (r: String)
    ensures
        r@ == frontmatter(ty@, jv(*value)),
{
    match value {
        Json::Object(v) => {
            let ghost members = members_view(*v, v.len() as int);
            proof {
                lemma_members_view(*v, v.len() as int);
            }
            let claim = quote_json(ty);
            let mut out = joined3("type: ", claim.as_str(), "\n");
            let ghost head = out@;
            assert(out@ =~= head + member_lines(ty@, members, 0));
            for i in 0..v.len()
                invariant
                    members == members_view(*v, v.len() as int),
                    members.len() == v.len(),
                    forall|k: int|
                        #![trigger members[k]]
                        0 <= k < members.len() ==> members[k] == (v[k].key@, jv(v[k].value)),
                    out@ == head + member_lines(ty@, members, i as int),
            {
                assert(members[i as int] == (v[i as int].key@, jv(v[i as int].value)));
                let repeats = same(v[i].key.as_str(), "type") && match &v[i].value {
                    Json::Text(t) => same(t.as_str(), ty),
                    _ => false,
                };
                if !repeats {
                    let key = quote_json(v[i].key.as_str());
                    let text = compact_text(&v[i].value);
                    out.append(key.as_str());
                    out.append(": ");
                    out.append(text.as_str());
                    out.append("\n");
                    assert(out@ =~= head + member_lines(ty@, members, i + 1));
                }
            }
            out
        },
        _ => compact_text(value),
    }
}

proof fn lemma_lines_keep(
    ty: Seq<char>,
    members: Seq<(Seq<char>, JsonView)>,
    at: int,
    n: int,
)
    requires
        0 <= at < n <= members.len(),
        members[at] == ("type"@, JsonView::Text(ty)),
    ensures
        member_lines(ty, members, n) == member_lines(ty, members.remove(at), n - 1),
    decreases n,
{
    let rest = members.remove(at);
    if n - 1 == at {
        lemma_lines_prefix(ty, members, rest, at);
    } else {
        lemma_lines_keep(ty, members, at, n - 1);
        assert(rest[n - 2] == members[n - 1]);
    }
}

proof fn lemma_lines_prefix(
    ty: Seq<char>,
    a: Seq<(Seq<char>, JsonView)>,
    b: Seq<(Seq<char>, JsonView)>,
    n: int,
)
    requires
        0 <= n <= a.len(),
        n <= b.len(),
        forall|k: int| #![trigger a[k]] 0 <= k < n ==> a[k] == b[k],
    ensures
        member_lines(ty, a, n) == member_lines(ty, b, n),
    decreases n,
{
    if n > 0 {
        lemma_lines_prefix(ty, a, b, n - 1);
        assert(a[n - 1] == b[n - 1]);
    }
}

/// A value may carry its own type: one that repeats the claim makes no difference.
pub proof fn a_matching_type_is_tolerated(
    ty: Seq<char>,
    members: Seq<(Seq<char>, JsonView)>,
    at: int,
)
    requires
        0 <= at < members.len(),
        members[at] == ("type"@, JsonView::Text(ty)),
    ensures
        frontmatter(ty, JsonView::Object(members)) == frontmatter(
            ty,
            JsonView::Object(members.remove(at)),
        ),
{
    lemma_lines_keep(ty, members, at, members.len() as int);
}

/// Whether a member is a plain field that the shape does not declare. The claim is
/// none, nor is a key qualified by its origin.
pub open spec fn undeclared(key: Seq<char>, declared: Seq<String>) -> bool {
    key != "type"@ && !key.contains('{') && !holds(declared, key)
}

/// The undeclared fields among the first `n` members.
pub open spec fn undeclared_among(
    members: Seq<(Seq<char>, JsonView)>,
    declared: Seq<String>,
    n: int,
) -> Seq<Seq<char>>
    decreases n,
{
    if n <= 0 {
        Seq::empty()
    } else if undeclared(members[n - 1].0, declared) {
        undeclared_among(members, declared, n - 1).push(members[n - 1].0)
    } else {
        undeclared_among(members, declared, n - 1)
    }
}

/// The undeclared fields of a value; one that is no object has none.
pub open spec fn undeclared_in(value: JsonView, declared: Seq<String>) -> Seq<Seq<char>> {
    match value {
        JsonView::Object(members) => undeclared_among(members, declared, members.len() as int),
        _ => Seq::empty(),
    }
}

/// The fields of a value that the shape does not declare, in order. They are legal;
/// they are told so that a misspelt one is seen.
pub fn undeclared_value_fields(value: &Json, declared: &Vec<String>) -> (r: Vec<String>)
    ensures
        exists|found: Seq<String>|
            views(found) == undeclared_in(jv(*value), declared@) && r@ == #[trigger] in_rank(found),
        crate::sorting::sorted(r@),
{
    let mut out: Vec<String> = Vec::new();
    assert(views(out@) =~= Seq::empty());
    if let Json::Object(v) = value {
        let ghost members = members_view(*v, v.len() as int);
        proof {
            lemma_members_view(*v, v.len() as int);
        }
        for i in 0..v.len()
            invariant
                members == members_view(*v, v.len() as int),
                members.len() == v.len(),
                forall|k: int|
                    #![trigger members[k]]
                    0 <= k < members.len() ==> members[k] == (v[k].key@, jv(v[k].value)),
                views(out@) == undeclared_among(members, declared@, i as int),
        {
            assert(members[i as int] == (v[i as int].key@, jv(v[i as int].value)));
            let key = v[i].key.as_str();
            if !same(key, "type") && !has_char(key, '{') && !contains(declared, key) {
                let name = v[i].key.clone();
                proof {
                    lemma_views_push(out@, name);
                }
                out.push(name);
            }
        }
    }
    sort(out)
}

/// A type that a name denotes: the repo that owns it, its bare name there, and the
/// fields that its shape declares, if the repo has a vocabulary.
#[derive(Debug)]
pub struct Fit {
    pub member: String,
    pub name: String,
    pub declared: Option<Vec<String>>,
}

/// One validation of the value: as the bare type, in the vocabulary of a repo. Without
/// a fit there is nothing to compare its fields to.
#[derive(Debug)]
pub struct VerdictPlan {
    /// The position of the fit.
    pub fit: Option<usize>,
    pub name: String,
    pub repo: Option<String>,
    pub undeclared: Vec<String>,
}

/// Whether this is the plan of the verdict on the `i`-th fit.
pub open spec fn plans_fit(p: VerdictPlan, fits: Seq<Fit>, i: int, value: JsonView) -> bool {
    &&& p.fit == Some(i as usize)
    &&& p.name == fits[i].name
    &&& p.repo == Some(fits[i].member)
    &&& match fits[i].declared {
        Some(d) => exists|found: Seq<String>|
            views(found) == undeclared_in(value, d@) && p.undeclared@ == #[trigger] in_rank(found),
        None => p.undeclared@.len() == 0,
    }
}

/// The verdicts on a value: one for each type that the name denotes. A name that
/// denotes none gets one verdict too, in the vocabulary of the repo that was asked
/// for, where the type is missing. `claim` is the name taken apart.
pub fn validate_value_verdicts(
    claim_name: &str,
    claim_repo: &Option<String>,
    repo: &Option<String>,
    value: &Json,
    fits: &Vec<Fit>,
) -> (r: Vec<VerdictPlan>)
    ensures
        r@.len() > 0,
        fits@.len() > 0 ==> r@.len() == fits@.len() && forall|i: int|
            #![trigger r@[i]]
            0 <= i < r@.len() ==> plans_fit(r@[i], fits@, i, jv(*value)),
        fits@.len() == 0 ==> {
            &&& r@.len() == 1
            &&& r@[0].fit is None
            &&& r@[0].name@ == claim_name@
            &&& opt_view(r@[0].repo) == (if claim_repo is Some {
                opt_view(*claim_repo)
            } else {
                opt_view(*repo)
            })
            &&& r@[0].undeclared@.len() == 0
        },
{
    let mut out: Vec<VerdictPlan> = Vec::new();
    if fits.len() == 0 {
        let wanted = if claim_repo.is_some() {
            copy_opt(claim_repo)
        } else {
            copy_opt(repo)
        };
        out.push(
            VerdictPlan {
                fit: None,
                name: claim_name.to_owned(),
                repo: wanted,
                undeclared: Vec::new(),
            },
        );
        return out;
    }
    for i in 0..fits.len()
        invariant
            out@.len() == i,
            forall|k: int|
                #![trigger out@[k]]
                0 <= k < i ==> plans_fit(out@[k], fits@, k, jv(*value)),
    {
        let undeclared: Vec<String> = match &fits[i].declared {
            Some(d) => undeclared_value_fields(value, d),
            None => Vec::new(),
        };
        out.push(
            VerdictPlan {
                fit: Some(i),
                name: fits[i].name.clone(),
                repo: Some(fits[i].member.clone()),
                undeclared,
            },
        );
    }
    out
}

/// The vocabulary that a value is validated in.
#[derive(Debug)]
pub enum Vocabulary {
    /// That of the root repo.
    Root,
    /// That of a repo.
    Repo(String),
    /// An empty one, for a repo that is not mounted: no type resolves in it.
    Empty,
}

/// The vocabulary for a repo argument. `known` says whether the repo is mounted.
pub fn value_vocabulary(repo: &Option<String>, known: bool) -> (r: Vocabulary)
    ensures
        match *repo {
            None => r is Root,
            Some(name) => if known {
                r == Vocabulary::Repo(name)
            } else {
                r is Empty
            },
        },
{
    match repo {
        None => Vocabulary::Root,
        Some(name) => if known {
            Vocabulary::Repo(name.clone())
        } else {
            Vocabulary::Empty
        },
    }
}

/// How far the build of a vocabulary came.
#[derive(Debug, Clone, Copy, PartialEq, Eq, Structural)]
pub enum BuildOutcome {
    Complete,
    Aborted,
}

/// Whether an instance is held against the types: it must have parsed, and its
/// vocabulary must have been built. A repo that is not mounted has no build, and
/// counts as complete, so that its missing types are told.
pub fn reaches_validation(parsed: bool, outcome: Option<BuildOutcome>) -> (r: bool)
    ensures
        r == (parsed && (outcome is None || outcome == Some(BuildOutcome::Complete))),
{
    let aborted = match outcome {
        Some(BuildOutcome::Complete) => false,
        Some(BuildOutcome::Aborted) => true,
        None => false,
    };
    parsed && !aborted
}

/// The diagnostics of a value: those of its own structure, and those of its type
/// where it was held against one.
pub fn validate_scoped_instance(
    structural: Vec<Diagnostic>,
    parsed: bool,
    outcome: Option<BuildOutcome>,
    validated: Vec<Diagnostic>,
) -> (r: Vec<Diagnostic>)
    ensures
        r@ == (if parsed && (outcome is None || outcome == Some(BuildOutcome::Complete)) {
            structural@ + validated@
        } else {
            structural@
        }),
{
    let mut out = structural;
    if reaches_validation(parsed, outcome) {
        let mut more = validated;
        out.append(&mut more);
    }
    out
}

/// The file that the diagnostics of a bare value are told in.
pub const VALUE_PATH: &'static str = "<value>";

/// What the content of a file parses to, as far as its diagnostics go.
#[derive(Debug)]
pub enum ContentRead {
    /// The frontmatter does not end, does not parse, or holds no document.
    Broken,
    /// `duplicates` tell the keys that occur twice, `own` the rest of the structure;
    /// `parsed` says whether an instance came of it.
    Instance { duplicates: Vec<Diagnostic>, own: Vec<Diagnostic>, parsed: bool },
}

/// The diagnostics that a file with this content would have. A broken content has none:
/// whoever writes it is refused for that already.
pub fn validate_instance_content(
    read: ContentRead,
    outcome: Option<BuildOutcome>,
    validated: Vec<Diagnostic>,
) -> (r: Vec<Diagnostic>)
    ensures
        match read {
            ContentRead::Broken => r@.len() == 0,
            ContentRead::Instance { duplicates, own, parsed } => r@ == duplicates@ + own@ + (
            if parsed && (outcome is None || outcome == Some(BuildOutcome::Complete)) {
                validated@
            } else {
                Seq::empty()
            }),
        },
{
    match read {
        ContentRead::Broken => Vec::new(),
        ContentRead::Instance { duplicates, own, parsed } => {
            let mut structural = duplicates;
            let mut more = own;
            structural.append(&mut more);
            let ghost told = structural@;
            let r = validate_scoped_instance(structural, parsed, outcome, validated);
            assert(told + Seq::<Diagnostic>::empty() =~= told);
            r
        },
    }
}

/// What a file of the device parses to under the type that it is held against.
#[derive(Debug)]
pub enum DeviceRead {
    Instance { own: Vec<Diagnostic>, parsed: bool },
    Unparsed { own: Vec<Diagnostic> },
    /// Anything else, which such a file cannot be.
    Other,
}

/// The diagnostics of a file of the device.
pub fn validate_device_file(
    read: DeviceRead,
    outcome: Option<BuildOutcome>,
    validated: Vec<Diagnostic>,
) -> (r: Vec<Diagnostic>)
    ensures
        match read {
            DeviceRead::Instance { own, parsed } => r@ == (if parsed && (outcome is None || outcome
                == Some(BuildOutcome::Complete)) {
                own@ + validated@
            } else {
                own@
            }),
            DeviceRead::Unparsed { own } => r@ == own@,
            DeviceRead::Other => r@.len() == 0,
        },
{
    match read {
        DeviceRead::Instance { own, parsed } => validate_scoped_instance(
            own,
            parsed,
            outcome,
            validated,
        ),
        DeviceRead::Unparsed { own } => own,
        DeviceRead::Other => Vec::new(),
    }
}

/// The text whose lines a span is told by.
#[derive(Debug, Clone, Copy, PartialEq, Eq, Structural)]
pub enum LineSource {
    /// The document that was validated.
    Document,
    /// The catalogued file at this position.
    Catalogued(usize),
    /// None that is known.
    Unknown,
}

/// Finds the text whose lines a span of `file` is told by: that of the validated
/// document for its own spans, that of the file itself for another.
pub fn line_source(catalog: &Vec<CatalogEntry>, document: &str, file: &str) -> (r: LineSource)
    ensures
        r == (if same_path_spec(file@, document@) {
            LineSource::Document
        } else {
            match entry_of(catalog@, file@) {
                Some(i) => LineSource::Catalogued(i as usize),
                None => LineSource::Unknown,
            }
        }),
{
    if same_path(file, document) {
        return LineSource::Document;
    }
    match find_entry(catalog, file) {
        Some(i) => LineSource::Catalogued(i),
        None => LineSource::Unknown,
    }
}

} // verus!
