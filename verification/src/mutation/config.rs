//! Changing the configuration: consumer files, ignore patterns, the registry.

use crate::frames::{mutation_reject_frame, reject_members, SCHEMA_VERSION};
use crate::json::{json_text, jv, Json, JsonView, Member, ObjectBuilder};
use crate::model::Repo;
use crate::mutation::target::{not_editable_message, not_editable_reject};
use crate::paths::{abs_arg, joined_path, same_path, same_path_spec};
use crate::resolve::version_json;
use crate::saga::plan::Reject;
use crate::text::{join_texts, joined, joined3, joined_by, opt_view, views};
use vstd::prelude::*;

verus! {

/// Which of the two ways to change a consumer file a request takes.
#[derive(Debug, Clone, Copy, PartialEq, Eq, Structural)]
pub enum ConfigForm {
    /// The whole content is given.
    Content,
    /// One record of the file is changed.
    Edit,
}

/// The way that a request takes: exactly one of the two must be given.
pub fn config_form(has_content: bool, has_edit: bool) -> (r: Result<ConfigForm, Reject>)
    ensures
        match (has_content, has_edit) {
            (true, false) => r == Ok::<ConfigForm, Reject>(ConfigForm::Content),
            (false, true) => r == Ok::<ConfigForm, Reject>(ConfigForm::Edit),
            (true, true) => r matches Err(e) && e.detail is None && e.message@
                == "set_config takes `content` OR `edit`, not both"@,
            (false, false) => r matches Err(e) && e.detail is None && e.message@
                == "set_config needs `content` or `edit`"@,
        },
{
    if has_content {
        if has_edit {
            Err(Reject::new("set_config takes `content` OR `edit`, not both".to_owned()))
        } else {
            Ok(ConfigForm::Content)
        }
    } else if has_edit {
        Ok(ConfigForm::Edit)
    } else {
        Err(Reject::new("set_config needs `content` or `edit`".to_owned()))
    }
}

/// A content that says its type: as it is when it does already.
pub open spec fn typed_content(content: Seq<char>, declares: bool, ty: Seq<char>) -> Seq<char> {
    if declares {
        content
    } else {
        "type: "@ + ty + "\n"@ + content
    }
}

/// Makes a content say its type. `declares` says whether it does already.
pub fn inject_type(content: &str, declares: bool, ty: &str) -> (r: String)
    ensures
        r@ == typed_content(content@, declares, ty@),
{
    if declares {
        content.to_owned()
    } else {
        let mut s = joined3("type: ", ty, "\n");
        s.append(content);
        s
    }
}

/// The content that a change of one record starts from: the file's own, made to
/// say its type. A file that does not exist cannot be changed so.
pub fn config_edit_base(current: &Option<String>, declares: bool, ty: &str) -> (r: Result<String, Reject>)
    ensures
        match current {
            Some(c) => r matches Ok(s) && s@ == typed_content(c@, declares, ty@),
            None => r matches Err(e) && e.detail is None && e.message@
                == "cannot `edit` an absent config file; create it first with `content`"@,
        },
{
    match current {
        Some(c) => Ok(inject_type(c.as_str(), declares, ty)),
        None => Err(
            Reject::new(
                "cannot `edit` an absent config file; create it first with `content`".to_owned(),
            ),
        ),
    }
}

/// What a write of a consumer file comes to.
#[derive(Debug)]
pub enum ConfigText {
    /// This content.
    Whole(String),
    /// This content, with one record changed.
    Base(String),
}

/// The content that a consumer file gets. `declares` says whether the content that is
/// given, or the one that is changed, says its type already.
pub fn produce_config_content(
    form: ConfigForm,
    content: &str,
    current: &Option<String>,
    declares: bool,
    ty: &str,
) -> (r: Result<ConfigText, Reject>)
    ensures
        match form {
            ConfigForm::Content => r matches Ok(ConfigText::Whole(s)) && s@ == typed_content(
                content@,
                declares,
                ty@,
            ),
            ConfigForm::Edit => match current {
                Some(c) => r matches Ok(ConfigText::Base(s)) && s@ == typed_content(
                    c@,
                    declares,
                    ty@,
                ),
                None => r matches Err(e) && e.detail is None && e.message@
                    == "cannot `edit` an absent config file; create it first with `content`"@,
            },
        },
{
    match form {
        ConfigForm::Content => Ok(ConfigText::Whole(inject_type(content, declares, ty))),
        ConfigForm::Edit => match config_edit_base(current, declares, ty) {
            Ok(base) => Ok(ConfigText::Base(base)),
            Err(e) => Err(e),
        },
    }
}

/// The repo rooted at exactly this path, searching from `i` on.
pub open spec fn repo_rooted(repos: Seq<Repo>, root: Seq<char>, i: int) -> Option<int>
    decreases repos.len() - i,
{
    if i < 0 || i >= repos.len() {
        None
    } else if same_path_spec(repos[i].root@, root) {
        Some(i)
    } else {
        repo_rooted(repos, root, i + 1)
    }
}

pub fn find_rooted(repos: &Vec<Repo>, root: &str) -> (r: Option<usize>)
    ensures
        match r {
            Some(i) => i < repos@.len() && repo_rooted(repos@, root@, 0) == Some(i as int),
            None => repo_rooted(repos@, root@, 0) is None,
        },
{
    for i in 0..repos.len()
        invariant
            repo_rooted(repos@, root@, 0) == repo_rooted(repos@, root@, i as int),
    {
        if same_path(repos[i].root.as_str(), root) {
            return Some(i);
        }
    }
    None
}

/// The repo that a configuration write goes to: the one that the caller names by
/// its root, else the entry.
pub open spec fn config_member(
    repos: Seq<Repo>,
    entry: Option<usize>,
    served_root: Seq<char>,
    asked: Option<Seq<char>>,
) -> Option<int> {
    match asked {
        Some(a) => repo_rooted(repos, joined_path(served_root, a), 0),
        None => match entry {
            Some(e) => Some(e as int),
            None => None,
        },
    }
}

/// The root of the repo that a configuration write goes to, which must be
/// editable.
pub fn resolve_config_member(
    repos: &Vec<Repo>,
    entry: Option<usize>,
    served_root: &str,
    asked: &Option<String>,
) -> (r: Result<String, Reject>)
    requires
        entry matches Some(e) ==> e < repos@.len(),
    ensures
        match config_member(repos@, entry, served_root@, opt_view(*asked)) {
            None => r matches Err(e) && e.detail is None && e.message@
                == "repo scope needs a declared member root; `"@ + (match opt_view(*asked) {
                Some(a) => a,
                None => "<entry>"@,
            }) + "` names none"@,
            Some(i) => if repos@[i].editable {
                r == Ok::<String, Reject>(repos@[i].root)
            } else {
                r matches Err(e) && e.detail is None && e.message@ == not_editable_message(
                    repos@[i].name@,
                    repos@[i].role@,
                )
            },
        },
{
    let at: Option<usize> = match asked {
        Some(a) => find_rooted(repos, abs_arg(served_root, a.as_str()).as_str()),
        None => entry,
    };
    match at {
        None => {
            let name = match asked {
                Some(a) => a.as_str(),
                None => "<entry>",
            };
            Err(
                Reject::new(
                    joined3(
                        "repo scope needs a declared member root; `",
                        name,
                        "` names none",
                    ),
                ),
            )
        },
        Some(i) => if repos[i].editable {
            Ok(repos[i].root.clone())
        } else {
            Err(not_editable_reject(repos[i].name.as_str(), repos[i].role))
        },
    }
}

/// The member that tells the digest of what was written.
pub fn hash_extra(hash: &str) -> (r: Vec<Member>)
    ensures
        r@.len() == 1,
        r@[0].key@ == "hash"@,
        jv(r@[0].value) == JsonView::Text(hash@),
{
    let mut extra: Vec<Member> = Vec::new();
    extra.push(Member { key: "hash".to_owned(), value: json_text(hash) });
    extra
}

/// The repo whose ignore patterns change: `asked` must name its root, and it must
/// be editable.
pub fn resolve_ignores_member(repos: &Vec<Repo>, served_root: &str, asked: &str) -> (r: Result<
    String,
    Reject,
>)
    ensures
        match repo_rooted(repos@, joined_path(served_root@, asked@), 0) {
            None => r matches Err(e) && e.detail is None && e.message@
                == "root must name a declared member root (the `ignores` read surfaces it): "@
                + asked@,
            Some(i) => if repos@[i].editable {
                r matches Ok(p) && p@ == joined_path(served_root@, asked@)
            } else {
                r matches Err(e) && e.detail is None && e.message@ == not_editable_message(
                    repos@[i].name@,
                    repos@[i].role@,
                )
            },
        },
{
    let root = abs_arg(served_root, asked);
    match find_rooted(repos, root.as_str()) {
        None => Err(
            Reject::new(
                joined(
                    "root must name a declared member root (the `ignores` read surfaces it): ",
                    asked,
                ),
            ),
        ),
        Some(i) => if repos[i].editable {
            Ok(root)
        } else {
            Err(not_editable_reject(repos[i].name.as_str(), repos[i].role))
        },
    }
}

/// The refusal of patterns that cannot be read, with the reason.
pub fn malformed_pattern_reject(reason: &str) -> (r: Reject)
    ensures
        r.detail is None,
        r.message@ == "malformed .auignore pattern, nothing written: "@ + reason@,
{
    Reject::new(joined("malformed .auignore pattern, nothing written: ", reason))
}

/// The file of a consumer under a configuration directory.
pub fn config_path(dir: &str, consumer: &str, file: &str) -> (r: String)
    ensures
        r@ == joined_path(joined_path(joined_path(dir@, consumer@), "config"@), file@),
{
    abs_arg(abs_arg(abs_arg(dir, consumer).as_str(), "config").as_str(), file)
}

/// The file that holds a repo's ignore patterns.
pub fn ignores_path(member_root: &str) -> (r: String)
    ensures
        r@ == joined_path(joined_path(member_root@, ".arsumbris"@), ".auignore"@),
{
    abs_arg(abs_arg(member_root, ".arsumbris").as_str(), ".auignore")
}

/// What the file of ignore patterns becomes: one pattern per line, or no file at
/// all without patterns.
pub fn ignores_content(patterns: &Vec<String>) -> (r: Option<String>)
    ensures
        opt_view(r) == (if patterns@.len() == 0 {
            None
        } else {
            Some(joined_by(views(patterns@), "\n"@) + "\n"@)
        }),
{
    if patterns.len() == 0 {
        None
    } else {
        Some(joined(join_texts(patterns, "\n").as_str(), "\n"))
    }
}

/// What came of a registration.
pub enum RegisterOutcome {
    /// There is no directory for the registry.
    NoDevice,
    /// The file could not be written.
    WriteFailed(String),
    /// The entry disagrees with what is registered or declared.
    Conflict(String),
    Written,
}

/// The members of the answer to a registration.
pub open spec fn registered_members(name: Seq<char>, path: Seq<char>, version: Option<u64>) -> Seq<(
    Seq<char>,
    JsonView,
)> {
    seq![
        ("type"@, JsonView::Text("registered"@)),
        ("schema_version"@, JsonView::Int(SCHEMA_VERSION as nat)),
        ("name"@, JsonView::Text(name)),
        ("path"@, JsonView::Text(path)),
        ("version"@, version_json(version)),
    ]
}

/// Why a registration was refused, if it was.
pub open spec fn register_refusal(outcome: RegisterOutcome) -> Option<Seq<char>> {
    match outcome {
        RegisterOutcome::NoDevice => Some("no device root (set $HOME) to register into"@),
        RegisterOutcome::WriteFailed(e) => Some("register write failed: "@ + e@),
        RegisterOutcome::Conflict(m) => Some(m@),
        RegisterOutcome::Written => None,
    }
}

/// The answer to a registration. The path is told as it was registered: made
/// absolute against the served root.
pub fn register(
    outcome: RegisterOutcome,
    name: &str,
    served_root: &str,
    path: &str,
    version: Option<u64>,
) -> (r: Json)
    ensures
        match register_refusal(outcome) {
            Some(m) => jv(r) == JsonView::Object(reject_members(m, None)),
            None => jv(r) == JsonView::Object(
                registered_members(name@, joined_path(served_root@, path@), version),
            ),
        },
{
    match outcome {
        RegisterOutcome::NoDevice => mutation_reject_frame(
            Reject::new("no device root (set $HOME) to register into".to_owned()),
        ),
        RegisterOutcome::WriteFailed(e) => mutation_reject_frame(
            Reject::new(joined("register write failed: ", e.as_str())),
        ),
        RegisterOutcome::Conflict(m) => mutation_reject_frame(Reject::new(m)),
        RegisterOutcome::Written => {
            let mut b = ObjectBuilder::new();
            b.put_text("type", "registered");
            b.put("schema_version", Json::Int(SCHEMA_VERSION as u64));
            b.put_text("name", name);
            b.put_text("path", abs_arg(served_root, path).as_str());
            b.put(
                "version",
                match version {
                    Some(v) => Json::Int(v),
                    None => Json::Null,
                },
            );
            assert(b@ =~= registered_members(name@, joined_path(served_root@, path@), version));
            b.done()
        },
    }
}

} // verus!
