//! What a mutation may write.

use crate::model::{owner, repo_of, FileKind, Repo};
use crate::saga::plan::Reject;
use crate::text::joined;
use vstd::prelude::*;

verus! {

/// The refusal of a write to a repo that may not be written.
pub open spec fn not_editable_message(name: Seq<char>, role: Seq<char>) -> Seq<char> {
    "member '"@ + name + "' is mounted as '"@ + role
        + "', not editable — list it in workspace.yaml 'edit:' to author it"@
}

pub fn not_editable_reject(name: &str, role: &str) -> (r: Reject)
    ensures
        r.message@ == not_editable_message(name@, role@),
        r.detail is None,
{
    let mut m = joined("member '", name);
    m.append("' is mounted as '");
    m.append(role);
    m.append("', not editable — list it in workspace.yaml 'edit:' to author it");
    Reject::new(m)
}

/// The path that a mutation writes: `resolved` is the path within the mounted
/// repos, or why there is none. The repo that owns it must be editable.
pub fn resolve_editable_target(repos: &Vec<Repo>, resolved: Result<String, Reject>) -> (r: Result<
    String,
    Reject,
>)
    requires
        resolved matches Ok(t) ==> owner(repos@, t@) is Some,
    ensures
        match resolved {
            Err(reject) => r == Err::<String, Reject>(reject),
            Ok(t) => {
                let repo = repos@[owner(repos@, t@)->0];
                if repo.editable {
                    r == Ok::<String, Reject>(t)
                } else {
                    r matches Err(reject) && reject.message@ == not_editable_message(
                        repo.name@,
                        repo.role@,
                    ) && reject.detail is None
                }
            },
        },
{
    match resolved {
        Err(reject) => Err(reject),
        Ok(t) => match repo_of(repos, t.as_str()) {
            Some(i) => if repos[i].editable {
                Ok(t)
            } else {
                Err(not_editable_reject(repos[i].name.as_str(), repos[i].role))
            },
            None => Ok(t),
        },
    }
}

/// The refusal of a rider on a type-def.
pub open spec fn rider_message() -> Seq<char> {
    "a stamp or ensure_mixin targets an instance's frontmatter, not a type-def; a type-def's `type:` is a parent claim, not an instance identity"@
}

/// Whether stamps and mixins may ride a write to a file of this kind. They change
/// the frontmatter of an instance, which a type-def does not have.
pub fn rider_target_reject(kind: Option<FileKind>) -> (r: Option<Reject>)
    ensures
        r is Some == (kind == Some(FileKind::TypeDef)),
        r matches Some(reject) ==> reject.message@ == rider_message() && reject.detail is None,
{
    match kind {
        Some(FileKind::TypeDef) => Some(
            Reject::new(
                "a stamp or ensure_mixin targets an instance's frontmatter, not a type-def; a type-def's `type:` is a parent claim, not an instance identity".to_owned(),
            ),
        ),
        _ => None,
    }
}

} // verus!
