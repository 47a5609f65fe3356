//! Previewing a mutation: what would be written, and whether it may be.

use crate::frames::{mutation_reject_frame, reject_members, says_not_ready, Response};
use crate::json::{jv, Json, JsonView};
use crate::model::{owner, Repo};
use crate::mutation::target::{not_editable_message, resolve_editable_target};
use crate::saga::plan::{CommitTrailer, Reject};
use vstd::prelude::*;

verus! {

/// A record that is stamped into the frontmatter with a write.
#[derive(Debug)]
pub struct PreviewStamp {
    pub field: String,
    pub record: Json,
    /// What an element must have for the stamp to be there already.
    pub match_on: Option<Json>,
}

/// What a preview does to its file.
#[derive(Debug)]
pub enum PreviewOp {
    Write { content: String },
    Edit { old_string: String, new_string: String, replace_all: bool },
    Delete,
}

/// The arguments of a preview: those of the mutation that it stands for.
#[derive(Debug)]
pub enum PreviewMutationArgs {
    WriteFile { path: String, content: String, stamps: Vec<PreviewStamp> },
    EditFile {
        path: String,
        old_string: String,
        new_string: String,
        replace_all: bool,
        stamps: Vec<PreviewStamp>,
    },
    DeleteFile { path: String },
}

impl PreviewMutationArgs {
    pub open spec fn target(self) -> String {
        match self {
            PreviewMutationArgs::WriteFile { path, .. } => path,
            PreviewMutationArgs::EditFile { path, .. } => path,
            PreviewMutationArgs::DeleteFile { path } => path,
        }
    }

    pub open spec fn op(self) -> PreviewOp {
        match self {
            PreviewMutationArgs::WriteFile { content, .. } => PreviewOp::Write { content },
            PreviewMutationArgs::EditFile { old_string, new_string, replace_all, .. } => {
                PreviewOp::Edit { old_string, new_string, replace_all }
            },
            PreviewMutationArgs::DeleteFile { .. } => PreviewOp::Delete,
        }
    }

    /// The stamps that ride the write; a file that goes away gets none.
    pub open spec fn riders(self) -> Seq<PreviewStamp> {
        match self {
            PreviewMutationArgs::WriteFile { stamps, .. } => stamps@,
            PreviewMutationArgs::EditFile { stamps, .. } => stamps@,
            PreviewMutationArgs::DeleteFile { .. } => Seq::empty(),
        }
    }

    /// Splits the arguments into the path, what is done to it and the stamps.
    pub fn into_parts(self) -> (r: (String, PreviewOp, Vec<PreviewStamp>))
        ensures
            r.0 == self.target(),
            r.1 == self.op(),
            r.2@ == self.riders(),
    {
        match self {
            PreviewMutationArgs::WriteFile { path, content, stamps } => (
                path,
                PreviewOp::Write { content },
                stamps,
            ),
            PreviewMutationArgs::EditFile { path, old_string, new_string, replace_all, stamps } => (
                path,
                PreviewOp::Edit { old_string, new_string, replace_all },
                stamps,
            ),
            PreviewMutationArgs::DeleteFile { path } => (path, PreviewOp::Delete, Vec::new()),
        }
    }
}

/// How a preview goes on.
#[derive(Debug)]
pub enum PreviewStep {
    /// It is answered.
    Reply(Response),
    /// The mutation would be refused, which is what the preview tells.
    Refused(Reject),
    /// It is simulated on the file.
    Simulate { target: String, op: PreviewOp, stamps: Vec<PreviewStamp> },
}

/// Decides a preview. `resolved` is the path within the mounted repos, or why there
/// is none. What the mutation would be refused for, the preview answers as a read.
pub fn preview_mutation(
    ready: bool,
    repos: &Vec<Repo>,
    resolved: Result<String, Reject>,
    op: PreviewOp,
    stamps: Vec<PreviewStamp>,
) -> (r: PreviewStep)
    requires
        resolved matches Ok(t) ==> owner(repos@, t@) is Some,
    ensures
        if !ready {
            r matches PreviewStep::Reply(reply) && says_not_ready(reply)
        } else {
            match resolved {
                Err(reject) => r == PreviewStep::Refused(reject),
                Ok(t) => {
                    let repo = repos@[owner(repos@, t@)->0];
                    if repo.editable {
                        r == (PreviewStep::Simulate { target: t, op, stamps })
                    } else {
                        r matches PreviewStep::Refused(reject) && reject.message@
                            == not_editable_message(repo.name@, repo.role@) && reject.detail is None
                    }
                },
            }
        },
{
    if !ready {
        return PreviewStep::Reply(Response::not_ready());
    }
    match resolve_editable_target(repos, resolved) {
        Err(reject) => PreviewStep::Refused(reject),
        Ok(target) => PreviewStep::Simulate { target, op, stamps },
    }
}

/// The trailers of a mutation, or the frame that refuses it: nothing is written
/// under an attribution that is not well formed.
pub fn resolve_attribution(checked: Result<Vec<CommitTrailer>, String>) -> (r: Result<
    Vec<CommitTrailer>,
    Json,
>)
    ensures
        match checked {
            Ok(trailers) => r == Ok::<Vec<CommitTrailer>, Json>(trailers),
            Err(m) => r matches Err(frame) && jv(frame) == JsonView::Object(
                reject_members(m@, None),
            ),
        },
{
    match checked {
        Ok(trailers) => Ok(trailers),
        Err(m) => Err(mutation_reject_frame(Reject::new(m))),
    }
}

} // verus!
