//! Moving a content file.

use crate::model::{inbound, FileKind, KnowledgeBase};
use crate::mutation::referrers::{collect_referrers, is_referrers, Referrer};
use crate::mutation::refactor::{all_positions, everything, links_to, same_repo, shared_repo};
use crate::paths::{below_or_self, relative};
use crate::saga::plan::Reject;
use vstd::prelude::*;

verus! {

/// A move of a type-def is refused: its name is the type's name.
pub fn rename_kind_reject(from: Option<FileKind>, to: Option<FileKind>) -> (r: Option<Reject>)
    ensures
        r is Some == (from == Some(FileKind::TypeDef) || to == Some(FileKind::TypeDef)),
        r matches Some(reject) ==> reject.detail is None && reject.message@
            == "rename does not move type-def files — a type-def's name derives from its filename; use rename_type"@,
{
    let is_def = match from {
        Some(FileKind::TypeDef) => true,
        _ => match to {
            Some(FileKind::TypeDef) => true,
            _ => false,
        },
    };
    if is_def {
        Some(
            Reject::new(
                "rename does not move type-def files — a type-def's name derives from its filename; use rename_type".to_owned(),
            ),
        )
    } else {
        None
    }
}

/// What a move needs to know: the repo that it stays in, the file's paths in it,
/// and the files that reference it, itself among them when it does.
#[derive(Debug)]
pub struct RenameGather {
    pub move_repo_root: String,
    pub old_rel: String,
    pub new_rel: String,
    pub referrers: Vec<Referrer>,
}

/// The repo of a move.
pub open spec fn rename_repo(kb: KnowledgeBase, from: Seq<char>, to: Seq<char>) -> Result<
    int,
    Seq<char>,
> {
    shared_repo(
        kb.repos@,
        from,
        to,
        "path or destination escapes the workspace"@,
        "cross-repo rename is not supported yet — path and to must be in the same repo"@,
    )
}

/// Gathers what a move needs to know. A move stays within one repo.
pub fn gather_rename(kb: &KnowledgeBase, from: &str, to: &str) -> (r: Result<RenameGather, String>)
    ensures
        match rename_repo(*kb, from@, to@) {
            Err(m) => r matches Err(e) && e@ == m,
            Ok(i) => r matches Ok(g) && {
                &&& g.move_repo_root == kb.repos@[i].root
                &&& g.old_rel@ == below_or_self(from@, kb.repos@[i].root@)
                &&& g.new_rel@ == below_or_self(to@, kb.repos@[i].root@)
                &&& is_referrers(
                    g.referrers@,
                    kb.catalog@,
                    inbound(kb.backlinks@, from@),
                    everything(inbound(kb.backlinks@, from@).len()),
                )
            },
        },
{
    let i: usize = match same_repo(
        &kb.repos,
        from,
        to,
        "path or destination escapes the workspace",
        "cross-repo rename is not supported yet — path and to must be in the same repo",
    ) {
        Ok(i) => i,
        Err(m) => return Err(m),
    };
    let root = &kb.repos[i].root;
    let referrers = match links_to(kb, from) {
        Some(links) => {
            let picked = all_positions(links.len());
            collect_referrers(&kb.catalog, links, &picked)
        },
        None => {
            let none: Vec<Referrer> = Vec::new();
            none
        },
    };
    Ok(
        RenameGather {
            move_repo_root: root.clone(),
            old_rel: relative(from, root.as_str()),
            new_rel: relative(to, root.as_str()),
            referrers,
        },
    )
}

} // verus!
