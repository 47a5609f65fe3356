//! The `config` read: where the file of a consumer lies.

use crate::frames::{says_invalid, says_not_ready, Response};
use crate::json::Json;
use crate::model::Repo;
use crate::mutation::config::{config_member, find_rooted};
use crate::paths::{abs_arg, joined_path};
use crate::text::{joined3, opt_view};
use vstd::prelude::*;

verus! {

/// Whose configuration is read.
#[derive(Debug, Clone, Copy, PartialEq, Eq, Structural)]
pub enum ConfigScope {
    /// The device's own.
    Machine,
    /// That of a member.
    Repo,
}

/// A configuration file as it is served.
#[derive(Debug)]
pub struct ConfigFileView {
    pub path: Option<String>,
    pub exists: bool,
    pub content: Option<String>,
    pub diagnostics: Vec<Json>,
}

/// How a `config` read goes on.
#[derive(Debug)]
pub enum ConfigRead {
    /// It is answered.
    Reply(Response),
    /// There is nowhere that the file could be.
    Nowhere(ConfigFileView),
    /// The file lies under `dir`, and its type is looked up in `repo`.
    Read { dir: String, repo: String },
}

/// The name of the entry repo; empty without one.
pub open spec fn entry_name_of(repos: Seq<Repo>, entry: Option<usize>) -> Seq<char> {
    match entry {
        Some(e) => repos[e as int].name@,
        None => ""@,
    }
}

/// What is told of a root that no member has.
pub open spec fn bad_root_message(served_root: Seq<char>, asked: Option<Seq<char>>) -> Seq<char> {
    "repo scope needs a declared member root; `"@ + (match asked {
        Some(a) => joined_path(served_root, a),
        None => "<entry>"@,
    }) + "` names none"@
}

/// The directory and the repo of a read at this scope, where there are any.
pub open spec fn config_place(
    repos: Seq<Repo>,
    entry: Option<usize>,
    served_root: Seq<char>,
    scope: ConfigScope,
    asked: Option<Seq<char>>,
    base: Option<Seq<char>>,
) -> Option<(Seq<char>, Seq<char>)> {
    match scope {
        ConfigScope::Machine => match base {
            Some(dir) => Some((dir, entry_name_of(repos, entry))),
            None => None,
        },
        ConfigScope::Repo => match config_member(repos, entry, served_root, asked) {
            Some(i) => Some((joined_path(repos[i].root@, ".arsumbris"@), repos[i].name@)),
            None => None,
        },
    }
}

/// Decides a `config` read. `refused` says why the names of the consumer and the
/// file may not be used in a path, `base` is the device's directory.
///
/// The names are judged before anything else. At machine scope without a device
/// directory there is nowhere for the file to be, which is no error; at repo scope
/// the root must be that of a member.
pub fn config_response(
    refused: Option<String>,
    ready: bool,
    repos: &Vec<Repo>,
    entry: Option<usize>,
    served_root: &str,
    scope: ConfigScope,
    asked: &Option<String>,
    base: &Option<String>,
) -> (r: ConfigRead)
    requires
        entry matches Some(e) ==> e < repos@.len(),
    ensures
        match refused {
            Some(m) => r matches ConfigRead::Reply(reply) && says_invalid(reply, m@),
            None => if !ready {
                r matches ConfigRead::Reply(reply) && says_not_ready(reply)
            } else {
                match config_place(
                    repos@,
                    entry,
                    served_root@,
                    scope,
                    opt_view(*asked),
                    opt_view(*base),
                ) {
                    Some((dir, repo)) => r matches ConfigRead::Read { dir: d, repo: n } && d@ == dir
                        && n@ == repo,
                    None => match scope {
                        ConfigScope::Machine => r matches ConfigRead::Nowhere(v) && v.path is None
                            && !v.exists && v.content is None && v.diagnostics@.len() == 0,
                        ConfigScope::Repo => r matches ConfigRead::Reply(reply) && says_invalid(
                            reply,
                            bad_root_message(served_root@, opt_view(*asked)),
                        ),
                    },
                }
            },
        },
{
    if let Some(m) = refused {
        return ConfigRead::Reply(Response::invalid(m));
    }
    if !ready {
        return ConfigRead::Reply(Response::not_ready());
    }
    match scope {
        ConfigScope::Machine => match base {
            Some(dir) => {
                let repo = match entry {
                    Some(e) => repos[e].name.clone(),
                    None => "".to_owned(),
                };
                ConfigRead::Read { dir: dir.clone(), repo }
            },
            None => ConfigRead::Nowhere(
                ConfigFileView {
                    path: None,
                    exists: false,
                    content: None,
                    diagnostics: Vec::new(),
                },
            ),
        },
        ConfigScope::Repo => {
            let at: Option<usize> = match asked {
                Some(a) => find_rooted(repos, abs_arg(served_root, a.as_str()).as_str()),
                None => entry,
            };
            match at {
                Some(i) => ConfigRead::Read {
                    dir: abs_arg(repos[i].root.as_str(), ".arsumbris"),
                    repo: repos[i].name.clone(),
                },
                None => {
                    let shown = match asked {
                        Some(a) => abs_arg(served_root, a.as_str()),
                        None => "<entry>".to_owned(),
                    };
                    ConfigRead::Reply(
                        Response::invalid(
                            joined3(
                                "repo scope needs a declared member root; `",
                                shown.as_str(),
                                "` names none",
                            ),
                        ),
                    )
                },
            }
        },
    }
}

} // verus!
