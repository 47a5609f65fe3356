//! The write of a mutation, step by step.
//!
//! A refactor rewrites the files that follow before it moves what they follow,
//! and folds the riders in last, so that everything shares one commit. The first
//! step that fails ends the write.

use crate::mutation::referrers::Referrer;
use crate::paths::{same_path, same_path_spec};
use crate::saga::plan::Reject;
use crate::text::{joined, joined3, opt_view};
use vstd::prelude::*;

verus! {

/// What a mutation does.
#[derive(Debug, Clone, Copy, PartialEq, Eq, Structural)]
pub enum Verb {
    WriteFile,
    EditFile,
    DeleteFile,
    Rename,
    RenameType,
    Promote,
    Inline,
    RenameBlockId,
    AssignBlockId,
    EditRecord,
    AppendRecord,
    SetIgnores,
    SetConfig,
}

/// A step of the write.
#[derive(Debug, Clone, Copy, PartialEq, Eq, Structural)]
pub enum WriteStep {
    /// The new file must not exist yet.
    RequireAbsent,
    /// Read the file that the mutation is about and check that it is what the
    /// engine last read.
    ReadHost,
    /// Read the file that is folded in, and check it likewise.
    ReadFolded,
    /// Read a referrer, check it, rewrite its references, and write it where that
    /// changed it.
    RewriteReferrer(usize),
    /// Write the content of the file that the mutation is about.
    WriteHost,
    /// Create the new file.
    CreateFile,
    /// Move the file.
    MoveFile,
    /// Remove the file.
    RemoveFile,
    /// Fold a stamp into the written file.
    Stamp(usize),
    /// Ensure a mixin on the written file.
    Mixin(usize),
}

/// The rewrites of the first `n` referrers, without the host's own.
pub open spec fn rewrites(rs: Seq<Referrer>, host: Option<Seq<char>>, n: int) -> Seq<WriteStep>
    decreases n,
{
    if n <= 0 {
        Seq::empty()
    } else {
        let before = rewrites(rs, host, n - 1);
        if host matches Some(h) && same_path_spec(rs[n - 1].path@, h) {
            before
        } else {
            before.push(WriteStep::RewriteReferrer((n - 1) as usize))
        }
    }
}

pub open spec fn stamp_steps(n: nat) -> Seq<WriteStep> {
    Seq::new(n, |i: int| WriteStep::Stamp(i as usize))
}

pub open spec fn mixin_steps(n: nat) -> Seq<WriteStep> {
    Seq::new(n, |i: int| WriteStep::Mixin(i as usize))
}

/// What a verb does to its own files: before the referrers, and after them.
pub open spec fn own_steps(verb: Verb) -> (Seq<WriteStep>, Seq<WriteStep>) {
    match verb {
        Verb::WriteFile | Verb::EditFile => (Seq::empty(), seq![WriteStep::WriteHost]),
        Verb::DeleteFile => (Seq::empty(), seq![WriteStep::RemoveFile]),
        Verb::Rename | Verb::RenameType => (Seq::empty(), seq![WriteStep::MoveFile]),
        Verb::Promote => (
            seq![WriteStep::RequireAbsent, WriteStep::ReadHost],
            seq![WriteStep::CreateFile, WriteStep::WriteHost],
        ),
        Verb::Inline => (
            seq![WriteStep::ReadHost, WriteStep::ReadFolded],
            seq![WriteStep::WriteHost, WriteStep::RemoveFile],
        ),
        Verb::RenameBlockId => (seq![WriteStep::ReadHost], seq![WriteStep::WriteHost]),
        Verb::AssignBlockId | Verb::EditRecord | Verb::AppendRecord => (
            seq![WriteStep::ReadHost],
            seq![WriteStep::WriteHost],
        ),
        Verb::SetIgnores | Verb::SetConfig => (Seq::empty(), seq![WriteStep::WriteHost]),
    }
}

/// The whole write: the verb's own reads, the referrers, the verb's own writes,
/// then the stamps and the mixins.
pub open spec fn script(
    verb: Verb,
    rs: Seq<Referrer>,
    host: Option<Seq<char>>,
    stamps: nat,
    mixins: nat,
) -> Seq<WriteStep> {
    own_steps(verb).0 + rewrites(rs, host, rs.len() as int) + own_steps(verb).1 + stamp_steps(stamps)
        + mixin_steps(mixins)
}

fn push_own(verb: Verb, after: bool, out: &mut Vec<WriteStep>)
    ensures
        final(out)@ == old(out)@ + (if after {
            own_steps(verb).1
        } else {
            own_steps(verb).0
        }),
{
    let ghost before = out@;
    assert(before + Seq::<WriteStep>::empty() =~= before);
    if !after {
        match verb {
            Verb::Promote => {
                out.push(WriteStep::RequireAbsent);
                out.push(WriteStep::ReadHost);
            },
            Verb::Inline => {
                out.push(WriteStep::ReadHost);
                out.push(WriteStep::ReadFolded);
            },
            Verb::RenameBlockId | Verb::AssignBlockId | Verb::EditRecord | Verb::AppendRecord => {
                out.push(WriteStep::ReadHost);
            },
            _ => {},
        }
        assert(out@ =~= before + own_steps(verb).0);
    } else {
        match verb {
            Verb::DeleteFile => {
                out.push(WriteStep::RemoveFile);
            },
            Verb::Rename | Verb::RenameType => {
                out.push(WriteStep::MoveFile);
            },
            Verb::Promote => {
                out.push(WriteStep::CreateFile);
                out.push(WriteStep::WriteHost);
            },
            Verb::Inline => {
                out.push(WriteStep::WriteHost);
                out.push(WriteStep::RemoveFile);
            },
            _ => {
                out.push(WriteStep::WriteHost);
            },
        }
        assert(out@ =~= before + own_steps(verb).1);
    }
}

/// The write of a mutation. `host` is the referrer that the mutation writes as a
/// whole, which is not rewritten by itself.
pub fn write_script(
    verb: Verb,
    rs: &Vec<Referrer>,
    host: &Option<String>,
    stamps: usize,
    mixins: usize,
) -> (r: Vec<WriteStep>)
    ensures
        r@ == script(verb, rs@, opt_view(*host), stamps as nat, mixins as nat),
{
    let mut out: Vec<WriteStep> = Vec::new();
    push_own(verb, false, &mut out);
    let ghost reads = out@;
    assert(reads =~= own_steps(verb).0);
    assert(reads + rewrites(rs@, opt_view(*host), 0) =~= reads);
    for i in 0..rs.len()
        invariant
            out@ == reads + rewrites(rs@, opt_view(*host), i as int),
    {
        let own = match host {
            Some(h) => same_path(rs[i].path.as_str(), h.as_str()),
            None => false,
        };
        if !own {
            out.push(WriteStep::RewriteReferrer(i));
            assert(out@ =~= reads + rewrites(rs@, opt_view(*host), i + 1));
        }
    }
    push_own(verb, true, &mut out);
    let ghost own = out@;
    assert(own + stamp_steps(0) =~= own);
    for i in 0..stamps
        invariant
            out@ == own + stamp_steps(i as nat),
    {
        out.push(WriteStep::Stamp(i));
        assert(out@ =~= own + stamp_steps((i + 1) as nat));
    }
    let ghost stamped = out@;
    assert(stamped + mixin_steps(0) =~= stamped);
    for i in 0..mixins
        invariant
            out@ == stamped + mixin_steps(i as nat),
    {
        out.push(WriteStep::Mixin(i));
        assert(out@ =~= stamped + mixin_steps((i + 1) as nat));
    }
    out
}

/// A write under way.
#[derive(Debug)]
pub struct WriteRun {
    pub steps: Vec<WriteStep>,
    pub done: usize,
    pub reject: Option<Reject>,
}

impl WriteRun {
    pub open spec fn wf(&self) -> bool {
        self.done <= self.steps@.len()
    }

    pub fn start(steps: Vec<WriteStep>) -> (r: Self)
        ensures
            r.wf(),
            r.steps == steps,
            r.done == 0,
            r.reject is None,
    {
        WriteRun { steps, done: 0, reject: None }
    }

    /// The next step; none when the write is over.
    pub fn next(&self) -> (r: Option<WriteStep>)
        requires
            self.wf(),
        ensures
            r == (if self.reject is Some || self.done == self.steps@.len() {
                None
            } else {
                Some(self.steps@[self.done as int])
            }),
    {
        if self.reject.is_some() || self.done == self.steps.len() {
            None
        } else {
            Some(self.steps[self.done])
        }
    }

    /// Takes the outcome of the next step: a failure ends the write.
    pub fn advance(&mut self, outcome: Option<Reject>)
        requires
            old(self).wf(),
            old(self).reject is None,
            old(self).done < old(self).steps@.len(),
        ensures
            final(self).wf(),
            final(self).steps == old(self).steps,
            final(self).reject == outcome,
            final(self).done == (if outcome is Some {
                old(self).done as int
            } else {
                old(self).done + 1
            }),
    {
        let size: usize = self.steps.len();
        if outcome.is_none() && self.done < size {
            self.done = self.done + 1;
        }
        self.reject = outcome;
    }
}

/// Whether a step writes one of the verb's own files.
pub open spec fn writes_own(s: WriteStep) -> bool {
    s == WriteStep::WriteHost || s == WriteStep::CreateFile || s == WriteStep::MoveFile || s
        == WriteStep::RemoveFile
}

proof fn lemma_rewrites_only(rs: Seq<Referrer>, host: Option<Seq<char>>, n: int)
    requires
        0 <= n,
    ensures
        forall|k: int|
            #![trigger rewrites(rs, host, n)[k]]
            0 <= k < rewrites(rs, host, n).len() ==> rewrites(rs, host, n)[k] is RewriteReferrer,
    decreases n,
{
    if n > 0 {
        lemma_rewrites_only(rs, host, n - 1);
        let before = rewrites(rs, host, n - 1);
        let now = rewrites(rs, host, n);
        assert forall|k: int| #![trigger now[k]] 0 <= k < now.len() implies now[k] is RewriteReferrer by {
            if k < before.len() {
                assert(now[k] == before[k]);
            }
        }
    }
}

/// Every referrer is rewritten before the mutation writes, moves or removes one
/// of its own files.
pub proof fn referrers_come_first(
    verb: Verb,
    rs: Seq<Referrer>,
    host: Option<Seq<char>>,
    stamps: nat,
    mixins: nat,
    i: int,
    j: int,
)
    requires
        0 <= i < script(verb, rs, host, stamps, mixins).len(),
        0 <= j < script(verb, rs, host, stamps, mixins).len(),
        script(verb, rs, host, stamps, mixins)[i] is RewriteReferrer,
        writes_own(script(verb, rs, host, stamps, mixins)[j]),
    ensures
        i < j,
{
    let all = script(verb, rs, host, stamps, mixins);
    let a = own_steps(verb).0;
    let b = rewrites(rs, host, rs.len() as int);
    let c = own_steps(verb).1;
    lemma_rewrites_only(rs, host, rs.len() as int);
    assert forall|k: int| 0 <= k < a.len() implies !writes_own(#[trigger] a[k]) && !(
    a[k] is RewriteReferrer) by {}
    assert forall|k: int| 0 <= k < c.len() implies !(#[trigger] c[k] is RewriteReferrer) by {}
    if j < a.len() {
        assert(all[j] == a[j]);
    } else if j < a.len() + b.len() {
        assert(all[j] == b[j - a.len()]);
    }
    if i >= a.len() + b.len() {
        if i < a.len() + b.len() + c.len() {
            assert(all[i] == c[i - a.len() - b.len()]);
        } else if i < a.len() + b.len() + c.len() + stamps {
            assert(all[i] == stamp_steps(stamps)[i - a.len() - b.len() - c.len()]);
        } else {
            assert(all[i] == mixin_steps(mixins)[i - a.len() - b.len() - c.len() - stamps]);
        }
    }
}

/// The first line of the commit that a mutation makes.
pub open spec fn summary_text(verb: Verb, a: Seq<char>, b: Seq<char>, c: Seq<char>) -> Seq<char> {
    match verb {
        Verb::WriteFile => "write_file "@ + a,
        Verb::EditFile => "edit_file "@ + a,
        Verb::DeleteFile => "delete_file "@ + a,
        Verb::Rename => "rename "@ + a + " -> "@ + b,
        Verb::RenameType => "rename_type "@ + a + " -> "@ + b,
        Verb::Promote => "promote "@ + a + " -> "@ + b,
        Verb::Inline => "inline "@ + a + " into "@ + b,
        Verb::RenameBlockId => "rename block-id "@ + a + " -> "@ + b + " in "@ + c,
        Verb::AssignBlockId => "assign_block_id "@ + a,
        Verb::EditRecord => "edit_record "@ + a,
        Verb::AppendRecord => "append_record "@ + a,
        Verb::SetIgnores => "set_ignores "@ + a,
        Verb::SetConfig => "set_config "@ + a + "/"@ + b,
    }
}

fn arrow(head: &str, a: &str, sep: &str, b: &str) -> (r: String)
    ensures
        r@ == head@ + a@ + sep@ + b@,
{
    let mut s = joined3(head, a, sep);
    s.append(b);
    s
}

/// The first line of the commit that a mutation makes, from what it is about.
pub fn summary(verb: Verb, a: &str, b: &str, c: &str) -> (r: String)
    ensures
        r@ == summary_text(verb, a@, b@, c@),
{
    match verb {
        Verb::WriteFile => joined("write_file ", a),
        Verb::EditFile => joined("edit_file ", a),
        Verb::DeleteFile => joined("delete_file ", a),
        Verb::Rename => arrow("rename ", a, " -> ", b),
        Verb::RenameType => arrow("rename_type ", a, " -> ", b),
        Verb::Promote => arrow("promote ", a, " -> ", b),
        Verb::Inline => arrow("inline ", a, " into ", b),
        Verb::RenameBlockId => {
            let mut s = arrow("rename block-id ", a, " -> ", b);
            s.append(" in ");
            s.append(c);
            s
        },
        Verb::AssignBlockId => joined("assign_block_id ", a),
        Verb::EditRecord => joined("edit_record ", a),
        Verb::AppendRecord => joined("append_record ", a),
        Verb::SetIgnores => joined("set_ignores ", a),
        Verb::SetConfig => arrow("set_config ", a, "/", b),
    }
}

/// Whether git must cover every repo that the mutation writes: a refactor rolls
/// back through git, a write of one file may go without a commit.
pub fn requires_git(verb: Verb) -> (r: bool)
    ensures
        r == (verb == Verb::Rename || verb == Verb::RenameType || verb == Verb::Promote || verb
            == Verb::Inline || verb == Verb::RenameBlockId),
{
    match verb {
        Verb::Rename
        | Verb::RenameType
        | Verb::Promote
        | Verb::Inline
        | Verb::RenameBlockId => true,
        _ => false,
    }
}

} // verus!
