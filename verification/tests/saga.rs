//! Committing a mutation across working trees, and recovering from a crash.

use au_engine::model::Repo;
use au_engine::saga::commit::{commit_message, moves_for, TreeMoves};
use au_engine::saga::machine::{failure_sentinel_name, step_paths, Reply, Saga, Step};
use au_engine::saga::marker::{marker_body, parse_marker};
use au_engine::saga::plan::{checked_paths, saga_dirty_set, Reject, SagaMember, SagaPlan};
use au_engine::saga::recovery::{
    recover_crashed_saga, recovery_failure, undo_of, RunFile, TreeReply, Undo,
};
use au_engine::saga::trees::{coalesce_by_working_tree, paths_by_repo, resolve_saga_plan};

fn member(root: &str, names: &[&str], paths: &[&str], git: bool) -> SagaMember {
    SagaMember {
        tree_root: root.to_string(),
        repo_names: names.iter().map(|n| n.to_string()).collect(),
        paths: paths.iter().map(|p| p.to_string()).collect(),
        git,
    }
}

fn plan(id: &str, members: Vec<SagaMember>) -> SagaPlan {
    SagaPlan {
        mutation_id: id.to_string(),
        members,
        exempt_from_clean_check: Vec::new(),
        attribution: Vec::new(),
    }
}

#[test]
fn dirty_set_spans_every_member_path() {
    let plan = plan(
        "m",
        vec![
            member("/a", &["ra"], &["x.md", "y.md"], true),
            member("/b", &["rb"], &["z.md"], false),
        ],
    );
    let dirty = saga_dirty_set(&plan);
    assert_eq!(dirty.len(), 3, "dirty set: {dirty:?}");
    assert!(dirty.contains(&"/a/x.md".to_string()));
    assert!(dirty.contains(&"/a/y.md".to_string()));
    assert!(dirty.contains(&"/b/z.md".to_string()));
}

#[test]
fn recovery_is_a_noop_without_a_marker() {
    let report = recover_crashed_saga(&None, &Vec::new(), &Vec::new());
    assert!(report.recovered.is_none(), "a clean start finds no marker");
    assert!(report.failures.is_empty(), "and no failure sentinels");
}

/// Runs a saga, answering each step; a step that `fails` is answered with a failure.
/// A probe finds changes, so that there is something to commit.
fn run(plan: &SagaPlan, require_git: bool, fails: impl Fn(&Step) -> bool) -> (Saga, Vec<Step>) {
    let mut saga = Saga::begin(plan, require_git);
    let mut steps = Vec::new();
    loop {
        let step = saga.next(plan);
        if matches!(step, Step::Finish) {
            return (saga, steps);
        }
        assert!(steps.len() < 100, "the saga ends");
        let bad = fails(&step);
        let why = || Some("no".to_string());
        let reply = match step {
            Step::CheckClean(_) => Reply::Clean(Ok(!bad)),
            Step::OpenMarker => Reply::Opened(if bad { why() } else { None }),
            Step::Write => Reply::Written(if bad {
                Some(Reject { message: "refused".to_string(), detail: None })
            } else {
                None
            }),
            Step::ProbeClean(_) => Reply::Clean(Ok(false)),
            Step::Commit(m) => {
                Reply::Committed(if bad { Err("no".to_string()) } else { Ok(format!("sha{m}")) })
            }
            Step::Revert(_) | Step::Restore(_) => Reply::Undone(if bad { why() } else { None }),
            _ => Reply::Noted,
        };
        saga.advance(plan, reply);
        steps.push(step);
    }
}

fn three_repos(id: &str) -> SagaPlan {
    plan(
        id,
        vec![
            member("/ra", &["ra"], &["f.md"], true),
            member("/rb", &["rb"], &["f.md"], true),
            member("/rc", &["rc"], &["f.md"], true),
        ],
    )
}

#[test]
fn three_repo_saga_commits_all_with_one_mutation_id() {
    let plan = three_repos("m-saga-1");
    let (saga, steps) = run(&plan, false, |_| false);
    let opened = steps.iter().position(|s| *s == Step::OpenMarker).unwrap();
    let written = steps.iter().position(|s| *s == Step::Write).unwrap();
    let closed = steps.iter().position(|s| *s == Step::CloseMarker).unwrap();
    assert!(opened < written, "the intent marker was not open while the trees were written");
    assert_eq!(closed, steps.len() - 1, "the intent marker was not closed after a successful saga");
    let commits = saga.outcome(&plan).expect("the saga commits all members");
    assert_eq!(commits.len(), 3, "one commit per member");
    for (m, name) in ["ra", "rb", "rc"].iter().enumerate() {
        let message = commit_message(&plan, "test saga", &Vec::new(), m);
        assert_eq!(message.mutation_id, "m-saga-1");
        assert_eq!(message.members, vec!["ra", "rb", "rc"]);
        assert!(commits.iter().any(|c| c.repo == *name && c.sha == format!("sha{m}")));
    }
}

#[test]
fn three_repo_saga_failure_compensates_every_member() {
    let plan = three_repos("m-saga-2");
    let (saga, steps) = run(&plan, false, |s| *s == Step::Commit(1));
    assert!(steps.contains(&Step::Restore(0)));
    assert!(!steps.contains(&Step::Revert(1)) && !steps.contains(&Step::Revert(2)));
    assert!(!steps.contains(&Step::RecordFailure), "every member is rolled back");
    assert!(steps.contains(&Step::Revert(0)), "the commit of the first member is reverted");
    assert!(!steps.contains(&Step::Commit(2)), "the last member carries no commit");
    assert!(steps.contains(&Step::Restore(1)));
    assert!(steps.contains(&Step::Restore(2)));
    assert_eq!(steps.last(), Some(&Step::CloseMarker));
    assert!(saga.outcome(&plan).is_err(), "the saga rejects on the middle member's commit failure");
}

#[test]
fn a_dirty_path_refuses_the_mutation_before_anything_is_written() {
    let plan = three_repos("m");
    let (saga, steps) = run(&plan, true, |s| *s == Step::CheckClean(1));
    assert_eq!(steps, vec![Step::CheckClean(0), Step::CheckClean(1)]);
    assert_eq!(
        saga.outcome(&plan).unwrap_err().message,
        "path has uncommitted changes — the engine is the writer; commit or discard them first"
    );
}

#[test]
fn an_incomplete_rollback_is_recorded() {
    let plan = three_repos("m-confl");
    let (saga, steps) =
        run(&plan, true, |s| *s == Step::Commit(1) || *s == Step::Revert(0));
    assert!(steps.contains(&Step::RecordFailure));
    assert_eq!(saga.errors.len(), 1);
    assert_eq!(failure_sentinel_name("m-confl"), "saga.failed.m-confl");
}

#[test]
fn a_refactor_needs_git_everywhere() {
    let plan = plan(
        "m",
        vec![
            member("/a", &["ra"], &["x.md"], true),
            member("/b", &["rb"], &["y.md"], false),
        ],
    );
    let (saga, steps) = run(&plan, true, |_| false);
    assert!(steps.is_empty());
    assert!(saga.outcome(&plan).unwrap_err().message.contains("(rb)"));
    let (saga, steps) = run(&plan, false, |_| false);
    assert!(!steps.contains(&Step::Commit(1)), "a member without git is written, not committed");
    assert_eq!(saga.outcome(&plan).unwrap().len(), 1);
}

fn repo(name: &str, root: &str) -> Repo {
    Repo {
        name: name.to_string(),
        root: root.to_string(),
        own: true,
        builtin: false,
        editable: true,
        role: "edit",
    }
}

fn shared_tree() -> SagaPlan {
    let repos = vec![
        repo("repo-c", "/tree/repo-c"),
        repo("repo-a", "/tree/repo-a"),
        repo("repo-b", "/tree/repo-b"),
    ];
    let targets: Vec<String> = ["/tree/repo-b/f.md", "/tree/repo-a/f.md", "/tree/repo-c/f.md"]
        .iter()
        .map(|s| s.to_string())
        .collect();
    let by_repo = paths_by_repo(&repos, &targets);
    let trees = by_repo.iter().map(|_| Some("/tree".to_string())).collect();
    resolve_saga_plan("m-shared-1".to_string(), &by_repo, &trees, Vec::new(), Vec::new())
}

#[test]
fn a_shared_working_tree_takes_exactly_one_commit() {
    let plan = shared_tree();
    assert_eq!(plan.members.len(), 1, "one member for one working tree");
    assert_eq!(plan.members[0].tree_root, "/tree");
    let mut paths = plan.members[0].paths.clone();
    paths.sort();
    assert_eq!(paths, vec!["repo-a/f.md", "repo-b/f.md", "repo-c/f.md"]);
    let (saga, steps) = run(&plan, false, |_| false);
    assert_eq!(
        steps.iter().filter(|s| matches!(s, Step::Commit(_))).count(),
        1,
        "one mutation must leave one commit in one working tree"
    );
    let commits = saga.outcome(&plan).expect("the saga commits");
    assert_eq!(commits.len(), 3, "every covered repo is reported");
    assert!(commits.iter().all(|c| c.sha == commits[0].sha), "the covered repos must share one sha");
    let names: Vec<&str> = commits.iter().map(|c| c.repo.as_str()).collect();
    assert_eq!(names, ["repo-a", "repo-b", "repo-c"], "name-sorted");
    let message = commit_message(&plan, "test shared tree", &Vec::new(), 0);
    assert_eq!(message.members, vec!["repo-a", "repo-b", "repo-c"], "name-sorted");
}

#[test]
fn commits_are_told_by_name_whatever_the_trees_are_called() {
    let plan = plan(
        "m",
        vec![member("/a", &["z"], &["f.md"], true), member("/b", &["c"], &["f.md"], true)],
    );
    let (saga, _) = run(&plan, false, |_| false);
    let commits = saga.outcome(&plan).unwrap();
    let told: Vec<(&str, &str)> =
        commits.iter().map(|c| (c.repo.as_str(), c.sha.as_str())).collect();
    assert_eq!(told, [("c", "sha1"), ("z", "sha0")]);
}

#[test]
fn a_refused_write_is_taken_back_without_git_too() {
    let plan = plan(
        "m",
        vec![member("/a", &["ra"], &["x.md"], false), member("/b", &["rb"], &["y.md"], true)],
    );
    let (saga, steps) = run(&plan, false, |s| *s == Step::Write);
    assert_eq!(
        steps,
        vec![
            Step::CheckClean(1),
            Step::OpenMarker,
            Step::Keep(0),
            Step::Write,
            Step::Restore(0),
            Step::Restore(1),
            Step::CloseMarker,
        ]
    );
    assert_eq!(saga.outcome(&plan).unwrap_err().message, "refused");
}

#[test]
fn a_repo_without_a_tree_stands_for_itself() {
    let repos = vec![repo("a", "/a"), repo("b", "/b")];
    let by_repo = paths_by_repo(&repos, &vec!["/b/x.md".to_string(), "/a/y.md".to_string()]);
    let members = coalesce_by_working_tree(&by_repo, &vec![None, Some("/b".to_string())]);
    assert_eq!(members.len(), 2);
    assert_eq!((members[0].tree_root.as_str(), members[0].git), ("/a", false));
    assert_eq!((members[1].tree_root.as_str(), members[1].git), ("/b", true));
}

#[test]
fn a_nested_repos_move_is_keyed_and_rebased_onto_its_tree() {
    let moves = moves_for("/tree/repo-a", &Some("/tree".to_string()), "old.md", "new.md");
    assert_eq!(moves.tree, "/tree", "keyed by the enclosing tree, not the repo root");
    assert_eq!(moves.records.len(), 1);
    assert_eq!(moves.records[0].from, "repo-a/old.md");
    assert_eq!(moves.records[0].to, "repo-a/new.md");
    let mut plan = three_repos("m");
    plan.members[0].tree_root = "/tree".to_string();
    let all: Vec<TreeMoves> = vec![moves];
    assert_eq!(commit_message(&plan, "s", &all, 0).moves.len(), 1);
    assert!(commit_message(&plan, "s", &all, 1).moves.is_empty());
}

#[test]
fn a_standalone_repos_move_is_unchanged_by_the_rebase() {
    let moves = moves_for("/ra", &None, "old.md", "new.md");
    assert_eq!(moves.tree, "/ra", "keyed by its own root");
    assert_eq!(moves.records[0].from, "old.md");
    assert_eq!(moves.records[0].to, "new.md");
}

#[test]
fn an_exempt_path_need_not_be_clean() {
    let mut plan = three_repos("m");
    plan.exempt_from_clean_check = vec!["/rb/f.md".to_string()];
    assert_eq!(checked_paths(&plan, 0), vec!["f.md"]);
    assert!(checked_paths(&plan, 1).is_empty());
    let (_, steps) = run(&plan, true, |_| false);
    assert!(!steps.contains(&Step::CheckClean(1)));
}

#[test]
fn all_steps_but_the_clean_check_take_every_path() {
    let mut plan = plan("m", vec![member("/r", &["r"], &["a.md", "b.md"], true)]);
    plan.exempt_from_clean_check = vec!["/r/b.md".to_string()];
    assert_eq!(step_paths(&plan, Step::CheckClean(0)), ["a.md"]);
    for step in [Step::Keep(0), Step::ProbeClean(0), Step::Commit(0), Step::Restore(0)] {
        assert_eq!(step_paths(&plan, step), ["a.md", "b.md"]);
    }
    assert!(step_paths(&plan, Step::Revert(0)).is_empty());
    assert!(step_paths(&plan, Step::Write).is_empty());
}

#[test]
fn a_marker_reads_back() {
    let plan = shared_tree();
    let body = marker_body(&plan);
    let marked = parse_marker(&body).expect("a marker");
    assert_eq!(marked.mutation_id, "m-shared-1");
    assert_eq!(marked.trees.len(), 1);
    assert_eq!(marked.trees[0].tree_root, "/tree");
    assert_eq!(marked.trees[0].paths, plan.members[0].paths);
    assert!(parse_marker("").is_none());
    assert!(parse_marker("something else\n").is_none());
}

fn reply(committed: bool, undone: Option<&str>) -> TreeReply {
    TreeReply { committed: Ok(committed), undone: undone.map(|s| s.to_string()) }
}

#[test]
fn recovery_reverts_committed_and_restores_written_members() {
    let marker = Some(marker_body(&three_repos("m-crash")));
    let replies = vec![reply(true, None), reply(false, None), reply(false, None)];
    let report = recover_crashed_saga(&marker, &replies, &Vec::new());
    assert!(report.failures.is_empty(), "a clean recovery has no failures");
    let recovered = report.recovered.expect("a marker was present");
    assert_eq!(recovered.mutation_id, "m-crash");
    assert_eq!(recovered.reverted, vec!["/ra"], "ra had committed, so it reverts");
    assert_eq!(recovered.restored, vec!["/rb", "/rc"], "rb and rc are path-restored");
    assert!(recovery_failure(&marker, &replies).is_none());
    assert_eq!(undo_of(&Ok(true)), Undo::Revert);
    assert_eq!(undo_of(&Ok(false)), Undo::Restore);
    assert_eq!(undo_of(&Err("x".to_string())), Undo::Leave);
}

#[test]
fn recovery_over_a_shared_tree_restores_every_coalesced_repo() {
    let mut plan = shared_tree();
    plan.mutation_id = "m-crash-shared".to_string();
    let marker = Some(marker_body(&plan));
    let marked = parse_marker(marker.as_deref().unwrap()).expect("a marker");
    assert_eq!(marked.mutation_id, "m-crash-shared");
    assert_eq!(marked.trees.len(), 1, "one line per tree");
    let replies = vec![reply(true, None)];
    let report = recover_crashed_saga(&marker, &replies, &Vec::new());
    let recovered = report.recovered.expect("the open marker is recovered");
    assert_eq!(recovered.reverted, vec!["/tree"], "one tree, one revert, not one per covered repo");
    assert!(report.failures.is_empty(), "recovery reported failures: {:?}", report.failures);
    assert!(recovery_failure(&marker, &replies).is_none());
}

#[test]
fn recovery_with_a_conflicting_revert_leaves_a_failure_sentinel() {
    let crashed = plan("m-confl", vec![member("/ra", &["ra"], &["f.md"], true)]);
    let marker = Some(marker_body(&crashed));
    let replies = vec![reply(true, Some("conflict"))];
    let file = recovery_failure(&marker, &replies).expect("the failure must surface");
    assert_eq!(file.name, "saga.failed.m-confl", "the failure sentinel must be on disk");
    assert!(file.body.contains("conflict"));
    let on_disk = vec![file];
    let report = recover_crashed_saga(&marker, &replies, &on_disk);
    assert!(report.recovered.is_some(), "the marker was processed");
    assert_eq!(report.failures.len(), 1, "the failure must surface: {report:?}");
    assert_eq!(report.failures[0].mutation_id, "m-confl");
    let again = recover_crashed_saga(&None, &Vec::new(), &on_disk);
    assert!(again.recovered.is_none(), "no intent marker the second time");
    assert_eq!(again.failures.len(), 1, "the sentinel is re-surfaced");
    assert_eq!(again.failures[0].mutation_id, report.failures[0].mutation_id);
    assert_eq!(again.failures[0].detail, report.failures[0].detail);
}

#[test]
fn a_file_that_records_no_failure_is_not_told() {
    let recorded = RunFile { name: "saga.failed.m".to_string(), body: "detail".to_string() };
    let other = RunFile { name: "daemon.log".to_string(), body: String::new() };
    let report = recover_crashed_saga(&None, &Vec::new(), &vec![other, recorded]);
    assert_eq!(report.failures.len(), 1);
    assert_eq!(report.failures[0].mutation_id, "m");
    assert_eq!(report.failures[0].detail, "detail");
}
