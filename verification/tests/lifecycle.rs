//! The candidate lifecycle and whole-command scenarios driven against an
//! in-memory stand-in for the store and the engine.

use std::collections::HashMap;

use weft::candidate::{plan_propose, WeaveAction, WeaveEvent, WeaveMachine, WeavePhase};
use weft::error::Fault;
use weft::oplog::{append_entry, read_all};
use weft::refs::{candidate_ref, op_log_ref, weft_head_ref};
use weft::save::make_save_entry;
use weft::status::{ahead_count, recent_lines};
use weft::sync::count_tangled;
use weft::tracker::{plan_init, InitOutcome};

fn s(x: &str) -> String {
    x.to_string()
}

#[test]
fn reference_names_are_spelled_once() {
    assert_eq!(weft_head_ref("alice"), "refs/weft/alice/head");
    assert_eq!(op_log_ref(), "refs/weft/op-log");
    assert_eq!(candidate_ref("alice-abcdef12"), "refs/loom/alice-abcdef12");
}

#[test]
fn propose_derives_the_candidate_from_user_and_commit() {
    let p = plan_propose("alice", "abcdef1234567890");
    assert_eq!(p.candidate_id, "alice-abcdef12");
    assert_eq!(p.candidate_ref, "refs/loom/alice-abcdef12");
    assert_eq!(p.push_refspec, "abcdef1234567890:refs/loom/alice-abcdef12");
}

#[test]
fn propose_keeps_a_short_commit_whole() {
    let p = plan_propose("bob", "abc");
    assert_eq!(p.candidate_id, "bob-abc");
}

#[test]
fn weave_happy_path_reaches_done() {
    let (mut m, first) = WeaveMachine::start("alice-abcdef12");
    assert_eq!(first, WeaveAction::LookupCandidate);
    assert_eq!(m.candidate_ref, "refs/loom/alice-abcdef12");
    assert_eq!(m.step(WeaveEvent::LocalFound { commit: s("c7") }), WeaveAction::CheckConflict);
    assert_eq!(m.commit, Some(s("c7")));
    assert_eq!(m.step(WeaveEvent::Conflicted { tangled: false }), WeaveAction::CheckMainExists);
    assert_eq!(m.step(WeaveEvent::MainExists { exists: true }), WeaveAction::PushMainline);
    assert_eq!(m.step(WeaveEvent::Pushed), WeaveAction::UpdateMirror);
    assert_eq!(m.step(WeaveEvent::MirrorDone), WeaveAction::DeleteCandidate);
    assert_eq!(m.step(WeaveEvent::CleanupDone), WeaveAction::Done);
    assert_eq!(m.phase, WeavePhase::Finished);
}

#[test]
fn weave_fetches_when_the_candidate_is_not_local() {
    let (mut m, _) = WeaveMachine::start("x-1");
    assert_eq!(m.step(WeaveEvent::LocalAbsent), WeaveAction::FetchCandidate);
    assert_eq!(m.step(WeaveEvent::Fetched), WeaveAction::LookupCandidate);
    assert_eq!(
        m.step(WeaveEvent::LocalAbsent),
        WeaveAction::Fail { fault: Fault::CandidateNotFound }
    );
    assert_eq!(m.phase, WeavePhase::Failed);
}

#[test]
fn weave_fails_when_the_fetch_fails() {
    let (mut m, _) = WeaveMachine::start("x-1");
    assert_eq!(m.step(WeaveEvent::LocalAbsent), WeaveAction::FetchCandidate);
    assert_eq!(
        m.step(WeaveEvent::FetchFailed),
        WeaveAction::Fail { fault: Fault::CandidateNotFound }
    );
}

#[test]
fn weave_refuses_a_tangled_candidate() {
    let (mut m, _) = WeaveMachine::start("alice-abcdef12");
    m.step(WeaveEvent::LocalFound { commit: s("c7") });
    assert_eq!(
        m.step(WeaveEvent::Conflicted { tangled: true }),
        WeaveAction::Fail { fault: Fault::TangledCandidate }
    );
    assert_eq!(m.phase, WeavePhase::Failed);
    // Nothing further is asked for: mainline stays untouched and the
    // candidate reference stays in place.
    assert_eq!(m.step(WeaveEvent::MainExists { exists: true }), WeaveAction::Ignore);
    assert_eq!(m.step(WeaveEvent::Pushed), WeaveAction::Ignore);
    assert_eq!(m.step(WeaveEvent::CleanupDone), WeaveAction::Ignore);
    assert_eq!(m.phase, WeavePhase::Failed);
}

#[test]
fn weave_requires_a_local_mainline() {
    let (mut m, _) = WeaveMachine::start("alice-abcdef12");
    m.step(WeaveEvent::LocalFound { commit: s("c7") });
    m.step(WeaveEvent::Conflicted { tangled: false });
    assert_eq!(
        m.step(WeaveEvent::MainExists { exists: false }),
        WeaveAction::Fail { fault: Fault::NoMainBranch }
    );
}

#[test]
fn weave_reports_a_moved_mainline_and_keeps_the_candidate() {
    let (mut m, _) = WeaveMachine::start("alice-abcdef12");
    m.step(WeaveEvent::LocalFound { commit: s("c7") });
    m.step(WeaveEvent::Conflicted { tangled: false });
    m.step(WeaveEvent::MainExists { exists: true });
    assert_eq!(
        m.step(WeaveEvent::PushRejectedNonFastForward),
        WeaveAction::Fail { fault: Fault::MainlineMoved }
    );
    assert_eq!(m.phase, WeavePhase::Failed);
    // The cleanup step is never reached, so the candidate reference remains
    // for a retry.
    assert_eq!(m.step(WeaveEvent::MirrorDone), WeaveAction::Ignore);
    assert_eq!(m.step(WeaveEvent::CleanupDone), WeaveAction::Ignore);
}

#[test]
fn weave_maps_other_push_failures_to_publish_failed() {
    let (mut m, _) = WeaveMachine::start("alice-abcdef12");
    m.step(WeaveEvent::LocalFound { commit: s("c7") });
    m.step(WeaveEvent::Conflicted { tangled: false });
    m.step(WeaveEvent::MainExists { exists: true });
    assert_eq!(m.step(WeaveEvent::PushFailed), WeaveAction::Fail { fault: Fault::PublishFailed });
}

/// A minimal stand-in for the store: named pointers plus the op log blob.
struct FakeRepo {
    refs: HashMap<String, String>,
    log: String,
}

impl FakeRepo {
    fn new() -> Self {
        FakeRepo { refs: HashMap::new(), log: String::new() }
    }

    fn init_for(&mut self, user: &str, mainline_tip: &str) -> InitOutcome {
        let head_ref = weft_head_ref(user);
        let outcome = plan_init(
            self.refs.contains_key(&head_ref),
            self.refs.contains_key(&op_log_ref()),
        );
        if let InitOutcome::Initialize { create_op_log } = outcome {
            self.refs.insert(head_ref, mainline_tip.to_string());
            if create_op_log {
                self.refs.insert(op_log_ref(), s("op-log-blob"));
                self.log = String::new();
            }
        }
        outcome
    }

    fn save_for(&mut self, user: &str, message: &str, new_commit: &str, ts: i64) {
        let e = make_save_entry(message, new_commit, ts);
        self.log = append_entry(&self.log, &e);
        self.refs.insert(weft_head_ref(user), new_commit.to_string());
    }
}

#[test]
fn init_save_save_status_reports_two_checkpoints() {
    let mut repo = FakeRepo::new();
    assert_eq!(
        repo.init_for("alice", "c0"),
        InitOutcome::Initialize { create_op_log: true }
    );
    // A second init is a recoverable notice and changes nothing.
    let head_before = repo.refs[&weft_head_ref("alice")].clone();
    assert_eq!(repo.init_for("alice", "c9"), InitOutcome::AlreadyInitialized);
    assert_eq!(repo.refs[&weft_head_ref("alice")], head_before);

    repo.save_for("alice", "first", "c1", 100);
    repo.save_for("alice", "second", "c2", 200);
    assert_eq!(repo.refs[&weft_head_ref("alice")], "c2");

    // The op log holds exactly the two saves, in order.
    let entries = read_all(&repo.log).expect("the log must read back");
    assert_eq!(entries.len(), 2);
    assert_eq!(entries[0].args[0].1, "first");
    assert_eq!(entries[1].args[0].1, "second");

    // Status over the engine's listings: two ahead, both saves among the
    // recent commits, nothing tangled.
    let commit_listing = "save: second (c2)\nsave: first (c1)\ninitial (c0)\n";
    assert_eq!(ahead_count(commit_listing), 2);
    let recent = recent_lines(commit_listing, 5);
    assert_eq!(recent.len(), 3);
    assert!(recent[0].contains("save: second"));
    assert!(recent[1].contains("save: first"));
    assert_eq!(count_tangled("clean\nclean\nclean\n"), 0);
}
