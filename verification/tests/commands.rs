//! The per-command decision logic: identity, init, save, undo, sync, share
//! and status.

use weft::error::{Fault, WeftError};
use weft::ident::{choose_identity, sanitize_username};
use weft::oplog::append_entry;
use weft::oplog::last_entry;
use weft::save::make_save_entry;
use weft::status::{ahead_count, non_blank_lines, recent_lines};
use weft::sync::{count_tangled, plan_sync, sync_new_head, sync_report};
use weft::share::plan_share;
use weft::tracker::{plan_init, InitOutcome};
use weft::undo::{plan_undo, UndoStep};

fn s(x: &str) -> String {
    x.to_string()
}

#[test]
fn sanitize_maps_special_characters_to_dashes() {
    assert_eq!(sanitize_username("alice.smith@corp.com"), "alice-smith-corp-com");
    assert_eq!(sanitize_username("Bob Jones"), "bob-jones");
    assert_eq!(sanitize_username("under_score-kept.09"), "under_score-kept-09");
    assert_eq!(sanitize_username(""), "");
}

#[test]
fn sanitize_is_idempotent_on_samples() {
    for raw in ["alice.smith@corp.com", "WEIRD//name", "", "ok_name-1", "\u{e9}t\u{e9}"] {
        let once = sanitize_username(raw);
        assert_eq!(sanitize_username(&once), once);
    }
}

#[test]
fn identity_prefers_the_environment_override() {
    let r = choose_identity(Some(s("Env.User")), Some(s("cfg")), Some(s("name")), Some(s("os")));
    assert_eq!(r, Ok(s("env-user")));
}

#[test]
fn identity_falls_back_in_order() {
    assert_eq!(
        choose_identity(None, Some(s("Weft.Cfg")), Some(s("name")), Some(s("os"))),
        Ok(s("weft-cfg"))
    );
    assert_eq!(choose_identity(None, None, Some(s("Git Name")), Some(s("os"))), Ok(s("git-name")));
    assert_eq!(choose_identity(Some(s("")), None, None, Some(s("OS.User"))), Ok(s("os-user")));
    assert_eq!(choose_identity(None, None, None, Some(s(""))), Err(Fault::NoIdentity));
    assert_eq!(choose_identity(None, None, None, None), Err(Fault::NoIdentity));
}

#[test]
fn init_writes_only_when_nothing_exists() {
    assert_eq!(plan_init(false, false), InitOutcome::Initialize { create_op_log: true });
    assert_eq!(plan_init(false, true), InitOutcome::Initialize { create_op_log: false });
    // The second init finds the head and changes nothing: a recoverable
    // notice.
    assert_eq!(plan_init(true, false), InitOutcome::AlreadyInitialized);
    assert_eq!(plan_init(true, true), InitOutcome::AlreadyInitialized);
    assert!(Fault::AlreadyInitialized.is_recoverable());
}

#[test]
fn undo_after_save_sees_the_save_entry() {
    let log = append_entry("", &make_save_entry("work to undo", "c1", 10));
    let last = last_entry(&log).expect("the save entry must be the last");
    assert_eq!(last.command, "save");
    assert_eq!(plan_undo(&last), Ok(UndoStep::EngineUndo));
}

#[test]
fn undo_dispatches_reset_ref() {
    let mut e = make_save_entry("m", "c1", 1);
    e.inverse = vec![
        (s("old"), s("c0")),
        (s("op"), s("reset-ref")),
        (s("ref"), s("refs/weft/u/head")),
    ];
    assert_eq!(
        plan_undo(&e),
        Ok(UndoStep::ResetRef { ref_name: s("refs/weft/u/head"), old_commit: s("c0") })
    );
}

#[test]
fn undo_treats_an_unnamed_reset_as_no_effect() {
    let mut e = make_save_entry("m", "c1", 1);
    e.inverse = vec![(s("op"), s("reset-ref")), (s("ref"), s("refs/weft/u/head"))];
    assert_eq!(plan_undo(&e), Ok(UndoStep::NoEffect));
}

#[test]
fn undo_refuses_an_unknown_inverse_tag() {
    let mut e = make_save_entry("m", "c1", 1);
    e.inverse = vec![(s("op"), s("teleport"))];
    assert_eq!(plan_undo(&e), Err(Fault::UnknownInverseOp));
    e.inverse = Vec::new();
    assert_eq!(plan_undo(&e), Err(Fault::UnknownInverseOp));
}

#[test]
fn sync_requires_an_initialized_weft() {
    let r = plan_sync(None, Some(s("m1")), None, "h0", None);
    assert!(matches!(r, Err(Fault::NotInitialized)));
}

#[test]
fn sync_prefers_the_remote_mirror() {
    let p = plan_sync(Some(s("w1")), Some(s("m1")), Some(s("m2")), "h0", Some(s("o1"))).unwrap();
    assert_eq!(p.head, "w1");
    assert_eq!(p.target, "o1");
    assert!(!p.create_main);
}

#[test]
fn sync_falls_back_to_main_then_master_then_head() {
    let p = plan_sync(Some(s("w")), Some(s("m1")), Some(s("m2")), "h0", None).unwrap();
    assert_eq!(p.target, "m1");
    assert!(!p.create_main);
    let p = plan_sync(Some(s("w")), None, Some(s("m2")), "h0", None).unwrap();
    assert_eq!(p.target, "m2");
    assert!(!p.create_main);
    let p = plan_sync(Some(s("w")), None, None, "h0", None).unwrap();
    assert_eq!(p.target, "h0");
    assert!(p.create_main);
}

#[test]
fn sync_keeps_the_old_head_when_the_pointer_vanished() {
    assert_eq!(sync_new_head("old", Some(s("moved"))), "moved");
    assert_eq!(sync_new_head("old", None), "old");
}

#[test]
fn tangled_commits_are_counted_not_refused() {
    assert_eq!(count_tangled(""), 0);
    assert_eq!(count_tangled("clean\nclean\n"), 0);
    assert_eq!(count_tangled("tangled\nclean\ntangled\n"), 2);
    assert_eq!(count_tangled("  tangled \n\ttangled\r\nuntangled\n"), 2);
    let report = sync_report("tangled\nclean\n");
    assert_eq!(report.tangled_count, 1);
}

#[test]
fn share_publishes_the_head_under_the_user_namespace() {
    let p = plan_share("alice", Some(s("c9"))).unwrap();
    assert_eq!(p.remote_ref, "refs/weft/alice");
    assert_eq!(p.push_refspec, "c9:refs/weft/alice");
    assert!(matches!(plan_share("alice", None), Err(Fault::NotInitialized)));
}

#[test]
fn ahead_count_is_one_less_than_the_listing() {
    assert_eq!(ahead_count(""), 0);
    assert_eq!(ahead_count("only-root\n"), 0);
    assert_eq!(ahead_count("c2\nc1\nc0\n"), 2);
    assert_eq!(ahead_count("c2\n\nc1\n  \nc0\n"), 2);
}

#[test]
fn delta_count_counts_every_commit_of_the_range() {
    // A mirror-to-tip listing holds only the commits ahead of the mirror,
    // so nothing is subtracted.
    assert_eq!(weft::status::delta_count(""), 0);
    assert_eq!(weft::status::delta_count("c2\n"), 1);
    assert_eq!(weft::status::delta_count("c2\nc1\n"), 2);
    assert_eq!(weft::status::delta_count("c2\n \nc1\n"), 2);
}

#[test]
fn status_lists_non_blank_and_recent_lines() {
    let tangles = non_blank_lines("first [conflict]\n\nsecond [conflict]\n  \n");
    assert_eq!(tangles, vec![s("first [conflict]"), s("second [conflict]")]);
    let recent = recent_lines("  a\n b\nc\n d\ne\nf\n", 5);
    assert_eq!(recent, vec![s("a"), s("b"), s("c"), s("d"), s("e")]);
    let short = recent_lines("x\n", 5);
    assert_eq!(short, vec![s("x")]);
}

#[test]
fn errors_carry_their_tier() {
    let notice = WeftError::recoverable(s("already initialized"));
    assert!(notice.is_recoverable());
    assert_eq!(notice.exit_status(), 0);
    assert_eq!(notice.message(), "already initialized");
    let fatal = WeftError::fatal(s("no identity"));
    assert!(!fatal.is_recoverable());
    assert_eq!(fatal.exit_status(), 1);
    assert_eq!(fatal.message(), "no identity");
    assert!(!Fault::TangledCandidate.is_recoverable());
}

#[test]
fn clock_stamped_save_entry_pins_everything_but_the_time() {
    let e = weft::save::make_save_entry_now("msg", "c123");
    assert_eq!(e.command, "save");
    assert_eq!(e.args, vec![(s("message"), s("msg"))]);
    assert_eq!(e.inverse, vec![(s("commit"), s("c123")), (s("op"), s("delete-commit"))]);
    // The clock reading itself is whatever it is, but it must be recent
    // enough to be a real epoch timestamp.
    assert!(e.timestamp > 1_600_000_000);
}

#[test]
fn mainline_resolution_prefers_main_then_master() {
    assert_eq!(
        weft::sync::resolve_mainline(Some(s("m1")), Some(s("m2")), "h0"),
        (s("m1"), false)
    );
    assert_eq!(weft::sync::resolve_mainline(None, Some(s("m2")), "h0"), (s("m2"), false));
    assert_eq!(weft::sync::resolve_mainline(None, None, "h0"), (s("h0"), true));
}
