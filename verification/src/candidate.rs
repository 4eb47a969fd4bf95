//! The candidate lifecycle: a proposal publishes a disposable branch, and a
//! weave fast-forwards the shared mainline onto it.  The weave is driven as
//! a state machine: the surrounding program performs one action at a time
//! against the store and the engine and feeds the result back as an event.
//! Two guards are proved of every run: a tangled candidate never reaches
//! mainline, and a mainline that moved under the proposal leaves the
//! candidate reference in place for a retry.

use vstd::prelude::*;
use crate::error::Fault;
use crate::refs::{candidate_id, candidate_id_spec, candidate_ref, candidate_ref_spec};

verus! {

/// Everything propose decides: the candidate's name, its reference, and the
/// push that publishes it.
pub struct ProposePlan {
    /// `{user}-{first 8 characters of the commit hash}`.
    pub candidate_id: String,
    /// `refs/loom/{candidate_id}`.
    pub candidate_ref: String,
    /// The refspec that publishes the commit under the candidate reference.
    pub push_refspec: String,
}

/// Derives the candidate and its publication from the user and the commit
/// the engine resolved for the current change.
pub fn plan_propose(user: &str, commit: &str) -> (r: ProposePlan)
    ensures
        r.candidate_id@ == candidate_id_spec(user@, commit@),
        r.candidate_ref@ == candidate_ref_spec(candidate_id_spec(user@, commit@)),
        r.push_refspec@ == commit@ + ":"@ + candidate_ref_spec(candidate_id_spec(user@, commit@)),
{
    let id = candidate_id(user, commit);
    let cref = candidate_ref(id.as_str());
    let mut push_refspec = String::from_str(commit);
    push_refspec.append(":");
    push_refspec.append(cref.as_str());
    ProposePlan { candidate_id: id, candidate_ref: cref, push_refspec }
}

/// Where a weave stands.
#[derive(PartialEq, Eq, Structural, Clone, Copy, Debug)]
pub enum WeavePhase {
    /// Looking the candidate up, locally first, then on the shared store.
    Resolving,
    /// The candidate is resolved; its conflict state is being queried.
    ConflictChecking,
    /// The commit is clean; the local mainline's existence is being checked.
    MainChecking,
    /// The publication onto the shared mainline is in flight.
    Pushing,
    /// Mainline is updated; the local mirror refresh (best-effort) runs.
    Mirroring,
    /// The candidate reference's deletion (best-effort) runs.
    CleaningUp,
    /// The weave is complete.
    Finished,
    /// The weave failed; nothing further will be asked for.
    Failed,
}

/// What the surrounding program reports back after each action.
pub enum WeaveEvent {
    /// The candidate reference resolved locally to this commit.
    LocalFound { commit: String },
    /// No local candidate reference exists.
    LocalAbsent,
    /// The fetch from the shared store succeeded: look the candidate up again.
    Fetched,
    /// The fetch from the shared store failed.
    FetchFailed,
    /// The engine's conflict predicate for the candidate's commit.
    Conflicted { tangled: bool },
    /// Whether a local mainline reference exists.
    MainExists { exists: bool },
    /// The shared mainline accepted the fast-forward.
    Pushed,
    /// The shared store rejected the update as a non-fast-forward.
    PushRejectedNonFastForward,
    /// The push failed for any other reason.
    PushFailed,
    /// The local mirror refresh ran (a failure is only warned about).
    MirrorDone,
    /// The candidate deletion ran (a failure is only warned about).
    CleanupDone,
}

/// What the surrounding program is asked to do next.
#[derive(Debug, PartialEq, Eq)]
pub enum WeaveAction {
    /// Resolve the candidate reference locally.
    LookupCandidate,
    /// Fetch the candidate reference from the shared store.
    FetchCandidate,
    /// Ask the engine whether the candidate's commit carries conflicts.
    CheckConflict,
    /// Check whether the local mainline reference exists.
    CheckMainExists,
    /// Publish the candidate's commit onto the shared mainline.
    PushMainline,
    /// Refresh the local mainline mirror; failure is only a warning.
    UpdateMirror,
    /// Delete the candidate reference from the shared store; failure is
    /// only a warning.
    DeleteCandidate,
    /// The weave is complete.
    Done,
    /// The weave failed with this fault.
    Fail { fault: Fault },
    /// The event does not belong to the current phase; nothing changes.
    Ignore,
}

/// One weave in progress.
pub struct WeaveMachine {
    /// `refs/loom/{candidate_id}`.
    pub candidate_ref: String,
    /// The candidate's commit, once resolved.
    pub commit: Option<String>,
    /// Whether a fetch from the shared store was already tried.
    pub fetched: bool,
    pub phase: WeavePhase,
}

/// The whole transition relation of a weave, one event at a time.
pub open spec fn spec_step(m: WeaveMachine, ev: WeaveEvent) -> (WeaveMachine, WeaveAction) {
    match m.phase {
        WeavePhase::Resolving => match ev {
            WeaveEvent::LocalFound { commit } => (
                WeaveMachine { commit: Some(commit), phase: WeavePhase::ConflictChecking, ..m },
                WeaveAction::CheckConflict,
            ),
            WeaveEvent::LocalAbsent => {
                if m.fetched {
                    (
                        WeaveMachine { phase: WeavePhase::Failed, ..m },
                        WeaveAction::Fail { fault: Fault::CandidateNotFound },
                    )
                } else {
                    (WeaveMachine { fetched: true, ..m }, WeaveAction::FetchCandidate)
                }
            },
            WeaveEvent::Fetched => (m, WeaveAction::LookupCandidate),
            WeaveEvent::FetchFailed => (
                WeaveMachine { phase: WeavePhase::Failed, ..m },
                WeaveAction::Fail { fault: Fault::CandidateNotFound },
            ),
            _ => (m, WeaveAction::Ignore),
        },
        WeavePhase::ConflictChecking => match ev {
            WeaveEvent::Conflicted { tangled } => {
                if tangled {
                    (
                        WeaveMachine { phase: WeavePhase::Failed, ..m },
                        WeaveAction::Fail { fault: Fault::TangledCandidate },
                    )
                } else {
                    (
                        WeaveMachine { phase: WeavePhase::MainChecking, ..m },
                        WeaveAction::CheckMainExists,
                    )
                }
            },
            _ => (m, WeaveAction::Ignore),
        },
        WeavePhase::MainChecking => match ev {
            WeaveEvent::MainExists { exists } => {
                if exists {
                    (WeaveMachine { phase: WeavePhase::Pushing, ..m }, WeaveAction::PushMainline)
                } else {
                    (
                        WeaveMachine { phase: WeavePhase::Failed, ..m },
                        WeaveAction::Fail { fault: Fault::NoMainBranch },
                    )
                }
            },
            _ => (m, WeaveAction::Ignore),
        },
        WeavePhase::Pushing => match ev {
            WeaveEvent::Pushed => (
                WeaveMachine { phase: WeavePhase::Mirroring, ..m },
                WeaveAction::UpdateMirror,
            ),
            WeaveEvent::PushRejectedNonFastForward => (
                WeaveMachine { phase: WeavePhase::Failed, ..m },
                WeaveAction::Fail { fault: Fault::MainlineMoved },
            ),
            WeaveEvent::PushFailed => (
                WeaveMachine { phase: WeavePhase::Failed, ..m },
                WeaveAction::Fail { fault: Fault::PublishFailed },
            ),
            _ => (m, WeaveAction::Ignore),
        },
        WeavePhase::Mirroring => match ev {
            WeaveEvent::MirrorDone => (
                WeaveMachine { phase: WeavePhase::CleaningUp, ..m },
                WeaveAction::DeleteCandidate,
            ),
            _ => (m, WeaveAction::Ignore),
        },
        WeavePhase::CleaningUp => match ev {
            WeaveEvent::CleanupDone => (
                WeaveMachine { phase: WeavePhase::Finished, ..m },
                WeaveAction::Done,
            ),
            _ => (m, WeaveAction::Ignore),
        },
        WeavePhase::Finished => (m, WeaveAction::Ignore),
        WeavePhase::Failed => (m, WeaveAction::Ignore),
    }
}

impl WeaveMachine {
    /// Starts a weave of the named candidate; the first action is the local
    /// lookup.
    pub fn start(candidate_id_text: &str) -> (r: (Self, WeaveAction))
        ensures
            r.0.candidate_ref@ == candidate_ref_spec(candidate_id_text@),
            r.0.commit is None,
            r.0.fetched == false,
            r.0.phase == WeavePhase::Resolving,
            r.1 == WeaveAction::LookupCandidate,
    {
        let m = WeaveMachine {
            candidate_ref: candidate_ref(candidate_id_text),
            commit: None,
            fetched: false,
            phase: WeavePhase::Resolving,
        };
        (m, WeaveAction::LookupCandidate)
    }

    /// Feeds one event in and hands the next action back: exactly the
    /// transition [`spec_step`] describes.
    pub fn step(&mut self, ev: WeaveEvent) -> (a: WeaveAction)
        ensures
            *final(self) == spec_step(*old(self), ev).0,
            a == spec_step(*old(self), ev).1,
    {
        match self.phase {
            WeavePhase::Resolving => match ev {
                WeaveEvent::LocalFound { commit } => {
                    self.commit = Some(commit);
                    self.phase = WeavePhase::ConflictChecking;
                    WeaveAction::CheckConflict
                },
                WeaveEvent::LocalAbsent => {
                    if self.fetched {
                        self.phase = WeavePhase::Failed;
                        WeaveAction::Fail { fault: Fault::CandidateNotFound }
                    } else {
                        self.fetched = true;
                        WeaveAction::FetchCandidate
                    }
                },
                WeaveEvent::Fetched => WeaveAction::LookupCandidate,
                WeaveEvent::FetchFailed => {
                    self.phase = WeavePhase::Failed;
                    WeaveAction::Fail { fault: Fault::CandidateNotFound }
                },
                _ => WeaveAction::Ignore,
            },
            WeavePhase::ConflictChecking => match ev {
                WeaveEvent::Conflicted { tangled } => {
                    if tangled {
                        self.phase = WeavePhase::Failed;
                        WeaveAction::Fail { fault: Fault::TangledCandidate }
                    } else {
                        self.phase = WeavePhase::MainChecking;
                        WeaveAction::CheckMainExists
                    }
                },
                _ => WeaveAction::Ignore,
            },
            WeavePhase::MainChecking => match ev {
                WeaveEvent::MainExists { exists } => {
                    if exists {
                        self.phase = WeavePhase::Pushing;
                        WeaveAction::PushMainline
                    } else {
                        self.phase = WeavePhase::Failed;
                        WeaveAction::Fail { fault: Fault::NoMainBranch }
                    }
                },
                _ => WeaveAction::Ignore,
            },
            WeavePhase::Pushing => match ev {
                WeaveEvent::Pushed => {
                    self.phase = WeavePhase::Mirroring;
                    WeaveAction::UpdateMirror
                },
                WeaveEvent::PushRejectedNonFastForward => {
                    self.phase = WeavePhase::Failed;
                    WeaveAction::Fail { fault: Fault::MainlineMoved }
                },
                WeaveEvent::PushFailed => {
                    self.phase = WeavePhase::Failed;
                    WeaveAction::Fail { fault: Fault::PublishFailed }
                },
                _ => WeaveAction::Ignore,
            },
            WeavePhase::Mirroring => match ev {
                WeaveEvent::MirrorDone => {
                    self.phase = WeavePhase::CleaningUp;
                    WeaveAction::DeleteCandidate
                },
                _ => WeaveAction::Ignore,
            },
            WeavePhase::CleaningUp => match ev {
                WeaveEvent::CleanupDone => {
                    self.phase = WeavePhase::Finished;
                    WeaveAction::Done
                },
                _ => WeaveAction::Ignore,
            },
            WeavePhase::Finished => WeaveAction::Ignore,
            WeavePhase::Failed => WeaveAction::Ignore,
        }
    }
}

/// Once a weave is past resolution, it knows the candidate's commit.
pub open spec fn commit_resolved(m: WeaveMachine) -> bool {
    (m.phase is ConflictChecking || m.phase is MainChecking || m.phase is Pushing || m.phase
        is Mirroring || m.phase is CleaningUp) ==> m.commit is Some
}

/// The machine starts with the commit unresolved and resolution is kept by
/// every step: whenever a conflict check or a push is asked for, the commit
/// it concerns is at hand.
pub proof fn lemma_step_preserves_resolution(m: WeaveMachine, ev: WeaveEvent)
    requires
        commit_resolved(m),
    ensures
        commit_resolved(spec_step(m, ev).0),
        spec_step(m, ev).1 is CheckConflict ==> spec_step(m, ev).0.commit is Some,
        spec_step(m, ev).1 is PushMainline ==> spec_step(m, ev).0.commit is Some,
{
}

/// The conflict guard: a candidate whose commit the engine classifies as
/// tangled fails the weave with the tangled fault, and no step of any weave
/// publishes to mainline or deletes the candidate reference except straight
/// after a clean conflict check has led it there — mainline is written only
/// from the phase that a clean check alone enters, and the candidate
/// reference is deleted only once the mainline push has succeeded.
pub proof fn lemma_weave_conflict_guard(m: WeaveMachine, ev: WeaveEvent)
    ensures
        (m.phase is ConflictChecking && (ev matches WeaveEvent::Conflicted { tangled }
            && tangled)) ==> spec_step(m, ev).1 == (WeaveAction::Fail {
            fault: Fault::TangledCandidate,
        }) && spec_step(m, ev).0.phase is Failed,
        spec_step(m, ev).1 is PushMainline ==> m.phase is MainChecking,
        (!(m.phase is MainChecking) && spec_step(m, ev).0.phase is MainChecking) ==> (m.phase
            is ConflictChecking && (ev matches WeaveEvent::Conflicted { tangled } && !tangled)),
        spec_step(m, ev).1 is DeleteCandidate ==> m.phase is Mirroring && ev is MirrorDone,
        (!(m.phase is Mirroring) && spec_step(m, ev).0.phase is Mirroring) ==> (m.phase
            is Pushing && ev is Pushed),
{
}

/// The race guard: a non-fast-forward rejection from the shared store fails
/// the weave with the mainline-moved fault and ends it — and since the
/// candidate reference is only ever deleted after a successful push (see
/// the conflict guard), the failed weave leaves it in place for a retry.
pub proof fn lemma_weave_race_guard(m: WeaveMachine, ev: WeaveEvent)
    ensures
        (m.phase is Pushing && ev is PushRejectedNonFastForward) ==> spec_step(m, ev).1 == (
        WeaveAction::Fail { fault: Fault::MainlineMoved }) && spec_step(m, ev).0.phase is Failed,
        m.phase is Failed ==> spec_step(m, ev).0 == m && spec_step(m, ev).1 is Ignore,
        spec_step(m, ev).0.candidate_ref == m.candidate_ref,
{
}

/// The actions a weave asks for over a whole run of events.
pub open spec fn run_weave(m: WeaveMachine, evs: Seq<WeaveEvent>) -> Seq<WeaveAction>
    decreases evs.len(),
{
    if evs.len() == 0 {
        Seq::empty()
    } else {
        seq![spec_step(m, evs[0]).1] + run_weave(spec_step(m, evs[0]).0, evs.drop_first())
    }
}

/// An event that reports the candidate's commit clean.
pub open spec fn is_clean_check(ev: WeaveEvent) -> bool {
    ev matches WeaveEvent::Conflicted { tangled } && !tangled
}

/// The conflict guard over whole runs: as long as the engine never reports
/// the candidate's commit clean — in particular, when it is classified
/// tangled — no run of the weave, however driven, ever asks for the
/// mainline to be written or for the candidate reference to be deleted.
pub proof fn lemma_weave_run_conflict_guard(m: WeaveMachine, evs: Seq<WeaveEvent>)
    requires
        m.phase is Resolving || m.phase is ConflictChecking || m.phase is Failed,
        forall|i: int| 0 <= i < evs.len() ==> !is_clean_check(#[trigger] evs[i]),
    ensures
        forall|i: int|
            0 <= i < run_weave(m, evs).len() ==> !(#[trigger] run_weave(m, evs)[i]
                is PushMainline) && !(run_weave(m, evs)[i] is DeleteCandidate),
    decreases evs.len(),
{
    if evs.len() > 0 {
        let stepped = spec_step(m, evs[0]);
        assert(!is_clean_check(evs[0]));
        assert(stepped.0.phase is Resolving || stepped.0.phase is ConflictChecking
            || stepped.0.phase is Failed);
        assert(!(stepped.1 is PushMainline) && !(stepped.1 is DeleteCandidate));
        assert(forall|i: int|
            0 <= i < evs.drop_first().len() ==> !is_clean_check(
                #[trigger] evs.drop_first()[i],
            ));
        lemma_weave_run_conflict_guard(stepped.0, evs.drop_first());
        let whole = run_weave(m, evs);
        let rest = run_weave(stepped.0, evs.drop_first());
        assert forall|i: int| 0 <= i < whole.len() implies !(#[trigger] whole[i]
            is PushMainline) && !(whole[i] is DeleteCandidate) by {
            if i > 0 {
                assert(whole[i] == rest[i - 1]);
            }
        }
    }
}

/// The race guard over whole runs: as long as the shared store never
/// accepts the mainline push — in particular, when it rejects it as a
/// non-fast-forward — no run of the weave ever asks for the candidate
/// reference to be deleted: it stays in place for a retry.
pub proof fn lemma_weave_run_race_guard(m: WeaveMachine, evs: Seq<WeaveEvent>)
    requires
        !(m.phase is Mirroring) && !(m.phase is CleaningUp),
        forall|i: int| 0 <= i < evs.len() ==> !(#[trigger] evs[i] is Pushed),
    ensures
        forall|i: int|
            0 <= i < run_weave(m, evs).len() ==> !(#[trigger] run_weave(m, evs)[i]
                is DeleteCandidate),
    decreases evs.len(),
{
    if evs.len() > 0 {
        let stepped = spec_step(m, evs[0]);
        assert(!(evs[0] is Pushed));
        assert(!(stepped.0.phase is Mirroring) && !(stepped.0.phase is CleaningUp));
        assert(!(stepped.1 is DeleteCandidate));
        assert(forall|i: int|
            0 <= i < evs.drop_first().len() ==> !(#[trigger] evs.drop_first()[i] is Pushed));
        lemma_weave_run_race_guard(stepped.0, evs.drop_first());
        let whole = run_weave(m, evs);
        let rest = run_weave(stepped.0, evs.drop_first());
        assert forall|i: int| 0 <= i < whole.len() implies !(#[trigger] whole[i]
            is DeleteCandidate) by {
            if i > 0 {
                assert(whole[i] == rest[i - 1]);
            }
        }
    }
}

} // verus!
