//! The weft head tracker: one named pointer per user, created by `init` and
//! advanced by every mutating command.  `init` decides here what is to be
//! written; the pointer writes themselves are the surrounding program's part.

use vstd::prelude::*;

verus! {

/// The tracker's state for one user, as the decision logic sees it: the head
/// pointer, if any, and whether the op log pointer exists.
#[verifier::ext_equal]
pub ghost struct TrackerState {
    pub head: Option<Seq<char>>,
    pub op_log_exists: bool,
}

/// What `init` does to the tracker: nothing when a head already exists,
/// otherwise it points the head at the mainline tip and makes sure the op
/// log exists.
pub open spec fn apply_init(s: TrackerState, mainline_tip: Seq<char>) -> TrackerState {
    if s.head is Some {
        s
    } else {
        TrackerState { head: Some(mainline_tip), op_log_exists: true }
    }
}

/// Initializing twice never alters an existing head: the second `init` is a
/// no-op whatever tip it sees.
pub proof fn lemma_init_idempotent(s: TrackerState, tip1: Seq<char>, tip2: Seq<char>)
    ensures
        apply_init(apply_init(s, tip1), tip2) == apply_init(s, tip1),
{
}

/// The writes `init` asks for.
#[derive(Debug, PartialEq, Eq)]
pub enum InitOutcome {
    /// The user's head already exists: a recoverable notice, and nothing is
    /// written.
    AlreadyInitialized,
    /// Write the head at the current mainline tip, and create an empty op
    /// log if none exists yet.
    Initialize { create_op_log: bool },
}

/// The state after the asked-for writes are carried out.
pub open spec fn apply_outcome(s: TrackerState, tip: Seq<char>, o: InitOutcome) -> TrackerState {
    match o {
        InitOutcome::AlreadyInitialized => s,
        InitOutcome::Initialize { create_op_log } => (TrackerState {
            head: Some(tip),
            op_log_exists: s.op_log_exists || create_op_log,
        }),
    }
}

/// Decides what `init` writes, from what exists.  Carrying the outcome out
/// takes any matching state exactly to [`apply_init`] of it.
pub fn plan_init(head_exists: bool, op_log_exists: bool) -> (r: InitOutcome)
    ensures
        head_exists <==> r is AlreadyInitialized,
        r matches InitOutcome::Initialize { create_op_log } ==> create_op_log == !op_log_exists,
        forall|s: TrackerState, tip: Seq<char>|
            ((s.head is Some) == head_exists && s.op_log_exists == op_log_exists) ==> #[trigger]
                apply_outcome(s, tip, r) == apply_init(s, tip),
{
    if head_exists {
        InitOutcome::AlreadyInitialized
    } else {
        let r = InitOutcome::Initialize { create_op_log: !op_log_exists };
        proof {
            assert forall|s: TrackerState, tip: Seq<char>|
                ((s.head is Some) == head_exists && s.op_log_exists == op_log_exists) implies #[trigger]
                    apply_outcome(s, tip, r) == apply_init(s, tip) by {
                assert(apply_outcome(s, tip, r) =~= apply_init(s, tip));
            }
        }
        r
    }
}

} // verus!
