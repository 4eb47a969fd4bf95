//! The save command's record keeping: every successful save appends exactly
//! one entry to the op log, whose inverse names the commit the engine
//! created so that an undo can take it back.

use vstd::prelude::*;
use crate::entry::{entry_rep, pairs_view, parse_entry_seq, EntryModel, OpLogEntry};
use crate::oplog::{appended_log, log_lines};

verus! {

/// The entry a save writes: command `save`, the message as its payload, and
/// a `delete-commit` inverse naming the new commit.
pub open spec fn save_entry_model(msg: Seq<char>, commit: Seq<char>, ts: int) -> EntryModel {
    EntryModel {
        timestamp: ts,
        command: "save"@,
        args: seq![("message"@, msg)],
        inverse: seq![("commit"@, commit), ("op"@, "delete-commit"@)],
    }
}

/// Builds the op log entry for one save.
pub fn make_save_entry(message: &str, commit_id: &str, timestamp: i64) -> (e: OpLogEntry)
    ensures
        e@ == save_entry_model(message@, commit_id@, timestamp as int),
{
    let mut args: Vec<(String, String)> = Vec::new();
    args.push((String::from_str("message"), String::from_str(message)));
    let mut inverse: Vec<(String, String)> = Vec::new();
    inverse.push((String::from_str("commit"), String::from_str(commit_id)));
    inverse.push((String::from_str("op"), String::from_str("delete-commit")));
    let e = OpLogEntry { timestamp, command: String::from_str("save"), args, inverse };
    proof {
        assert(pairs_view(e.args@) =~= seq![("message"@, message@)]);
        assert(pairs_view(e.inverse@) =~= seq![
            ("commit"@, commit_id@),
            ("op"@, "delete-commit"@),
        ]);
        assert(e@ =~= save_entry_model(message@, commit_id@, timestamp as int));
    }
    e
}

/// Relies on chrono's `From<SystemTime>` conversion for `DateTime<Utc>` and
/// its `timestamp()`: reads the wall clock as whole seconds since the epoch,
/// a clock set before the epoch coming out as negative seconds rather than a
/// panic.  Nothing is promised of the clock's value.
#[verifier::external_body]
pub fn now_timestamp() -> i64 {
    chrono::DateTime::<chrono::Utc>::from(std::time::SystemTime::now()).timestamp()
}

/// Builds the save entry stamped with the clock's current reading: every
/// field but the timestamp is pinned down.
pub fn make_save_entry_now(message: &str, commit_id: &str) -> (e: OpLogEntry)
    ensures
        e@ == save_entry_model(message@, commit_id@, e@.timestamp),
{
    let ts = now_timestamp();
    make_save_entry(message, commit_id, ts)
}

/// Save appends exactly one entry: the log's lines afterwards are the old
/// lines plus the one new save line, which parses back to the save entry —
/// in particular the last entry's command is then `save`.
pub proof fn lemma_save_appends_one(log: Seq<char>, msg: Seq<char>, commit: Seq<char>, ts: int)
    requires
        i64::MIN <= ts <= i64::MAX,
    ensures
        ({
            let line = entry_rep(save_entry_model(msg, commit, ts));
            let grown = appended_log(log, line);
            &&& log_lines(grown) == log_lines(log) + seq![line]
            &&& log_lines(grown).len() == log_lines(log).len() + 1
            &&& parse_entry_seq(log_lines(grown).last()) == Some(save_entry_model(msg, commit, ts))
            &&& parse_entry_seq(log_lines(grown).last()).unwrap().command == "save"@
        }),
{
    crate::oplog::lemma_append_entry(log, save_entry_model(msg, commit, ts));
}

/// The commit graph as the head tracker sees it: each commit created by a
/// save points back at the head it grew out of.
#[verifier::ext_equal]
pub ghost struct SaveHistory {
    pub head: Seq<char>,
    pub parent_of: Map<Seq<char>, Seq<char>>,
}

/// `a` reaches back to `b` in at most `fuel` parent steps.
pub open spec fn descends(
    parent_of: Map<Seq<char>, Seq<char>>,
    a: Seq<char>,
    b: Seq<char>,
    fuel: nat,
) -> bool
    decreases fuel,
{
    a == b || (fuel > 0 && parent_of.contains_key(a) && descends(
        parent_of,
        parent_of[a],
        b,
        (fuel - 1) as nat,
    ))
}

/// What one save does to the history: the engine checkpoints a fresh commit
/// on top of the current head, and the head advances to it.
pub open spec fn apply_save(s: SaveHistory, new_commit: Seq<char>) -> SaveHistory {
    SaveHistory { head: new_commit, parent_of: s.parent_of.insert(new_commit, s.head) }
}

/// Fresh growth keeps old ancestry: a commit the graph has never seen adds
/// reachability without taking any away.
pub proof fn lemma_descends_preserved(
    parent_of: Map<Seq<char>, Seq<char>>,
    fresh: Seq<char>,
    head: Seq<char>,
    a: Seq<char>,
    b: Seq<char>,
    fuel: nat,
)
    requires
        !parent_of.contains_key(fresh),
        descends(parent_of, a, b, fuel),
    ensures
        descends(parent_of.insert(fresh, head), a, b, fuel),
    decreases fuel,
{
    if a != b {
        lemma_descends_preserved(parent_of, fresh, head, parent_of[a], b, (fuel - 1) as nat);
    }
}

/// Save monotonicity over any sequence of saves: after each save of a fresh
/// commit the head descends from the head before the call (in one step),
/// and everything any earlier head descended from, the record still shows.
pub proof fn lemma_save_monotonic(s: SaveHistory, new_commit: Seq<char>)
    requires
        !s.parent_of.contains_key(new_commit),
    ensures
        descends(apply_save(s, new_commit).parent_of, apply_save(s, new_commit).head, s.head, 1),
        forall|a: Seq<char>, b: Seq<char>, fuel: nat|
            descends(s.parent_of, a, b, fuel) ==> #[trigger] descends(
                apply_save(s, new_commit).parent_of,
                a,
                b,
                fuel,
            ),
{
    let grown = apply_save(s, new_commit);
    assert(grown.parent_of.contains_key(new_commit));
    assert(grown.parent_of[new_commit] == s.head);
    assert(descends(grown.parent_of, s.head, s.head, 0));
    assert forall|a: Seq<char>, b: Seq<char>, fuel: nat|
        descends(s.parent_of, a, b, fuel) implies #[trigger] descends(
        grown.parent_of,
        a,
        b,
        fuel,
    ) by {
        lemma_descends_preserved(s.parent_of, new_commit, s.head, a, b, fuel);
    }
}

} // verus!
