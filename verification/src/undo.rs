//! The undo decision: take the log's most recent entry and dispatch on its
//! inverse tag.  Only the decision is made here; carrying the chosen step
//! out against the repository is the surrounding program's part.

use vstd::prelude::*;
use crate::entry::{EntryModel, OpLogEntry};
use crate::error::Fault;
use crate::strops::str_eq;

verus! {

/// What an undo must do, according to the last entry's inverse.
#[derive(Debug, PartialEq, Eq)]
pub enum UndoStep {
    /// Delegate to the engine's own one-step native undo.
    EngineUndo,
    /// Repoint the named reference back to its recorded prior commit.
    ResetRef { ref_name: String, old_commit: String },
    /// A reset whose entry names no reference or no prior value: nothing to
    /// carry out, the command still reports success.
    NoEffect,
}

/// The value under the last occurrence of a key in a flat object (a later
/// duplicate key overrides an earlier one, as a JSON reader would have it).
pub open spec fn lookup_pair(ps: Seq<(Seq<char>, Seq<char>)>, k: Seq<char>) -> Option<Seq<char>>
    decreases ps.len(),
{
    if ps.len() == 0 {
        None
    } else if ps.last().0 == k {
        Some(ps.last().1)
    } else {
        lookup_pair(ps.drop_last(), k)
    }
}

pub open spec fn or_empty(o: Option<Seq<char>>) -> Seq<char> {
    match o {
        Some(s) => s,
        None => Seq::empty(),
    }
}

/// The inverse tag of an entry, an empty string where none is recorded.
pub open spec fn inverse_op(e: EntryModel) -> Seq<char> {
    or_empty(lookup_pair(e.inverse, "op"@))
}

fn lookup_value(ps: &Vec<(String, String)>, key: &str) -> (r: Option<String>)
    ensures
        match r {
            Some(v) => lookup_pair(crate::entry::pairs_view(ps@), key@) == Some(v@),
            None => lookup_pair(crate::entry::pairs_view(ps@), key@) is None,
        },
{
    let ghost view = crate::entry::pairs_view(ps@);
    let mut idx: usize = ps.len();
    proof {
        assert(view.take(idx as int) =~= view);
    }
    while idx > 0
        invariant
            idx <= ps@.len(),
            view == crate::entry::pairs_view(ps@),
            lookup_pair(view, key@) == lookup_pair(view.take(idx as int), key@),
        decreases idx,
    {
        let p = &ps[idx - 1];
        proof {
            assert(view[idx - 1] == (ps@[idx - 1].0@, ps@[idx - 1].1@));
            assert(view.take(idx as int).last() == view[idx - 1]);
            assert(view.take(idx as int).drop_last() =~= view.take(idx - 1));
        }
        if str_eq(p.0.as_str(), key) {
            return Some(p.1.clone());
        }
        idx = idx - 1;
    }
    proof {
        assert(view.take(0) =~= Seq::<(Seq<char>, Seq<char>)>::empty());
    }
    None
}

/// Decides what undoing the given (most recent) entry takes.  An unknown
/// inverse tag aborts the whole operation with nothing changed.
pub fn plan_undo(e: &OpLogEntry) -> (r: Result<UndoStep, Fault>)
    ensures
        ({
            let op = inverse_op(e@);
            let rn = or_empty(lookup_pair(e@.inverse, "ref"@));
            let oc = or_empty(lookup_pair(e@.inverse, "old"@));
            if op == "delete-commit"@ {
                r == Ok::<UndoStep, Fault>(UndoStep::EngineUndo)
            } else if op == "reset-ref"@ {
                if rn.len() > 0 && oc.len() > 0 {
                    &&& r matches Ok(s)
                    &&& s matches UndoStep::ResetRef { ref_name, old_commit }
                    &&& ref_name@ == rn
                    &&& old_commit@ == oc
                } else {
                    r == Ok::<UndoStep, Fault>(UndoStep::NoEffect)
                }
            } else {
                r == Err::<UndoStep, Fault>(Fault::UnknownInverseOp)
            }
        }),
{
    let op = match lookup_value(&e.inverse, "op") {
        Some(v) => v,
        None => String::new(),
    };
    if str_eq(op.as_str(), "delete-commit") {
        Ok(UndoStep::EngineUndo)
    } else if str_eq(op.as_str(), "reset-ref") {
        let rn = match lookup_value(&e.inverse, "ref") {
            Some(v) => v,
            None => String::new(),
        };
        let oc = match lookup_value(&e.inverse, "old") {
            Some(v) => v,
            None => String::new(),
        };
        if rn.as_str().unicode_len() > 0 && oc.as_str().unicode_len() > 0 {
            Ok(UndoStep::ResetRef { ref_name: rn, old_commit: oc })
        } else {
            Ok(UndoStep::NoEffect)
        }
    } else {
        Err(Fault::UnknownInverseOp)
    }
}

/// Undo/log coupling: the entry a save writes carries the `delete-commit`
/// inverse, so an undo right after a save always dispatches to the engine's
/// native one-step undo — never to a reference reset, never to a refusal.
pub proof fn lemma_save_undo_coupling(msg: Seq<char>, commit: Seq<char>, ts: int)
    ensures
        inverse_op(crate::save::save_entry_model(msg, commit, ts)) == "delete-commit"@,
        crate::save::save_entry_model(msg, commit, ts).command == "save"@,
{
    let inv = crate::save::save_entry_model(msg, commit, ts).inverse;
    assert(inv.last() == ("op"@, "delete-commit"@));
}

} // verus!
