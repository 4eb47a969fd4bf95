//! The status reporter's arithmetic and surveys: all read-only, computed
//! from the texts that the engine and the store hand over.

use vstd::prelude::*;
use crate::oplog::{is_blank, lines_view, log_lines, split_lines, split_log};
use crate::strops::chars_to_string;
use crate::sync::{trimmed, trimmed_chars};

verus! {

/// How many commits the current line of work is ahead: one fewer than the
/// commits listed, never below zero (the root itself does not count).
pub open spec fn spec_ahead_count(text: Seq<char>) -> int {
    if log_lines(text).len() == 0 {
        0
    } else {
        log_lines(text).len() - 1
    }
}

fn count_non_blank(text: &str) -> (r: usize)
    ensures
        r == log_lines(text@).len(),
{
    let lines = split_log(text);
    let ghost all = split_lines(text@);
    let mut count: usize = 0;
    let mut j: usize = 0;
    proof {
        assert(all.take(0) =~= Seq::<Seq<char>>::empty());
        assert(Seq::<Seq<char>>::empty().filter(|l: Seq<char>| !is_blank(l)).len() == 0) by {
            reveal(Seq::filter);
        }
    }
    while j < lines.len()
        invariant
            j <= lines@.len(),
            lines_view(lines@) == all,
            all == split_lines(text@),
            count == all.take(j as int).filter(|l: Seq<char>| !is_blank(l)).len(),
            count <= j,
        decreases lines@.len() - j,
    {
        proof {
            assert(lines_view(lines@)[j as int] == lines@[j as int]@);
            reveal(Seq::filter);
            assert(all.take(j + 1).drop_last() =~= all.take(j as int));
            assert(all.take(j + 1).last() == all[j as int]);
        }
        if !crate::oplog::is_blank_line(lines[j].as_str()) {
            count = count + 1;
        }
        j = j + 1;
    }
    proof {
        assert(all.take(j as int) =~= all);
    }
    count
}

/// The ahead-of count out of a ranged listing: the engine is asked for
/// exactly the commits between the mainline mirror and the current tip, one
/// per line, and every one of them counts.
pub fn delta_count(commit_list: &str) -> (r: usize)
    ensures
        r == log_lines(commit_list@).len(),
{
    count_non_blank(commit_list)
}

/// The ahead-of count when no mainline mirror exists and the listing is the
/// whole history: one fewer than the commits listed, never below zero (the
/// root itself does not count).
pub fn ahead_count(commit_list: &str) -> (r: usize)
    ensures
        r == spec_ahead_count(commit_list@),
{
    let c = count_non_blank(commit_list);
    if c == 0 {
        0
    } else {
        c - 1
    }
}

/// The non-blank lines of a survey, in order: used for the listing of
/// tangled commits, which the engine reports one per line.
pub fn non_blank_lines(text: &str) -> (r: Vec<String>)
    ensures
        lines_view(r@) == log_lines(text@),
{
    let lines = split_log(text);
    let ghost all = split_lines(text@);
    let mut out: Vec<String> = Vec::new();
    let mut j: usize = 0;
    proof {
        assert(all.take(0) =~= Seq::<Seq<char>>::empty());
        assert(Seq::<Seq<char>>::empty().filter(|l: Seq<char>| !is_blank(l))
            =~= Seq::<Seq<char>>::empty()) by {
            reveal(Seq::filter);
        }
        assert(lines_view(out@) =~= Seq::<Seq<char>>::empty());
    }
    while j < lines.len()
        invariant
            j <= lines@.len(),
            lines_view(lines@) == all,
            all == split_lines(text@),
            lines_view(out@) == all.take(j as int).filter(|l: Seq<char>| !is_blank(l)),
        decreases lines@.len() - j,
    {
        proof {
            assert(lines_view(lines@)[j as int] == lines@[j as int]@);
            reveal(Seq::filter);
            assert(all.take(j + 1).drop_last() =~= all.take(j as int));
            assert(all.take(j + 1).last() == all[j as int]);
        }
        if !crate::oplog::is_blank_line(lines[j].as_str()) {
            let ghost lpre = lines_view(out@);
            let line = lines[j].clone();
            out.push(line);
            proof {
                assert(lines_view(out@) =~= lpre.push(all[j as int]));
            }
        }
        j = j + 1;
    }
    proof {
        assert(all.take(j as int) =~= all);
    }
    out
}

/// The first `limit` lines of the engine's recent-commit listing, each with
/// its spacing removed, ready to print.
pub fn recent_lines(text: &str, limit: usize) -> (r: Vec<String>)
    ensures
        r@.len() == if split_lines(text@).len() < limit {
            split_lines(text@).len() as int
        } else {
            limit as int
        },
        forall|i: int|
            0 <= i < r@.len() ==> #[trigger] r@[i]@ == trimmed(split_lines(text@)[i]),
{
    let lines = split_log(text);
    let ghost all = split_lines(text@);
    let take: usize = if lines.len() < limit {
        lines.len()
    } else {
        limit
    };
    let mut out: Vec<String> = Vec::new();
    let mut j: usize = 0;
    while j < take
        invariant
            j <= take <= lines@.len(),
            lines_view(lines@) == all,
            all == split_lines(text@),
            take == if all.len() < limit {
                all.len() as int
            } else {
                limit as int
            },
            out@.len() == j,
            forall|i: int| 0 <= i < j ==> #[trigger] out@[i]@ == trimmed(all[i]),
        decreases take - j,
    {
        proof {
            assert(lines_view(lines@)[j as int] == lines@[j as int]@);
        }
        let t = trimmed_chars(lines[j].as_str());
        out.push(chars_to_string(&t));
        j = j + 1;
    }
    out
}

} // verus!
