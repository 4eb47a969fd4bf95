//! The sync engine's decisions: which commit to rebase onto, how the head
//! moves afterwards, and how the engine's per-commit conflict answers are
//! counted.  Sync is unconditionally non-blocking: for an initialized weft
//! it always produces a plan and always ends in a report — conflicts are
//! counted, never refused.

use vstd::prelude::*;
use crate::error::Fault;
use crate::oplog::{is_blank_char, log_lines, split_lines};
use crate::strops::{chars_to_string, str_eq, str_to_chars};

verus! {

/// Leading spacing removed.
pub open spec fn trim_front(l: Seq<char>) -> Seq<char>
    decreases l.len(),
{
    if l.len() > 0 && is_blank_char(l[0]) {
        trim_front(l.drop_first())
    } else {
        l
    }
}

/// Trailing spacing removed.
pub open spec fn trim_back(l: Seq<char>) -> Seq<char>
    decreases l.len(),
{
    if l.len() > 0 && is_blank_char(l.last()) {
        trim_back(l.drop_last())
    } else {
        l
    }
}

/// A line with its surrounding spacing removed.
pub open spec fn trimmed(l: Seq<char>) -> Seq<char> {
    trim_back(trim_front(l))
}

/// Whether position `i` of `v` holds spacing.
fn blank_at(v: &Vec<char>, i: usize) -> (r: bool)
    ensures
        r == (i < v@.len() && is_blank_char(v@[i as int])),
{
    if i < v.len() {
        let c = v[i];
        c == ' ' || c == '\t' || c == '\r'
    } else {
        false
    }
}

/// The characters of `l` with leading and trailing spacing removed.
pub fn trimmed_chars(l: &str) -> (r: Vec<char>)
    ensures
        r@ == trimmed(l@),
{
    let v = str_to_chars(l);
    let n: usize = v.len();
    let mut start: usize = 0;
    proof {
        assert(v@.skip(0) =~= l@);
    }
    while blank_at(&v, start)
        invariant
            start <= n,
            n == v@.len(),
            v@ == l@,
            trim_front(l@) == trim_front(v@.skip(start as int)),
        decreases n - start,
    {
        proof {
            assert(v@.skip(start as int)[0] == v@[start as int]);
            assert(v@.skip(start as int).drop_first() =~= v@.skip(start + 1));
        }
        start = start + 1;
    }
    proof {
        if start < n {
            assert(v@.skip(start as int)[0] == v@[start as int]);
            assert(trim_front(v@.skip(start as int)) == v@.skip(start as int));
        } else {
            assert(v@.skip(start as int) =~= Seq::<char>::empty());
        }
    }
    let mut end: usize = n;
    let ghost base = v@.skip(start as int);
    proof {
        assert(v@.skip(start as int) =~= v@.subrange(start as int, end as int));
    }
    while end > start && blank_at(&v, end - 1)
        invariant
            start <= end <= n,
            n == v@.len(),
            v@ == l@,
            base == v@.skip(start as int),
            trim_front(l@) == base,
            trim_back(base) == trim_back(v@.subrange(start as int, end as int)),
        decreases end,
    {
        proof {
            let cur = v@.subrange(start as int, end as int);
            assert(cur.last() == v@[end - 1]);
            assert(cur.drop_last() =~= v@.subrange(start as int, end - 1));
        }
        end = end - 1;
    }
    proof {
        let cur = v@.subrange(start as int, end as int);
        if end > start {
            assert(cur.last() == v@[end - 1]);
            assert(trim_back(cur) == cur);
        } else {
            assert(cur =~= Seq::<char>::empty());
        }
    }
    let mut out: Vec<char> = Vec::new();
    let mut i: usize = start;
    while i < end
        invariant
            start <= i <= end <= v@.len(),
            out@ == v@.subrange(start as int, i as int),
        decreases end - i,
    {
        out.push(v[i]);
        proof {
            assert(out@ =~= v@.subrange(start as int, i + 1));
        }
        i = i + 1;
    }
    proof {
        assert(out@ == trimmed(l@));
    }
    out
}

/// The engine's conflict survey, one line per commit: how many commits it
/// reported as tangled.
pub open spec fn tangled_count(text: Seq<char>) -> int {
    split_lines(text).filter(|l: Seq<char>| trimmed(l) == "tangled"@).len() as int
}

/// Counts the lines of the engine's conflict survey that read `tangled`.
pub fn count_tangled(text: &str) -> (r: usize)
    ensures
        r == tangled_count(text@),
{
    let lines = crate::oplog::split_log(text);
    let ghost all = split_lines(text@);
    let mut count: usize = 0;
    let mut j: usize = 0;
    proof {
        assert(all.take(0) =~= Seq::<Seq<char>>::empty());
        assert(Seq::<Seq<char>>::empty().filter(|l: Seq<char>| trimmed(l) == "tangled"@).len()
            == 0) by {
            reveal(Seq::filter);
        }
    }
    while j < lines.len()
        invariant
            j <= lines@.len(),
            crate::oplog::lines_view(lines@) == all,
            all == split_lines(text@),
            count == all.take(j as int).filter(|l: Seq<char>| trimmed(l) == "tangled"@).len(),
            count <= j,
        decreases lines@.len() - j,
    {
        let t = trimmed_chars(lines[j].as_str());
        let ts = chars_to_string(&t);
        proof {
            assert(crate::oplog::lines_view(lines@)[j as int] == lines@[j as int]@);
            reveal(Seq::filter);
            assert(all.take(j + 1).drop_last() =~= all.take(j as int));
            assert(all.take(j + 1).last() == all[j as int]);
        }
        if str_eq(ts.as_str(), "tangled") {
            count = count + 1;
        }
        j = j + 1;
    }
    proof {
        assert(all.take(j as int) =~= all);
    }
    count
}

/// Which mainline commit the repository offers: the `main` branch, else the
/// `master` branch, else the current head — in which case a local `main`
/// pointer is to be created there.
pub open spec fn spec_mainline(
    main: Option<Seq<char>>,
    master: Option<Seq<char>>,
    head_commit: Seq<char>,
) -> (Seq<char>, bool) {
    match main {
        Some(m) => (m, false),
        None => match master {
            Some(m) => (m, false),
            None => (head_commit, true),
        },
    }
}

/// The commit sync rebases onto: the mirrored remote mainline when one is
/// known, the local mainline otherwise.
pub open spec fn spec_sync_target(origin_main: Option<Seq<char>>, mainline: Seq<char>) -> Seq<
    char,
> {
    match origin_main {
        Some(o) => o,
        None => mainline,
    }
}

/// Resolves the mainline commit as [`spec_mainline`] says, and whether a
/// local `main` pointer has to be created for it.
pub fn resolve_mainline(main: Option<String>, master: Option<String>, head_commit: &str) -> (r:
    (String, bool))
    ensures
        r.0@ == spec_mainline(main.deep_view(), master.deep_view(), head_commit@).0,
        r.1 == spec_mainline(main.deep_view(), master.deep_view(), head_commit@).1,
{
    match main {
        Some(m) => (m, false),
        None => match master {
            Some(m) => (m, false),
            None => (String::from_str(head_commit), true),
        },
    }
}

/// Everything sync decides before it calls the engine.
pub struct SyncPlan {
    /// The weft head the rebased range starts at.
    pub head: String,
    /// The commit to rebase onto.
    pub target: String,
    /// Whether a local `main` pointer must first be created at the current
    /// head, because neither `main` nor `master` exists.
    pub create_main: bool,
}

/// Decides the whole sync, from what the repository shows.  For every
/// initialized weft this succeeds, whatever the graph looks like; only a
/// missing weft head refuses.
pub fn plan_sync(
    weft_head: Option<String>,
    main: Option<String>,
    master: Option<String>,
    head_commit: &str,
    origin_main: Option<String>,
) -> (r: Result<SyncPlan, Fault>)
    ensures
        ({
            let ml = spec_mainline(main.deep_view(), master.deep_view(), head_commit@);
            match r {
                Ok(p) => {
                    &&& weft_head matches Some(h) && p.head@ == h@
                    &&& p.target@ == spec_sync_target(origin_main.deep_view(), ml.0)
                    &&& p.create_main == (origin_main is None && ml.1)
                },
                Err(f) => f == Fault::NotInitialized && weft_head is None,
            }
        }),
{
    let head = match weft_head {
        Some(h) => h,
        None => {
            return Err(Fault::NotInitialized);
        },
    };
    match origin_main {
        Some(o) => Ok(SyncPlan { head, target: o, create_main: false }),
        None => match main {
            Some(m) => Ok(SyncPlan { head, target: m, create_main: false }),
            None => match master {
                Some(m) => Ok(SyncPlan { head, target: m, create_main: false }),
                None => Ok(
                    SyncPlan { head, target: String::from_str(head_commit), create_main: true },
                ),
            },
        },
    }
}

/// Where the head pointer is advanced to after the rebase: the engine may
/// have moved the head, and its reading wins; if the pointer vanished the
/// old reading is kept.
pub fn sync_new_head(old_head: &str, reread: Option<String>) -> (r: String)
    ensures
        r@ == match reread {
            Some(h) => h@,
            None => old_head@,
        },
{
    match reread {
        Some(h) => h,
        None => String::from_str(old_head),
    }
}

/// What sync reports: the number of tangled commits left in the synced
/// range.  There is no failing variant — conflicts are data, not errors.
pub struct SyncReport {
    pub tangled_count: usize,
}

/// Closes a sync: counts the tangles out of the engine's conflict survey.
/// Always succeeds, whatever the survey holds.
pub fn sync_report(conflict_survey: &str) -> (r: SyncReport)
    ensures
        r.tangled_count == tangled_count(conflict_survey@),
{
    SyncReport { tangled_count: count_tangled(conflict_survey) }
}

} // verus!
