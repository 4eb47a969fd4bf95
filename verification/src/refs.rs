//! The reference namespace: where weft heads, the op log, candidates and the
//! mainline live in the underlying store.  The names are built here so that
//! every command spells them the same way.

use vstd::prelude::*;

verus! {

pub open spec fn weft_head_ref_spec(user: Seq<char>) -> Seq<char> {
    "refs/weft/"@ + user + "/head"@
}

pub open spec fn op_log_ref_spec() -> Seq<char> {
    "refs/weft/op-log"@
}

pub open spec fn candidate_ref_spec(candidate_id: Seq<char>) -> Seq<char> {
    "refs/loom/"@ + candidate_id
}

pub open spec fn main_ref_spec() -> Seq<char> {
    "refs/heads/main"@
}

pub open spec fn master_ref_spec() -> Seq<char> {
    "refs/heads/master"@
}

pub open spec fn origin_main_ref_spec() -> Seq<char> {
    "refs/remotes/origin/main"@
}

/// The local mainline branch.
pub fn main_ref() -> (r: String)
    ensures
        r@ == main_ref_spec(),
{
    String::from_str("refs/heads/main")
}

/// The other customary name for the local mainline branch.
pub fn master_ref() -> (r: String)
    ensures
        r@ == master_ref_spec(),
{
    String::from_str("refs/heads/master")
}

/// The mirror of the shared mainline.
pub fn origin_main_ref() -> (r: String)
    ensures
        r@ == origin_main_ref_spec(),
{
    String::from_str("refs/remotes/origin/main")
}

/// The per-user head pointer: `refs/weft/{user}/head`.
pub fn weft_head_ref(user: &str) -> (r: String)
    ensures
        r@ == weft_head_ref_spec(user@),
{
    let mut r = String::from_str("refs/weft/");
    r.append(user);
    r.append("/head");
    r
}

/// The shared op log blob pointer.
pub fn op_log_ref() -> (r: String)
    ensures
        r@ == op_log_ref_spec(),
{
    String::from_str("refs/weft/op-log")
}

/// The candidate branch for a proposal: `refs/loom/{candidate_id}`.
pub fn candidate_ref(candidate_id: &str) -> (r: String)
    ensures
        r@ == candidate_ref_spec(candidate_id@),
{
    let mut r = String::from_str("refs/loom/");
    r.append(candidate_id);
    r
}

/// How many characters of the commit hash a candidate id carries.
pub open spec fn short_len(commit: Seq<char>) -> int {
    if commit.len() >= 8 {
        8
    } else {
        commit.len() as int
    }
}

pub open spec fn candidate_id_spec(user: Seq<char>, commit: Seq<char>) -> Seq<char> {
    user + "-"@ + commit.subrange(0, short_len(commit))
}

/// Derives the candidate id `{user}-{first 8 characters of the commit hash}`
/// (the whole hash if it is shorter than that).
pub fn candidate_id(user: &str, commit: &str) -> (r: String)
    ensures
        r@ == candidate_id_spec(user@, commit@),
{
    let mut r = String::from_str(user);
    r.append("-");
    let n: usize = commit.unicode_len();
    let take: usize = if n >= 8 {
        8
    } else {
        n
    };
    let mut i: usize = 0;
    while i < take
        invariant
            take <= n,
            n == commit@.len(),
            i <= take,
            r@ == user@ + "-"@ + commit@.subrange(0, i as int),
        decreases take - i,
    {
        crate::strops::push_char(&mut r, commit.get_char(i));
        proof {
            assert(r@ =~= user@ + "-"@ + commit@.subrange(0, i + 1));
        }
        i = i + 1;
    }
    proof {
        assert(r@ =~= candidate_id_spec(user@, commit@));
    }
    r
}

} // verus!
