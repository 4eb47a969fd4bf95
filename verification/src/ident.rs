//! Identity derivation: every command acts on behalf of one user, whose
//! identifier is embedded into reference names.  The identifier is therefore
//! forced into a small safe alphabet: lowercase ASCII alphanumerics, `-`
//! and `_`.

use vstd::prelude::*;
use crate::error::Fault;
use crate::strops::push_char;

verus! {

/// Characters that pass through sanitization unchanged.
pub open spec fn is_safe_char(c: char) -> bool {
    ||| 97 <= c as u32 <= 122  // 'a' ..= 'z'
    ||| 48 <= c as u32 <= 57  // '0' ..= '9'
    ||| c == '-'
    ||| c == '_'
}

pub open spec fn is_ascii_upper(c: char) -> bool {
    65 <= c as u32 <= 90  // 'A' ..= 'Z'
}

/// How one character of a raw identity is mapped: safe characters are kept,
/// ASCII capitals are lowered, everything else becomes `-`.
pub open spec fn sanitize_char(c: char) -> char {
    if is_safe_char(c) {
        c
    } else if is_ascii_upper(c) {
        (c as u32 + 32) as char
    } else {
        '-'
    }
}

pub open spec fn sanitize(s: Seq<char>) -> Seq<char> {
    Seq::new(s.len(), |i: int| sanitize_char(s[i]))
}

/// Maps a raw identity onto the safe alphabet, character by character.
pub fn sanitize_username(name: &str) -> (r: String)
    ensures
        r@ == sanitize(name@),
        forall|i: int| 0 <= i < r@.len() ==> is_safe_char(#[trigger] r@[i]),
{
    let n: usize = name.unicode_len();
    let mut out = String::new();
    let mut i: usize = 0;
    while i < n
        invariant
            n == name@.len(),
            i <= n,
            out@.len() == i,
            forall|j: int| 0 <= j < i ==> out@[j] == sanitize_char(#[trigger] name@[j]),
        decreases n - i,
    {
        let c = name.get_char(i);
        let u: u32 = c as u32;
        let mapped: char = if (97 <= u && u <= 122) || (48 <= u && u <= 57) || c == '-' || c == '_'
        {
            c
        } else if 65 <= u && u <= 90 {
            let b: u8 = u as u8;
            assert(u as u8 as u32 == u) by (bit_vector)
                requires
                    65 <= u && u <= 90,
            ;
            let lowered: char = (b + 32) as char;
            lowered
        } else {
            '-'
        };
        assert(mapped == sanitize_char(c));
        push_char(&mut out, mapped);
        i = i + 1;
    }
    proof {
        assert(out@ =~= sanitize(name@));
        assert(forall|i: int|
            0 <= i < out@.len() ==> is_safe_char(#[trigger] sanitize(name@)[i]));
    }
    out
}

/// Sanitization is idempotent: a sanitized identity passes through a second
/// sanitization unchanged.
pub proof fn lemma_sanitize_idempotent(s: Seq<char>)
    ensures
        sanitize(sanitize(s)) == sanitize(s),
{
    assert forall|i: int| 0 <= i < s.len() implies sanitize_char(
        #[trigger] sanitize(s)[i],
    ) == sanitize(s)[i] by {
        assert(is_safe_char(sanitize_char(s[i])));
    }
    assert(sanitize(sanitize(s)) =~= sanitize(s));
}

/// Where an identity comes from, in order of precedence: the environment
/// override, the dedicated configuration key, the general configured name,
/// and last the operating-system account name.
pub open spec fn spec_choose_identity(
    env_user: Option<Seq<char>>,
    cfg_weft: Option<Seq<char>>,
    cfg_name: Option<Seq<char>>,
    os_user: Option<Seq<char>>,
) -> Option<Seq<char>> {
    match env_user {
        Some(u) if u.len() > 0 => Some(sanitize(u)),
        _ => match cfg_weft {
            Some(u) => Some(sanitize(u)),
            None => match cfg_name {
                Some(u) => Some(sanitize(u)),
                None => match os_user {
                    Some(u) if u.len() > 0 => Some(sanitize(u)),
                    _ => None,
                },
            },
        },
    }
}

/// Picks the identity from the resolvable sources, most specific first, and
/// sanitizes it; with no resolvable source at all the command cannot run.
pub fn choose_identity(
    env_user: Option<String>,
    cfg_weft: Option<String>,
    cfg_name: Option<String>,
    os_user: Option<String>,
) -> (r: Result<String, Fault>)
    ensures
        match r {
            Ok(u) => spec_choose_identity(
                env_user.deep_view(),
                cfg_weft.deep_view(),
                cfg_name.deep_view(),
                os_user.deep_view(),
            ) == Some(u@),
            Err(f) => {
                &&& f == Fault::NoIdentity
                &&& spec_choose_identity(
                    env_user.deep_view(),
                    cfg_weft.deep_view(),
                    cfg_name.deep_view(),
                    os_user.deep_view(),
                ) is None
            },
        },
{
    if let Some(u) = env_user {
        if u.as_str().unicode_len() > 0 {
            return Ok(sanitize_username(u.as_str()));
        }
    }
    if let Some(u) = cfg_weft {
        return Ok(sanitize_username(u.as_str()));
    }
    if let Some(u) = cfg_name {
        return Ok(sanitize_username(u.as_str()));
    }
    if let Some(u) = os_user {
        if u.as_str().unicode_len() > 0 {
            return Ok(sanitize_username(u.as_str()));
        }
    }
    Err(Fault::NoIdentity)
}

} // verus!
