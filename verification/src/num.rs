//! Decimal text for the integers that appear on op log lines, and the
//! matching parser, proved inverse to each other.

use vstd::prelude::*;
use crate::strops::push_char;

verus! {

pub open spec fn is_dec_digit(c: char) -> bool {
    48 <= c as u32 <= 57
}

pub open spec fn dec_digit(n: int) -> char {
    (48 + n) as char
}

/// The decimal representation of a natural number, most significant digit
/// first, with no leading zeros (a single `0` for zero).
pub open spec fn dec_rep(n: nat) -> Seq<char>
    decreases n,
{
    if n < 10 {
        seq![dec_digit(n as int)]
    } else {
        dec_rep(n / 10) + seq![dec_digit((n % 10) as int)]
    }
}

/// The decimal representation of an integer: a `-` sign before the magnitude
/// for negative values.
pub open spec fn int_rep(n: int) -> Seq<char> {
    if n < 0 {
        seq!['-'] + dec_rep((-n) as nat)
    } else {
        dec_rep(n as nat)
    }
}

/// How many leading characters of `s` are decimal digits.
pub open spec fn digits_prefix_len(s: Seq<char>) -> int
    decreases s.len(),
{
    if s.len() > 0 && is_dec_digit(s[0]) {
        1 + digits_prefix_len(s.drop_first())
    } else {
        0
    }
}

/// The value of a sequence of decimal digits.
pub open spec fn digits_value(s: Seq<char>) -> int
    decreases s.len(),
{
    if s.len() == 0 {
        0
    } else {
        digits_value(s.drop_last()) * 10 + (s.last() as u32 - 48)
    }
}

/// Reads a (possibly signed) decimal integer from the front of `s`,
/// greedily, and rejects values outside the range of `i64`.
pub open spec fn parse_int(s: Seq<char>) -> Option<(int, Seq<char>)> {
    if s.len() > 0 && s[0] == '-' {
        let digits = s.drop_first();
        let k = digits_prefix_len(digits);
        if k > 0 && -digits_value(digits.take(k)) >= i64::MIN {
            Some((-digits_value(digits.take(k)), digits.skip(k)))
        } else {
            None
        }
    } else {
        let k = digits_prefix_len(s);
        if k > 0 && digits_value(s.take(k)) <= i64::MAX {
            Some((digits_value(s.take(k)), s.skip(k)))
        } else {
            None
        }
    }
}

pub proof fn lemma_dec_rep_digits(n: nat)
    ensures
        dec_rep(n).len() >= 1,
        forall|i: int| 0 <= i < dec_rep(n).len() ==> is_dec_digit(#[trigger] dec_rep(n)[i]),
    decreases n,
{
    if n >= 10 {
        lemma_dec_rep_digits(n / 10);
    }
}

/// The digit prefix of an all-digit text followed by a non-digit (or by
/// nothing) is exactly that text.
pub proof fn lemma_digits_prefix(s: Seq<char>, rest: Seq<char>)
    requires
        forall|i: int| 0 <= i < s.len() ==> is_dec_digit(#[trigger] s[i]),
        rest.len() == 0 || !is_dec_digit(rest[0]),
    ensures
        digits_prefix_len(s + rest) == s.len(),
    decreases s.len(),
{
    if s.len() == 0 {
        assert(s + rest =~= rest);
        if rest.len() > 0 {
            assert(!is_dec_digit((s + rest)[0]));
        }
    } else {
        lemma_digits_prefix(s.drop_first(), rest);
        assert((s + rest).drop_first() =~= s.drop_first() + rest);
        assert(is_dec_digit((s + rest)[0]));
    }
}

/// Evaluating the decimal representation gives the number back.
pub proof fn lemma_digits_value_rep(n: nat)
    ensures
        digits_value(dec_rep(n)) == n,
    decreases n,
{
    if n < 10 {
        assert(dec_rep(n) == seq![dec_digit(n as int)]);
        assert(dec_rep(n).drop_last() =~= Seq::<char>::empty());
        assert(digits_value(Seq::<char>::empty()) == 0);
        assert(dec_rep(n).last() == dec_digit(n as int));
        assert(dec_digit(n as int) as u32 == 48 + n);
        assert(digits_value(dec_rep(n)) == digits_value(dec_rep(n).drop_last()) * 10 + (dec_rep(
            n,
        ).last() as u32 - 48));
    } else {
        lemma_digits_value_rep(n / 10);
        let whole = dec_rep(n / 10) + seq![dec_digit((n % 10) as int)];
        assert(whole.drop_last() =~= dec_rep(n / 10));
        assert(whole.last() == dec_digit((n % 10) as int));
        assert(dec_digit((n % 10) as int) as u32 == 48 + n % 10);
        assert(digits_value(whole) == (n / 10) * 10 + n % 10);
        assert((n / 10) * 10 + n % 10 == n) by (nonlinear_arith);
    }
}

/// Parsing the representation of an integer in range recovers it, whatever
/// non-digit text follows.
pub proof fn lemma_parse_int_rep(n: int, rest: Seq<char>)
    requires
        i64::MIN <= n <= i64::MAX,
        rest.len() == 0 || !is_dec_digit(rest[0]),
    ensures
        parse_int(int_rep(n) + rest) == Some((n, rest)),
{
    if n < 0 {
        let mag = (-n) as nat;
        let whole = (seq!['-'] + dec_rep(mag)) + rest;
        assert(whole[0] == '-');
        lemma_dec_rep_digits(mag);
        lemma_digits_prefix(dec_rep(mag), rest);
        assert(whole.drop_first() =~= dec_rep(mag) + rest);
        let digits = whole.drop_first();
        let k = digits_prefix_len(digits);
        assert(k == dec_rep(mag).len());
        assert(digits.take(k) =~= dec_rep(mag));
        lemma_digits_value_rep(mag);
        assert(digits.skip(k) =~= rest);
    } else {
        let mag = n as nat;
        let whole = dec_rep(mag) + rest;
        lemma_dec_rep_digits(mag);
        lemma_digits_prefix(dec_rep(mag), rest);
        assert(whole[0] == dec_rep(mag)[0]);
        assert(whole[0] != '-') by {
            assert(is_dec_digit(dec_rep(mag)[0]));
        }
        let k = digits_prefix_len(whole);
        assert(k == dec_rep(mag).len());
        assert(whole.take(k) =~= dec_rep(mag));
        lemma_digits_value_rep(mag);
        assert(whole.skip(k) =~= rest);
    }
}

/// Appends the decimal digits of `n`.
fn append_dec(out: &mut String, n: u64)
    ensures
        final(out)@ == old(out)@ + dec_rep(n as nat),
    decreases n,
{
    if n < 10 {
        let d: u8 = 48 + (n as u8);
        push_char(out, d as char);
        proof {
            assert(out@ =~= old(out)@ + dec_rep(n as nat));
        }
    } else {
        append_dec(out, n / 10);
        let d: u8 = 48 + ((n % 10) as u8);
        push_char(out, d as char);
        proof {
            assert(out@ =~= old(out)@ + dec_rep(n as nat));
        }
    }
}

/// Appends the decimal form of a signed integer.
pub fn append_int(out: &mut String, n: i64)
    ensures
        final(out)@ == old(out)@ + int_rep(n as int),
{
    if n >= 0 {
        append_dec(out, n as u64);
    } else {
        push_char(out, '-');
        let mag: u64 = ((-(n + 1)) as u64) + 1;
        assert(mag == -(n as int));
        append_dec(out, mag);
        proof {
            assert(out@ =~= old(out)@ + int_rep(n as int));
        }
    }
}

/// A digit prefix never shrinks in value as it grows.
proof fn lemma_digits_value_monotonic(s: Seq<char>, j: int, k: int)
    requires
        0 <= j <= k <= s.len(),
        forall|i: int| 0 <= i < s.len() ==> is_dec_digit(#[trigger] s[i]),
    ensures
        digits_value(s.take(j)) <= digits_value(s.take(k)),
        digits_value(s.take(j)) >= 0,
    decreases k - j,
{
    if j == k {
        lemma_digits_value_nonneg(s.take(j));
    } else {
        lemma_digits_value_monotonic(s, j, k - 1);
        let p = s.take(k);
        assert(p.drop_last() =~= s.take(k - 1));
        assert(digits_value(s.take(k)) == digits_value(s.take(k - 1)) * 10 + (p.last() as u32
            - 48));
        assert(digits_value(s.take(k - 1)) * 10 >= digits_value(s.take(k - 1)))
            by (nonlinear_arith)
            requires
                digits_value(s.take(k - 1)) >= 0,
        ;
        assert(is_dec_digit(p.last()));
    }
}

proof fn lemma_digits_value_nonneg(s: Seq<char>)
    ensures
        (forall|i: int| 0 <= i < s.len() ==> is_dec_digit(#[trigger] s[i])) ==> digits_value(s)
            >= 0,
    decreases s.len(),
{
    if s.len() > 0 {
        lemma_digits_value_nonneg(s.drop_last());
        assert(forall|i: int| 0 <= i < s.len() - 1 ==> s.drop_last()[i] == s[i]);
    }
}

/// Whether position `i` of `s` holds a decimal digit.
fn digit_at(s: &Vec<char>, i: usize) -> (r: bool)
    ensures
        r == (i < s@.len() && is_dec_digit(s@[i as int])),
{
    if i < s.len() {
        let u: u32 = s[i] as u32;
        48 <= u && u <= 57
    } else {
        false
    }
}

/// Reads a signed decimal integer from position `pos` of `s`, exactly as
/// [`parse_int`] describes, returning the value and the position after it.
pub fn parse_int_at(s: &Vec<char>, pos: usize) -> (r: Option<(i64, usize)>)
    requires
        pos <= s@.len(),
    ensures
        match r {
            Some(p) => {
                &&& pos <= p.1 <= s@.len()
                &&& parse_int(s@.skip(pos as int)) == Some((p.0 as int, s@.skip(p.1 as int)))
            },
            None => parse_int(s@.skip(pos as int)) is None,
        },
{
    let ghost orig = s@.skip(pos as int);
    let n_len: usize = s.len();
    let negative = pos < n_len && s[pos] == '-';
    let dstart: usize = if negative {
        pos + 1
    } else {
        pos
    };
    let ghost digits = s@.skip(dstart as int);
    proof {
        if negative {
            assert(orig.drop_first() =~= digits);
        }
    }
    // Find the end of the digit run.
    let mut dend: usize = dstart;
    while digit_at(s, dend)
        invariant
            dstart <= dend <= s@.len(),
            pos <= s@.len(),
            n_len == s@.len(),
            digits == s@.skip(dstart as int),
            forall|i: int| dstart <= i < dend ==> is_dec_digit(#[trigger] s@[i]),
        decreases s@.len() - dend,
    {
        dend = dend + 1;
    }
    let k: usize = dend - dstart;
    proof {
        assert(forall|i: int|
            0 <= i < k ==> is_dec_digit(#[trigger] digits.take(k as int)[i]));
        if dend < s.len() {
            assert(!is_dec_digit(digits.skip(k as int)[0]));
        }
        lemma_digits_prefix(digits.take(k as int), digits.skip(k as int));
        assert(digits.take(k as int) + digits.skip(k as int) =~= digits);
        assert(digits_prefix_len(digits) == k);
    }
    if k == 0 {
        return None;
    }
    // Accumulate; the magnitude bound for `i64` is checked as we go.
    let limit: u64 = if negative {
        9223372036854775808u64
    } else {
        9223372036854775807u64
    };
    let mut acc: u64 = 0;
    let mut i: usize = dstart;
    while i < dend
        invariant
            dstart <= i <= dend <= s@.len(),
            pos <= dstart,
            orig == s@.skip(pos as int),
            negative == (pos < s@.len() && s@[pos as int] == '-'),
            dstart == if negative {
                pos + 1
            } else {
                pos as int
            },
            negative ==> orig.drop_first() == digits,
            digits == s@.skip(dstart as int),
            digits_prefix_len(digits) == k,
            k == dend - dstart,
            k > 0,
            forall|j: int| dstart <= j < dend ==> is_dec_digit(#[trigger] s@[j]),
            acc == digits_value(digits.take(i - dstart)),
            acc <= limit,
            limit == if negative {
                9223372036854775808u64
            } else {
                9223372036854775807u64
            },
        decreases dend - i,
    {
        let c = s[i];
        let d: u32 = (c as u32) - 48;
        proof {
            assert(digits.take(i - dstart + 1).drop_last() =~= digits.take(i - dstart));
            assert(digits.take(i - dstart + 1).last() == c);
        }
        if acc > (limit - (d as u64)) / 10 {
            // The value can only grow with further digits; it is already out
            // of range.
            proof {
                let partial = i - dstart + 1;
                assert(acc * 10 + d > limit) by (nonlinear_arith)
                    requires
                        acc > (limit - (d as u64)) / 10,
                        d <= 9,
                        limit >= 10,
                ;
                assert(digits_value(digits.take(partial)) == acc * 10 + d);
                lemma_digits_value_monotonic(digits.take(k as int), partial, k as int);
                assert(digits.take(k as int).take(partial) =~= digits.take(partial));
                assert(digits.take(k as int).take(k as int) =~= digits.take(k as int));
                assert(digits_value(digits.take(k as int)) > limit);
                if negative {
                    assert(orig[0] == '-');
                } else if orig.len() > 0 {
                    assert(orig[0] != '-');
                }
            }
            return None;
        }
        proof {
            let q: int = ((limit - (d as u64)) / 10) as int;
            assert(q * 10 <= limit - d);
            assert(acc * 10 <= q * 10) by (nonlinear_arith)
                requires
                    acc as int <= q,
                    q >= 0,
            ;
        }
        acc = acc * 10 + (d as u64);
        i = i + 1;
    }
    proof {
        assert(digits.take(i - dstart) =~= digits.take(k as int));
        assert(digits.skip(k as int) =~= s@.skip(dend as int));
        if negative {
            assert(orig[0] == '-');
        } else if orig.len() > 0 {
            assert(orig[0] != '-');
        }
    }
    if negative {
        let v: i64 = if acc == 9223372036854775808u64 {
            i64::MIN
        } else {
            -(acc as i64)
        };
        Some((v, dend))
    } else {
        let v: i64 = acc as i64;
        Some((v, dend))
    }
}

} // verus!
