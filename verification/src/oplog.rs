//! The op log blob: all entries live concatenated in one versioned blob, one
//! line per entry.  Appending rewrites the whole blob with the new line at
//! the end; reading walks the lines, skipping blank ones.

use vstd::prelude::*;
use crate::entry::{parse_entry_seq, entry_rep, OpLogEntry, EntryModel};
use crate::entry::{args_tag, command_tag, inverse_tag, timestamp_tag, obj_rep, pairs_rep, pair_rep, quoted};
use crate::escape::{escape_seq, esc_char, hex_digit};
use crate::num::{int_rep, dec_rep, is_dec_digit};
use crate::error::Fault;
use crate::strops::push_char;

verus! {

pub open spec fn is_blank_char(c: char) -> bool {
    c == ' ' || c == '\t' || c == '\r'
}

/// A line with nothing on it but spacing.
pub open spec fn is_blank(l: Seq<char>) -> bool {
    forall|i: int| 0 <= i < l.len() ==> is_blank_char(#[trigger] l[i])
}

pub open spec fn has_no_newline(s: Seq<char>) -> bool {
    forall|i: int| 0 <= i < s.len() ==> #[trigger] s[i] != '\n'
}

/// The lines of a text, separated by `\n`; one trailing newline closes the
/// last line rather than opening an empty one.
pub open spec fn split_lines(s: Seq<char>) -> Seq<Seq<char>>
    decreases s.len(),
{
    if s.len() == 0 {
        Seq::empty()
    } else if s[0] == '\n' {
        seq![Seq::<char>::empty()] + split_lines(s.drop_first())
    } else {
        let rest = split_lines(s.drop_first());
        if rest.len() == 0 {
            seq![seq![s[0]]]
        } else {
            seq![seq![s[0]] + rest[0]] + rest.drop_first()
        }
    }
}

/// The non-blank lines, in order: what the log logically holds.
pub open spec fn log_lines(s: Seq<char>) -> Seq<Seq<char>> {
    split_lines(s).filter(|l: Seq<char>| !is_blank(l))
}

/// The blob after an append: the old content, a separating newline if one
/// is missing, the new line, and a closing newline.
pub open spec fn appended_log(log: Seq<char>, line: Seq<char>) -> Seq<char> {
    (if log.len() == 0 || log.last() == '\n' {
        log
    } else {
        log + seq!['\n']
    }) + line + seq!['\n']
}

proof fn lemma_split_nonempty(s: Seq<char>)
    ensures
        split_lines(s).len() > 0 <==> s.len() > 0,
    decreases s.len(),
{
    if s.len() > 0 {
        lemma_split_nonempty(s.drop_first());
    }
}

/// A text without newlines closed by one newline is exactly one line.
proof fn lemma_split_single(x: Seq<char>)
    requires
        has_no_newline(x),
    ensures
        split_lines(x + seq!['\n']) == seq![x],
    decreases x.len(),
{
    let s = x + seq!['\n'];
    if x.len() == 0 {
        assert(s =~= seq!['\n']);
        assert(s[0] == '\n');
        assert(s.drop_first() =~= Seq::<char>::empty());
        assert(split_lines(Seq::<char>::empty()) == Seq::<Seq<char>>::empty());
        assert(split_lines(s) =~~= seq![x]);
    } else {
        assert(s[0] == x[0]);
        assert(s[0] != '\n');
        assert(s.drop_first() =~= x.drop_first() + seq!['\n']);
        lemma_split_single(x.drop_first());
        let rest = split_lines(s.drop_first());
        assert(rest == seq![x.drop_first()]);
        assert(rest.len() == 1);
        assert(seq![s[0]] + rest[0] =~= x);
        assert(rest.drop_first() =~= Seq::<Seq<char>>::empty());
        assert(split_lines(s) =~= seq![x]);
    }
}

/// A nonempty text without newlines is one line even with no closing newline.
proof fn lemma_split_single_open(x: Seq<char>)
    requires
        has_no_newline(x),
        x.len() > 0,
    ensures
        split_lines(x) == seq![x],
    decreases x.len(),
{
    assert(x[0] != '\n');
    let rest = split_lines(x.drop_first());
    if x.len() == 1 {
        assert(x.drop_first() =~= Seq::<char>::empty());
        assert(rest.len() == 0);
        assert(seq![x[0]] =~= x);
        assert(split_lines(x) =~= seq![x]);
    } else {
        lemma_split_single_open(x.drop_first());
        assert(rest == seq![x.drop_first()]);
        assert(seq![x[0]] + rest[0] =~= x);
        assert(rest.drop_first() =~= Seq::<Seq<char>>::empty());
        assert(split_lines(x) =~= seq![x]);
    }
}

/// Lines distribute over a newline boundary.
proof fn lemma_split_concat(x: Seq<char>, y: Seq<char>)
    ensures
        split_lines(x + seq!['\n'] + y) == split_lines(x + seq!['\n']) + split_lines(y),
    decreases x.len(),
{
    let s = x + seq!['\n'] + y;
    let t = x + seq!['\n'];
    if x.len() == 0 {
        assert(t =~= seq!['\n']);
        assert(s =~= seq!['\n'] + y);
        assert(s[0] == '\n');
        assert(s.drop_first() =~= y);
        assert(t[0] == '\n');
        assert(t.drop_first() =~= Seq::<char>::empty());
        assert(split_lines(Seq::<char>::empty()) == Seq::<Seq<char>>::empty());
        assert(split_lines(t) =~~= seq![Seq::<char>::empty()]);
        assert(split_lines(s) =~~= split_lines(t) + split_lines(y));
    } else {
        lemma_split_concat(x.drop_first(), y);
        assert(s[0] == x[0] && t[0] == x[0]);
        assert(s.drop_first() =~= x.drop_first() + seq!['\n'] + y);
        assert(t.drop_first() =~= x.drop_first() + seq!['\n']);
        let srest = split_lines(s.drop_first());
        let trest = split_lines(t.drop_first());
        assert(srest == trest + split_lines(y));
        lemma_split_nonempty(t.drop_first());
        assert(trest.len() > 0);
        assert(srest.len() > 0);
        if x[0] == '\n' {
            assert(split_lines(s) == seq![Seq::<char>::empty()] + srest);
            assert(split_lines(t) == seq![Seq::<char>::empty()] + trest);
            assert(split_lines(s) =~= split_lines(t) + split_lines(y));
        } else {
            assert(srest[0] == trest[0]);
            assert(split_lines(s) == seq![seq![s[0]] + srest[0]] + srest.drop_first());
            assert(split_lines(t) == seq![seq![t[0]] + trest[0]] + trest.drop_first());
            assert(srest.drop_first() =~= trest.drop_first() + split_lines(y));
            assert(split_lines(s) =~= split_lines(t) + split_lines(y));
        }
    }
}

/// Closing an open last line does not change the lines.
proof fn lemma_split_close(x: Seq<char>)
    requires
        x.len() > 0,
        x.last() != '\n',
    ensures
        split_lines(x + seq!['\n']) == split_lines(x),
    decreases x.len(),
{
    let s = x + seq!['\n'];
    if x.len() == 1 {
        assert(x[0] != '\n');
        assert(s[0] == x[0]);
        assert(s.drop_first() =~= seq!['\n']);
        assert(split_lines(seq!['\n']) =~~= seq![Seq::<char>::empty()]) by {
            assert(seq!['\n'][0] == '\n');
            assert(seq!['\n'].drop_first() =~= Seq::<char>::empty());
            assert(split_lines(Seq::<char>::empty()) == Seq::<Seq<char>>::empty());
        }
        assert(x.drop_first() =~= Seq::<char>::empty());
        assert(split_lines(Seq::<char>::empty()) == Seq::<Seq<char>>::empty());
        assert(split_lines(x) =~~= seq![seq![x[0]]]);
        assert(seq![s[0]] + Seq::<char>::empty() =~= seq![x[0]]);
        assert(split_lines(s) =~~= seq![seq![x[0]]]);
    } else {
        lemma_split_close(x.drop_first());
        assert(s[0] == x[0]);
        assert(s.drop_first() =~= x.drop_first() + seq!['\n']);
        let srest = split_lines(s.drop_first());
        let xrest = split_lines(x.drop_first());
        assert(srest == xrest);
        lemma_split_nonempty(x.drop_first());
        assert(xrest.len() > 0);
        if x[0] == '\n' {
            assert(split_lines(s) =~= split_lines(x));
        } else {
            assert(split_lines(s) =~= split_lines(x));
        }
    }
}

/// What an append does to the log's lines: exactly the one new line shows
/// up at the end, and everything already there is kept.
pub proof fn lemma_append_lines(log: Seq<char>, line: Seq<char>)
    requires
        has_no_newline(line),
        !is_blank(line),
    ensures
        log_lines(appended_log(log, line)) == log_lines(log) + seq![line],
{
    let nb = |l: Seq<char>| !is_blank(l);
    if log.len() == 0 {
        lemma_split_single(line);
        assert(appended_log(log, line) =~= line + seq!['\n']);
        assert(split_lines(appended_log(log, line)) == seq![line]);
        assert(seq![line].filter(nb) =~= seq![line]) by {
            reveal(Seq::filter);
            assert(seq![line].drop_last() =~= Seq::<Seq<char>>::empty());
        }
        assert(log_lines(log) =~= Seq::<Seq<char>>::empty()) by {
            reveal(Seq::filter);
        }
        assert(log_lines(appended_log(log, line)) =~= log_lines(log) + seq![line]);
    } else {
        let closed = if log.last() == '\n' {
            log
        } else {
            log + seq!['\n']
        };
        let pre = closed.drop_last();
        assert(closed =~= pre + seq!['\n']);
        assert(appended_log(log, line) =~= pre + seq!['\n'] + (line + seq!['\n']));
        lemma_split_concat(pre, line + seq!['\n']);
        lemma_split_single(line);
        assert(split_lines(appended_log(log, line)) == split_lines(pre + seq!['\n'])
            + seq![line]);
        if log.last() == '\n' {
            assert(pre + seq!['\n'] =~= log);
        } else {
            lemma_split_close(log);
            assert(pre + seq!['\n'] =~= log + seq!['\n']);
        }
        assert(split_lines(appended_log(log, line)) == split_lines(log) + seq![line]);
        Seq::filter_distributes_over_add(split_lines(log), seq![line], nb);
        assert(seq![line].filter(nb) =~= seq![line]) by {
            reveal(Seq::filter);
            assert(seq![line].drop_last() =~= Seq::<Seq<char>>::empty());
        }
    }
}

// ---------------------------------------------------------------------------
// Entry lines are single lines.
// ---------------------------------------------------------------------------
proof fn lemma_no_newline_concat(a: Seq<char>, b: Seq<char>)
    requires
        has_no_newline(a),
        has_no_newline(b),
    ensures
        has_no_newline(a + b),
{
    assert forall|i: int| 0 <= i < (a + b).len() implies #[trigger] (a + b)[i] != '\n' by {
        if i < a.len() {
            assert((a + b)[i] == a[i]);
        } else {
            assert((a + b)[i] == b[i - a.len()]);
        }
    }
}

proof fn lemma_escape_no_newline(s: Seq<char>)
    ensures
        has_no_newline(crate::escape::escape_seq(s)),
    decreases s.len(),
{
    if s.len() == 0 {
    } else {
        lemma_escape_no_newline(s.drop_first());
        let c = s[0];
        assert(has_no_newline(esc_char(c))) by {
            if !(c == '"' || c == '\\' || c == '\u{8}' || c == '\u{c}' || c == '\n' || c == '\r'
                || c == '\t') && (c as u32) < 32 {
                let u = c as u32;
                assert(hex_digit(u as int / 16) as u32 == 48 + u / 16);
                assert(hex_digit(u as int % 16) as u32 == if u % 16 < 10 {
                    48 + u % 16
                } else {
                    87 + u % 16
                });
                assert('\n' as u32 == 10);
            }
        }
        lemma_no_newline_concat(esc_char(c), escape_seq(s.drop_first()));
        assert(escape_seq(s) == esc_char(c) + escape_seq(s.drop_first()));
    }
}

proof fn lemma_quoted_no_newline(s: Seq<char>)
    ensures
        has_no_newline(crate::entry::quoted(s)),
{
    lemma_escape_no_newline(s);
    lemma_no_newline_concat(seq!['"'], crate::escape::escape_seq(s));
    lemma_no_newline_concat(seq!['"'] + crate::escape::escape_seq(s), seq!['"']);
}

proof fn lemma_pairs_rep_no_newline(ps: Seq<(Seq<char>, Seq<char>)>)
    ensures
        has_no_newline(crate::entry::pairs_rep(ps)),
    decreases ps.len(),
{
    if ps.len() == 0 {
    } else {
        assert(has_no_newline(pair_rep(ps[0]))) by {
            lemma_quoted_no_newline(ps[0].0);
            lemma_quoted_no_newline(ps[0].1);
            lemma_no_newline_concat(quoted(ps[0].0), seq![':']);
            lemma_no_newline_concat(quoted(ps[0].0) + seq![':'], quoted(ps[0].1));
        }
        if ps.len() > 1 {
            lemma_pairs_rep_no_newline(ps.drop_first());
            lemma_no_newline_concat(pair_rep(ps[0]), seq![',']);
            lemma_no_newline_concat(pair_rep(ps[0]) + seq![','], pairs_rep(ps.drop_first()));
        }
    }
}

proof fn lemma_obj_rep_no_newline(ps: Seq<(Seq<char>, Seq<char>)>)
    ensures
        has_no_newline(crate::entry::obj_rep(ps)),
{
    lemma_pairs_rep_no_newline(ps);
    lemma_no_newline_concat(seq!['{'], crate::entry::pairs_rep(ps));
    lemma_no_newline_concat(seq!['{'] + crate::entry::pairs_rep(ps), seq!['}']);
}

proof fn lemma_int_rep_no_newline(n: int)
    ensures
        has_no_newline(crate::num::int_rep(n)),
{
    let mag: nat = if n < 0 {
        (-n) as nat
    } else {
        n as nat
    };
    crate::num::lemma_dec_rep_digits(mag);
    assert(has_no_newline(dec_rep(mag))) by {
        assert forall|i: int| 0 <= i < dec_rep(mag).len() implies #[trigger] dec_rep(mag)[i]
            != '\n' by {
            assert(is_dec_digit(dec_rep(mag)[i]));
            assert('\n' as u32 == 10);
        }
    }
    if n < 0 {
        lemma_no_newline_concat(seq!['-'], dec_rep(mag));
    }
}

/// An entry's written form stays on one line and is never blank.
pub proof fn lemma_entry_rep_line(e: EntryModel)
    ensures
        has_no_newline(entry_rep(e)),
        !is_blank(entry_rep(e)),
{
    lemma_obj_rep_no_newline(e.args);
    lemma_quoted_no_newline(e.command);
    lemma_obj_rep_no_newline(e.inverse);
    lemma_int_rep_no_newline(e.timestamp);
    let a = args_tag() + obj_rep(e.args);
    lemma_no_newline_concat(args_tag(), obj_rep(e.args));
    let b = a + command_tag();
    lemma_no_newline_concat(a, command_tag());
    let c = b + quoted(e.command);
    lemma_no_newline_concat(b, quoted(e.command));
    let d = c + inverse_tag();
    lemma_no_newline_concat(c, inverse_tag());
    let f = d + obj_rep(e.inverse);
    lemma_no_newline_concat(d, obj_rep(e.inverse));
    let g = f + timestamp_tag();
    lemma_no_newline_concat(f, timestamp_tag());
    let h = g + crate::num::int_rep(e.timestamp);
    lemma_no_newline_concat(g, crate::num::int_rep(e.timestamp));
    lemma_no_newline_concat(h, seq!['}']);
    assert(entry_rep(e) == h + seq!['}']);
    assert(entry_rep(e)[0] == '{');
    assert(!is_blank_char('{'));
}

/// Appending an entry adds exactly its line at the end of the log, and that
/// line parses back to the entry.
pub proof fn lemma_append_entry(log: Seq<char>, e: EntryModel)
    requires
        i64::MIN <= e.timestamp <= i64::MAX,
    ensures
        log_lines(appended_log(log, entry_rep(e))) == log_lines(log) + seq![entry_rep(e)],
        log_lines(appended_log(log, entry_rep(e))).len() == log_lines(log).len() + 1,
        parse_entry_seq(log_lines(appended_log(log, entry_rep(e))).last()) == Some(e),
{
    lemma_entry_rep_line(e);
    lemma_append_lines(log, entry_rep(e));
    crate::entry::lemma_entry_round_trip(e);
}

// ---------------------------------------------------------------------------
// Executable log operations.
// ---------------------------------------------------------------------------
/// Every line of the log parses as an entry.
pub open spec fn log_ok(s: Seq<char>) -> bool {
    forall|i: int|
        0 <= i < log_lines(s).len() ==> parse_entry_seq(#[trigger] log_lines(s)[i]) is Some
}

pub open spec fn lines_view(v: Seq<String>) -> Seq<Seq<char>> {
    v.map_values(|l: String| l@)
}

/// Concatenates one line onto the blob content, separating it from a
/// dangling last line if need be and closing it with a newline.
pub fn append_line(log: &str, line: &str) -> (r: String)
    ensures
        r@ == appended_log(log@, line@),
{
    let mut out = String::from_str(log);
    let n: usize = log.unicode_len();
    if n > 0 && log.get_char(n - 1) != '\n' {
        push_char(&mut out, '\n');
    }
    out.append(line);
    push_char(&mut out, '\n');
    proof {
        assert(out@ =~= appended_log(log@, line@));
    }
    out
}

/// Appends one entry to the blob content: the caller writes the result back
/// as a whole.
pub fn append_entry(log: &str, e: &OpLogEntry) -> (r: String)
    ensures
        r@ == appended_log(log@, entry_rep(e@)),
{
    let line = crate::entry::serialize_entry(e);
    append_line(log, line.as_str())
}

pub fn split_log(log: &str) -> (r: Vec<String>)
    ensures
        lines_view(r@) == split_lines(log@),
{
    let chars = crate::strops::str_to_chars(log);
    let n_len: usize = chars.len();
    let mut lines: Vec<String> = Vec::new();
    let mut curline = String::new();
    let mut pos: usize = 0;
    proof {
        assert(curline@ + chars@.skip(0) =~= chars@);
        assert(lines_view(lines@) =~= Seq::<Seq<char>>::empty());
    }
    while pos < n_len
        invariant
            pos <= n_len,
            n_len == chars@.len(),
            chars@ == log@,
            has_no_newline(curline@),
            split_lines(log@) == lines_view(lines@) + split_lines(
                curline@ + chars@.skip(pos as int),
            ),
        decreases n_len - pos,
    {
        let c = chars[pos];
        let ghost pre = curline@;
        let ghost lpre = lines_view(lines@);
        if c == '\n' {
            proof {
                assert(pre + chars@.skip(pos as int) =~= pre + seq!['\n'] + chars@.skip(
                    pos + 1,
                ));
                lemma_split_concat(pre, chars@.skip(pos + 1));
                lemma_split_single(pre);
            }
            lines.push(curline);
            curline = String::new();
            proof {
                assert(lines_view(lines@) =~= lpre + seq![pre]);
                assert(lines_view(lines@) + split_lines(curline@ + chars@.skip(pos + 1)) =~= (
                lpre + seq![pre]) + split_lines(chars@.skip(pos + 1)));
                assert(split_lines(log@) =~= lines_view(lines@) + split_lines(
                    curline@ + chars@.skip(pos + 1),
                ));
            }
        } else {
            push_char(&mut curline, c);
            proof {
                assert(pre + chars@.skip(pos as int) =~= curline@ + chars@.skip(pos + 1));
            }
        }
        pos = pos + 1;
    }
    proof {
        assert(chars@.skip(pos as int) =~= Seq::<char>::empty());
        assert(curline@ + chars@.skip(pos as int) =~= curline@);
    }
    if curline.as_str().unicode_len() > 0 {
        proof {
            lemma_split_single_open(curline@);
        }
        let ghost lpre = lines_view(lines@);
        let ghost pre = curline@;
        lines.push(curline);
        proof {
            assert(lines_view(lines@) =~= lpre + seq![pre]);
        }
    } else {
        proof {
            assert(split_lines(curline@).len() == 0);
            assert(lines_view(lines@) + split_lines(curline@) =~= lines_view(lines@));
        }
    }
    lines
}

pub fn is_blank_line(l: &str) -> (r: bool)
    ensures
        r == is_blank(l@),
{
    let n: usize = l.unicode_len();
    let mut i: usize = 0;
    while i < n
        invariant
            i <= n,
            n == l@.len(),
            forall|j: int| 0 <= j < i ==> is_blank_char(#[trigger] l@[j]),
        decreases n - i,
    {
        let c = l.get_char(i);
        if !(c == ' ' || c == '\t' || c == '\r') {
            return false;
        }
        i = i + 1;
    }
    true
}

proof fn lemma_filter_step(s: Seq<Seq<char>>, j: int)
    requires
        0 <= j < s.len(),
    ensures
        s.take(j + 1).filter(|l: Seq<char>| !is_blank(l)) == if !is_blank(s[j]) {
            s.take(j).filter(|l: Seq<char>| !is_blank(l)).push(s[j])
        } else {
            s.take(j).filter(|l: Seq<char>| !is_blank(l))
        },
{
    reveal(Seq::filter);
    assert(s.take(j + 1).drop_last() =~= s.take(j));
    assert(s.take(j + 1).last() == s[j]);
}

/// Reads the whole log back: the ordered entries of all non-blank lines,
/// or `CorruptLog` as soon as one such line does not parse.
pub fn read_all(log: &str) -> (r: Result<Vec<OpLogEntry>, Fault>)
    ensures
        match r {
            Ok(v) => {
                &&& log_ok(log@)
                &&& v@.len() == log_lines(log@).len()
                &&& forall|i: int|
                    0 <= i < v@.len() ==> Some(#[trigger] v@[i]@) == parse_entry_seq(
                        log_lines(log@)[i],
                    )
            },
            Err(f) => f == Fault::CorruptLog && !log_ok(log@),
        },
{
    let lines = split_log(log);
    let ghost all = split_lines(log@);
    let mut out: Vec<OpLogEntry> = Vec::new();
    let mut j: usize = 0;
    proof {
        assert(all.take(0) =~= Seq::<Seq<char>>::empty());
        assert(Seq::<Seq<char>>::empty().filter(|l: Seq<char>| !is_blank(l)).len() == 0) by {
            reveal(Seq::filter);
        }
    }
    while j < lines.len()
        invariant
            j <= lines@.len(),
            lines_view(lines@) == all,
            all == split_lines(log@),
            out@.len() == all.take(j as int).filter(|l: Seq<char>| !is_blank(l)).len(),
            forall|i: int|
                0 <= i < out@.len() ==> Some(#[trigger] out@[i]@) == parse_entry_seq(
                    all.take(j as int).filter(|l: Seq<char>| !is_blank(l))[i],
                ),
        decreases lines@.len() - j,
    {
        let line = &lines[j];
        proof {
            assert(lines_view(lines@)[j as int] == lines@[j as int]@);
            lemma_filter_step(all, j as int);
        }
        if !is_blank_line(line.as_str()) {
            match crate::entry::parse_entry(line.as_str()) {
                Some(e) => {
                    out.push(e);
                },
                None => {
                    proof {
                        let nb = |l: Seq<char>| !is_blank(l);
                        let bad = out@.len() as int;
                        assert(all.take(j + 1) + all.skip(j + 1) =~= all);
                        Seq::filter_distributes_over_add(all.take(j + 1), all.skip(j + 1), nb);
                        assert(log_lines(log@) == all.take(j + 1).filter(nb) + all.skip(j + 1)
                            .filter(nb));
                        assert(all.take(j + 1).filter(nb)[bad] == all[j as int]);
                        assert(log_lines(log@)[bad] == all[j as int]);
                        assert(parse_entry_seq(log_lines(log@)[bad]) is None);
                    }
                    return Err(Fault::CorruptLog);
                },
            }
        }
        j = j + 1;
    }
    proof {
        assert(all.take(j as int) =~= all);
        assert forall|i: int| 0 <= i < log_lines(log@).len() implies parse_entry_seq(
            #[trigger] log_lines(log@)[i],
        ) is Some by {
            assert(Some(out@[i]@) == parse_entry_seq(log_lines(log@)[i]));
        }
    }
    Ok(out)
}

proof fn lemma_filter_all_blank(s: Seq<Seq<char>>)
    requires
        forall|i: int| 0 <= i < s.len() ==> is_blank(#[trigger] s[i]),
    ensures
        s.filter(|l: Seq<char>| !is_blank(l)).len() == 0,
    decreases s.len(),
{
    reveal(Seq::filter);
    if s.len() > 0 {
        lemma_filter_all_blank(s.drop_last());
        assert(forall|i: int| 0 <= i < s.len() - 1 ==> s.drop_last()[i] == s[i]);
    }
}

/// Returns the most recently appended entry: `EmptyLog` when no non-blank
/// line exists, `CorruptLog` when the last non-blank line does not parse.
pub fn last_entry(log: &str) -> (r: Result<OpLogEntry, Fault>)
    ensures
        match r {
            Ok(e) => {
                &&& log_lines(log@).len() > 0
                &&& parse_entry_seq(log_lines(log@).last()) == Some(e@)
            },
            Err(f) => match f {
                Fault::EmptyLog => log_lines(log@).len() == 0,
                Fault::CorruptLog => log_lines(log@).len() > 0 && parse_entry_seq(
                    log_lines(log@).last(),
                ) is None,
                _ => false,
            },
        },
{
    let lines = split_log(log);
    let ghost all = split_lines(log@);
    let mut idx: usize = lines.len();
    while idx > 0
        invariant
            idx <= lines@.len(),
            lines_view(lines@) == all,
            all == split_lines(log@),
            forall|i: int| idx <= i < all.len() ==> is_blank(#[trigger] all[i]),
        decreases idx,
    {
        let line = &lines[idx - 1];
        proof {
            assert(lines_view(lines@)[idx - 1] == lines@[idx - 1]@);
        }
        if !is_blank_line(line.as_str()) {
            proof {
                let nb = |l: Seq<char>| !is_blank(l);
                assert(all.take(idx as int) + all.skip(idx as int) =~= all);
                Seq::filter_distributes_over_add(all.take(idx as int), all.skip(idx as int), nb);
                assert forall|i: int| 0 <= i < all.skip(idx as int).len() implies is_blank(
                    #[trigger] all.skip(idx as int)[i],
                ) by {
                    assert(all.skip(idx as int)[i] == all[i + idx]);
                }
                lemma_filter_all_blank(all.skip(idx as int));
                lemma_filter_step(all, idx - 1);
                assert(log_lines(log@) =~= all.take(idx as int).filter(nb));
                assert(log_lines(log@).last() == all[idx - 1]);
            }
            match crate::entry::parse_entry(line.as_str()) {
                Some(e) => {
                    return Ok(e);
                },
                None => {
                    return Err(Fault::CorruptLog);
                },
            }
        }
        idx = idx - 1;
    }
    proof {
        assert(all.take(0) =~= Seq::<Seq<char>>::empty());
        lemma_filter_all_blank(all);
    }
    Err(Fault::EmptyLog)
}

} // verus!
