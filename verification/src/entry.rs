//! One op log entry and its wire form: a single JSON object per line,
//! `{"args":{...},"command":"...","inverse":{...},"timestamp":N}`, keys in
//! that fixed order (the order a canonical JSON writer with sorted keys
//! produces), with flat string-to-string objects for the payload and the
//! inverse.  The parser reads back exactly what the writer emits, and that
//! round trip is proved.

use vstd::prelude::*;
use crate::escape::{escape_seq, parse_str_body};
use crate::num::{int_rep, parse_int};
use crate::strops::push_char;
use crate::escape::append_escaped;

verus! {

/// An immutable record of one mutating command, enabling undo.
#[derive(Debug, Clone, PartialEq, Eq)]
pub struct OpLogEntry {
    /// Seconds since the epoch at which the command ran.
    pub timestamp: i64,
    /// The command's name.
    pub command: String,
    /// Command-specific key/value payload.
    pub args: Vec<(String, String)>,
    /// The tagged inverse operation, as key/value fields (`op` plus its
    /// operands).
    pub inverse: Vec<(String, String)>,
}

/// The mathematical shadow of an entry.
#[verifier::ext_equal]
pub ghost struct EntryModel {
    pub timestamp: int,
    pub command: Seq<char>,
    pub args: Seq<(Seq<char>, Seq<char>)>,
    pub inverse: Seq<(Seq<char>, Seq<char>)>,
}

pub open spec fn pairs_view(v: Seq<(String, String)>) -> Seq<(Seq<char>, Seq<char>)> {
    v.map_values(|p: (String, String)| (p.0@, p.1@))
}

impl View for OpLogEntry {
    type V = EntryModel;

    open spec fn view(&self) -> EntryModel {
        EntryModel {
            timestamp: self.timestamp as int,
            command: self.command@,
            args: pairs_view(self.args@),
            inverse: pairs_view(self.inverse@),
        }
    }
}

// ---------------------------------------------------------------------------
// The written form.
// ---------------------------------------------------------------------------
pub open spec fn quoted(s: Seq<char>) -> Seq<char> {
    seq!['"'] + escape_seq(s) + seq!['"']
}

pub open spec fn pair_rep(p: (Seq<char>, Seq<char>)) -> Seq<char> {
    quoted(p.0) + seq![':'] + quoted(p.1)
}

pub open spec fn pairs_rep(ps: Seq<(Seq<char>, Seq<char>)>) -> Seq<char>
    decreases ps.len(),
{
    if ps.len() == 0 {
        Seq::empty()
    } else if ps.len() == 1 {
        pair_rep(ps[0])
    } else {
        pair_rep(ps[0]) + seq![','] + pairs_rep(ps.drop_first())
    }
}

pub open spec fn obj_rep(ps: Seq<(Seq<char>, Seq<char>)>) -> Seq<char> {
    seq!['{'] + pairs_rep(ps) + seq!['}']
}

pub open spec fn args_tag() -> Seq<char> {
    seq!['{', '"', 'a', 'r', 'g', 's', '"', ':']
}

pub open spec fn command_tag() -> Seq<char> {
    seq![',', '"', 'c', 'o', 'm', 'm', 'a', 'n', 'd', '"', ':']
}

pub open spec fn inverse_tag() -> Seq<char> {
    seq![',', '"', 'i', 'n', 'v', 'e', 'r', 's', 'e', '"', ':']
}

pub open spec fn timestamp_tag() -> Seq<char> {
    seq![',', '"', 't', 'i', 'm', 'e', 's', 't', 'a', 'm', 'p', '"', ':']
}

/// The one line written for an entry (without the trailing newline).
pub open spec fn entry_rep(e: EntryModel) -> Seq<char> {
    args_tag() + obj_rep(e.args) + command_tag() + quoted(e.command) + inverse_tag() + obj_rep(
        e.inverse,
    ) + timestamp_tag() + int_rep(e.timestamp) + seq!['}']
}

// ---------------------------------------------------------------------------
// The parser, on sequences.
// ---------------------------------------------------------------------------
/// Reads a quoted string from the front of `s`.
pub open spec fn parse_quoted(s: Seq<char>) -> Option<(Seq<char>, Seq<char>)> {
    if s.len() > 0 && s[0] == '"' {
        parse_str_body(s.drop_first())
    } else {
        None
    }
}

/// A quoted-string body ends before where it began.
pub proof fn lemma_parse_str_body_len(s: Seq<char>)
    ensures
        parse_str_body(s) matches Some(p) ==> p.1.len() < s.len(),
    decreases s.len(),
{
    if s.len() == 0 {
    } else if s[0] == '"' {
    } else if s[0] == '\\' {
        if s.len() >= 2 {
            if s[1] == 'u' {
                if s.len() >= 6 {
                    lemma_parse_str_body_len(s.skip(6));
                }
            } else {
                lemma_parse_str_body_len(s.skip(2));
            }
        }
    } else {
        lemma_parse_str_body_len(s.drop_first());
    }
}

pub proof fn lemma_parse_quoted_len(s: Seq<char>)
    ensures
        parse_quoted(s) matches Some(p) ==> p.1.len() < s.len(),
{
    if s.len() > 0 && s[0] == '"' {
        lemma_parse_str_body_len(s.drop_first());
    }
}

#[via_fn]
proof fn parse_pairs_decreases(s: Seq<char>) {
    lemma_parse_quoted_len(s);
    match parse_quoted(s) {
        Some(p) => lemma_parse_quoted_len(p.1.drop_first()),
        None => (),
    }
}

/// Reads `"k":"v"` pairs separated by commas, up to and including the
/// closing brace.  At least one pair must be present.
pub open spec fn parse_pairs(s: Seq<char>) -> Option<
    (Seq<(Seq<char>, Seq<char>)>, Seq<char>),
>
    decreases s.len(),
    via parse_pairs_decreases
{
    match parse_quoted(s) {
        None => None,
        Some(kp) => {
            let k = kp.0;
            let r1 = kp.1;
            if r1.len() > 0 && r1[0] == ':' {
                match parse_quoted(r1.drop_first()) {
                    None => None,
                    Some(vp) => {
                        let v = vp.0;
                        let r2 = vp.1;
                        if r2.len() > 0 && r2[0] == ',' {
                            match parse_pairs(r2.drop_first()) {
                                None => None,
                                Some(pp) => Some((seq![(k, v)] + pp.0, pp.1)),
                            }
                        } else if r2.len() > 0 && r2[0] == '}' {
                            Some((seq![(k, v)], r2.drop_first()))
                        } else {
                            None
                        }
                    },
                }
            } else {
                None
            }
        },
    }
}

/// Reads a flat string-to-string object from the front of `s`.
pub open spec fn parse_obj(s: Seq<char>) -> Option<(Seq<(Seq<char>, Seq<char>)>, Seq<char>)> {
    if s.len() >= 2 && s[0] == '{' && s[1] == '}' {
        Some((Seq::empty(), s.skip(2)))
    } else if s.len() > 0 && s[0] == '{' {
        parse_pairs(s.drop_first())
    } else {
        None
    }
}

pub open spec fn starts_with(s: Seq<char>, t: Seq<char>) -> bool {
    s.len() >= t.len() && s.take(t.len() as int) == t
}

/// Reads one whole entry line; the line must hold exactly one entry in the
/// canonical key order and nothing else.
pub open spec fn parse_entry_seq(s: Seq<char>) -> Option<EntryModel> {
    if !starts_with(s, args_tag()) {
        None
    } else {
        match parse_obj(s.skip(args_tag().len() as int)) {
            None => None,
            Some(ao) => {
                let args = ao.0;
                let r1 = ao.1;
                if !starts_with(r1, command_tag()) {
                    None
                } else {
                    match parse_quoted(r1.skip(command_tag().len() as int)) {
                        None => None,
                        Some(cp) => {
                            let command = cp.0;
                            let r2 = cp.1;
                            if !starts_with(r2, inverse_tag()) {
                                None
                            } else {
                                match parse_obj(r2.skip(inverse_tag().len() as int)) {
                                    None => None,
                                    Some(io) => {
                                        let inverse = io.0;
                                        let r3 = io.1;
                                        if !starts_with(r3, timestamp_tag()) {
                                            None
                                        } else {
                                            match parse_int(
                                                r3.skip(timestamp_tag().len() as int),
                                            ) {
                                                None => None,
                                                Some(tp) => {
                                                    if tp.1 =~= seq!['}'] {
                                                        Some(
                                                            EntryModel {
                                                                timestamp: tp.0,
                                                                command,
                                                                args,
                                                                inverse,
                                                            },
                                                        )
                                                    } else {
                                                        None
                                                    }
                                                },
                                            }
                                        }
                                    },
                                }
                            }
                        },
                    }
                }
            },
        }
    }
}

// ---------------------------------------------------------------------------
// The writer and the parser are inverse to each other.
// ---------------------------------------------------------------------------
pub proof fn lemma_parse_quoted_rep(x: Seq<char>, rest: Seq<char>)
    ensures
        parse_quoted(quoted(x) + rest) == Some((x, rest)),
{
    let s = quoted(x) + rest;
    assert(s.len() > 0 && s[0] == '"');
    assert(s.drop_first() =~= escape_seq(x) + seq!['"'] + rest);
    crate::escape::lemma_parse_escaped(x, rest);
}

proof fn lemma_pairs_rep_first(ps: Seq<(Seq<char>, Seq<char>)>)
    requires
        ps.len() > 0,
    ensures
        pairs_rep(ps).len() > 0,
        pairs_rep(ps)[0] == '"',
{
    assert(quoted(ps[0].0).len() >= 2);
    assert(quoted(ps[0].0)[0] == '"');
    assert(pair_rep(ps[0])[0] == '"');
}

#[verifier::rlimit(60)]
proof fn lemma_parse_pairs_rep(ps: Seq<(Seq<char>, Seq<char>)>, rest: Seq<char>)
    requires
        ps.len() >= 1,
    ensures
        parse_pairs(pairs_rep(ps) + seq!['}'] + rest) == Some((ps, rest)),
    decreases ps.len(),
{
    let s = pairs_rep(ps) + seq!['}'] + rest;
    let k = ps[0].0;
    let v = ps[0].1;
    if ps.len() == 1 {
        let r1 = seq![':'] + quoted(v) + seq!['}'] + rest;
        assert(s =~= quoted(k) + r1);
        lemma_parse_quoted_rep(k, r1);
        assert(r1[0] == ':');
        let r1t = quoted(v) + (seq!['}'] + rest);
        assert(r1.drop_first() =~= r1t);
        lemma_parse_quoted_rep(v, seq!['}'] + rest);
        let r2 = seq!['}'] + rest;
        assert(r2[0] == '}');
        assert(r2.drop_first() =~= rest);
        assert(seq![(k, v)] =~= ps);
    } else {
        let tail = ps.drop_first();
        let r1 = seq![':'] + quoted(v) + seq![','] + pairs_rep(tail) + seq!['}'] + rest;
        assert(s =~= quoted(k) + r1) by {
            assert(pairs_rep(ps) == pair_rep(ps[0]) + seq![','] + pairs_rep(tail));
        }
        lemma_parse_quoted_rep(k, r1);
        assert(r1[0] == ':');
        let r2 = seq![','] + pairs_rep(tail) + seq!['}'] + rest;
        assert(r1.drop_first() =~= quoted(v) + r2);
        lemma_parse_quoted_rep(v, r2);
        assert(r2[0] == ',');
        let srec = pairs_rep(tail) + seq!['}'] + rest;
        assert(r2.drop_first() =~= srec);
        lemma_parse_pairs_rep(tail, rest);
        assert(seq![(k, v)] + tail =~= ps);
    }
}

proof fn lemma_parse_obj_rep(ps: Seq<(Seq<char>, Seq<char>)>, rest: Seq<char>)
    ensures
        parse_obj(obj_rep(ps) + rest) == Some((ps, rest)),
{
    let s = obj_rep(ps) + rest;
    assert(s[0] == '{');
    if ps.len() == 0 {
        assert(pairs_rep(ps) == Seq::<char>::empty());
        assert(s =~= seq!['{', '}'] + rest);
        assert(s[1] == '}');
        assert(s.skip(2) =~= rest);
    } else {
        lemma_pairs_rep_first(ps);
        assert(s[1] == pairs_rep(ps)[0]);
        assert(s[1] != '}');
        assert(s.drop_first() =~= pairs_rep(ps) + seq!['}'] + rest);
        lemma_parse_pairs_rep(ps, rest);
    }
}

proof fn lemma_starts_with_concat(t: Seq<char>, rest: Seq<char>)
    ensures
        starts_with(t + rest, t),
        (t + rest).skip(t.len() as int) =~= rest,
{
    assert((t + rest).take(t.len() as int) =~= t);
}

/// Writing an entry and parsing the line back yields the same entry.
#[verifier::rlimit(60)]
pub proof fn lemma_entry_round_trip(e: EntryModel)
    requires
        i64::MIN <= e.timestamp <= i64::MAX,
    ensures
        parse_entry_seq(entry_rep(e)) == Some(e),
{
    let s = entry_rep(e);
    let ra = obj_rep(e.args) + command_tag() + quoted(e.command) + inverse_tag() + obj_rep(
        e.inverse,
    ) + timestamp_tag() + int_rep(e.timestamp) + seq!['}'];
    assert(s =~= args_tag() + ra);
    lemma_starts_with_concat(args_tag(), ra);
    assert(s.skip(args_tag().len() as int) == ra);
    let rb = command_tag() + quoted(e.command) + inverse_tag() + obj_rep(e.inverse)
        + timestamp_tag() + int_rep(e.timestamp) + seq!['}'];
    assert(ra =~= obj_rep(e.args) + rb);
    lemma_parse_obj_rep(e.args, rb);
    let rc = quoted(e.command) + inverse_tag() + obj_rep(e.inverse) + timestamp_tag() + int_rep(
        e.timestamp,
    ) + seq!['}'];
    assert(rb =~= command_tag() + rc);
    lemma_starts_with_concat(command_tag(), rc);
    assert(rb.skip(command_tag().len() as int) == rc);
    let rd = inverse_tag() + obj_rep(e.inverse) + timestamp_tag() + int_rep(e.timestamp)
        + seq!['}'];
    assert(rc =~= quoted(e.command) + rd);
    lemma_parse_quoted_rep(e.command, rd);
    let re = obj_rep(e.inverse) + timestamp_tag() + int_rep(e.timestamp) + seq!['}'];
    assert(rd =~= inverse_tag() + re);
    lemma_starts_with_concat(inverse_tag(), re);
    assert(rd.skip(inverse_tag().len() as int) == re);
    let rf = timestamp_tag() + int_rep(e.timestamp) + seq!['}'];
    assert(re =~= obj_rep(e.inverse) + rf);
    lemma_parse_obj_rep(e.inverse, rf);
    let rg = int_rep(e.timestamp) + seq!['}'];
    assert(rf =~= timestamp_tag() + rg);
    lemma_starts_with_concat(timestamp_tag(), rg);
    assert(rf.skip(timestamp_tag().len() as int) == rg);
    assert(!crate::num::is_dec_digit('}'));
    crate::num::lemma_parse_int_rep(e.timestamp, seq!['}']);
    assert(parse_entry_seq(s) == Some(
        EntryModel {
            timestamp: e.timestamp,
            command: e.command,
            args: e.args,
            inverse: e.inverse,
        },
    ));
    assert(EntryModel {
        timestamp: e.timestamp,
        command: e.command,
        args: e.args,
        inverse: e.inverse,
    } =~= e);
}

// ---------------------------------------------------------------------------
// The writer, executable.
// ---------------------------------------------------------------------------
fn append_quoted(out: &mut String, s: &str)
    ensures
        final(out)@ == old(out)@ + quoted(s@),
{
    push_char(out, '"');
    append_escaped(out, s);
    push_char(out, '"');
    proof {
        assert(out@ =~= old(out)@ + quoted(s@));
    }
}

fn append_pairs(out: &mut String, ps: &Vec<(String, String)>, idx: usize)
    requires
        idx <= ps@.len(),
    ensures
        final(out)@ == old(out)@ + pairs_rep(pairs_view(ps@).skip(idx as int)),
    decreases ps@.len() - idx,
{
    let ghost view = pairs_view(ps@);
    if idx < ps.len() {
        let p = &ps[idx];
        append_quoted(out, p.0.as_str());
        push_char(out, ':');
        append_quoted(out, p.1.as_str());
        proof {
            assert(view[idx as int] == (p.0@, p.1@));
            assert(view.skip(idx as int)[0] == view[idx as int]);
        }
        if idx + 1 < ps.len() {
            push_char(out, ',');
            append_pairs(out, ps, idx + 1);
            proof {
                assert(view.skip(idx as int).drop_first() =~= view.skip(idx + 1));
                assert(view.skip(idx as int).len() > 1);
                assert(out@ =~= old(out)@ + pairs_rep(view.skip(idx as int)));
            }
        } else {
            proof {
                assert(view.skip(idx as int).len() == 1);
                assert(out@ =~= old(out)@ + pairs_rep(view.skip(idx as int)));
            }
        }
    } else {
        proof {
            assert(view.skip(idx as int).len() == 0);
            assert(out@ =~= old(out)@ + pairs_rep(view.skip(idx as int)));
        }
    }
}

fn append_obj(out: &mut String, ps: &Vec<(String, String)>)
    ensures
        final(out)@ == old(out)@ + obj_rep(pairs_view(ps@)),
{
    push_char(out, '{');
    append_pairs(out, ps, 0);
    push_char(out, '}');
    proof {
        assert(pairs_view(ps@).skip(0) =~= pairs_view(ps@));
        assert(out@ =~= old(out)@ + obj_rep(pairs_view(ps@)));
    }
}

/// Writes the one-line form of an entry, exactly [`entry_rep`].
pub fn serialize_entry(e: &OpLogEntry) -> (r: String)
    ensures
        r@ == entry_rep(e@),
{
    let mut out = String::new();
    out.append("{\"args\":");
    proof {
        reveal_strlit("{\"args\":");
        assert("{\"args\":"@ =~= args_tag());
    }
    append_obj(&mut out, &e.args);
    out.append(",\"command\":");
    proof {
        reveal_strlit(",\"command\":");
        assert(",\"command\":"@ =~= command_tag());
    }
    append_quoted(&mut out, e.command.as_str());
    out.append(",\"inverse\":");
    proof {
        reveal_strlit(",\"inverse\":");
        assert(",\"inverse\":"@ =~= inverse_tag());
    }
    append_obj(&mut out, &e.inverse);
    out.append(",\"timestamp\":");
    proof {
        reveal_strlit(",\"timestamp\":");
        assert(",\"timestamp\":"@ =~= timestamp_tag());
    }
    crate::num::append_int(&mut out, e.timestamp);
    push_char(&mut out, '}');
    proof {
        assert(out@ =~= entry_rep(e@));
    }
    out
}

// ---------------------------------------------------------------------------
// The parser, executable.
// ---------------------------------------------------------------------------
fn hex_nibble(c: char) -> (r: Option<u8>)
    ensures
        match r {
            Some(v) => crate::escape::is_hex_digit(c) && v == crate::escape::hex_val(c),
            None => !crate::escape::is_hex_digit(c),
        },
{
    let u: u32 = c as u32;
    if 48 <= u && u <= 57 {
        Some((u - 48) as u8)
    } else if 97 <= u && u <= 102 {
        Some((u - 87) as u8)
    } else {
        None
    }
}

/// Checks that the text at `pos` starts with `tag`, and steps over it.
fn expect_lit(s: &Vec<char>, pos: usize, tag: &str) -> (r: Option<usize>)
    requires
        pos <= s@.len(),
    ensures
        match r {
            Some(p) => {
                &&& p == pos + tag@.len()
                &&& p <= s@.len()
                &&& starts_with(s@.skip(pos as int), tag@)
            },
            None => !starts_with(s@.skip(pos as int), tag@),
        },
{
    let tlen: usize = tag.unicode_len();
    let n_len: usize = s.len();
    if n_len - pos < tlen {
        return None;
    }
    let mut j: usize = 0;
    while j < tlen
        invariant
            pos + tlen <= n_len,
            n_len == s@.len(),
            tlen == tag@.len(),
            j <= tlen,
            forall|x: int| 0 <= x < j ==> s@[pos + x] == tag@[x],
        decreases tlen - j,
    {
        let c = s[pos + j];
        if c != tag.get_char(j) {
            proof {
                assert(s@.skip(pos as int).take(tlen as int)[j as int] != tag@[j as int]);
            }
            return None;
        }
        j = j + 1;
    }
    proof {
        assert(s@.skip(pos as int).take(tlen as int) =~= tag@);
    }
    Some(pos + tlen)
}

/// The executable form of [`parse_quoted`], reading at `pos` (which must
/// hold the opening quote) and returning the decoded text and the position
/// just past the closing quote.
fn parse_quoted_at(s: &Vec<char>, pos: usize) -> (r: Option<(String, usize)>)
    requires
        pos <= s@.len(),
    ensures
        match r {
            Some(p) => {
                &&& pos < p.1 <= s@.len()
                &&& parse_quoted(s@.skip(pos as int)) == Some((p.0@, s@.skip(p.1 as int)))
            },
            None => parse_quoted(s@.skip(pos as int)) is None,
        },
{
    if pos >= s.len() || s[pos] != '"' {
        proof {
            if pos < s@.len() {
                assert(s@.skip(pos as int)[0] != '"');
            }
        }
        return None;
    }
    proof {
        assert(s@.skip(pos as int)[0] == '"');
        assert(s@.skip(pos as int).drop_first() =~= s@.skip(pos + 1));
    }
    let mut out = String::new();
    let mut cur: usize = pos + 1;
    let n_len: usize = s.len();
    loop
        invariant
            pos < s@.len(),
            pos + 1 <= cur <= s@.len(),
            n_len == s@.len(),
            s@.skip(pos as int)[0] == '"',
            s@.skip(pos as int).drop_first() == s@.skip(pos + 1),
            parse_str_body(s@.skip(pos + 1)) == (match parse_str_body(s@.skip(cur as int)) {
                Some(p) => Some((out@ + p.0, p.1)),
                None => None,
            }),
        decreases s@.len() - cur,
    {
        let ghost suffix = s@.skip(cur as int);
        if cur >= n_len {
            proof {
                assert(suffix.len() == 0);
            }
            return None;
        }
        let c = s[cur];
        proof {
            assert(suffix[0] == c);
        }
        if c == '"' {
            proof {
                assert(suffix.drop_first() =~= s@.skip(cur + 1));
                assert(out@ + Seq::<char>::empty() =~= out@);
            }
            return Some((out, cur + 1));
        } else if c == '\\' {
            if cur + 1 >= n_len {
                proof {
                    assert(suffix.len() < 2);
                }
                return None;
            }
            let e = s[cur + 1];
            proof {
                assert(suffix[1] == e);
            }
            if e == 'u' {
                if n_len - cur < 6 || s[cur + 2] != '0' || s[cur + 3] != '0' {
                    proof {
                        if cur + 5 < s@.len() {
                            assert(suffix[2] == s@[cur + 2] && suffix[3] == s@[cur + 3]);
                        } else {
                            assert(suffix.len() < 6);
                        }
                    }
                    return None;
                }
                proof {
                    assert(suffix.len() >= 6);
                    assert(suffix[2] == '0' && suffix[3] == '0');
                    assert(suffix[4] == s@[cur + 4] && suffix[5] == s@[cur + 5]);
                }
                let hi = match hex_nibble(s[cur + 4]) {
                    Some(v) => v,
                    None => {
                        return None;
                    },
                };
                let lo = match hex_nibble(s[cur + 5]) {
                    Some(v) => v,
                    None => {
                        return None;
                    },
                };
                let decoded: char = (16 * hi + lo) as char;
                let ghost old_out = out@;
                push_char(&mut out, decoded);
                proof {
                    assert(suffix.skip(6) =~= s@.skip(cur + 6));
                    match parse_str_body(s@.skip(cur + 6)) {
                        Some(q) => {
                            assert(old_out + (seq![decoded] + q.0) =~= out@ + q.0);
                        },
                        None => {},
                    }
                }
                cur = cur + 6;
            } else {
                let decoded: Option<char> = if e == '"' {
                    Some('"')
                } else if e == '\\' {
                    Some('\\')
                } else if e == '/' {
                    Some('/')
                } else if e == 'b' {
                    Some('\u{8}')
                } else if e == 'f' {
                    Some('\u{c}')
                } else if e == 'n' {
                    Some('\n')
                } else if e == 'r' {
                    Some('\r')
                } else if e == 't' {
                    Some('\t')
                } else {
                    None
                };
                match decoded {
                    Some(d) => {
                        let ghost old_out = out@;
                        push_char(&mut out, d);
                        proof {
                            assert(suffix.skip(2) =~= s@.skip(cur + 2));
                            match parse_str_body(s@.skip(cur + 2)) {
                                Some(q) => {
                                    assert(old_out + (seq![d] + q.0) =~= out@ + q.0);
                                },
                                None => {},
                            }
                        }
                        cur = cur + 2;
                    },
                    None => {
                        return None;
                    },
                }
            }
        } else {
            let u: u32 = c as u32;
            if u < 32 {
                return None;
            }
            let ghost old_out = out@;
            push_char(&mut out, c);
            proof {
                assert(suffix.drop_first() =~= s@.skip(cur + 1));
                match parse_str_body(s@.skip(cur + 1)) {
                    Some(q) => {
                        assert(old_out + (seq![c] + q.0) =~= out@ + q.0);
                    },
                    None => {},
                }
            }
            cur = cur + 1;
        }
    }
}

/// The executable form of [`parse_obj`], reading at `pos` (which must hold
/// the opening brace).
#[verifier::rlimit(100)]
fn parse_obj_at(s: &Vec<char>, pos: usize) -> (r: Option<(Vec<(String, String)>, usize)>)
    requires
        pos <= s@.len(),
    ensures
        match r {
            Some(p) => {
                &&& pos < p.1 <= s@.len()
                &&& parse_obj(s@.skip(pos as int)) == Some(
                    (pairs_view(p.0@), s@.skip(p.1 as int)),
                )
            },
            None => parse_obj(s@.skip(pos as int)) is None,
        },
{
    let n_len: usize = s.len();
    if pos >= n_len || s[pos] != '{' {
        proof {
            if pos < s@.len() {
                assert(s@.skip(pos as int)[0] != '{');
            }
        }
        return None;
    }
    proof {
        assert(s@.skip(pos as int)[0] == '{');
    }
    if pos + 1 < n_len && s[pos + 1] == '}' {
        let empty: Vec<(String, String)> = Vec::new();
        proof {
            assert(s@.skip(pos as int)[1] == '}');
            assert(s@.skip(pos as int).skip(2) =~= s@.skip(pos + 2));
            assert(pairs_view(empty@) =~= Seq::<(Seq<char>, Seq<char>)>::empty());
        }
        return Some((empty, pos + 2));
    }
    proof {
        if pos + 1 < s@.len() {
            assert(s@.skip(pos as int)[1] == s@[pos + 1]);
        }
        assert(s@.skip(pos as int).drop_first() =~= s@.skip(pos + 1));
    }
    let mut out: Vec<(String, String)> = Vec::new();
    let mut cur: usize = pos + 1;
    loop
        invariant
            pos < s@.len(),
            pos + 1 <= cur <= s@.len(),
            n_len == s@.len(),
            parse_obj(s@.skip(pos as int)) == (match parse_pairs(s@.skip(cur as int)) {
                Some(pp) => Some((pairs_view(out@) + pp.0, pp.1)),
                None => None,
            }),
        decreases s@.len() - cur,
    {
        let kq = match parse_quoted_at(s, cur) {
            Some(p) => p,
            None => {
                return None;
            },
        };
        let k = kq.0;
        let p1 = kq.1;
        if p1 >= n_len || s[p1] != ':' {
            proof {
                if p1 < s@.len() {
                    assert(s@.skip(p1 as int)[0] != ':');
                }
            }
            return None;
        }
        proof {
            assert(s@.skip(p1 as int)[0] == ':');
            assert(s@.skip(p1 as int).drop_first() =~= s@.skip(p1 + 1));
        }
        let vq = match parse_quoted_at(s, p1 + 1) {
            Some(p) => p,
            None => {
                return None;
            },
        };
        let v = vq.0;
        let p2 = vq.1;
        let ghost kview = k@;
        let ghost vview = v@;
        let ghost old_pairs = out@;
        out.push((k, v));
        proof {
            assert(pairs_view(out@) =~= pairs_view(old_pairs).push((kview, vview)));
        }
        if p2 < n_len && s[p2] == ',' {
            proof {
                assert(s@.skip(p2 as int)[0] == ',');
                assert(s@.skip(p2 as int).drop_first() =~= s@.skip(p2 + 1));
                match parse_pairs(s@.skip(p2 + 1)) {
                    Some(pp) => {
                        assert(pairs_view(old_pairs) + (seq![(kview, vview)] + pp.0)
                            =~= pairs_view(out@) + pp.0);
                    },
                    None => {},
                }
            }
            cur = p2 + 1;
        } else if p2 < n_len && s[p2] == '}' {
            proof {
                assert(s@.skip(p2 as int)[0] == '}');
                assert(s@.skip(p2 as int).drop_first() =~= s@.skip(p2 + 1));
                assert(pairs_view(old_pairs) + seq![(kview, vview)] =~= pairs_view(out@));
            }
            return Some((out, p2 + 1));
        } else {
            proof {
                if p2 < s@.len() {
                    assert(s@.skip(p2 as int)[0] == s@[p2 as int]);
                }
            }
            return None;
        }
    }
}

/// Reads one op log line, accepting exactly the canonical form that
/// [`serialize_entry`] writes.
#[verifier::rlimit(100)]
pub fn parse_entry(line: &str) -> (r: Option<OpLogEntry>)
    ensures
        match r {
            Some(e) => parse_entry_seq(line@) == Some(e@),
            None => parse_entry_seq(line@) is None,
        },
{
    let chars = crate::strops::str_to_chars(line);
    proof {
        assert(chars@.skip(0) =~= line@);
        reveal_strlit("{\"args\":");
        assert("{\"args\":"@ =~= args_tag());
        reveal_strlit(",\"command\":");
        assert(",\"command\":"@ =~= command_tag());
        reveal_strlit(",\"inverse\":");
        assert(",\"inverse\":"@ =~= inverse_tag());
        reveal_strlit(",\"timestamp\":");
        assert(",\"timestamp\":"@ =~= timestamp_tag());
    }
    let p0 = match expect_lit(&chars, 0, "{\"args\":") {
        Some(p) => p,
        None => {
            return None;
        },
    };
    proof {
        assert(chars@.skip(0 as int).skip(args_tag().len() as int) =~= chars@.skip(p0 as int));
        assert(starts_with(line@, args_tag()));
    }
    let ao = match parse_obj_at(&chars, p0) {
        Some(p) => p,
        None => {
            return None;
        },
    };
    let args = ao.0;
    let p1 = ao.1;
    let p2 = match expect_lit(&chars, p1, ",\"command\":") {
        Some(p) => p,
        None => {
            return None;
        },
    };
    proof {
        assert(chars@.skip(p1 as int).skip(command_tag().len() as int) =~= chars@.skip(
            p2 as int,
        ));
    }
    let cp = match parse_quoted_at(&chars, p2) {
        Some(p) => p,
        None => {
            return None;
        },
    };
    let command = cp.0;
    let p3 = cp.1;
    let p4 = match expect_lit(&chars, p3, ",\"inverse\":") {
        Some(p) => p,
        None => {
            return None;
        },
    };
    proof {
        assert(chars@.skip(p3 as int).skip(inverse_tag().len() as int) =~= chars@.skip(
            p4 as int,
        ));
    }
    let io = match parse_obj_at(&chars, p4) {
        Some(p) => p,
        None => {
            return None;
        },
    };
    let inverse = io.0;
    let p5 = io.1;
    let p6 = match expect_lit(&chars, p5, ",\"timestamp\":") {
        Some(p) => p,
        None => {
            return None;
        },
    };
    proof {
        assert(chars@.skip(p5 as int).skip(timestamp_tag().len() as int) =~= chars@.skip(
            p6 as int,
        ));
    }
    let tp = match crate::num::parse_int_at(&chars, p6) {
        Some(p) => p,
        None => {
            return None;
        },
    };
    let ts = tp.0;
    let p7 = tp.1;
    if p7 < chars.len() && chars.len() - p7 == 1 && chars[p7] == '}' {
        proof {
            assert(chars@.skip(p7 as int) =~= seq!['}']);
        }
        let e = OpLogEntry { timestamp: ts, command, args, inverse };
        proof {
            assert(parse_entry_seq(line@) == Some(e@));
        }
        Some(e)
    } else {
        proof {
            let remainder = chars@.skip(p7 as int);
            if remainder.len() == 1 && p7 < chars@.len() {
                assert(remainder[0] == chars@[p7 as int]);
            }
            assert(!(remainder =~= seq!['}']));
        }
        None
    }
}

} // verus!
