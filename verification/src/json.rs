//! Restricted JSON reader and writer for the shapes the library
//! exchanges: an object whose values are strings or one further object
//! of strings, with the usual backslash escapes inside strings. The
//! writer emits compact text; the reader also skips whitespace between
//! tokens. Escapes of the form `\uXXXX` are not read; a file carrying
//! one is treated as unparsable.

use vstd::prelude::*;

verus! {

/// A JSON value of the restricted shape: a string, or an object whose
/// values are all strings.
pub enum JsonVal {
    JStr(Vec<char>),
    JObj(Vec<(Vec<char>, Vec<char>)>),
}

/// The mathematical value of a `JsonVal`.
pub enum JsonValV {
    JStr(Seq<char>),
    JObj(Seq<(Seq<char>, Seq<char>)>),
}

/// The values of a run of string pairs.
pub open spec fn pairs_views(s: Seq<(Vec<char>, Vec<char>)>) -> Seq<(Seq<char>, Seq<char>)> {
    s.map_values(|p: (Vec<char>, Vec<char>)| (p.0@, p.1@))
}

/// The values of a run of document members.
pub open spec fn doc_views(s: Seq<(Vec<char>, JsonVal)>) -> Seq<(Seq<char>, JsonValV)> {
    s.map_values(|p: (Vec<char>, JsonVal)| (p.0@, p.1@))
}

impl View for JsonVal {
    type V = JsonValV;

    open spec fn view(&self) -> JsonValV {
        match self {
            JsonVal::JStr(s) => JsonValV::JStr(s@),
            JsonVal::JObj(m) => JsonValV::JObj(pairs_views(m@)),
        }
    }
}

/// Whitespace between JSON tokens.
pub open spec fn is_ws(c: char) -> bool {
    c == ' ' || c == '\t' || c == '\n' || c == '\r'
}

/// The input with its leading whitespace removed.
pub open spec fn spec_skip_ws(s: Seq<char>) -> Seq<char>
    decreases s.len(),
{
    if s.len() > 0 && is_ws(s[0]) {
        spec_skip_ws(s.drop_first())
    } else {
        s
    }
}

/// Skipping whitespace never lengthens the input.
pub proof fn lemma_skip_ws_len(s: Seq<char>)
    ensures
        spec_skip_ws(s).len() <= s.len(),
    decreases s.len(),
{
    if s.len() > 0 && is_ws(s[0]) {
        lemma_skip_ws_len(s.drop_first());
    }
}

/// Skipping whitespace of an input that starts with none is the input.
pub proof fn lemma_skip_ws_clean(s: Seq<char>)
    requires
        s.len() == 0 || !is_ws(s[0]),
    ensures
        spec_skip_ws(s) == s,
{
}

/// The escaped written form of one string character.
pub open spec fn spec_escape_char(c: char) -> Seq<char> {
    if c == '"' {
        seq!['\\', '"']
    } else if c == '\\' {
        seq!['\\', '\\']
    } else if c == '\n' {
        seq!['\\', 'n']
    } else if c == '\r' {
        seq!['\\', 'r']
    } else if c == '\t' {
        seq!['\\', 't']
    } else if c == '\u{8}' {
        seq!['\\', 'b']
    } else if c == '\u{c}' {
        seq!['\\', 'f']
    } else {
        seq![c]
    }
}

/// The escaped written form of a string's characters.
pub open spec fn spec_escape(s: Seq<char>) -> Seq<char>
    decreases s.len(),
{
    if s.len() == 0 {
        Seq::empty()
    } else {
        spec_escape_char(s[0]) + spec_escape(s.drop_first())
    }
}

/// The written form of a string: quoted and escaped.
pub open spec fn spec_emit_string(s: Seq<char>) -> Seq<char> {
    seq!['"'] + spec_escape(s) + seq!['"']
}

/// Reads string characters up to an unescaped closing quote; yields the
/// decoded characters and what follows the quote.
pub open spec fn spec_parse_string_body(s: Seq<char>) -> Option<(Seq<char>, Seq<char>)>
    decreases s.len(),
{
    if s.len() == 0 {
        None
    } else if s[0] == '"' {
        Some((Seq::empty(), s.drop_first()))
    } else if s[0] == '\\' {
        if s.len() < 2 {
            None
        } else {
            let decoded: Option<char> = if s[1] == '"' {
                Some('"')
            } else if s[1] == '\\' {
                Some('\\')
            } else if s[1] == '/' {
                Some('/')
            } else if s[1] == 'n' {
                Some('\n')
            } else if s[1] == 'r' {
                Some('\r')
            } else if s[1] == 't' {
                Some('\t')
            } else if s[1] == 'b' {
                Some('\u{8}')
            } else if s[1] == 'f' {
                Some('\u{c}')
            } else {
                None
            };
            match decoded {
                None => None,
                Some(c) => match spec_parse_string_body(s.skip(2)) {
                    None => None,
                    Some((body, rest)) => Some((seq![c] + body, rest)),
                },
            }
        }
    } else {
        match spec_parse_string_body(s.drop_first()) {
            None => None,
            Some((body, rest)) => Some((seq![s[0]] + body, rest)),
        }
    }
}

/// Reads a quoted string: an opening quote, the body, the closing
/// quote.
pub open spec fn spec_parse_quoted(s: Seq<char>) -> Option<(Seq<char>, Seq<char>)> {
    if s.len() > 0 && s[0] == '"' {
        spec_parse_string_body(s.drop_first())
    } else {
        None
    }
}

/// A read string body ends strictly inside the input.
pub proof fn lemma_parse_string_body_len(s: Seq<char>)
    ensures
        match spec_parse_string_body(s) {
            Some((body, rest)) => rest.len() < s.len(),
            None => true,
        },
    decreases s.len(),
{
    if s.len() == 0 {
    } else if s[0] == '"' {
    } else if s[0] == '\\' {
        if s.len() >= 2 {
            lemma_parse_string_body_len(s.skip(2));
        }
    } else {
        lemma_parse_string_body_len(s.drop_first());
    }
}

/// A read quoted string consumes at least its two quotes.
pub proof fn lemma_parse_quoted_len(s: Seq<char>)
    ensures
        match spec_parse_quoted(s) {
            Some((body, rest)) => rest.len() + 2 <= s.len(),
            None => true,
        },
{
    if s.len() > 0 && s[0] == '"' {
        lemma_parse_string_body_len(s.drop_first());
    }
}

/// Reading the written form of any string recovers the string exactly,
/// and consumes exactly the written form.
pub proof fn lemma_parse_escape_round_trip(s: Seq<char>, rest: Seq<char>)
    ensures
        spec_parse_string_body(spec_escape(s) + seq!['"'] + rest) == Some::<(Seq<char>, Seq<char>)>(
            (s, rest),
        ),
    decreases s.len(),
{
    let input = spec_escape(s) + seq!['"'] + rest;
    if s.len() == 0 {
        assert(input =~= seq!['"'] + rest);
        assert(input[0] == '"');
        assert(input.drop_first() =~= rest);
    } else {
        let c = s[0];
        let tail = s.drop_first();
        lemma_parse_escape_round_trip(tail, rest);
        let sub = spec_escape(tail) + seq!['"'] + rest;
        assert(input =~= spec_escape_char(c) + sub);
        if c == '"' || c == '\\' || c == '\n' || c == '\r' || c == '\t' || c == '\u{8}' || c
            == '\u{c}' {
            assert(spec_escape_char(c).len() == 2);
            assert(input[0] == '\\');
            assert(input.len() >= 2);
            assert(input.skip(2) =~= sub);
            assert(seq![c] + tail =~= s);
        } else {
            assert(spec_escape_char(c) =~= seq![c]);
            assert(input[0] == c);
            assert(c != '"' && c != '\\');
            assert(input.drop_first() =~= sub);
            assert(seq![c] + tail =~= s);
        }
    }
}

/// Reads the members of an object of strings, after its opening brace
/// and any whitespace; yields the pairs and what follows the closing
/// brace.
pub open spec fn spec_parse_flat_pairs(s: Seq<char>) -> Option<
    (Seq<(Seq<char>, Seq<char>)>, Seq<char>),
>
    decreases s.len(),
    via spec_parse_flat_pairs_dec
{
    match spec_parse_quoted(s) {
        None => None,
        Some((k, r1)) => {
            let r2 = spec_skip_ws(r1);
            if r2.len() > 0 && r2[0] == ':' {
                let r3 = spec_skip_ws(r2.drop_first());
                match spec_parse_quoted(r3) {
                    None => None,
                    Some((val, r4)) => {
                        let r5 = spec_skip_ws(r4);
                        if r5.len() > 0 && r5[0] == ',' {
                            let r6 = spec_skip_ws(r5.drop_first());
                            match spec_parse_flat_pairs(r6) {
                                None => None,
                                Some((more, r7)) => Some((seq![(k, val)] + more, r7)),
                            }
                        } else if r5.len() > 0 && r5[0] == '}' {
                            Some((seq![(k, val)], r5.drop_first()))
                        } else {
                            None
                        }
                    },
                }
            } else {
                None
            }
        },
    }
}

#[via_fn]
proof fn spec_parse_flat_pairs_dec(s: Seq<char>) {
    lemma_parse_quoted_len(s);
    match spec_parse_quoted(s) {
        None => {},
        Some((k, r1)) => {
            lemma_skip_ws_len(r1);
            let r2 = spec_skip_ws(r1);
            if r2.len() > 0 && r2[0] == ':' {
                lemma_skip_ws_len(r2.drop_first());
                let r3 = spec_skip_ws(r2.drop_first());
                lemma_parse_quoted_len(r3);
                match spec_parse_quoted(r3) {
                    None => {},
                    Some((val, r4)) => {
                        lemma_skip_ws_len(r4);
                        let r5 = spec_skip_ws(r4);
                        if r5.len() > 0 && r5[0] == ',' {
                            lemma_skip_ws_len(r5.drop_first());
                        }
                    },
                }
            }
        },
    }
}

/// Reads an object of strings from its opening brace on.
pub open spec fn spec_parse_flat_obj(s: Seq<char>) -> Option<
    (Seq<(Seq<char>, Seq<char>)>, Seq<char>),
> {
    if s.len() > 0 && s[0] == '{' {
        let t = spec_skip_ws(s.drop_first());
        if t.len() > 0 && t[0] == '}' {
            Some((Seq::empty(), t.drop_first()))
        } else {
            spec_parse_flat_pairs(t)
        }
    } else {
        None
    }
}

/// What reading members leaves is strictly shorter than the input.
pub proof fn lemma_parse_flat_pairs_len(s: Seq<char>)
    ensures
        match spec_parse_flat_pairs(s) {
            Some((ps, rest)) => rest.len() < s.len(),
            None => true,
        },
    decreases s.len(),
{
    lemma_parse_quoted_len(s);
    match spec_parse_quoted(s) {
        None => {},
        Some((k, r1)) => {
            lemma_skip_ws_len(r1);
            let r2 = spec_skip_ws(r1);
            if r2.len() > 0 && r2[0] == ':' {
                lemma_skip_ws_len(r2.drop_first());
                let r3 = spec_skip_ws(r2.drop_first());
                lemma_parse_quoted_len(r3);
                match spec_parse_quoted(r3) {
                    None => {},
                    Some((val, r4)) => {
                        lemma_skip_ws_len(r4);
                        let r5 = spec_skip_ws(r4);
                        if r5.len() > 0 && r5[0] == ',' {
                            lemma_skip_ws_len(r5.drop_first());
                            lemma_parse_flat_pairs_len(spec_skip_ws(r5.drop_first()));
                        }
                    },
                }
            }
        },
    }
}

/// What reading an object of strings leaves is strictly shorter.
pub proof fn lemma_parse_flat_obj_len(s: Seq<char>)
    ensures
        match spec_parse_flat_obj(s) {
            Some((ps, rest)) => rest.len() < s.len(),
            None => true,
        },
{
    if s.len() > 0 && s[0] == '{' {
        lemma_skip_ws_len(s.drop_first());
        let t = spec_skip_ws(s.drop_first());
        if t.len() > 0 && t[0] == '}' {
        } else {
            lemma_parse_flat_pairs_len(t);
        }
    }
}

/// Reads one value of the restricted shape: a string, or an object of
/// strings.
pub open spec fn spec_parse_value(s: Seq<char>) -> Option<(JsonValV, Seq<char>)> {
    if s.len() > 0 && s[0] == '"' {
        match spec_parse_quoted(s) {
            Some((v, rest)) => Some((JsonValV::JStr(v), rest)),
            None => None,
        }
    } else if s.len() > 0 && s[0] == '{' {
        match spec_parse_flat_obj(s) {
            Some((ps, rest)) => Some((JsonValV::JObj(ps), rest)),
            None => None,
        }
    } else {
        None
    }
}

/// What reading a value leaves is strictly shorter.
pub proof fn lemma_parse_value_len(s: Seq<char>)
    ensures
        match spec_parse_value(s) {
            Some((v, rest)) => rest.len() < s.len(),
            None => true,
        },
{
    lemma_parse_quoted_len(s);
    lemma_parse_flat_obj_len(s);
}

/// Reads the members of the top-level object, after its opening brace
/// and any whitespace.
pub open spec fn spec_parse_doc_pairs(s: Seq<char>) -> Option<
    (Seq<(Seq<char>, JsonValV)>, Seq<char>),
>
    decreases s.len(),
    via spec_parse_doc_pairs_dec
{
    match spec_parse_quoted(s) {
        None => None,
        Some((k, r1)) => {
            let r2 = spec_skip_ws(r1);
            if r2.len() > 0 && r2[0] == ':' {
                let r3 = spec_skip_ws(r2.drop_first());
                match spec_parse_value(r3) {
                    None => None,
                    Some((val, r4)) => {
                        let r5 = spec_skip_ws(r4);
                        if r5.len() > 0 && r5[0] == ',' {
                            let r6 = spec_skip_ws(r5.drop_first());
                            match spec_parse_doc_pairs(r6) {
                                None => None,
                                Some((more, r7)) => Some((seq![(k, val)] + more, r7)),
                            }
                        } else if r5.len() > 0 && r5[0] == '}' {
                            Some((seq![(k, val)], r5.drop_first()))
                        } else {
                            None
                        }
                    },
                }
            } else {
                None
            }
        },
    }
}

#[via_fn]
proof fn spec_parse_doc_pairs_dec(s: Seq<char>) {
    lemma_parse_quoted_len(s);
    match spec_parse_quoted(s) {
        None => {},
        Some((k, r1)) => {
            lemma_skip_ws_len(r1);
            let r2 = spec_skip_ws(r1);
            if r2.len() > 0 && r2[0] == ':' {
                lemma_skip_ws_len(r2.drop_first());
                let r3 = spec_skip_ws(r2.drop_first());
                lemma_parse_value_len(r3);
                match spec_parse_value(r3) {
                    None => {},
                    Some((val, r4)) => {
                        lemma_skip_ws_len(r4);
                        let r5 = spec_skip_ws(r4);
                        if r5.len() > 0 && r5[0] == ',' {
                            lemma_skip_ws_len(r5.drop_first());
                        }
                    },
                }
            }
        },
    }
}

/// Reads a whole document: one top-level object of the restricted
/// shape, with nothing but whitespace after it.
pub open spec fn spec_parse_doc(s: Seq<char>) -> Option<Seq<(Seq<char>, JsonValV)>> {
    let t = spec_skip_ws(s);
    if t.len() > 0 && t[0] == '{' {
        let u = spec_skip_ws(t.drop_first());
        if u.len() > 0 && u[0] == '}' {
            if spec_skip_ws(u.drop_first()).len() == 0 {
                Some(Seq::empty())
            } else {
                None
            }
        } else {
            match spec_parse_doc_pairs(u) {
                None => None,
                Some((ps, rest)) => if spec_skip_ws(rest).len() == 0 {
                    Some(ps)
                } else {
                    None
                },
            }
        }
    } else {
        None
    }
}

/// Reading the quoted written form of any string recovers the string.
pub proof fn lemma_parse_quoted_round_trip(s: Seq<char>, rest: Seq<char>)
    ensures
        spec_parse_quoted(spec_emit_string(s) + rest) == Some::<(Seq<char>, Seq<char>)>((s, rest)),
{
    let input = spec_emit_string(s) + rest;
    assert(input[0] == '"');
    assert(input.drop_first() =~= spec_escape(s) + seq!['"'] + rest);
    lemma_parse_escape_round_trip(s, rest);
}

/// Escaping distributes over concatenation.
pub proof fn lemma_escape_app(a: Seq<char>, b: Seq<char>)
    ensures
        spec_escape(a + b) == spec_escape(a) + spec_escape(b),
    decreases a.len(),
{
    if a.len() == 0 {
        assert(a + b =~= b);
        assert(spec_escape(a) + spec_escape(b) =~= spec_escape(b));
    } else {
        lemma_escape_app(a.drop_first(), b);
        assert((a + b).drop_first() =~= a.drop_first() + b);
        assert(spec_escape_char(a[0]) + (spec_escape(a.drop_first()) + spec_escape(b))
            =~= (spec_escape_char(a[0]) + spec_escape(a.drop_first())) + spec_escape(b));
    }
}

/// Escaping one character alone gives its escaped form.
pub proof fn lemma_escape_singleton(c: char)
    ensures
        spec_escape(seq![c]) == spec_escape_char(c),
{
    assert(seq![c].drop_first() =~= Seq::<char>::empty());
    assert(spec_escape(Seq::<char>::empty()) == Seq::<char>::empty());
    assert(seq![c][0] == c);
    assert(spec_escape(seq![c]) == spec_escape_char(c) + spec_escape(Seq::<char>::empty()));
    assert(spec_escape_char(c) + Seq::<char>::empty() =~= spec_escape_char(c));
}

/// Appends the escaped form of one character.
fn push_escaped(out: &mut Vec<char>, c: char)
    ensures
        final(out)@ == old(out)@ + spec_escape_char(c),
{
    if c == '"' {
        out.push('\\');
        out.push('"');
    } else if c == '\\' {
        out.push('\\');
        out.push('\\');
    } else if c == '\n' {
        out.push('\\');
        out.push('n');
    } else if c == '\r' {
        out.push('\\');
        out.push('r');
    } else if c == '\t' {
        out.push('\\');
        out.push('t');
    } else if c == '\u{8}' {
        out.push('\\');
        out.push('b');
    } else if c == '\u{c}' {
        out.push('\\');
        out.push('f');
    } else {
        out.push(c);
    }
    proof {
        assert(final(out)@ =~= old(out)@ + spec_escape_char(c));
    }
}

/// Appends the quoted, escaped written form of `s`.
pub fn emit_string_into(out: &mut Vec<char>, s: &Vec<char>)
    ensures
        final(out)@ == old(out)@ + spec_emit_string(s@),
{
    out.push('"');
    let mut i: usize = 0;
    proof {
        assert(spec_escape(s@.subrange(0, 0)) =~= Seq::<char>::empty());
        assert(out@ =~= old(out)@ + seq!['"'] + spec_escape(s@.subrange(0, 0)));
    }
    while i < s.len()
        invariant
            i <= s@.len(),
            out@ == old(out)@ + seq!['"'] + spec_escape(s@.subrange(0, i as int)),
        decreases s@.len() - i,
    {
        let ghost pre = s@.subrange(0, i as int);
        push_escaped(out, s[i]);
        proof {
            assert(s@.subrange(0, i as int + 1) =~= pre + seq![s@[i as int]]);
            lemma_escape_app(pre, seq![s@[i as int]]);
            lemma_escape_singleton(s@[i as int]);
            assert(out@ =~= old(out)@ + seq!['"'] + spec_escape(s@.subrange(0, i as int + 1)));
        }
        i = i + 1;
    }
    out.push('"');
    proof {
        assert(s@.subrange(0, s@.len() as int) =~= s@);
        assert(out@ =~= old(out)@ + spec_emit_string(s@));
    }
}

/// The position after any whitespace that follows position `i`.
pub fn skip_ws_at(v: &Vec<char>, i: usize) -> (r: usize)
    requires
        i <= v@.len(),
    ensures
        i <= r <= v@.len(),
        v@.skip(r as int) == spec_skip_ws(v@.skip(i as int)),
{
    let mut j: usize = i;
    while j < v.len() && (v[j] == ' ' || v[j] == '\t' || v[j] == '\n' || v[j] == '\r')
        invariant
            i <= j <= v@.len(),
            spec_skip_ws(v@.skip(i as int)) == spec_skip_ws(v@.skip(j as int)),
        decreases v@.len() - j,
    {
        proof {
            assert(v@.skip(j as int)[0] == v@[j as int]);
            assert(v@.skip(j as int).drop_first() =~= v@.skip(j as int + 1));
        }
        j = j + 1;
    }
    proof {
        if j < v@.len() {
            assert(v@.skip(j as int)[0] == v@[j as int]);
        }
        lemma_skip_ws_clean(v@.skip(j as int));
    }
    j
}

/// Reads a quoted string starting at position `i`.
#[verifier::loop_isolation(false)]
pub fn parse_quoted_at(v: &Vec<char>, i: usize) -> (r: Option<(Vec<char>, usize)>)
    requires
        i <= v@.len(),
    ensures
        match r {
            Some(p) => i < p.1 <= v@.len() && spec_parse_quoted(v@.skip(i as int)) == Some(
                (p.0@, v@.skip(p.1 as int)),
            ),
            None => spec_parse_quoted(v@.skip(i as int)) is None,
        },
{
    if i >= v.len() {
        return None;
    }
    proof {
        assert(v@.skip(i as int)[0] == v@[i as int]);
    }
    if v[i] != '"' {
        return None;
    }
    proof {
        assert(v@.skip(i as int).drop_first() =~= v@.skip(i as int + 1));
    }
    let mut acc: Vec<char> = Vec::new();
    let mut j: usize = i + 1;
    proof {
        assert(match spec_parse_string_body(v@.skip(j as int)) {
            Some(p) => spec_parse_string_body(v@.skip(i as int + 1)) == Some((acc@ + p.0, p.1)),
            None => spec_parse_string_body(v@.skip(i as int + 1)) is None,
        }) by {
            match spec_parse_string_body(v@.skip(j as int)) {
                Some(p) => {
                    assert(acc@ + p.0 =~= p.0);
                },
                None => {},
            }
        }
    }
    loop
        invariant
            i + 1 <= j <= v@.len(),
            match spec_parse_string_body(v@.skip(j as int)) {
                Some(p) => spec_parse_string_body(v@.skip(i as int + 1)) == Some((acc@ + p.0, p.1)),
                None => spec_parse_string_body(v@.skip(i as int + 1)) is None,
            },
        decreases v@.len() - j,
    {
        if j >= v.len() {
            proof {
                assert(v@.skip(j as int).len() == 0);
            }
            return None;
        }
        let c = v[j];
        proof {
            assert(v@.skip(j as int)[0] == v@[j as int]);
        }
        if c == '"' {
            proof {
                assert(v@.skip(j as int).drop_first() =~= v@.skip(j as int + 1));
                assert(acc@ + Seq::<char>::empty() =~= acc@);
            }
            return Some((acc, j + 1));
        } else if c == '\\' {
            if j + 1 >= v.len() {
                proof {
                    assert(v@.skip(j as int).len() < 2);
                }
                return None;
            }
            let e = v[j + 1];
            proof {
                assert(v@.skip(j as int)[1] == v@[j as int + 1]);
            }
            let decoded: Option<char> = if e == '"' {
                Some('"')
            } else if e == '\\' {
                Some('\\')
            } else if e == '/' {
                Some('/')
            } else if e == 'n' {
                Some('\n')
            } else if e == 'r' {
                Some('\r')
            } else if e == 't' {
                Some('\t')
            } else if e == 'b' {
                Some('\u{8}')
            } else if e == 'f' {
                Some('\u{c}')
            } else {
                None
            };
            match decoded {
                None => {
                    return None;
                },
                Some(d) => {
                    let ghost acc_old = acc@;
                    acc.push(d);
                    proof {
                        assert(v@.skip(j as int).skip(2) =~= v@.skip(j as int + 2));
                        match spec_parse_string_body(v@.skip(j as int + 2)) {
                            Some(p) => {
                                assert(spec_parse_string_body(v@.skip(j as int)) == Some(
                                    (seq![d] + p.0, p.1),
                                ));
                                assert(acc_old + (seq![d] + p.0) =~= acc@ + p.0);
                            },
                            None => {},
                        }
                    }
                    j = j + 2;
                },
            }
        } else {
            let ghost acc_old = acc@;
            acc.push(c);
            proof {
                assert(v@.skip(j as int).drop_first() =~= v@.skip(j as int + 1));
                match spec_parse_string_body(v@.skip(j as int + 1)) {
                    Some(p) => {
                        assert(spec_parse_string_body(v@.skip(j as int)) == Some(
                            (seq![c] + p.0, p.1),
                        ));
                        assert(acc_old + (seq![c] + p.0) =~= acc@ + p.0);
                    },
                    None => {},
                }
            }
            j = j + 1;
        }
    }
}

/// Reads the members of an object of strings starting at position `i`,
/// after the opening brace and any whitespace.
#[verifier::loop_isolation(false)]
fn parse_flat_pairs_at(v: &Vec<char>, i: usize) -> (r: Option<(Vec<(Vec<char>, Vec<char>)>, usize)>)
    requires
        i <= v@.len(),
    ensures
        match r {
            Some(p) => i < p.1 <= v@.len() && spec_parse_flat_pairs(v@.skip(i as int)) == Some(
                (pairs_views(p.0@), v@.skip(p.1 as int)),
            ),
            None => spec_parse_flat_pairs(v@.skip(i as int)) is None,
        },
{
    let mut acc: Vec<(Vec<char>, Vec<char>)> = Vec::new();
    let mut j: usize = i;
    proof {
        assert(pairs_views(acc@) =~= Seq::<(Seq<char>, Seq<char>)>::empty());
        assert(match spec_parse_flat_pairs(v@.skip(j as int)) {
            Some(p) => spec_parse_flat_pairs(v@.skip(i as int)) == Some(
                (pairs_views(acc@) + p.0, p.1),
            ),
            None => spec_parse_flat_pairs(v@.skip(i as int)) is None,
        }) by {
            match spec_parse_flat_pairs(v@.skip(j as int)) {
                Some(p) => {
                    assert(pairs_views(acc@) + p.0 =~= p.0);
                },
                None => {},
            }
        }
    }
    loop
        invariant
            i <= j <= v@.len(),
            match spec_parse_flat_pairs(v@.skip(j as int)) {
                Some(p) => spec_parse_flat_pairs(v@.skip(i as int)) == Some(
                    (pairs_views(acc@) + p.0, p.1),
                ),
                None => spec_parse_flat_pairs(v@.skip(i as int)) is None,
            },
        decreases v@.len() - j,
    {
        let ghost s_j = v@.skip(j as int);
        let key = match parse_quoted_at(v, j) {
            None => {
                return None;
            },
            Some(p) => p,
        };
        let (k, j1) = key;
        let j2 = skip_ws_at(v, j1);
        if j2 >= v.len() {
            return None;
        }
        proof {
            assert(v@.skip(j2 as int)[0] == v@[j2 as int]);
        }
        if v[j2] != ':' {
            return None;
        }
        proof {
            assert(v@.skip(j2 as int).drop_first() =~= v@.skip(j2 as int + 1));
        }
        let j3 = skip_ws_at(v, j2 + 1);
        let value = match parse_quoted_at(v, j3) {
            None => {
                return None;
            },
            Some(p) => p,
        };
        let (val, j4) = value;
        let j5 = skip_ws_at(v, j4);
        if j5 < v.len() && v[j5] == ',' {
            proof {
                assert(v@.skip(j5 as int)[0] == v@[j5 as int]);
                assert(v@.skip(j5 as int).drop_first() =~= v@.skip(j5 as int + 1));
            }
            let j6 = skip_ws_at(v, j5 + 1);
            let ghost acc_old = acc@;
            acc.push((k, val));
            proof {
                let kv = (acc@[acc@.len() - 1].0@, acc@[acc@.len() - 1].1@);
                match spec_parse_flat_pairs(v@.skip(j6 as int)) {
                    Some(p) => {
                        assert(spec_parse_flat_pairs(s_j) == Some((seq![kv] + p.0, p.1)));
                        assert(pairs_views(acc_old) + (seq![kv] + p.0) =~= pairs_views(acc@)
                            + p.0);
                    },
                    None => {},
                }
            }
            j = j6;
        } else if j5 < v.len() && v[j5] == '}' {
            proof {
                assert(v@.skip(j5 as int)[0] == v@[j5 as int]);
                assert(v@.skip(j5 as int).drop_first() =~= v@.skip(j5 as int + 1));
            }
            let ghost acc_old = acc@;
            acc.push((k, val));
            proof {
                let kv = (acc@[acc@.len() - 1].0@, acc@[acc@.len() - 1].1@);
                assert(spec_parse_flat_pairs(s_j) == Some((seq![kv], v@.skip(j5 as int + 1))));
                assert(pairs_views(acc_old) + seq![kv] =~= pairs_views(acc@));
            }
            return Some((acc, j5 + 1));
        } else {
            proof {
                if j5 < v@.len() {
                    assert(v@.skip(j5 as int)[0] == v@[j5 as int]);
                }
            }
            return None;
        }
    }
}

/// Reads an object of strings from its opening brace at position `i`.
fn parse_flat_obj_at(v: &Vec<char>, i: usize) -> (r: Option<(Vec<(Vec<char>, Vec<char>)>, usize)>)
    requires
        i <= v@.len(),
    ensures
        match r {
            Some(p) => i < p.1 <= v@.len() && spec_parse_flat_obj(v@.skip(i as int)) == Some(
                (pairs_views(p.0@), v@.skip(p.1 as int)),
            ),
            None => spec_parse_flat_obj(v@.skip(i as int)) is None,
        },
{
    if i >= v.len() {
        return None;
    }
    proof {
        assert(v@.skip(i as int)[0] == v@[i as int]);
    }
    if v[i] != '{' {
        return None;
    }
    proof {
        assert(v@.skip(i as int).drop_first() =~= v@.skip(i as int + 1));
    }
    let t = skip_ws_at(v, i + 1);
    if t < v.len() {
        proof {
            assert(v@.skip(t as int)[0] == v@[t as int]);
        }
        if v[t] == '}' {
            proof {
                assert(v@.skip(t as int).drop_first() =~= v@.skip(t as int + 1));
                assert(pairs_views(Seq::<(Vec<char>, Vec<char>)>::empty()) =~= Seq::<
                    (Seq<char>, Seq<char>),
                >::empty());
            }
            let empty_pairs: Vec<(Vec<char>, Vec<char>)> = Vec::new();
            return Some((empty_pairs, t + 1));
        }
    }
    parse_flat_pairs_at(v, t)
}

/// Reads one value of the restricted shape at position `i`.
fn parse_value_at(v: &Vec<char>, i: usize) -> (r: Option<(JsonVal, usize)>)
    requires
        i <= v@.len(),
    ensures
        match r {
            Some(p) => i < p.1 <= v@.len() && spec_parse_value(v@.skip(i as int)) == Some(
                (p.0@, v@.skip(p.1 as int)),
            ),
            None => spec_parse_value(v@.skip(i as int)) is None,
        },
{
    if i >= v.len() {
        return None;
    }
    proof {
        assert(v@.skip(i as int)[0] == v@[i as int]);
    }
    if v[i] == '"' {
        match parse_quoted_at(v, i) {
            Some(p) => Some((JsonVal::JStr(p.0), p.1)),
            None => None,
        }
    } else if v[i] == '{' {
        match parse_flat_obj_at(v, i) {
            Some(p) => Some((JsonVal::JObj(p.0), p.1)),
            None => None,
        }
    } else {
        None
    }
}

/// Reads the members of the top-level object starting at position `i`,
/// after the opening brace and any whitespace.
#[verifier::loop_isolation(false)]
fn parse_doc_pairs_at(v: &Vec<char>, i: usize) -> (r: Option<(Vec<(Vec<char>, JsonVal)>, usize)>)
    requires
        i <= v@.len(),
    ensures
        match r {
            Some(p) => i < p.1 <= v@.len() && spec_parse_doc_pairs(v@.skip(i as int)) == Some(
                (doc_views(p.0@), v@.skip(p.1 as int)),
            ),
            None => spec_parse_doc_pairs(v@.skip(i as int)) is None,
        },
{
    let mut acc: Vec<(Vec<char>, JsonVal)> = Vec::new();
    let mut j: usize = i;
    proof {
        assert(doc_views(acc@) =~= Seq::<(Seq<char>, JsonValV)>::empty());
        assert(match spec_parse_doc_pairs(v@.skip(j as int)) {
            Some(p) => spec_parse_doc_pairs(v@.skip(i as int)) == Some(
                (doc_views(acc@) + p.0, p.1),
            ),
            None => spec_parse_doc_pairs(v@.skip(i as int)) is None,
        }) by {
            match spec_parse_doc_pairs(v@.skip(j as int)) {
                Some(p) => {
                    assert(doc_views(acc@) + p.0 =~= p.0);
                },
                None => {},
            }
        }
    }
    loop
        invariant
            i <= j <= v@.len(),
            match spec_parse_doc_pairs(v@.skip(j as int)) {
                Some(p) => spec_parse_doc_pairs(v@.skip(i as int)) == Some(
                    (doc_views(acc@) + p.0, p.1),
                ),
                None => spec_parse_doc_pairs(v@.skip(i as int)) is None,
            },
        decreases v@.len() - j,
    {
        let ghost s_j = v@.skip(j as int);
        let key = match parse_quoted_at(v, j) {
            None => {
                return None;
            },
            Some(p) => p,
        };
        let (k, j1) = key;
        let j2 = skip_ws_at(v, j1);
        if j2 >= v.len() {
            return None;
        }
        proof {
            assert(v@.skip(j2 as int)[0] == v@[j2 as int]);
        }
        if v[j2] != ':' {
            return None;
        }
        proof {
            assert(v@.skip(j2 as int).drop_first() =~= v@.skip(j2 as int + 1));
        }
        let j3 = skip_ws_at(v, j2 + 1);
        let value = match parse_value_at(v, j3) {
            None => {
                return None;
            },
            Some(p) => p,
        };
        let (val, j4) = value;
        let j5 = skip_ws_at(v, j4);
        if j5 < v.len() && v[j5] == ',' {
            proof {
                assert(v@.skip(j5 as int)[0] == v@[j5 as int]);
                assert(v@.skip(j5 as int).drop_first() =~= v@.skip(j5 as int + 1));
            }
            let j6 = skip_ws_at(v, j5 + 1);
            let ghost acc_old = acc@;
            acc.push((k, val));
            proof {
                let kv = (acc@[acc@.len() - 1].0@, acc@[acc@.len() - 1].1@);
                match spec_parse_doc_pairs(v@.skip(j6 as int)) {
                    Some(p) => {
                        assert(spec_parse_doc_pairs(s_j) == Some((seq![kv] + p.0, p.1)));
                        assert(doc_views(acc_old) + (seq![kv] + p.0) =~= doc_views(acc@) + p.0);
                    },
                    None => {},
                }
            }
            j = j6;
        } else if j5 < v.len() && v[j5] == '}' {
            proof {
                assert(v@.skip(j5 as int)[0] == v@[j5 as int]);
                assert(v@.skip(j5 as int).drop_first() =~= v@.skip(j5 as int + 1));
            }
            let ghost acc_old = acc@;
            acc.push((k, val));
            proof {
                let kv = (acc@[acc@.len() - 1].0@, acc@[acc@.len() - 1].1@);
                assert(spec_parse_doc_pairs(s_j) == Some((seq![kv], v@.skip(j5 as int + 1))));
                assert(doc_views(acc_old) + seq![kv] =~= doc_views(acc@));
            }
            return Some((acc, j5 + 1));
        } else {
            proof {
                if j5 < v@.len() {
                    assert(v@.skip(j5 as int)[0] == v@[j5 as int]);
                }
            }
            return None;
        }
    }
}

/// Reads a whole document: one top-level object of the restricted
/// shape, with nothing but whitespace after it.
pub fn parse_doc(v: &Vec<char>) -> (r: Option<Vec<(Vec<char>, JsonVal)>>)
    ensures
        match r {
            Some(d) => spec_parse_doc(v@) == Some(doc_views(d@)),
            None => spec_parse_doc(v@) is None,
        },
{
    proof {
        assert(v@.skip(0) =~= v@);
    }
    let t = skip_ws_at(v, 0);
    if t >= v.len() {
        return None;
    }
    proof {
        assert(v@.skip(t as int)[0] == v@[t as int]);
    }
    if v[t] != '{' {
        return None;
    }
    proof {
        assert(v@.skip(t as int).drop_first() =~= v@.skip(t as int + 1));
    }
    let u = skip_ws_at(v, t + 1);
    if u < v.len() {
        proof {
            assert(v@.skip(u as int)[0] == v@[u as int]);
        }
        if v[u] == '}' {
            proof {
                assert(v@.skip(u as int).drop_first() =~= v@.skip(u as int + 1));
            }
            let e = skip_ws_at(v, u + 1);
            if e >= v.len() {
                proof {
                    assert(doc_views(Seq::<(Vec<char>, JsonVal)>::empty()) =~= Seq::<
                        (Seq<char>, JsonValV),
                    >::empty());
                }
                let empty_doc: Vec<(Vec<char>, JsonVal)> = Vec::new();
                return Some(empty_doc);
            } else {
                return None;
            }
        }
    }
    match parse_doc_pairs_at(v, u) {
        None => None,
        Some(p) => {
            let (doc, rest) = p;
            let e = skip_ws_at(v, rest);
            if e >= v.len() {
                Some(doc)
            } else {
                None
            }
        },
    }
}

} // verus!
