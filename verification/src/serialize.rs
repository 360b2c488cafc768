//! Multi-format serializer: writes entry maps as JSON, YAML or TOML
//! objects or as flat `KEY=VALUE` text, and reads them back with
//! format auto-detection: the format a file's name implies is tried
//! first, then the rest in a fixed order; the first format whose
//! content parses to a non-empty entry set wins.

use vstd::prelude::*;
use crate::text::{
    chars_of, eq_chars, find_char, spec_find_char, string_from_chars, subvec, append_chars,
    lemma_find_char_skip, lemma_find_char_properties, spec_starts_with, starts_with_chars,
};
use crate::json::{spec_emit_string, emit_string_into};

verus! {

/// What kind of value an imported entry declares.
#[derive(PartialEq, Eq, Structural, Clone, Copy, Debug)]
pub enum ImportKind {
    Plain,
    SecretIndirection,
    NeedsDecision,
}

/// One entry read from an import file.
#[derive(Debug)]
pub struct ImportEntry {
    pub key: String,
    pub value: String,
    pub kind: ImportKind,
}

/// The mathematical value of an `ImportEntry`.
pub struct ImportEntryV {
    pub key: Seq<char>,
    pub value: Seq<char>,
    pub kind: ImportKind,
}

impl View for ImportEntry {
    type V = ImportEntryV;

    open spec fn view(&self) -> ImportEntryV {
        ImportEntryV { key: self.key@, value: self.value@, kind: self.kind }
    }
}

impl ImportEntry {
    /// A field-by-field copy whose value equals this one.
    pub fn duplicate(&self) -> (r: ImportEntry)
        ensures
            r@ == self@,
    {
        ImportEntry { key: self.key.clone(), value: self.value.clone(), kind: self.kind }
    }
}

/// The values of a run of import entries.
pub open spec fn import_views(s: Seq<ImportEntry>) -> Seq<ImportEntryV> {
    s.map_values(|e: ImportEntry| e@)
}

/// One entry handed to the serializer for export.
pub struct ExportEntry {
    pub key: String,
    pub value: String,
    pub from_secret: bool,
}

/// The mathematical value of an `ExportEntry`.
pub struct ExportEntryV {
    pub key: Seq<char>,
    pub value: Seq<char>,
    pub from_secret: bool,
}

impl View for ExportEntry {
    type V = ExportEntryV;

    open spec fn view(&self) -> ExportEntryV {
        ExportEntryV { key: self.key@, value: self.value@, from_secret: self.from_secret }
    }
}

/// The values of a run of export entries.
pub open spec fn export_views(s: Seq<ExportEntry>) -> Seq<ExportEntryV> {
    s.map_values(|e: ExportEntry| e@)
}

/// The structured export formats.
#[derive(PartialEq, Eq, Structural, Clone, Copy, Debug)]
pub enum ExportFormat {
    Json,
    Yaml,
    Toml,
}

/// The formats import auto-detection can try.
#[derive(PartialEq, Eq, Structural, Clone, Copy, Debug)]
pub enum ImportFormat {
    Json,
    Yaml,
    Toml,
    Env,
}

/// The lines of a text, split on every line feed; a carriage return
/// at a line's end is dropped.
pub open spec fn spec_split_lines(s: Seq<char>) -> Seq<Seq<char>>
    decreases s.len(),
    via spec_split_lines_dec
{
    match spec_find_char(s, '\n', 0) {
        None => seq![spec_drop_cr(s)],
        Some(i) => seq![spec_drop_cr(s.subrange(0, i))] + spec_split_lines(s.skip(i + 1)),
    }
}

#[via_fn]
proof fn spec_split_lines_dec(s: Seq<char>) {
    lemma_find_char_properties(s, '\n', 0);
}

/// A line without its trailing carriage return.
pub open spec fn spec_drop_cr(s: Seq<char>) -> Seq<char> {
    if s.len() > 0 && s[s.len() - 1] == '\r' {
        s.take(s.len() - 1)
    } else {
        s
    }
}

/// True when a character is a blank inside a line.
pub open spec fn is_blank_char(c: char) -> bool {
    c == ' ' || c == '\t'
}

/// The index of the first non-blank character at or after `from`.
pub open spec fn spec_skip_blanks(s: Seq<char>, from: int) -> int
    decreases s.len() - from,
{
    if from < 0 || from >= s.len() {
        s.len() as int
    } else if is_blank_char(s[from]) {
        spec_skip_blanks(s, from + 1)
    } else {
        from
    }
}

/// The index one past the last non-blank character before `to`.
pub open spec fn spec_rskip_blanks(s: Seq<char>, to: int) -> int
    decreases to,
{
    if to <= 0 || to > s.len() {
        0
    } else if is_blank_char(s[to - 1]) {
        spec_rskip_blanks(s, to - 1)
    } else {
        to
    }
}

/// A line with its blanks trimmed on both sides.
pub open spec fn spec_trim(s: Seq<char>) -> Seq<char> {
    let a = spec_skip_blanks(s, 0);
    let b = spec_rskip_blanks(s, s.len() as int);
    if a <= b {
        s.subrange(a, b)
    } else {
        Seq::empty()
    }
}

proof fn lemma_skip_blanks_range(s: Seq<char>, from: int)
    requires
        0 <= from <= s.len(),
    ensures
        from <= spec_skip_blanks(s, from) <= s.len(),
    decreases s.len() - from,
{
    if from < s.len() && is_blank_char(s[from]) {
        lemma_skip_blanks_range(s, from + 1);
    }
}

proof fn lemma_rskip_blanks_range(s: Seq<char>, to: int)
    requires
        0 <= to <= s.len(),
    ensures
        0 <= spec_rskip_blanks(s, to) <= to,
    decreases to,
{
    if to > 0 && is_blank_char(s[to - 1]) {
        lemma_rskip_blanks_range(s, to - 1);
    }
}

fn skip_blanks_at(v: &Vec<char>, from: usize) -> (r: usize)
    requires
        from <= v@.len(),
    ensures
        from <= r <= v@.len(),
        r as int == spec_skip_blanks(v@, from as int),
{
    let mut i = from;
    while i < v.len() && (v[i] == ' ' || v[i] == '\t')
        invariant
            from <= i <= v@.len(),
            spec_skip_blanks(v@, from as int) == spec_skip_blanks(v@, i as int),
        decreases v@.len() - i,
    {
        i = i + 1;
    }
    i
}

fn rskip_blanks_at(v: &Vec<char>, to: usize) -> (r: usize)
    requires
        to <= v@.len(),
    ensures
        r <= to,
        r as int == spec_rskip_blanks(v@, to as int),
{
    let mut i = to;
    while i > 0 && (v[i - 1] == ' ' || v[i - 1] == '\t')
        invariant
            i <= to <= v@.len(),
            spec_rskip_blanks(v@, to as int) == spec_rskip_blanks(v@, i as int),
        decreases i,
    {
        i = i - 1;
    }
    i
}

/// A copy of `v` with its blanks trimmed on both sides.
fn trim_vec(v: &Vec<char>) -> (r: Vec<char>)
    ensures
        r@ == spec_trim(v@),
{
    let a = skip_blanks_at(v, 0);
    let b = rskip_blanks_at(v, v.len());
    proof {
        lemma_skip_blanks_range(v@, 0);
        lemma_rskip_blanks_range(v@, v@.len() as int);
    }
    if a <= b {
        subvec(v, a, b)
    } else {
        Vec::new()
    }
}

/// Splits a text into its lines.
#[verifier::loop_isolation(false)]
fn split_lines(v: &Vec<char>) -> (r: Vec<Vec<char>>)
    ensures
        r@.map_values(|l: Vec<char>| l@) == spec_split_lines(v@),
{
    let mut lines: Vec<Vec<char>> = Vec::new();
    let mut cur: usize = 0;
    proof {
        assert(v@.skip(0) =~= v@);
        assert(lines@.map_values(|l: Vec<char>| l@) =~= Seq::<Seq<char>>::empty());
        assert(spec_split_lines(v@) =~= lines@.map_values(|l: Vec<char>| l@) + spec_split_lines(
            v@.skip(0),
        ));
    }
    loop
        invariant
            cur <= v@.len(),
            spec_split_lines(v@) == lines@.map_values(|l: Vec<char>| l@) + spec_split_lines(
                v@.skip(cur as int),
            ),
        decreases v@.len() - cur,
    {
        let ghost lines_old = lines@;
        proof {
            lemma_find_char_skip(v@, '\n', cur as int, 0);
        }
        let n = v.len();
        match find_char(v, '\n', cur) {
            Some(i) => {
                proof {
                    assert(i < n);
                }
                let raw = subvec(v, cur, i);
                let line = drop_cr(raw);
                lines.push(line);
                proof {
                    assert(v@.skip(cur as int).subrange(0, i - cur as int) =~= v@.subrange(
                        cur as int,
                        i as int,
                    ));
                    assert(v@.skip(cur as int).skip(i - cur as int + 1) =~= v@.skip(i as int + 1));
                    assert(spec_split_lines(v@.skip(cur as int)) == seq![spec_drop_cr(v@.subrange(
                        cur as int,
                        i as int,
                    ))] + spec_split_lines(v@.skip(i as int + 1)));
                    assert(lines@.map_values(|l: Vec<char>| l@) =~= lines_old.map_values(
                        |l: Vec<char>| l@,
                    ).push(spec_drop_cr(v@.subrange(cur as int, i as int))));
                    assert(lines_old.map_values(|l: Vec<char>| l@) + (seq![spec_drop_cr(
                        v@.subrange(cur as int, i as int),
                    )] + spec_split_lines(v@.skip(i as int + 1))) =~= lines@.map_values(
                        |l: Vec<char>| l@,
                    ) + spec_split_lines(v@.skip(i as int + 1)));
                }
                cur = i + 1;
            },
            None => {
                let raw = subvec(v, cur, v.len());
                let line = drop_cr(raw);
                lines.push(line);
                proof {
                    assert(v@.skip(cur as int).subrange(0, v@.len() - cur as int) =~= v@.skip(
                        cur as int,
                    ));
                    assert(spec_split_lines(v@.skip(cur as int)) == seq![spec_drop_cr(v@.skip(
                        cur as int,
                    ))]);
                    assert(raw@ =~= v@.skip(cur as int));
                    assert(lines@.map_values(|l: Vec<char>| l@) =~= lines_old.map_values(
                        |l: Vec<char>| l@,
                    ).push(spec_drop_cr(v@.skip(cur as int))));
                    assert(lines_old.map_values(|l: Vec<char>| l@) + seq![spec_drop_cr(v@.skip(
                        cur as int,
                    ))] =~= lines@.map_values(|l: Vec<char>| l@));
                    assert(spec_split_lines(v@) =~= lines@.map_values(|l: Vec<char>| l@)
                        + Seq::<Seq<char>>::empty());
                    assert(spec_split_lines(v@) == lines@.map_values(|l: Vec<char>| l@));
                }
                return lines;
            },
        }
    }
}

/// A copy of a line without its trailing carriage return.
fn drop_cr(raw: Vec<char>) -> (r: Vec<char>)
    ensures
        r@ == spec_drop_cr(raw@),
{
    if raw.len() > 0 && raw[raw.len() - 1] == '\r' {
        let r = subvec(&raw, 0, raw.len() - 1);
        proof {
            assert(r@ =~= raw@.take(raw@.len() - 1));
        }
        r
    } else {
        raw
    }
}

/// The token a line may carry before its key.
pub open spec fn export_tag() -> Seq<char> {
    seq!['e', 'x', 'p', 'o', 'r', 't', ' ']
}

/// A line's trailing blanks removed.
pub open spec fn spec_rtrim(s: Seq<char>) -> Seq<char> {
    s.subrange(0, spec_rskip_blanks(s, s.len() as int))
}

/// The value a raw right-hand side denotes: double quotes decode
/// backslash escapes, single quotes keep the text as written, a bare
/// value loses a trailing comment and trailing blanks.
pub open spec fn spec_env_value(raw: Seq<char>) -> Option<Seq<char>> {
    if raw.len() == 0 {
        Some(Seq::empty())
    } else if raw[0] == '"' {
        match crate::json::spec_parse_string_body(raw.drop_first()) {
            Some(p) => Some(p.0),
            None => None,
        }
    } else if raw[0] == '\'' {
        match spec_find_char(raw, '\'', 1) {
            Some(j) => Some(raw.subrange(1, j)),
            None => None,
        }
    } else {
        match spec_find_char(raw, '#', 0) {
            Some(h) => Some(spec_rtrim(raw.subrange(0, h))),
            None => Some(raw),
        }
    }
}

/// What one line of flat text contributes: nothing for a blank or
/// comment line, a key/value pair, or a refusal.
pub open spec fn spec_env_line(line: Seq<char>) -> Option<Result<(Seq<char>, Seq<char>), ()>> {
    let t = spec_trim(line);
    if t.len() == 0 || t[0] == '#' {
        None
    } else {
        let u = if spec_starts_with(t, export_tag()) {
            t.skip(7)
        } else {
            t
        };
        match spec_find_char(u, '=', 0) {
            None => Some(Err(())),
            Some(e) => {
                let key = spec_trim(u.subrange(0, e));
                if key.len() == 0 {
                    Some(Err(()))
                } else {
                    let raw = spec_trim(u.skip(e + 1));
                    match spec_env_value(raw) {
                        Some(v) => Some(Ok((key, v))),
                        None => Some(Err(())),
                    }
                }
            },
        }
    }
}

/// The pairs a run of flat lines denotes, or nothing when a line is
/// refused.
pub open spec fn spec_env_pairs(lines: Seq<Seq<char>>) -> Option<Seq<(Seq<char>, Seq<char>)>>
    decreases lines.len(),
{
    if lines.len() == 0 {
        Some(Seq::empty())
    } else {
        match spec_env_line(lines[0]) {
            None => spec_env_pairs(lines.drop_first()),
            Some(Err(_)) => None,
            Some(Ok(kv)) => match spec_env_pairs(lines.drop_first()) {
                None => None,
                Some(rest) => Some(seq![kv] + rest),
            },
        }
    }
}

/// The entries flat text denotes: every pair, carrying no kind tag of
/// its own, awaits a decision.
pub open spec fn spec_parse_env_entries(s: Seq<char>) -> Option<Seq<ImportEntryV>> {
    match spec_env_pairs(spec_split_lines(s)) {
        None => None,
        Some(ps) => Some(
            ps.map_values(
                |kv: (Seq<char>, Seq<char>)|
                    ImportEntryV { key: kv.0, value: kv.1, kind: ImportKind::NeedsDecision },
            ),
        ),
    }
}

/// A copy of a raw right-hand side decoded as `spec_env_value` says.
fn env_value(raw: &Vec<char>) -> (r: Option<Vec<char>>)
    ensures
        match r {
            Some(v) => spec_env_value(raw@) == Some(v@),
            None => spec_env_value(raw@) is None,
        },
{
    if raw.len() == 0 {
        let empty: Vec<char> = Vec::new();
        proof {
            assert(empty@ =~= Seq::<char>::empty());
        }
        return Some(empty);
    }
    if raw[0] == '"' {
        match crate::json::parse_quoted_at(raw, 0) {
            Some(p) => {
                proof {
                    assert(raw@.skip(0) =~= raw@);
                }
                Some(p.0)
            },
            None => {
                proof {
                    assert(raw@.skip(0) =~= raw@);
                }
                None
            },
        }
    } else if raw[0] == '\'' {
        match find_char(raw, '\'', 1) {
            Some(j) => Some(subvec(raw, 1, j)),
            None => None,
        }
    } else {
        match find_char(raw, '#', 0) {
            Some(h) => {
                let cut = subvec(raw, 0, h);
                let b = rskip_blanks_at(&cut, cut.len());
                let r = subvec(&cut, 0, b);
                proof {
                    assert(r@ =~= spec_rtrim(raw@.subrange(0, h as int)));
                }
                Some(r)
            },
            None => Some(subvec(raw, 0, raw.len())),
        }
    }
}

/// What one line of flat text contributes, as `spec_env_line` says.
fn env_line(line: &Vec<char>) -> (r: Option<Result<(Vec<char>, Vec<char>), ()>>)
    ensures
        match r {
            None => spec_env_line(line@) is None,
            Some(Err(_)) => spec_env_line(line@) == Some(Err::<(Seq<char>, Seq<char>), ()>(())),
            Some(Ok(p)) => spec_env_line(line@) == Some(
                Ok::<(Seq<char>, Seq<char>), ()>((p.0@, p.1@)),
            ),
        },
{
    let t = trim_vec(line);
    if t.len() == 0 || t[0] == '#' {
        return None;
    }
    let tag = chars_of("export ");
    proof {
        reveal_strlit("export ");
        assert(tag@ =~= export_tag());
    }
    let u = if starts_with_chars(&t, &tag) {
        let r = subvec(&t, 7, t.len());
        proof {
            assert(r@ =~= t@.skip(7));
        }
        r
    } else {
        t
    };
    match find_char(&u, '=', 0) {
        None => Some(Err(())),
        Some(e) => {
            let left = subvec(&u, 0, e);
            let key = trim_vec(&left);
            if key.len() == 0 {
                return Some(Err(()));
            }
            let n = u.len();
            proof {
                assert(e < n);
            }
            let right = subvec(&u, e + 1, n);
            proof {
                assert(right@ =~= u@.skip(e as int + 1));
            }
            let raw = trim_vec(&right);
            match env_value(&raw) {
                Some(v) => Some(Ok((key, v))),
                None => Some(Err(())),
            }
        },
    }
}

/// Reads flat `KEY=VALUE` text into entries awaiting a decision.
#[verifier::loop_isolation(false)]
pub fn parse_env_entries(v: &Vec<char>) -> (r: Option<Vec<ImportEntry>>)
    ensures
        match r {
            Some(es) => spec_parse_env_entries(v@) == Some(import_views(es@)),
            None => spec_parse_env_entries(v@) is None,
        },
{
    let lines = split_lines(v);
    let ghost lv = lines@.map_values(|l: Vec<char>| l@);
    let mut acc: Vec<ImportEntry> = Vec::new();
    let mut i: usize = 0;
    proof {
        assert(lv.skip(0) =~= lv);
        assert(import_views(acc@) =~= Seq::<ImportEntryV>::empty());
    }
    while i < lines.len()
        invariant
            i <= lines@.len(),
            lv == lines@.map_values(|l: Vec<char>| l@),
            match spec_env_pairs(lv.skip(i as int)) {
                Some(rest) => spec_env_pairs(lv) == Some(
                    import_views(acc@).map_values(
                        |e: ImportEntryV| (e.key, e.value),
                    ) + rest,
                ) && forall|k: int|
                    0 <= k < acc@.len() ==> (#[trigger] acc@[k]@).kind
                        == ImportKind::NeedsDecision,
                None => spec_env_pairs(lv) is None,
            },
        decreases lines@.len() - i,
    {
        proof {
            assert(lv.skip(i as int)[0] == lines@[i as int]@);
            assert(lv.skip(i as int).drop_first() =~= lv.skip(i as int + 1));
        }
        let ghost acc_old = acc@;
        match env_line(&lines[i]) {
            None => {},
            Some(Err(_)) => {
                return None;
            },
            Some(Ok(p)) => {
                let (k, val) = p;
                acc.push(
                    ImportEntry {
                        key: string_from_chars(&k),
                        value: string_from_chars(&val),
                        kind: ImportKind::NeedsDecision,
                    },
                );
                proof {
                    match spec_env_pairs(lv.skip(i as int + 1)) {
                        Some(rest) => {
                            assert(import_views(acc@).map_values(
                                |e: ImportEntryV| (e.key, e.value),
                            ) =~= import_views(acc_old).map_values(
                                |e: ImportEntryV| (e.key, e.value),
                            ).push((k@, val@)));
                            assert(import_views(acc_old).map_values(
                                |e: ImportEntryV| (e.key, e.value),
                            ) + (seq![(k@, val@)] + rest) =~= import_views(acc@).map_values(
                                |e: ImportEntryV| (e.key, e.value),
                            ) + rest);
                        },
                        None => {},
                    }
                }
            },
        }
        i = i + 1;
    }
    proof {
        assert(lv.skip(lines@.len() as int).len() == 0);
        match spec_env_pairs(lv) {
            Some(ps) => {
                assert(import_views(acc@).map_values(|e: ImportEntryV| (e.key, e.value))
                    + Seq::<(Seq<char>, Seq<char>)>::empty() =~= import_views(acc@).map_values(
                    |e: ImportEntryV| (e.key, e.value),
                ));
                assert(ps == import_views(acc@).map_values(|e: ImportEntryV| (e.key, e.value)));
                assert(ps.map_values(
                    |kv: (Seq<char>, Seq<char>)|
                        ImportEntryV { key: kv.0, value: kv.1, kind: ImportKind::NeedsDecision },
                ) =~= import_views(acc@));
            },
            None => {},
        }
    }
    Some(acc)
}

/// The member key that carries an entry's kind tag.
pub open spec fn type_key() -> Seq<char> {
    seq!['t', 'y', 'p', 'e']
}

/// The member key that carries an entry's value.
pub open spec fn value_key() -> Seq<char> {
    seq!['v', 'a', 'l', 'u', 'e']
}

/// The kind tag of a plain entry.
pub open spec fn plain_tag() -> Seq<char> {
    seq!['p', 'l', 'a', 'i', 'n']
}

/// The kind tag of a secret indirection.
pub open spec fn keyvault_tag() -> Seq<char> {
    seq!['k', 'e', 'y', 'v', 'a', 'u', 'l', 't']
}

/// The kind a written tag denotes.
pub open spec fn spec_kind_of_tag(t: Seq<char>) -> Option<ImportKind> {
    if t == plain_tag() {
        Some(ImportKind::Plain)
    } else if t == keyvault_tag() {
        Some(ImportKind::SecretIndirection)
    } else {
        None
    }
}

/// The kind a written tag denotes, read from characters.
fn kind_of_tag(t: &Vec<char>) -> (r: Option<ImportKind>)
    ensures
        r == spec_kind_of_tag(t@),
{
    let p = chars_of("plain");
    let k = chars_of("keyvault");
    proof {
        reveal_strlit("plain");
        reveal_strlit("keyvault");
        assert(p@ =~= plain_tag());
        assert(k@ =~= keyvault_tag());
    }
    if eq_chars(t, &p) {
        Some(ImportKind::Plain)
    } else if eq_chars(t, &k) {
        Some(ImportKind::SecretIndirection)
    } else {
        None
    }
}

/// A block under construction while structured lines are read: its
/// key, and the tag and value seen so far.
pub struct BlockPendV {
    pub key: Seq<char>,
    pub kind: Option<ImportKind>,
    pub value: Option<Seq<char>>,
}

struct BlockPend {
    key: Vec<char>,
    kind: Option<ImportKind>,
    value: Option<Vec<char>>,
}

impl BlockPend {
    spec fn view_p(&self) -> BlockPendV {
        BlockPendV {
            key: self.key@,
            kind: self.kind,
            value: match self.value {
                Some(v) => Some(v@),
                None => None,
            },
        }
    }
}

spec fn opt_pend_view(p: &Option<BlockPend>) -> Option<BlockPendV> {
    match p {
        Some(q) => Some(q.view_p()),
        None => None,
    }
}

/// The entry a finished block denotes: its value is required, a
/// missing tag means plain.
pub open spec fn spec_block_flush(p: Option<BlockPendV>) -> Option<Seq<ImportEntryV>> {
    match p {
        None => Some(Seq::empty()),
        Some(q) => match q.value {
            None => None,
            Some(v) => Some(
                seq![
                    ImportEntryV {
                        key: q.key,
                        value: v,
                        kind: match q.kind {
                            Some(k) => k,
                            None => ImportKind::Plain,
                        },
                    },
                ],
            ),
        },
    }
}

fn block_flush(p: &Option<BlockPend>) -> (r: Option<Vec<ImportEntry>>)
    ensures
        match r {
            Some(es) => spec_block_flush(opt_pend_view(p)) == Some(import_views(es@)),
            None => spec_block_flush(opt_pend_view(p)) is None,
        },
{
    match p {
        None => {
            let es: Vec<ImportEntry> = Vec::new();
            proof {
                assert(import_views(es@) =~= Seq::<ImportEntryV>::empty());
            }
            Some(es)
        },
        Some(q) => {
            match &q.value {
                None => None,
                Some(v) => {
                    let kind = match q.kind {
                        Some(k) => k,
                        None => ImportKind::Plain,
                    };
                    let mut es: Vec<ImportEntry> = Vec::new();
                    es.push(
                        ImportEntry {
                            key: string_from_chars(&q.key),
                            value: string_from_chars(v),
                            kind,
                        },
                    );
                    proof {
                        assert(import_views(es@) =~= seq![
                            ImportEntryV {
                                key: q.key@,
                                value: v@,
                                kind: match q.kind {
                                    Some(k) => k,
                                    None => ImportKind::Plain,
                                },
                            },
                        ]);
                    }
                    Some(es)
                },
            }
        },
    }
}

/// What one structured YAML line does to the block being read.
pub open spec fn spec_yaml_step(p: Option<BlockPendV>, line: Seq<char>) -> Option<
    (Seq<ImportEntryV>, Option<BlockPendV>),
> {
    let t = spec_trim(line);
    if t.len() == 0 || t[0] == '#' {
        Some((Seq::empty(), p))
    } else if line.len() > 0 && is_blank_char(line[0]) {
        match p {
            None => None,
            Some(q) => match spec_find_char(t, ':', 0) {
                None => None,
                Some(c) => {
                    let k = spec_trim(t.subrange(0, c));
                    let rawv = spec_trim(t.skip(c + 1));
                    if k == type_key() {
                        match spec_env_value(rawv) {
                            None => None,
                            Some(tv) => match spec_kind_of_tag(tv) {
                                None => None,
                                Some(kind) => Some(
                                    (
                                        Seq::empty(),
                                        Some(
                                            BlockPendV {
                                                key: q.key,
                                                kind: Some(kind),
                                                value: q.value,
                                            },
                                        ),
                                    ),
                                ),
                            },
                        }
                    } else if k == value_key() {
                        match spec_env_value(rawv) {
                            None => None,
                            Some(vv) => Some(
                                (
                                    Seq::empty(),
                                    Some(
                                        BlockPendV { key: q.key, kind: q.kind, value: Some(vv) },
                                    ),
                                ),
                            ),
                        }
                    } else {
                        None
                    }
                },
            },
        }
    } else {
        match spec_block_flush(p) {
            None => None,
            Some(es) => match spec_find_char(t, ':', 0) {
                None => None,
                Some(c) => {
                    let k = spec_trim(t.subrange(0, c));
                    if k.len() == 0 {
                        None
                    } else {
                        let rawv = spec_trim(t.skip(c + 1));
                        if rawv.len() == 0 {
                            Some((es, Some(BlockPendV { key: k, kind: None, value: None })))
                        } else {
                            match spec_env_value(rawv) {
                                None => None,
                                Some(vv) => Some(
                                    (
                                        es + seq![
                                            ImportEntryV {
                                                key: k,
                                                value: vv,
                                                kind: ImportKind::Plain,
                                            },
                                        ],
                                        None,
                                    ),
                                ),
                            }
                        }
                    }
                },
            },
        }
    }
}

/// The entries a run of YAML lines denotes.
pub open spec fn spec_yaml_lines(lines: Seq<Seq<char>>, p: Option<BlockPendV>) -> Option<
    Seq<ImportEntryV>,
>
    decreases lines.len(),
{
    if lines.len() == 0 {
        spec_block_flush(p)
    } else {
        match spec_yaml_step(p, lines[0]) {
            None => None,
            Some(sp) => match spec_yaml_lines(lines.drop_first(), sp.1) {
                None => None,
                Some(rest) => Some(sp.0 + rest),
            },
        }
    }
}

/// The entries YAML text denotes.
pub open spec fn spec_parse_yaml_entries(s: Seq<char>) -> Option<Seq<ImportEntryV>> {
    spec_yaml_lines(spec_split_lines(s), None)
}

fn yaml_step(p: Option<BlockPend>, line: &Vec<char>) -> (r: Option<
    (Vec<ImportEntry>, Option<BlockPend>),
>)
    ensures
        match r {
            Some(sp) => spec_yaml_step(opt_pend_view(&p), line@) == Some(
                (import_views(sp.0@), opt_pend_view(&sp.1)),
            ),
            None => spec_yaml_step(opt_pend_view(&p), line@) is None,
        },
{
    let t = trim_vec(line);
    if t.len() == 0 || t[0] == '#' {
        let es: Vec<ImportEntry> = Vec::new();
        proof {
            assert(import_views(es@) =~= Seq::<ImportEntryV>::empty());
        }
        return Some((es, p));
    }
    if line.len() > 0 && (line[0] == ' ' || line[0] == '\t') {
        let q = match p {
            None => {
                return None;
            },
            Some(q) => q,
        };
        let c = match find_char(&t, ':', 0) {
            None => {
                return None;
            },
            Some(c) => c,
        };
        let left = subvec(&t, 0, c);
        let k = trim_vec(&left);
        let n = t.len();
        proof {
            assert(c < n);
        }
        let right = subvec(&t, c + 1, n);
        proof {
            assert(right@ =~= t@.skip(c as int + 1));
        }
        let rawv = trim_vec(&right);
        let tk = chars_of("type");
        let vk = chars_of("value");
        proof {
            reveal_strlit("type");
            reveal_strlit("value");
            assert(tk@ =~= type_key());
            assert(vk@ =~= value_key());
        }
        if eq_chars(&k, &tk) {
            match env_value(&rawv) {
                None => None,
                Some(tv) => match kind_of_tag(&tv) {
                    None => None,
                    Some(kind) => {
                        let es: Vec<ImportEntry> = Vec::new();
                        proof {
                            assert(import_views(es@) =~= Seq::<ImportEntryV>::empty());
                        }
                        Some(
                            (
                                es,
                                Some(
                                    BlockPend { key: q.key, kind: Some(kind), value: q.value },
                                ),
                            ),
                        )
                    },
                },
            }
        } else if eq_chars(&k, &vk) {
            match env_value(&rawv) {
                None => None,
                Some(vv) => {
                    let es: Vec<ImportEntry> = Vec::new();
                    proof {
                        assert(import_views(es@) =~= Seq::<ImportEntryV>::empty());
                    }
                    Some((es, Some(BlockPend { key: q.key, kind: q.kind, value: Some(vv) })))
                },
            }
        } else {
            None
        }
    } else {
        let es = match block_flush(&p) {
            None => {
                return None;
            },
            Some(es) => es,
        };
        let c = match find_char(&t, ':', 0) {
            None => {
                return None;
            },
            Some(c) => c,
        };
        let left = subvec(&t, 0, c);
        let k = trim_vec(&left);
        if k.len() == 0 {
            return None;
        }
        let n = t.len();
        proof {
            assert(c < n);
        }
        let right = subvec(&t, c + 1, n);
        proof {
            assert(right@ =~= t@.skip(c as int + 1));
        }
        let rawv = trim_vec(&right);
        if rawv.len() == 0 {
            Some((es, Some(BlockPend { key: k, kind: None, value: None })))
        } else {
            match env_value(&rawv) {
                None => None,
                Some(vv) => {
                    let mut out = es;
                    let ghost out_old = out@;
                    out.push(
                        ImportEntry {
                            key: string_from_chars(&k),
                            value: string_from_chars(&vv),
                            kind: ImportKind::Plain,
                        },
                    );
                    proof {
                        assert(import_views(out@) =~= import_views(out_old) + seq![
                            ImportEntryV { key: k@, value: vv@, kind: ImportKind::Plain },
                        ]);
                    }
                    Some((out, None))
                },
            }
        }
    }
}

/// Reads restricted YAML text: top-level `key: value` pairs, or a key
/// followed by an indented block carrying `type` and `value`.
#[verifier::loop_isolation(false)]
pub fn parse_yaml_entries(v: &Vec<char>) -> (r: Option<Vec<ImportEntry>>)
    ensures
        match r {
            Some(es) => spec_parse_yaml_entries(v@) == Some(import_views(es@)),
            None => spec_parse_yaml_entries(v@) is None,
        },
{
    let lines = split_lines(v);
    let ghost lv = lines@.map_values(|l: Vec<char>| l@);
    let mut acc: Vec<ImportEntry> = Vec::new();
    let mut pend: Option<BlockPend> = None;
    let mut i: usize = 0;
    proof {
        assert(lv.skip(0) =~= lv);
        assert(import_views(acc@) =~= Seq::<ImportEntryV>::empty());
    }
    while i < lines.len()
        invariant
            i <= lines@.len(),
            lv == lines@.map_values(|l: Vec<char>| l@),
            match spec_yaml_lines(lv.skip(i as int), opt_pend_view(&pend)) {
                Some(rest) => spec_yaml_lines(lv, None) == Some(import_views(acc@) + rest),
                None => spec_yaml_lines(lv, None) is None,
            },
        decreases lines@.len() - i,
    {
        proof {
            assert(lv.skip(i as int)[0] == lines@[i as int]@);
            assert(lv.skip(i as int).drop_first() =~= lv.skip(i as int + 1));
        }
        let ghost acc_old = acc@;
        match yaml_step(pend, &lines[i]) {
            None => {
                return None;
            },
            Some(sp) => {
                let (es, p2) = sp;
                let mut j: usize = 0;
                let ghost esv = es@;
                while j < es.len()
                    invariant
                        j <= es@.len(),
                        es@ == esv,
                        import_views(acc@) == import_views(acc_old) + import_views(
                            esv.subrange(0, j as int),
                        ),
                    decreases es@.len() - j,
                {
                    let ghost acc_mid = acc@;
                    acc.push(es[j].duplicate());
                    proof {
                        assert(import_views(acc@) =~= import_views(acc_mid).push(
                            esv[j as int]@,
                        ));
                        assert(import_views(esv.subrange(0, j as int + 1)) =~= import_views(
                            esv.subrange(0, j as int),
                        ).push(esv[j as int]@));
                        assert(import_views(acc_old) + import_views(
                            esv.subrange(0, j as int + 1),
                        ) =~= import_views(acc@));
                    }
                    j = j + 1;
                }
                proof {
                    assert(esv.subrange(0, esv.len() as int) =~= esv);
                    match spec_yaml_lines(lv.skip(i as int + 1), opt_pend_view(&p2)) {
                        Some(rest) => {
                            assert(import_views(acc_old) + (import_views(esv) + rest)
                                =~= import_views(acc@) + rest);
                        },
                        None => {},
                    }
                }
                pend = p2;
            },
        }
        i = i + 1;
    }
    proof {
        assert(lv.skip(lines@.len() as int).len() == 0);
    }
    match block_flush(&pend) {
        None => None,
        Some(es) => {
            let ghost acc_old = acc@;
            let ghost esv = es@;
            let mut j: usize = 0;
            let mut out = acc;
            while j < es.len()
                invariant
                    j <= es@.len(),
                    es@ == esv,
                    import_views(out@) == import_views(acc_old) + import_views(
                        esv.subrange(0, j as int),
                    ),
                decreases es@.len() - j,
            {
                let ghost out_mid = out@;
                out.push(es[j].duplicate());
                proof {
                    assert(import_views(out@) =~= import_views(out_mid).push(esv[j as int]@));
                    assert(import_views(esv.subrange(0, j as int + 1)) =~= import_views(
                        esv.subrange(0, j as int),
                    ).push(esv[j as int]@));
                    assert(import_views(acc_old) + import_views(esv.subrange(0, j as int + 1))
                        =~= import_views(out@));
                }
                j = j + 1;
            }
            proof {
                assert(esv.subrange(0, esv.len() as int) =~= esv);
            }
            Some(out)
        },
    }
}

/// A TOML value: a double-quoted string with nothing after it.
pub open spec fn spec_toml_string(raw: Seq<char>) -> Option<Seq<char>> {
    if raw.len() > 0 && raw[0] == '"' {
        match crate::json::spec_parse_string_body(raw.drop_first()) {
            Some(p) => if spec_trim(p.1).len() == 0 {
                Some(p.0)
            } else {
                None
            },
            None => None,
        }
    } else {
        None
    }
}

fn toml_string(raw: &Vec<char>) -> (r: Option<Vec<char>>)
    ensures
        match r {
            Some(v) => spec_toml_string(raw@) == Some(v@),
            None => spec_toml_string(raw@) is None,
        },
{
    if raw.len() == 0 || raw[0] != '"' {
        return None;
    }
    match crate::json::parse_quoted_at(raw, 0) {
        None => {
            proof {
                assert(raw@.skip(0) =~= raw@);
            }
            None
        },
        Some(p) => {
            proof {
                assert(raw@.skip(0) =~= raw@);
            }
            let (body, j) = p;
            let rest = subvec(raw, j, raw.len());
            proof {
                assert(rest@ =~= raw@.skip(j as int));
            }
            let t = trim_vec(&rest);
            if t.len() == 0 {
                Some(body)
            } else {
                None
            }
        },
    }
}

/// What one TOML line does to the section being read.
pub open spec fn spec_toml_step(p: Option<BlockPendV>, line: Seq<char>) -> Option<
    (Seq<ImportEntryV>, Option<BlockPendV>),
> {
    let t = spec_trim(line);
    if t.len() == 0 || t[0] == '#' {
        Some((Seq::empty(), p))
    } else if t[0] == '[' {
        if t.len() >= 2 && t[t.len() - 1] == ']' {
            let name = spec_trim(t.subrange(1, t.len() - 1));
            if name.len() == 0 {
                None
            } else {
                match spec_block_flush(p) {
                    None => None,
                    Some(es) => Some(
                        (es, Some(BlockPendV { key: name, kind: None, value: None })),
                    ),
                }
            }
        } else {
            None
        }
    } else {
        match spec_find_char(t, '=', 0) {
            None => None,
            Some(e) => {
                let k = spec_trim(t.subrange(0, e));
                let rawv = spec_trim(t.skip(e + 1));
                match spec_toml_string(rawv) {
                    None => None,
                    Some(vv) => match p {
                        None => if k.len() > 0 {
                            Some(
                                (
                                    seq![
                                        ImportEntryV {
                                            key: k,
                                            value: vv,
                                            kind: ImportKind::Plain,
                                        },
                                    ],
                                    None,
                                ),
                            )
                        } else {
                            None
                        },
                        Some(q) => if k == type_key() {
                            match spec_kind_of_tag(vv) {
                                None => None,
                                Some(kind) => Some(
                                    (
                                        Seq::empty(),
                                        Some(
                                            BlockPendV {
                                                key: q.key,
                                                kind: Some(kind),
                                                value: q.value,
                                            },
                                        ),
                                    ),
                                ),
                            }
                        } else if k == value_key() {
                            Some(
                                (
                                    Seq::empty(),
                                    Some(
                                        BlockPendV { key: q.key, kind: q.kind, value: Some(vv) },
                                    ),
                                ),
                            )
                        } else {
                            None
                        },
                    },
                }
            },
        }
    }
}

/// The entries a run of TOML lines denotes.
pub open spec fn spec_toml_lines(lines: Seq<Seq<char>>, p: Option<BlockPendV>) -> Option<
    Seq<ImportEntryV>,
>
    decreases lines.len(),
{
    if lines.len() == 0 {
        spec_block_flush(p)
    } else {
        match spec_toml_step(p, lines[0]) {
            None => None,
            Some(sp) => match spec_toml_lines(lines.drop_first(), sp.1) {
                None => None,
                Some(rest) => Some(sp.0 + rest),
            },
        }
    }
}

/// The entries TOML text denotes.
pub open spec fn spec_parse_toml_entries(s: Seq<char>) -> Option<Seq<ImportEntryV>> {
    spec_toml_lines(spec_split_lines(s), None)
}

fn toml_step(p: Option<BlockPend>, line: &Vec<char>) -> (r: Option<
    (Vec<ImportEntry>, Option<BlockPend>),
>)
    ensures
        match r {
            Some(sp) => spec_toml_step(opt_pend_view(&p), line@) == Some(
                (import_views(sp.0@), opt_pend_view(&sp.1)),
            ),
            None => spec_toml_step(opt_pend_view(&p), line@) is None,
        },
{
    let t = trim_vec(line);
    if t.len() == 0 || t[0] == '#' {
        let es: Vec<ImportEntry> = Vec::new();
        proof {
            assert(import_views(es@) =~= Seq::<ImportEntryV>::empty());
        }
        return Some((es, p));
    }
    if t[0] == '[' {
        if t.len() >= 2 && t[t.len() - 1] == ']' {
            let inner = subvec(&t, 1, t.len() - 1);
            let name = trim_vec(&inner);
            if name.len() == 0 {
                return None;
            }
            match block_flush(&p) {
                None => None,
                Some(es) => Some((es, Some(BlockPend { key: name, kind: None, value: None }))),
            }
        } else {
            None
        }
    } else {
        let e = match find_char(&t, '=', 0) {
            None => {
                return None;
            },
            Some(e) => e,
        };
        let left = subvec(&t, 0, e);
        let k = trim_vec(&left);
        let n = t.len();
        proof {
            assert(e < n);
        }
        let right = subvec(&t, e + 1, n);
        proof {
            assert(right@ =~= t@.skip(e as int + 1));
        }
        let rawv = trim_vec(&right);
        let vv = match toml_string(&rawv) {
            None => {
                return None;
            },
            Some(vv) => vv,
        };
        match p {
            None => {
                if k.len() == 0 {
                    return None;
                }
                let mut es: Vec<ImportEntry> = Vec::new();
                es.push(
                    ImportEntry {
                        key: string_from_chars(&k),
                        value: string_from_chars(&vv),
                        kind: ImportKind::Plain,
                    },
                );
                proof {
                    assert(import_views(es@) =~= seq![
                        ImportEntryV { key: k@, value: vv@, kind: ImportKind::Plain },
                    ]);
                }
                Some((es, None))
            },
            Some(q) => {
                let tk = chars_of("type");
                let vk = chars_of("value");
                proof {
                    reveal_strlit("type");
                    reveal_strlit("value");
                    assert(tk@ =~= type_key());
                    assert(vk@ =~= value_key());
                }
                if eq_chars(&k, &tk) {
                    match kind_of_tag(&vv) {
                        None => None,
                        Some(kind) => {
                            let es: Vec<ImportEntry> = Vec::new();
                            proof {
                                assert(import_views(es@) =~= Seq::<ImportEntryV>::empty());
                            }
                            Some(
                                (
                                    es,
                                    Some(
                                        BlockPend {
                                            key: q.key,
                                            kind: Some(kind),
                                            value: q.value,
                                        },
                                    ),
                                ),
                            )
                        },
                    }
                } else if eq_chars(&k, &vk) {
                    let es: Vec<ImportEntry> = Vec::new();
                    proof {
                        assert(import_views(es@) =~= Seq::<ImportEntryV>::empty());
                    }
                    Some((es, Some(BlockPend { key: q.key, kind: q.kind, value: Some(vv) })))
                } else {
                    None
                }
            },
        }
    }
}

/// Reads restricted TOML text: top-level `key = "value"` pairs, or
/// `[key]` sections carrying `type` and `value`.
#[verifier::loop_isolation(false)]
pub fn parse_toml_entries(v: &Vec<char>) -> (r: Option<Vec<ImportEntry>>)
    ensures
        match r {
            Some(es) => spec_parse_toml_entries(v@) == Some(import_views(es@)),
            None => spec_parse_toml_entries(v@) is None,
        },
{
    let lines = split_lines(v);
    let ghost lv = lines@.map_values(|l: Vec<char>| l@);
    let mut acc: Vec<ImportEntry> = Vec::new();
    let mut pend: Option<BlockPend> = None;
    let mut i: usize = 0;
    proof {
        assert(lv.skip(0) =~= lv);
        assert(import_views(acc@) =~= Seq::<ImportEntryV>::empty());
    }
    while i < lines.len()
        invariant
            i <= lines@.len(),
            lv == lines@.map_values(|l: Vec<char>| l@),
            match spec_toml_lines(lv.skip(i as int), opt_pend_view(&pend)) {
                Some(rest) => spec_toml_lines(lv, None) == Some(import_views(acc@) + rest),
                None => spec_toml_lines(lv, None) is None,
            },
        decreases lines@.len() - i,
    {
        proof {
            assert(lv.skip(i as int)[0] == lines@[i as int]@);
            assert(lv.skip(i as int).drop_first() =~= lv.skip(i as int + 1));
        }
        let ghost acc_old = acc@;
        match toml_step(pend, &lines[i]) {
            None => {
                return None;
            },
            Some(sp) => {
                let (es, p2) = sp;
                let mut j: usize = 0;
                let ghost esv = es@;
                while j < es.len()
                    invariant
                        j <= es@.len(),
                        es@ == esv,
                        import_views(acc@) == import_views(acc_old) + import_views(
                            esv.subrange(0, j as int),
                        ),
                    decreases es@.len() - j,
                {
                    let ghost acc_mid = acc@;
                    acc.push(es[j].duplicate());
                    proof {
                        assert(import_views(acc@) =~= import_views(acc_mid).push(
                            esv[j as int]@,
                        ));
                        assert(import_views(esv.subrange(0, j as int + 1)) =~= import_views(
                            esv.subrange(0, j as int),
                        ).push(esv[j as int]@));
                        assert(import_views(acc_old) + import_views(
                            esv.subrange(0, j as int + 1),
                        ) =~= import_views(acc@));
                    }
                    j = j + 1;
                }
                proof {
                    assert(esv.subrange(0, esv.len() as int) =~= esv);
                    match spec_toml_lines(lv.skip(i as int + 1), opt_pend_view(&p2)) {
                        Some(rest) => {
                            assert(import_views(acc_old) + (import_views(esv) + rest)
                                =~= import_views(acc@) + rest);
                        },
                        None => {},
                    }
                }
                pend = p2;
            },
        }
        i = i + 1;
    }
    proof {
        assert(lv.skip(lines@.len() as int).len() == 0);
    }
    match block_flush(&pend) {
        None => None,
        Some(es) => {
            let ghost acc_old = acc@;
            let ghost esv = es@;
            let mut j: usize = 0;
            let mut out = acc;
            while j < es.len()
                invariant
                    j <= es@.len(),
                    es@ == esv,
                    import_views(out@) == import_views(acc_old) + import_views(
                        esv.subrange(0, j as int),
                    ),
                decreases es@.len() - j,
            {
                let ghost out_mid = out@;
                out.push(es[j].duplicate());
                proof {
                    assert(import_views(out@) =~= import_views(out_mid).push(esv[j as int]@));
                    assert(import_views(esv.subrange(0, j as int + 1)) =~= import_views(
                        esv.subrange(0, j as int),
                    ).push(esv[j as int]@));
                    assert(import_views(acc_old) + import_views(esv.subrange(0, j as int + 1))
                        =~= import_views(out@));
                }
                j = j + 1;
            }
            proof {
                assert(esv.subrange(0, esv.len() as int) =~= esv);
            }
            Some(out)
        },
    }
}

/// The first value stored under `k` in an object of strings.
pub open spec fn spec_pairs_lookup(m: Seq<(Seq<char>, Seq<char>)>, k: Seq<char>) -> Option<
    Seq<char>,
>
    decreases m.len(),
{
    if m.len() == 0 {
        None
    } else if m[0].0 == k {
        Some(m[0].1)
    } else {
        spec_pairs_lookup(m.drop_first(), k)
    }
}

#[verifier::loop_isolation(false)]
fn pairs_lookup(m: &Vec<(Vec<char>, Vec<char>)>, k: &Vec<char>) -> (r: Option<usize>)
    ensures
        match r {
            Some(i) => i < m@.len() && spec_pairs_lookup(crate::json::pairs_views(m@), k@) == Some(
                m@[i as int].1@,
            ),
            None => spec_pairs_lookup(crate::json::pairs_views(m@), k@) is None,
        },
{
    let ghost mv = crate::json::pairs_views(m@);
    let mut i: usize = 0;
    proof {
        assert(mv.skip(0) =~= mv);
    }
    while i < m.len()
        invariant
            i <= m@.len(),
            spec_pairs_lookup(mv, k@) == spec_pairs_lookup(mv.skip(i as int), k@),
        decreases m@.len() - i,
    {
        proof {
            assert(mv.skip(i as int)[0] == (m@[i as int].0@, m@[i as int].1@));
            assert(mv.skip(i as int).drop_first() =~= mv.skip(i as int + 1));
        }
        if eq_chars(&m[i].0, k) {
            return Some(i);
        }
        i = i + 1;
    }
    proof {
        assert(mv.skip(m@.len() as int).len() == 0);
    }
    None
}

/// The entry one document member denotes: a string is a plain value,
/// an object carries `value` and an optional `type` tag.
pub open spec fn spec_entry_of_member(key: Seq<char>, v: crate::json::JsonValV) -> Option<
    ImportEntryV,
> {
    match v {
        crate::json::JsonValV::JStr(s) => Some(
            ImportEntryV { key, value: s, kind: ImportKind::Plain },
        ),
        crate::json::JsonValV::JObj(m) => match spec_pairs_lookup(m, value_key()) {
            None => None,
            Some(vv) => match spec_pairs_lookup(m, type_key()) {
                None => Some(ImportEntryV { key, value: vv, kind: ImportKind::Plain }),
                Some(t) => match spec_kind_of_tag(t) {
                    None => None,
                    Some(kind) => Some(ImportEntryV { key, value: vv, kind }),
                },
            },
        },
    }
}

/// The entries a document's members denote, in order.
pub open spec fn spec_entries_of_doc(d: Seq<(Seq<char>, crate::json::JsonValV)>) -> Option<
    Seq<ImportEntryV>,
>
    decreases d.len(),
{
    if d.len() == 0 {
        Some(Seq::empty())
    } else {
        match spec_entry_of_member(d[0].0, d[0].1) {
            None => None,
            Some(e) => match spec_entries_of_doc(d.drop_first()) {
                None => None,
                Some(rest) => Some(seq![e] + rest),
            },
        }
    }
}

/// The entries JSON text denotes.
pub open spec fn spec_parse_json_entries(s: Seq<char>) -> Option<Seq<ImportEntryV>> {
    match crate::json::spec_parse_doc(s) {
        None => None,
        Some(d) => spec_entries_of_doc(d),
    }
}

fn entry_of_member(key: &Vec<char>, v: &crate::json::JsonVal) -> (r: Option<ImportEntry>)
    ensures
        match r {
            Some(e) => spec_entry_of_member(key@, v@) == Some(e@),
            None => spec_entry_of_member(key@, v@) is None,
        },
{
    match v {
        crate::json::JsonVal::JStr(s) => Some(
            ImportEntry {
                key: string_from_chars(key),
                value: string_from_chars(s),
                kind: ImportKind::Plain,
            },
        ),
        crate::json::JsonVal::JObj(m) => {
            let tk = chars_of("type");
            let vk = chars_of("value");
            proof {
                reveal_strlit("type");
                reveal_strlit("value");
                assert(tk@ =~= type_key());
                assert(vk@ =~= value_key());
            }
            let vi = match pairs_lookup(m, &vk) {
                None => {
                    return None;
                },
                Some(i) => i,
            };
            match pairs_lookup(m, &tk) {
                None => Some(
                    ImportEntry {
                        key: string_from_chars(key),
                        value: string_from_chars(&m[vi].1),
                        kind: ImportKind::Plain,
                    },
                ),
                Some(ti) => match kind_of_tag(&m[ti].1) {
                    None => None,
                    Some(kind) => Some(
                        ImportEntry {
                            key: string_from_chars(key),
                            value: string_from_chars(&m[vi].1),
                            kind,
                        },
                    ),
                },
            }
        },
    }
}

/// Reads JSON text of the restricted shape into entries.
#[verifier::loop_isolation(false)]
pub fn parse_json_entries(v: &Vec<char>) -> (r: Option<Vec<ImportEntry>>)
    ensures
        match r {
            Some(es) => spec_parse_json_entries(v@) == Some(import_views(es@)),
            None => spec_parse_json_entries(v@) is None,
        },
{
    let d = match crate::json::parse_doc(v) {
        None => {
            return None;
        },
        Some(d) => d,
    };
    let ghost dv = crate::json::doc_views(d@);
    let mut acc: Vec<ImportEntry> = Vec::new();
    let mut i: usize = 0;
    proof {
        assert(dv.skip(0) =~= dv);
        assert(import_views(acc@) =~= Seq::<ImportEntryV>::empty());
    }
    while i < d.len()
        invariant
            i <= d@.len(),
            dv == crate::json::doc_views(d@),
            match spec_entries_of_doc(dv.skip(i as int)) {
                Some(rest) => spec_entries_of_doc(dv) == Some(import_views(acc@) + rest),
                None => spec_entries_of_doc(dv) is None,
            },
        decreases d@.len() - i,
    {
        proof {
            assert(dv.skip(i as int)[0] == (d@[i as int].0@, d@[i as int].1@));
            assert(dv.skip(i as int).drop_first() =~= dv.skip(i as int + 1));
        }
        let ghost acc_old = acc@;
        match entry_of_member(&d[i].0, &d[i].1) {
            None => {
                return None;
            },
            Some(e) => {
                acc.push(e);
                proof {
                    match spec_entries_of_doc(dv.skip(i as int + 1)) {
                        Some(rest) => {
                            assert(import_views(acc@) =~= import_views(acc_old).push(
                                acc@[acc@.len() - 1]@,
                            ));
                            assert(import_views(acc_old) + (seq![acc@[acc@.len() - 1]@] + rest)
                                =~= import_views(acc@) + rest);
                        },
                        None => {},
                    }
                }
            },
        }
        i = i + 1;
    }
    proof {
        assert(dv.skip(d@.len() as int).len() == 0);
        match spec_entries_of_doc(dv) {
            Some(es) => {
                assert(import_views(acc@) + Seq::<ImportEntryV>::empty() =~= import_views(acc@));
            },
            None => {},
        }
    }
    Some(acc)
}

/// The kind tag an export entry is written with.
pub open spec fn spec_kind_tag(from_secret: bool) -> Seq<char> {
    if from_secret {
        keyvault_tag()
    } else {
        plain_tag()
    }
}

/// One member of the written JSON object.
pub open spec fn spec_json_pair(e: ExportEntryV) -> Seq<char> {
    spec_emit_string(e.key) + seq![':', '{'] + spec_emit_string(type_key()) + seq![':']
        + spec_emit_string(spec_kind_tag(e.from_secret)) + seq![','] + spec_emit_string(value_key())
        + seq![':'] + spec_emit_string(e.value) + seq!['}']
}

/// The written members from position `i` on, comma-separated.
pub open spec fn spec_emit_json_from(s: Seq<ExportEntryV>, i: int) -> Seq<char>
    decreases s.len() - i,
{
    if i < 0 || i >= s.len() {
        Seq::empty()
    } else if i + 1 == s.len() {
        spec_json_pair(s[i])
    } else {
        spec_json_pair(s[i]) + seq![','] + spec_emit_json_from(s, i + 1)
    }
}

/// The written JSON text of an export: an object of objects.
pub open spec fn spec_emit_json(s: Seq<ExportEntryV>) -> Seq<char> {
    seq!['{'] + spec_emit_json_from(s, 0) + seq!['}']
}

fn push_tag(out: &mut Vec<char>, from_secret: bool)
    ensures
        final(out)@ == old(out)@ + spec_emit_string(spec_kind_tag(from_secret)),
{
    let tag = if from_secret {
        chars_of("keyvault")
    } else {
        chars_of("plain")
    };
    proof {
        reveal_strlit("keyvault");
        reveal_strlit("plain");
        assert(tag@ =~= spec_kind_tag(from_secret));
    }
    emit_string_into(out, &tag);
}

fn push_json_pair(out: &mut Vec<char>, e: &ExportEntry)
    ensures
        final(out)@ == old(out)@ + spec_json_pair(e@),
{
    let kv = chars_of(e.key.as_str());
    emit_string_into(out, &kv);
    out.push(':');
    out.push('{');
    let tk = chars_of("type");
    proof {
        reveal_strlit("type");
        assert(tk@ =~= type_key());
    }
    emit_string_into(out, &tk);
    out.push(':');
    push_tag(out, e.from_secret);
    out.push(',');
    let vk = chars_of("value");
    proof {
        reveal_strlit("value");
        assert(vk@ =~= value_key());
    }
    emit_string_into(out, &vk);
    out.push(':');
    let vv = chars_of(e.value.as_str());
    emit_string_into(out, &vv);
    out.push('}');
    proof {
        assert(final(out)@ =~= old(out)@ + spec_json_pair(e@));
    }
}

/// Writes an export as a JSON object of objects.
#[verifier::loop_isolation(false)]
pub fn emit_json(entries: &Vec<ExportEntry>) -> (r: String)
    ensures
        r@ == spec_emit_json(export_views(entries@)),
{
    let ghost ev = export_views(entries@);
    let mut out: Vec<char> = Vec::new();
    out.push('{');
    let mut i: usize = 0;
    proof {
        assert(out@ =~= seq!['{']);
    }
    while i < entries.len()
        invariant
            i <= entries@.len(),
            ev == export_views(entries@),
            out@ + spec_emit_json_from(ev, i as int) == seq!['{'] + spec_emit_json_from(ev, 0),
        decreases entries@.len() - i,
    {
        let ghost out_old = out@;
        push_json_pair(&mut out, &entries[i]);
        proof {
            assert(ev[i as int] == entries@[i as int]@);
        }
        if i + 1 < entries.len() {
            out.push(',');
            proof {
                assert(spec_emit_json_from(ev, i as int) == spec_json_pair(ev[i as int])
                    + seq![','] + spec_emit_json_from(ev, i as int + 1));
                assert(out@ + spec_emit_json_from(ev, i as int + 1) =~= out_old
                    + spec_emit_json_from(ev, i as int));
            }
        } else {
            proof {
                assert(spec_emit_json_from(ev, i as int) == spec_json_pair(ev[i as int]));
                assert(out@ + spec_emit_json_from(ev, i as int + 1) =~= out_old
                    + spec_emit_json_from(ev, i as int));
            }
        }
        i = i + 1;
    }
    out.push('}');
    proof {
        assert(spec_emit_json_from(ev, entries@.len() as int) =~= Seq::<char>::empty());
        assert(out@ =~= spec_emit_json(ev));
    }
    string_from_chars(&out)
}

/// One block of the written YAML text.
pub open spec fn spec_yaml_block(e: ExportEntryV) -> Seq<char> {
    e.key + seq![':', '\n', ' ', ' '] + type_key() + seq![':', ' '] + spec_kind_tag(e.from_secret)
        + seq!['\n', ' ', ' '] + value_key() + seq![':', ' '] + spec_emit_string(e.value)
        + seq!['\n']
}

/// The written YAML blocks from position `i` on.
pub open spec fn spec_emit_yaml_from(s: Seq<ExportEntryV>, i: int) -> Seq<char>
    decreases s.len() - i,
{
    if i < 0 || i >= s.len() {
        Seq::empty()
    } else {
        spec_yaml_block(s[i]) + spec_emit_yaml_from(s, i + 1)
    }
}

/// The written YAML text of an export.
pub open spec fn spec_emit_yaml(s: Seq<ExportEntryV>) -> Seq<char> {
    spec_emit_yaml_from(s, 0)
}

fn push_yaml_block(out: &mut Vec<char>, e: &ExportEntry)
    ensures
        final(out)@ == old(out)@ + spec_yaml_block(e@),
{
    let kv = chars_of(e.key.as_str());
    append_chars(out, &kv);
    out.push(':');
    out.push('\n');
    out.push(' ');
    out.push(' ');
    let tk = chars_of("type");
    proof {
        reveal_strlit("type");
        assert(tk@ =~= type_key());
    }
    append_chars(out, &tk);
    out.push(':');
    out.push(' ');
    let tag = if e.from_secret {
        chars_of("keyvault")
    } else {
        chars_of("plain")
    };
    proof {
        reveal_strlit("keyvault");
        reveal_strlit("plain");
        assert(tag@ =~= spec_kind_tag(e.from_secret));
    }
    append_chars(out, &tag);
    out.push('\n');
    out.push(' ');
    out.push(' ');
    let vk = chars_of("value");
    proof {
        reveal_strlit("value");
        assert(vk@ =~= value_key());
    }
    append_chars(out, &vk);
    out.push(':');
    out.push(' ');
    let vv = chars_of(e.value.as_str());
    emit_string_into(out, &vv);
    out.push('\n');
    proof {
        assert(final(out)@ =~= old(out)@ + spec_yaml_block(e@));
    }
}

/// Writes an export as YAML blocks.
#[verifier::loop_isolation(false)]
pub fn emit_yaml(entries: &Vec<ExportEntry>) -> (r: String)
    ensures
        r@ == spec_emit_yaml(export_views(entries@)),
{
    let ghost ev = export_views(entries@);
    let mut out: Vec<char> = Vec::new();
    let mut i: usize = 0;
    proof {
        assert(out@ =~= Seq::<char>::empty());
    }
    while i < entries.len()
        invariant
            i <= entries@.len(),
            ev == export_views(entries@),
            out@ + spec_emit_yaml_from(ev, i as int) == spec_emit_yaml_from(ev, 0),
        decreases entries@.len() - i,
    {
        let ghost out_old = out@;
        push_yaml_block(&mut out, &entries[i]);
        proof {
            assert(ev[i as int] == entries@[i as int]@);
            assert(out@ + spec_emit_yaml_from(ev, i as int + 1) =~= out_old
                + spec_emit_yaml_from(ev, i as int));
        }
        i = i + 1;
    }
    proof {
        assert(spec_emit_yaml_from(ev, entries@.len() as int) =~= Seq::<char>::empty());
        assert(out@ =~= spec_emit_yaml(ev));
    }
    string_from_chars(&out)
}

/// One block of the written TOML text.
pub open spec fn spec_toml_block(e: ExportEntryV) -> Seq<char> {
    seq!['['] + e.key + seq![']', '\n'] + type_key() + seq![' ', '=', ' '] + spec_emit_string(
        spec_kind_tag(e.from_secret),
    ) + seq!['\n'] + value_key() + seq![' ', '=', ' '] + spec_emit_string(e.value) + seq!['\n']
}

/// The written TOML blocks from position `i` on.
pub open spec fn spec_emit_toml_from(s: Seq<ExportEntryV>, i: int) -> Seq<char>
    decreases s.len() - i,
{
    if i < 0 || i >= s.len() {
        Seq::empty()
    } else {
        spec_toml_block(s[i]) + spec_emit_toml_from(s, i + 1)
    }
}

/// The written TOML text of an export.
pub open spec fn spec_emit_toml(s: Seq<ExportEntryV>) -> Seq<char> {
    spec_emit_toml_from(s, 0)
}

fn push_toml_block(out: &mut Vec<char>, e: &ExportEntry)
    ensures
        final(out)@ == old(out)@ + spec_toml_block(e@),
{
    out.push('[');
    let kv = chars_of(e.key.as_str());
    append_chars(out, &kv);
    out.push(']');
    out.push('\n');
    let tk = chars_of("type");
    proof {
        reveal_strlit("type");
        assert(tk@ =~= type_key());
    }
    append_chars(out, &tk);
    out.push(' ');
    out.push('=');
    out.push(' ');
    push_tag(out, e.from_secret);
    out.push('\n');
    let vk = chars_of("value");
    proof {
        reveal_strlit("value");
        assert(vk@ =~= value_key());
    }
    append_chars(out, &vk);
    out.push(' ');
    out.push('=');
    out.push(' ');
    let vv = chars_of(e.value.as_str());
    emit_string_into(out, &vv);
    out.push('\n');
    proof {
        assert(final(out)@ =~= old(out)@ + spec_toml_block(e@));
    }
}

/// Writes an export as TOML sections.
#[verifier::loop_isolation(false)]
pub fn emit_toml(entries: &Vec<ExportEntry>) -> (r: String)
    ensures
        r@ == spec_emit_toml(export_views(entries@)),
{
    let ghost ev = export_views(entries@);
    let mut out: Vec<char> = Vec::new();
    let mut i: usize = 0;
    while i < entries.len()
        invariant
            i <= entries@.len(),
            ev == export_views(entries@),
            out@ + spec_emit_toml_from(ev, i as int) == spec_emit_toml_from(ev, 0),
        decreases entries@.len() - i,
    {
        let ghost out_old = out@;
        push_toml_block(&mut out, &entries[i]);
        proof {
            assert(ev[i as int] == entries@[i as int]@);
            assert(out@ + spec_emit_toml_from(ev, i as int + 1) =~= out_old
                + spec_emit_toml_from(ev, i as int));
        }
        i = i + 1;
    }
    proof {
        assert(spec_emit_toml_from(ev, entries@.len() as int) =~= Seq::<char>::empty());
        assert(out@ =~= spec_emit_toml(ev));
    }
    string_from_chars(&out)
}

/// True when a character may stand unquoted in flat text.
pub open spec fn env_plain_char(c: char) -> bool {
    ('a' <= c && c <= 'z') || ('A' <= c && c <= 'Z') || ('0' <= c && c <= '9') || c == '_' || c
        == '.' || c == '-' || c == '/' || c == ':'
}

/// True when a value must be written quoted: it is empty or carries a
/// character outside the plain set.
pub open spec fn spec_env_needs_quote(v: Seq<char>) -> bool {
    v.len() == 0 || exists|i: int| 0 <= i < v.len() && !env_plain_char(#[trigger] v[i])
}

/// One line of the written flat text.
pub open spec fn spec_env_line_out(e: ExportEntryV) -> Seq<char> {
    e.key + seq!['='] + (if spec_env_needs_quote(e.value) {
        spec_emit_string(e.value)
    } else {
        e.value
    }) + seq!['\n']
}

/// The written flat lines from position `i` on.
pub open spec fn spec_emit_env_from(s: Seq<ExportEntryV>, i: int) -> Seq<char>
    decreases s.len() - i,
{
    if i < 0 || i >= s.len() {
        Seq::empty()
    } else {
        spec_env_line_out(s[i]) + spec_emit_env_from(s, i + 1)
    }
}

/// The written flat text of an export.
pub open spec fn spec_emit_env(s: Seq<ExportEntryV>) -> Seq<char> {
    spec_emit_env_from(s, 0)
}

fn env_needs_quote(v: &Vec<char>) -> (r: bool)
    ensures
        r == spec_env_needs_quote(v@),
{
    if v.len() == 0 {
        return true;
    }
    let mut i: usize = 0;
    while i < v.len()
        invariant
            i <= v@.len(),
            forall|j: int| 0 <= j < i ==> env_plain_char(#[trigger] v@[j]),
        decreases v@.len() - i,
    {
        let c = v[i];
        let plain = ('a' <= c && c <= 'z') || ('A' <= c && c <= 'Z') || ('0' <= c && c <= '9') || c
            == '_' || c == '.' || c == '-' || c == '/' || c == ':';
        if !plain {
            return true;
        }
        i = i + 1;
    }
    false
}

fn push_env_line(out: &mut Vec<char>, e: &ExportEntry)
    ensures
        final(out)@ == old(out)@ + spec_env_line_out(e@),
{
    let kv = chars_of(e.key.as_str());
    append_chars(out, &kv);
    out.push('=');
    let vv = chars_of(e.value.as_str());
    if env_needs_quote(&vv) {
        emit_string_into(out, &vv);
    } else {
        append_chars(out, &vv);
    }
    out.push('\n');
    proof {
        assert(final(out)@ =~= old(out)@ + spec_env_line_out(e@));
    }
}

/// Writes an export as flat `KEY=VALUE` lines.
#[verifier::loop_isolation(false)]
pub fn emit_env(entries: &Vec<ExportEntry>) -> (r: String)
    ensures
        r@ == spec_emit_env(export_views(entries@)),
{
    let ghost ev = export_views(entries@);
    let mut out: Vec<char> = Vec::new();
    let mut i: usize = 0;
    while i < entries.len()
        invariant
            i <= entries@.len(),
            ev == export_views(entries@),
            out@ + spec_emit_env_from(ev, i as int) == spec_emit_env_from(ev, 0),
        decreases entries@.len() - i,
    {
        let ghost out_old = out@;
        push_env_line(&mut out, &entries[i]);
        proof {
            assert(ev[i as int] == entries@[i as int]@);
            assert(out@ + spec_emit_env_from(ev, i as int + 1) =~= out_old + spec_emit_env_from(
                ev,
                i as int,
            ));
        }
        i = i + 1;
    }
    proof {
        assert(spec_emit_env_from(ev, entries@.len() as int) =~= Seq::<char>::empty());
        assert(out@ =~= spec_emit_env(ev));
    }
    string_from_chars(&out)
}

/// Writes an export in the chosen structured format.
pub fn serialize_export(entries: &Vec<ExportEntry>, format: ExportFormat) -> (r: String)
    ensures
        match format {
            ExportFormat::Json => r@ == spec_emit_json(export_views(entries@)),
            ExportFormat::Yaml => r@ == spec_emit_yaml(export_views(entries@)),
            ExportFormat::Toml => r@ == spec_emit_toml(export_views(entries@)),
        },
{
    match format {
        ExportFormat::Json => emit_json(entries),
        ExportFormat::Yaml => emit_yaml(entries),
        ExportFormat::Toml => emit_toml(entries),
    }
}

/// The import entry an export row comes back as.
pub open spec fn spec_row_as_import(e: ExportEntryV) -> ImportEntryV {
    ImportEntryV {
        key: e.key,
        value: e.value,
        kind: if e.from_secret {
            ImportKind::SecretIndirection
        } else {
            ImportKind::Plain
        },
    }
}

/// The document members the written rows read back as, from `i` on.
pub open spec fn spec_members_of_rows(rows: Seq<ExportEntryV>, i: int) -> Seq<
    (Seq<char>, crate::json::JsonValV),
>
    decreases rows.len() - i,
{
    if i < 0 || i >= rows.len() {
        Seq::empty()
    } else {
        seq![
            (
                rows[i].key,
                crate::json::JsonValV::JObj(
                    seq![
                        (type_key(), spec_kind_tag(rows[i].from_secret)),
                        (value_key(), rows[i].value),
                    ],
                ),
            ),
        ] + spec_members_of_rows(rows, i + 1)
    }
}

/// Reading the written inner object of one row yields its tag and
/// value members.
proof fn lemma_parse_inner_obj(tag: Seq<char>, value: Seq<char>, rest: Seq<char>)
    ensures
        crate::json::spec_parse_flat_obj(
            seq!['{'] + spec_emit_string(type_key()) + seq![':'] + spec_emit_string(tag)
                + seq![','] + spec_emit_string(value_key()) + seq![':'] + spec_emit_string(value)
                + seq!['}'] + rest,
        ) == Some((seq![(type_key(), tag), (value_key(), value)], rest)),
{
    let q1 = spec_emit_string(type_key());
    let q2 = spec_emit_string(tag);
    let q3 = spec_emit_string(value_key());
    let q4 = spec_emit_string(value);
    let input = seq!['{'] + q1 + seq![':'] + q2 + seq![','] + q3 + seq![':'] + q4 + seq!['}']
        + rest;
    assert(input[0] == '{');
    let t1 = q1 + (seq![':'] + q2 + seq![','] + q3 + seq![':'] + q4 + seq!['}'] + rest);
    assert(input.drop_first() =~= t1);
    assert(t1[0] == '"');
    crate::json::lemma_skip_ws_clean(t1);
    let rest1 = seq![':'] + q2 + seq![','] + q3 + seq![':'] + q4 + seq!['}'] + rest;
    assert(t1 =~= q1 + rest1);
    crate::json::lemma_parse_quoted_round_trip(type_key(), rest1);
    assert(rest1[0] == ':');
    crate::json::lemma_skip_ws_clean(rest1);
    let rest2 = q2 + (seq![','] + q3 + seq![':'] + q4 + seq!['}'] + rest);
    assert(rest1.drop_first() =~= rest2);
    assert(rest2[0] == '"');
    crate::json::lemma_skip_ws_clean(rest2);
    let rest3 = seq![','] + q3 + seq![':'] + q4 + seq!['}'] + rest;
    assert(rest2 =~= q2 + rest3);
    crate::json::lemma_parse_quoted_round_trip(tag, rest3);
    assert(rest3[0] == ',');
    crate::json::lemma_skip_ws_clean(rest3);
    let rest4 = q3 + (seq![':'] + q4 + seq!['}'] + rest);
    assert(rest3.drop_first() =~= rest4);
    assert(rest4[0] == '"');
    crate::json::lemma_skip_ws_clean(rest4);
    let rest5 = seq![':'] + q4 + seq!['}'] + rest;
    assert(rest4 =~= q3 + rest5);
    crate::json::lemma_parse_quoted_round_trip(value_key(), rest5);
    assert(rest5[0] == ':');
    crate::json::lemma_skip_ws_clean(rest5);
    let rest6 = q4 + (seq!['}'] + rest);
    assert(rest5.drop_first() =~= rest6);
    assert(rest6[0] == '"');
    crate::json::lemma_skip_ws_clean(rest6);
    let rest7 = seq!['}'] + rest;
    assert(rest6 =~= q4 + rest7);
    crate::json::lemma_parse_quoted_round_trip(value, rest7);
    assert(rest7[0] == '}');
    crate::json::lemma_skip_ws_clean(rest7);
    assert(rest7.drop_first() =~= rest);
    assert(crate::json::spec_parse_flat_pairs(rest4) == Some(
        (seq![(value_key(), value)], rest),
    ));
    assert(seq![(type_key(), tag)] + seq![(value_key(), value)] =~= seq![
        (type_key(), tag),
        (value_key(), value),
    ]);
    assert(crate::json::spec_parse_flat_pairs(t1) == Some(
        (seq![(type_key(), tag), (value_key(), value)], rest),
    ));
}

/// Reading the written members from `i` on, with the closing brace
/// behind them, yields the members of the remaining rows.
#[verifier::rlimit(60)]
proof fn lemma_parse_doc_pairs_of_emit(rows: Seq<ExportEntryV>, i: int)
    requires
        0 <= i < rows.len(),
    ensures
        crate::json::spec_parse_doc_pairs(spec_emit_json_from(rows, i) + seq!['}']) == Some(
            (spec_members_of_rows(rows, i), Seq::<char>::empty()),
        ),
    decreases rows.len() - i,
{
    let e = rows[i];
    let tag = spec_kind_tag(e.from_secret);
    let qk = spec_emit_string(e.key);
    let inner = seq!['{'] + spec_emit_string(type_key()) + seq![':'] + spec_emit_string(tag)
        + seq![','] + spec_emit_string(value_key()) + seq![':'] + spec_emit_string(e.value)
        + seq!['}'];
    assert(spec_json_pair(e) =~= qk + (seq![':'] + inner));
    if i + 1 == rows.len() {
        let input = spec_emit_json_from(rows, i) + seq!['}'];
        assert(input =~= qk + (seq![':'] + inner + seq!['}']));
        let rest1 = seq![':'] + inner + seq!['}'];
        crate::json::lemma_parse_quoted_round_trip(e.key, rest1);
        assert(rest1[0] == ':');
        crate::json::lemma_skip_ws_clean(rest1);
        let rest2 = inner + seq!['}'];
        assert(rest1.drop_first() =~= rest2);
        assert(rest2[0] == '{');
        crate::json::lemma_skip_ws_clean(rest2);
        assert(rest2 =~= seq!['{'] + spec_emit_string(type_key()) + seq![':'] + spec_emit_string(
            tag,
        ) + seq![','] + spec_emit_string(value_key()) + seq![':'] + spec_emit_string(e.value)
            + seq!['}'] + seq!['}']);
        lemma_parse_inner_obj(tag, e.value, seq!['}']);
        let after: Seq<char> = seq!['}'];
        assert(crate::json::spec_parse_value(rest2) == Some(
            (
                crate::json::JsonValV::JObj(
                    seq![(type_key(), tag), (value_key(), e.value)],
                ),
                after,
            ),
        ));
        crate::json::lemma_skip_ws_clean(after);
        assert(after[0] == '}');
        assert(after.drop_first() =~= Seq::<char>::empty());
        assert(spec_members_of_rows(rows, i + 1) =~= Seq::<
            (Seq<char>, crate::json::JsonValV),
        >::empty());
        assert(spec_members_of_rows(rows, i) =~= seq![
            (
                e.key,
                crate::json::JsonValV::JObj(
                    seq![(type_key(), tag), (value_key(), e.value)],
                ),
            ),
        ]);
    } else {
        lemma_parse_doc_pairs_of_emit(rows, i + 1);
        let tail = spec_emit_json_from(rows, i + 1) + seq!['}'];
        let input = spec_emit_json_from(rows, i) + seq!['}'];
        assert(input =~= qk + (seq![':'] + inner + seq![','] + tail));
        let rest1 = seq![':'] + inner + seq![','] + tail;
        crate::json::lemma_parse_quoted_round_trip(e.key, rest1);
        assert(rest1[0] == ':');
        crate::json::lemma_skip_ws_clean(rest1);
        let rest2 = inner + seq![','] + tail;
        assert(rest1.drop_first() =~= rest2);
        assert(rest2[0] == '{');
        crate::json::lemma_skip_ws_clean(rest2);
        assert(rest2 =~= seq!['{'] + spec_emit_string(type_key()) + seq![':'] + spec_emit_string(
            tag,
        ) + seq![','] + spec_emit_string(value_key()) + seq![':'] + spec_emit_string(e.value)
            + seq!['}'] + (seq![','] + tail));
        lemma_parse_inner_obj(tag, e.value, seq![','] + tail);
        let after = seq![','] + tail;
        assert(crate::json::spec_parse_value(rest2) == Some(
            (
                crate::json::JsonValV::JObj(
                    seq![(type_key(), tag), (value_key(), e.value)],
                ),
                after,
            ),
        ));
        crate::json::lemma_skip_ws_clean(after);
        assert(after[0] == ',');
        assert(after.drop_first() =~= tail);
        assert(tail[0] == '"') by {
            assert(spec_emit_json_from(rows, i + 1)[0] == spec_emit_string(rows[i + 1].key)[0]);
        }
        crate::json::lemma_skip_ws_clean(tail);
        assert(spec_members_of_rows(rows, i) =~= seq![
            (
                e.key,
                crate::json::JsonValV::JObj(
                    seq![(type_key(), tag), (value_key(), e.value)],
                ),
            ),
        ] + spec_members_of_rows(rows, i + 1));
    }
}

/// The import entries the rows from `i` on come back as.
pub open spec fn spec_rows_as_imports(rows: Seq<ExportEntryV>, i: int) -> Seq<ImportEntryV>
    decreases rows.len() - i,
{
    if i < 0 || i >= rows.len() {
        Seq::empty()
    } else {
        seq![spec_row_as_import(rows[i])] + spec_rows_as_imports(rows, i + 1)
    }
}

/// The written members read back as the rows' import entries.
proof fn lemma_entries_of_members(rows: Seq<ExportEntryV>, i: int)
    requires
        0 <= i <= rows.len(),
    ensures
        spec_entries_of_doc(spec_members_of_rows(rows, i)) == Some(spec_rows_as_imports(rows, i)),
    decreases rows.len() - i,
{
    if i < rows.len() {
        lemma_entries_of_members(rows, i + 1);
        let e = rows[i];
        let tag = spec_kind_tag(e.from_secret);
        let pairs = seq![(type_key(), tag), (value_key(), e.value)];
        let m = (e.key, crate::json::JsonValV::JObj(pairs));
        let d = spec_members_of_rows(rows, i);
        assert(d[0] == m);
        assert(d.drop_first() =~= spec_members_of_rows(rows, i + 1));
        assert(pairs[0].0 != value_key()) by {
            assert(type_key().len() == 4 && value_key().len() == 5);
        }
        assert(pairs.drop_first() =~= seq![(value_key(), e.value)]);
        assert(spec_pairs_lookup(seq![(value_key(), e.value)], value_key()) == Some(e.value)) by {
            assert(seq![(value_key(), e.value)][0] == (value_key(), e.value));
        }
        assert(spec_pairs_lookup(pairs, value_key()) == Some(e.value));
        assert(spec_pairs_lookup(pairs, type_key()) == Some(tag));
        assert(spec_kind_of_tag(tag) == Some(spec_row_as_import(e).kind)) by {
            assert(plain_tag().len() == 5 && keyvault_tag().len() == 8);
        }
        assert(spec_entry_of_member(m.0, m.1) == Some(spec_row_as_import(e)));
        assert(seq![spec_row_as_import(e)] + spec_rows_as_imports(rows, i + 1)
            =~= spec_rows_as_imports(rows, i));
    } else {
        assert(spec_members_of_rows(rows, i) =~= Seq::<(Seq<char>, crate::json::JsonValV)>::empty());
        assert(spec_rows_as_imports(rows, i) =~= Seq::<ImportEntryV>::empty());
    }
}

/// Round trip through the written JSON export: reading the text the
/// serializer writes for any rows yields the same keys and values,
/// each carrying the kind its `type` tag named.
pub proof fn lemma_json_export_import_round_trip(rows: Seq<ExportEntryV>)
    ensures
        spec_parse_json_entries(spec_emit_json(rows)) == Some(spec_rows_as_imports(rows, 0)),
{
    let input = spec_emit_json(rows);
    assert(input[0] == '{');
    crate::json::lemma_skip_ws_clean(input);
    let u = spec_emit_json_from(rows, 0) + seq!['}'];
    assert(input.drop_first() =~= u);
    if rows.len() == 0 {
        assert(spec_emit_json_from(rows, 0) =~= Seq::<char>::empty());
        assert(u =~= seq!['}']);
        assert(u[0] == '}');
        crate::json::lemma_skip_ws_clean(u);
        assert(u.drop_first() =~= Seq::<char>::empty());
        crate::json::lemma_skip_ws_clean(Seq::<char>::empty());
        assert(crate::json::spec_parse_doc(input) == Some(
            Seq::<(Seq<char>, crate::json::JsonValV)>::empty(),
        ));
        assert(spec_rows_as_imports(rows, 0) =~= Seq::<ImportEntryV>::empty());
        assert(spec_entries_of_doc(Seq::<(Seq<char>, crate::json::JsonValV)>::empty()) == Some(
            Seq::<ImportEntryV>::empty(),
        ));
    } else {
        assert(u[0] == '"') by {
            assert(spec_emit_json_from(rows, 0)[0] == spec_emit_string(rows[0].key)[0]);
        }
        crate::json::lemma_skip_ws_clean(u);
        lemma_parse_doc_pairs_of_emit(rows, 0);
        crate::json::lemma_skip_ws_clean(Seq::<char>::empty());
        assert(crate::json::spec_parse_doc(input) == Some(spec_members_of_rows(rows, 0)));
        lemma_entries_of_members(rows, 0);
    }
}

/// The last position of `c` in `s`.
pub open spec fn spec_rfind_char(s: Seq<char>, c: char) -> Option<int>
    decreases s.len(),
{
    if s.len() == 0 {
        None
    } else if s[s.len() - 1] == c {
        Some(s.len() - 1)
    } else {
        spec_rfind_char(s.drop_last(), c)
    }
}

fn rfind_char(v: &Vec<char>, c: char) -> (r: Option<usize>)
    ensures
        match r {
            Some(i) => i < v@.len() && spec_rfind_char(v@, c) == Some(i as int),
            None => spec_rfind_char(v@, c) is None,
        },
{
    let mut i: usize = v.len();
    proof {
        assert(v@.take(v@.len() as int) =~= v@);
    }
    while i > 0
        invariant
            i <= v@.len(),
            spec_rfind_char(v@, c) == spec_rfind_char(v@.take(i as int), c),
        decreases i,
    {
        proof {
            assert(v@.take(i as int)[i - 1] == v@[i - 1]);
            assert(v@.take(i as int).drop_last() =~= v@.take(i as int - 1));
        }
        if v[i - 1] == c {
            return Some(i - 1);
        }
        i = i - 1;
    }
    proof {
        assert(v@.take(0).len() == 0);
    }
    None
}

/// The file name after its last path separator.
pub open spec fn spec_base_name(s: Seq<char>) -> Seq<char> {
    match spec_rfind_char(s, '/') {
        Some(i) => s.skip(i + 1),
        None => s,
    }
}

/// The name's extension, after its last dot.
pub open spec fn spec_ext_of(base: Seq<char>) -> Option<Seq<char>> {
    match spec_rfind_char(base, '.') {
        Some(i) => Some(base.skip(i + 1)),
        None => None,
    }
}

pub open spec fn json_ext() -> Seq<char> {
    seq!['j', 's', 'o', 'n']
}

pub open spec fn yaml_ext() -> Seq<char> {
    seq!['y', 'a', 'm', 'l']
}

pub open spec fn yml_ext() -> Seq<char> {
    seq!['y', 'm', 'l']
}

pub open spec fn toml_ext() -> Seq<char> {
    seq!['t', 'o', 'm', 'l']
}

pub open spec fn env_ext() -> Seq<char> {
    seq!['e', 'n', 'v']
}

/// A name that looks like flat environment text: `.env` itself, a
/// `.env.` variant, or any name ending in `.env`.
pub open spec fn spec_env_like(base: Seq<char>) -> bool {
    let dotenv = seq!['.', 'e', 'n', 'v'];
    ||| base == dotenv
    ||| spec_starts_with(base, dotenv + seq!['.'])
    ||| (base.len() >= 4 && base.skip(base.len() - 4) == dotenv)
}

/// The format a file's name implies, if any.
pub open spec fn spec_implied_format(name: Seq<char>) -> Option<ImportFormat> {
    let base = spec_base_name(name);
    match spec_ext_of(base) {
        Some(x) => if x == json_ext() {
            Some(ImportFormat::Json)
        } else if x == yaml_ext() || x == yml_ext() {
            Some(ImportFormat::Yaml)
        } else if x == toml_ext() {
            Some(ImportFormat::Toml)
        } else if x == env_ext() {
            Some(ImportFormat::Env)
        } else if spec_env_like(base) {
            Some(ImportFormat::Env)
        } else {
            None
        },
        None => if spec_env_like(base) {
            Some(ImportFormat::Env)
        } else {
            None
        },
    }
}

fn implied_format(name: &str) -> (r: Option<ImportFormat>)
    ensures
        r == spec_implied_format(name@),
{
    let nv = chars_of(name);
    let base = match rfind_char(&nv, '/') {
        Some(i) => {
            let n = nv.len();
            proof {
                assert(i < n);
            }
            let b = subvec(&nv, i + 1, n);
            proof {
                assert(b@ =~= nv@.skip(i as int + 1));
            }
            b
        },
        None => nv,
    };
    let dotenv = chars_of(".env");
    let dotenv_dot = chars_of(".env.");
    proof {
        reveal_strlit(".env");
        reveal_strlit(".env.");
        assert(dotenv@ =~= seq!['.', 'e', 'n', 'v']);
        assert(dotenv_dot@ =~= seq!['.', 'e', 'n', 'v'] + seq!['.']);
    }
    let env_like = if eq_chars(&base, &dotenv) {
        true
    } else if starts_with_chars(&base, &dotenv_dot) {
        true
    } else if base.len() >= 4 {
        let tail = subvec(&base, base.len() - 4, base.len());
        proof {
            assert(tail@ =~= base@.skip(base@.len() - 4));
        }
        eq_chars(&tail, &dotenv)
    } else {
        false
    };
    match rfind_char(&base, '.') {
        None => {
            if env_like {
                Some(ImportFormat::Env)
            } else {
                None
            }
        },
        Some(d) => {
            let bn = base.len();
            proof {
                assert(d < bn);
            }
            let x = subvec(&base, d + 1, bn);
            proof {
                assert(x@ =~= base@.skip(d as int + 1));
            }
            let ej = chars_of("json");
            let ey = chars_of("yaml");
            let ey2 = chars_of("yml");
            let et = chars_of("toml");
            let ee = chars_of("env");
            proof {
                reveal_strlit("json");
                reveal_strlit("yaml");
                reveal_strlit("yml");
                reveal_strlit("toml");
                reveal_strlit("env");
                assert(ej@ =~= json_ext());
                assert(ey@ =~= yaml_ext());
                assert(ey2@ =~= yml_ext());
                assert(et@ =~= toml_ext());
                assert(ee@ =~= env_ext());
            }
            if eq_chars(&x, &ej) {
                Some(ImportFormat::Json)
            } else if eq_chars(&x, &ey) || eq_chars(&x, &ey2) {
                Some(ImportFormat::Yaml)
            } else if eq_chars(&x, &et) {
                Some(ImportFormat::Toml)
            } else if eq_chars(&x, &ee) {
                Some(ImportFormat::Env)
            } else if env_like {
                Some(ImportFormat::Env)
            } else {
                None
            }
        },
    }
}

/// What trying one format on the content yields.
pub open spec fn spec_try_format(f: ImportFormat, s: Seq<char>) -> Option<Seq<ImportEntryV>> {
    match f {
        ImportFormat::Json => spec_parse_json_entries(s),
        ImportFormat::Yaml => spec_parse_yaml_entries(s),
        ImportFormat::Toml => spec_parse_toml_entries(s),
        ImportFormat::Env => spec_parse_env_entries(s),
    }
}

/// The order the formats are tried in: the implied format first, then
/// the fixed order.
pub open spec fn spec_format_order(implied: Option<ImportFormat>) -> Seq<ImportFormat> {
    match implied {
        None => seq![ImportFormat::Json, ImportFormat::Yaml, ImportFormat::Toml, ImportFormat::Env],
        Some(ImportFormat::Json) => seq![
            ImportFormat::Json,
            ImportFormat::Yaml,
            ImportFormat::Toml,
            ImportFormat::Env,
        ],
        Some(ImportFormat::Yaml) => seq![
            ImportFormat::Yaml,
            ImportFormat::Json,
            ImportFormat::Toml,
            ImportFormat::Env,
        ],
        Some(ImportFormat::Toml) => seq![
            ImportFormat::Toml,
            ImportFormat::Json,
            ImportFormat::Yaml,
            ImportFormat::Env,
        ],
        Some(ImportFormat::Env) => seq![
            ImportFormat::Env,
            ImportFormat::Json,
            ImportFormat::Yaml,
            ImportFormat::Toml,
        ],
    }
}

/// The first format in the order whose content parses to a non-empty
/// entry set wins; when every attempt fails, the last attempted format
/// is reported.
pub open spec fn spec_cascade(order: Seq<ImportFormat>, s: Seq<char>) -> Result<
    Seq<ImportEntryV>,
    ImportFormat,
>
    decreases order.len(),
{
    if order.len() == 0 {
        Err(ImportFormat::Env)
    } else {
        match spec_try_format(order[0], s) {
            Some(es) => if es.len() > 0 {
                Ok(es)
            } else if order.len() == 1 {
                Err(order[0])
            } else {
                spec_cascade(order.drop_first(), s)
            },
            None => if order.len() == 1 {
                Err(order[0])
            } else {
                spec_cascade(order.drop_first(), s)
            },
        }
    }
}

/// What importing a file yields: the parsed entries, or the format
/// whose diagnostic is reported.
pub open spec fn spec_import_outcome(content: Seq<char>, file_name: Seq<char>) -> Result<
    Seq<ImportEntryV>,
    ImportFormat,
> {
    spec_cascade(spec_format_order(spec_implied_format(file_name)), content)
}

/// Why an import file could not be read.
#[derive(Debug)]
pub struct ImportParseError {
    pub format: ImportFormat,
    pub message: String,
}

fn try_format(f: ImportFormat, v: &Vec<char>) -> (r: Option<Vec<ImportEntry>>)
    ensures
        match r {
            Some(es) => spec_try_format(f, v@) == Some(import_views(es@)),
            None => spec_try_format(f, v@) is None,
        },
{
    match f {
        ImportFormat::Json => parse_json_entries(v),
        ImportFormat::Yaml => parse_yaml_entries(v),
        ImportFormat::Toml => parse_toml_entries(v),
        ImportFormat::Env => parse_env_entries(v),
    }
}

fn format_message(f: ImportFormat) -> (r: String)
    ensures
        match f {
            ImportFormat::Json => r@ == "content did not parse as a JSON object of entries"@,
            ImportFormat::Yaml => r@ == "content did not parse as YAML entries"@,
            ImportFormat::Toml => r@ == "content did not parse as TOML entries"@,
            ImportFormat::Env => r@
                == "content did not parse as KEY=VALUE lines with at least one entry"@,
        },
{
    match f {
        ImportFormat::Json => "content did not parse as a JSON object of entries".to_owned(),
        ImportFormat::Yaml => "content did not parse as YAML entries".to_owned(),
        ImportFormat::Toml => "content did not parse as TOML entries".to_owned(),
        ImportFormat::Env => "content did not parse as KEY=VALUE lines with at least one entry"
            .to_owned(),
    }
}

/// Reads an import file, trying the format its name implies first and
/// the remaining formats in a fixed order; the first format whose
/// content parses to a non-empty entry set wins, and when every
/// attempt fails the last attempted format's diagnostic is reported.
#[verifier::loop_isolation(false)]
pub fn parse_import(content: &str, file_name: &str) -> (r: Result<Vec<ImportEntry>, ImportParseError>)
    ensures
        match r {
            Ok(es) => spec_import_outcome(content@, file_name@) == Ok::<
                Seq<ImportEntryV>,
                ImportFormat,
            >(import_views(es@)),
            Err(e) => spec_import_outcome(content@, file_name@) == Err::<
                Seq<ImportEntryV>,
                ImportFormat,
            >(e.format),
        },
{
    let v = chars_of(content);
    let implied = implied_format(file_name);
    let mut order: Vec<ImportFormat> = Vec::new();
    match implied {
        None => {
            order.push(ImportFormat::Json);
            order.push(ImportFormat::Yaml);
            order.push(ImportFormat::Toml);
            order.push(ImportFormat::Env);
        },
        Some(ImportFormat::Json) => {
            order.push(ImportFormat::Json);
            order.push(ImportFormat::Yaml);
            order.push(ImportFormat::Toml);
            order.push(ImportFormat::Env);
        },
        Some(ImportFormat::Yaml) => {
            order.push(ImportFormat::Yaml);
            order.push(ImportFormat::Json);
            order.push(ImportFormat::Toml);
            order.push(ImportFormat::Env);
        },
        Some(ImportFormat::Toml) => {
            order.push(ImportFormat::Toml);
            order.push(ImportFormat::Json);
            order.push(ImportFormat::Yaml);
            order.push(ImportFormat::Env);
        },
        Some(ImportFormat::Env) => {
            order.push(ImportFormat::Env);
            order.push(ImportFormat::Json);
            order.push(ImportFormat::Yaml);
            order.push(ImportFormat::Toml);
        },
    }
    proof {
        assert(order@ =~= spec_format_order(spec_implied_format(file_name@)));
    }
    let ghost ov = order@;
    let mut i: usize = 0;
    proof {
        assert(ov.skip(0) =~= ov);
    }
    while i < order.len()
        invariant
            i <= order@.len(),
            order@ == ov,
            spec_cascade(ov, content@) == spec_cascade(ov.skip(i as int), content@),
        decreases order@.len() - i,
    {
        proof {
            assert(ov.skip(i as int)[0] == ov[i as int]);
            assert(ov.skip(i as int).drop_first() =~= ov.skip(i as int + 1));
        }
        match try_format(order[i], &v) {
            Some(es) => {
                if es.len() > 0 {
                    return Ok(es);
                }
                if i + 1 == order.len() {
                    return Err(
                        ImportParseError { format: order[i], message: format_message(order[i]) },
                    );
                }
            },
            None => {
                if i + 1 == order.len() {
                    return Err(
                        ImportParseError { format: order[i], message: format_message(order[i]) },
                    );
                }
            },
        }
        i = i + 1;
    }
    Err(ImportParseError { format: ImportFormat::Env, message: format_message(ImportFormat::Env) })
}

} // verus!
