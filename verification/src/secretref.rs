//! Secret reference codec: the representations of a "pointer to a
//! vault secret" that an entry's value can carry, how each is decoded,
//! and the canonical address a reference is written back as.
//!
//! Three encodings are recognized, tried in this order: the inline
//! `@Indirection(...)` form with semicolon-delimited, case-insensitive
//! named fields; a JSON payload exposing a `uri` or `secretUri` field;
//! and, when only the entry's content type marks an indirection, the
//! bare canonical address itself.

use vstd::prelude::*;
use crate::text::{
    spec_find_char, spec_starts_with, lemma_find_char_properties, lemma_find_char_unique,
    lemma_find_char_skip, chars_of, eq_chars, find_char, starts_with_chars, string_from_chars,
    subvec, append_chars,
};

verus! {

/// A decoded pointer into the secret vault.
pub struct SecretReference {
    pub vault_base: String,
    pub name: String,
    pub version: Option<String>,
}

/// The mathematical value of a `SecretReference`.
pub struct SecretReferenceV {
    pub vault_base: Seq<char>,
    pub name: Seq<char>,
    pub version: Option<Seq<char>>,
}

impl View for SecretReference {
    type V = SecretReferenceV;

    open spec fn view(&self) -> SecretReferenceV {
        SecretReferenceV {
            vault_base: self.vault_base@,
            name: self.name@,
            version: match self.version {
                Some(v) => Some(v@),
                None => None,
            },
        }
    }
}

impl SecretReference {
    /// A field-by-field copy whose value equals this one.
    pub fn duplicate(&self) -> (r: SecretReference)
        ensures
            r@ == self@,
    {
        SecretReference {
            vault_base: self.vault_base.clone(),
            name: self.name.clone(),
            version: match &self.version {
                Some(v) => Some(v.clone()),
                None => None,
            },
        }
    }
}

/// The scheme every canonical vault address starts with.
pub open spec fn https_scheme() -> Seq<char> {
    seq!['h', 't', 't', 'p', 's', ':', '/', '/']
}

/// The path segment between the vault address and the secret name.
pub open spec fn secrets_seg() -> Seq<char> {
    seq!['/', 's', 'e', 'c', 'r', 'e', 't', 's', '/']
}

/// The host suffix a bare vault name is completed with.
pub open spec fn vault_host_suffix() -> Seq<char> {
    seq!['.', 'v', 'a', 'u', 'l', 't', '.', 'a', 'z', 'u', 'r', 'e', '.', 'n', 'e', 't']
}

/// True when a reference component is plain: non-empty and free of the
/// characters that delimit the encodings around it.
pub open spec fn plain_component(s: Seq<char>) -> bool {
    s.len() > 0 && forall|i: int|
        0 <= i < s.len() ==> !(s[i] == '/' || s[i] == ';' || s[i] == ')' || s[i] == '"' || s[i]
            == '\\')
}

/// A well-formed reference: a https vault address whose host part,
/// name and version are plain components.
pub open spec fn wf_reference(r: SecretReferenceV) -> bool {
    &&& spec_starts_with(r.vault_base, https_scheme())
    &&& plain_component(r.vault_base.skip(8))
    &&& plain_component(r.name)
    &&& match r.version {
        Some(v) => plain_component(v),
        None => true,
    }
}

/// The canonical written address of a reference:
/// `{vault}/secrets/{name}[/{version}]`.
pub open spec fn spec_canonical_uri(r: SecretReferenceV) -> Seq<char> {
    r.vault_base + secrets_seg() + r.name + (match r.version {
        Some(v) => seq!['/'] + v,
        None => Seq::<char>::empty(),
    })
}

/// Reads a canonical address back into a reference.
pub open spec fn spec_parse_uri(u: Seq<char>) -> Option<SecretReferenceV> {
    if !spec_starts_with(u, https_scheme()) {
        None
    } else {
        match spec_find_char(u, '/', 8) {
            None => None,
            Some(i) => if i == 8 {
                None
            } else {
                let base = u.subrange(0, i);
                let rest = u.skip(i);
                if !spec_starts_with(rest, secrets_seg()) {
                    None
                } else {
                    let after = rest.skip(9);
                    match spec_find_char(after, '/', 0) {
                        None => if after.len() > 0 {
                            Some(
                                SecretReferenceV { vault_base: base, name: after, version: None },
                            )
                        } else {
                            None
                        },
                        Some(j) => {
                            let nm = after.subrange(0, j);
                            let ver = after.skip(j + 1);
                            if nm.len() > 0 && ver.len() > 0 && spec_find_char(ver, '/', 0)
                                is None {
                                Some(
                                    SecretReferenceV {
                                        vault_base: base,
                                        name: nm,
                                        version: Some(ver),
                                    },
                                )
                            } else {
                                None
                            }
                        },
                    }
                }
            },
        }
    }
}

/// Reading the canonical address of a well-formed reference recovers
/// the reference exactly.
pub proof fn lemma_parse_canonical_uri(r: SecretReferenceV)
    requires
        wf_reference(r),
    ensures
        spec_parse_uri(spec_canonical_uri(r)) == Some(r),
{
    let u = spec_canonical_uri(r);
    let b = r.vault_base;
    let n = b.len() as int;
    let tail = r.name + (match r.version {
        Some(v) => seq!['/'] + v,
        None => Seq::<char>::empty(),
    });
    assert(u =~= b + (secrets_seg() + tail));
    assert(n >= 9);
    assert(spec_starts_with(u, https_scheme())) by {
        assert(b.subrange(0, 8) == https_scheme());
        assert(u.subrange(0, 8) =~= b.subrange(0, 8));
    }
    assert(u[n] == '/');
    assert(forall|j: int| 8 <= j < n ==> u[j] == b.skip(8)[j - 8]);
    assert(forall|j: int| 8 <= j < n ==> u[j] != '/');
    lemma_find_char_unique(u, '/', 8, n);
    assert(u.subrange(0, n) =~= b);
    let rest = u.skip(n);
    assert(rest =~= secrets_seg() + tail);
    assert(spec_starts_with(rest, secrets_seg())) by {
        assert(rest.subrange(0, 9) =~= secrets_seg());
    }
    let after = rest.skip(9);
    assert(after =~= tail);
    match r.version {
        None => {
            assert(after =~= r.name);
            assert(forall|j: int| 0 <= j < after.len() ==> after[j] != '/');
            lemma_find_char_properties(after, '/', 0);
            if spec_find_char(after, '/', 0) is Some {
                let i = spec_find_char(after, '/', 0)->0;
                assert(after[i] == '/');
                assert(false);
            }
        },
        Some(ver) => {
            let m = r.name.len() as int;
            assert(after =~= r.name + (seq!['/'] + ver));
            assert(after[m] == '/');
            assert(forall|j: int| 0 <= j < m ==> after[j] == r.name[j]);
            assert(forall|j: int| 0 <= j < m ==> after[j] != '/');
            lemma_find_char_unique(after, '/', 0, m);
            assert(after.subrange(0, m) =~= r.name);
            let v2 = after.skip(m + 1);
            assert(v2 =~= ver);
            assert(forall|j: int| 0 <= j < v2.len() ==> v2[j] != '/');
            lemma_find_char_properties(v2, '/', 0);
            if spec_find_char(v2, '/', 0) is Some {
                let i = spec_find_char(v2, '/', 0)->0;
                assert(v2[i] == '/');
                assert(false);
            }
        },
    }
}

/// The opening token of the inline form.
pub open spec fn indirection_open() -> Seq<char> {
    seq!['@', 'I', 'n', 'd', 'i', 'r', 'e', 'c', 't', 'i', 'o', 'n', '(']
}

/// A character folded to lower case, for the case-insensitive field
/// names of the inline form.
pub open spec fn spec_lower(c: char) -> char {
    if 'A' <= c && c <= 'Z' {
        (((c as u8) + 32) as char)
    } else {
        c
    }
}

/// A field name folded to lower case.
pub open spec fn spec_lower_seq(s: Seq<char>) -> Seq<char> {
    s.map_values(|c: char| spec_lower(c))
}

/// The pieces of a field list, split on every semicolon.
pub open spec fn spec_split_semis(s: Seq<char>) -> Seq<Seq<char>>
    decreases s.len(),
    via spec_split_semis_dec
{
    match spec_find_char(s, ';', 0) {
        None => seq![s],
        Some(i) => seq![s.subrange(0, i)] + spec_split_semis(s.skip(i + 1)),
    }
}

#[via_fn]
proof fn spec_split_semis_dec(s: Seq<char>) {
    lemma_find_char_properties(s, ';', 0);
}

/// One `name=value` field: the name folded to lower case, the value as
/// written. A piece without `=` carries no field.
pub open spec fn spec_field_entry(f: Seq<char>) -> Option<(Seq<char>, Seq<char>)> {
    match spec_find_char(f, '=', 0) {
        None => None,
        Some(i) => Some((spec_lower_seq(f.subrange(0, i)), f.skip(i + 1))),
    }
}

/// The named fields an inline form can carry.
pub struct InlineFields {
    pub secret_uri: Option<Seq<char>>,
    pub vault: Option<Seq<char>>,
    pub name: Option<Seq<char>>,
    pub version: Option<Seq<char>>,
}

pub open spec fn no_fields() -> InlineFields {
    InlineFields { secret_uri: None, vault: None, name: None, version: None }
}

pub open spec fn lower_secreturi() -> Seq<char> {
    seq!['s', 'e', 'c', 'r', 'e', 't', 'u', 'r', 'i']
}

pub open spec fn lower_vaultname() -> Seq<char> {
    seq!['v', 'a', 'u', 'l', 't', 'n', 'a', 'm', 'e']
}

pub open spec fn lower_secretname() -> Seq<char> {
    seq!['s', 'e', 'c', 'r', 'e', 't', 'n', 'a', 'm', 'e']
}

pub open spec fn lower_secretversion() -> Seq<char> {
    seq!['s', 'e', 'c', 'r', 'e', 't', 'v', 'e', 'r', 's', 'i', 'o', 'n']
}

/// Fills the slots a piece defines into what later pieces have not yet
/// claimed: the first occurrence of a field wins.
pub open spec fn spec_apply_field(f: Seq<char>, rest: InlineFields) -> InlineFields {
    match spec_field_entry(f) {
        None => rest,
        Some((n, val)) => if n == lower_secreturi() {
            InlineFields { secret_uri: Some(val), ..rest }
        } else if n == lower_vaultname() {
            InlineFields { vault: Some(val), ..rest }
        } else if n == lower_secretname() {
            InlineFields { name: Some(val), ..rest }
        } else if n == lower_secretversion() {
            InlineFields { version: Some(val), ..rest }
        } else {
            rest
        },
    }
}

/// The fields collected from all pieces, earliest occurrence first.
pub open spec fn spec_collect_fields(pieces: Seq<Seq<char>>) -> InlineFields
    decreases pieces.len(),
{
    if pieces.len() == 0 {
        no_fields()
    } else {
        spec_apply_field(pieces[0], spec_collect_fields(pieces.drop_first()))
    }
}

/// The reference the collected fields denote: a direct address wins;
/// otherwise vault and secret name combine into the canonical address.
pub open spec fn spec_resolve_fields(f: InlineFields) -> Option<SecretReferenceV> {
    match f.secret_uri {
        Some(u) => spec_parse_uri(u),
        None => match (f.vault, f.name) {
            (Some(vn), Some(sn)) => if vn.len() > 0 && sn.len() > 0 && spec_find_char(vn, '/', 0)
                is None && spec_find_char(sn, '/', 0) is None {
                Some(
                    SecretReferenceV {
                        vault_base: https_scheme() + vn + vault_host_suffix(),
                        name: sn,
                        version: match f.version {
                            Some(ver) => if ver.len() > 0 && spec_find_char(ver, '/', 0) is None {
                                Some(ver)
                            } else {
                                None
                            },
                            None => None,
                        },
                    },
                )
            } else {
                None
            },
            _ => None,
        },
    }
}

/// Reads the inline form: the opening token, the semicolon-delimited
/// fields, the closing parenthesis.
pub open spec fn spec_parse_inline(v: Seq<char>) -> Option<SecretReferenceV> {
    if v.len() >= 14 && spec_starts_with(v, indirection_open()) && v[v.len() - 1] == ')' {
        spec_resolve_fields(spec_collect_fields(spec_split_semis(v.subrange(13, v.len() - 1))))
    } else {
        None
    }
}

/// The inline written form carrying a direct address.
pub open spec fn spec_enc_inline_uri(r: SecretReferenceV) -> Seq<char> {
    indirection_open() + seq!['S', 'e', 'c', 'r', 'e', 't', 'U', 'r', 'i', '=']
        + spec_canonical_uri(r) + seq![')']
}

/// The inline written form carrying vault, name and version fields.
pub open spec fn spec_enc_inline_fields(vn: Seq<char>, sn: Seq<char>, ver: Option<Seq<char>>) -> Seq<char> {
    indirection_open() + seq!['V', 'a', 'u', 'l', 't', 'N', 'a', 'm', 'e', '='] + vn + seq![';']
        + seq!['S', 'e', 'c', 'r', 'e', 't', 'N', 'a', 'm', 'e', '='] + sn + (match ver {
        Some(w) => seq![';'] + seq![
            'S',
            'e',
            'c',
            'r',
            'e',
            't',
            'V',
            'e',
            'r',
            's',
            'i',
            'o',
            'n',
            '=',
        ] + w,
        None => Seq::<char>::empty(),
    }) + seq![')']
}

/// A component free of delimiters has no semicolon and no equals sign
/// before any position.
proof fn lemma_plain_no_char(s: Seq<char>, c: char)
    requires
        plain_component(s),
        c == '/' || c == ';' || c == ')' || c == '"' || c == '\\',
    ensures
        spec_find_char(s, c, 0) is None,
{
    lemma_find_char_properties(s, c, 0);
    if spec_find_char(s, c, 0) is Some {
        let i = spec_find_char(s, c, 0)->0;
        assert(s[i] == c);
        assert(false);
    }
}

/// The canonical address of a well-formed reference contains no
/// semicolon.
proof fn lemma_canonical_uri_no_semi(r: SecretReferenceV)
    requires
        wf_reference(r),
    ensures
        spec_find_char(spec_canonical_uri(r), ';', 0) is None,
{
    let u = spec_canonical_uri(r);
    assert forall|j: int| 0 <= j < u.len() implies u[j] != ';' by {
        let b = r.vault_base;
        let n = b.len() as int;
        assert(u =~= b + (secrets_seg() + (r.name + (match r.version {
            Some(v) => seq!['/'] + v,
            None => Seq::<char>::empty(),
        }))));
        if j < 8 {
            assert(u[j] == https_scheme()[j]);
        } else if j < n {
            assert(u[j] == b.skip(8)[j - 8]);
        } else if j < n + 9 {
            assert(u[j] == secrets_seg()[j - n]);
        } else if j < n + 9 + r.name.len() {
            assert(u[j] == r.name[j - n - 9]);
        } else {
            match r.version {
                Some(v) => {
                    if j == n + 9 + r.name.len() {
                        assert(u[j] == '/');
                    } else {
                        assert(u[j] == v[j - n - 10 - r.name.len()]);
                    }
                },
                None => {},
            }
        }
    }
    lemma_find_char_properties(u, ';', 0);
    if spec_find_char(u, ';', 0) is Some {
        let i = spec_find_char(u, ';', 0)->0;
        assert(u[i] == ';');
        assert(false);
    }
}

/// Reading the inline form that carries the direct address of a
/// well-formed reference recovers the reference exactly.
pub proof fn lemma_parse_inline_uri_round_trip(r: SecretReferenceV)
    requires
        wf_reference(r),
    ensures
        spec_parse_inline(spec_enc_inline_uri(r)) == Some(r),
{
    let u = spec_canonical_uri(r);
    let v = spec_enc_inline_uri(r);
    let body = seq!['S', 'e', 'c', 'r', 'e', 't', 'U', 'r', 'i', '='] + u;
    assert(v =~= indirection_open() + body + seq![')']);
    assert(v.len() >= 14);
    assert(spec_starts_with(v, indirection_open())) by {
        assert(v.subrange(0, 13) =~= indirection_open());
    }
    assert(v[v.len() - 1] == ')');
    assert(v.subrange(13, v.len() - 1) =~= body);
    lemma_canonical_uri_no_semi(r);
    lemma_find_char_properties(u, ';', 0);
    assert(forall|j: int| 0 <= j < u.len() ==> u[j] != ';');
    assert(forall|j: int| 0 <= j < body.len() ==> body[j] != ';') by {
        assert(forall|j: int| 10 <= j < body.len() ==> body[j] == u[j - 10]);
    }
    lemma_find_char_properties(body, ';', 0);
    if spec_find_char(body, ';', 0) is Some {
        let i = spec_find_char(body, ';', 0)->0;
        assert(body[i] == ';');
        assert(false);
    }
    assert(spec_split_semis(body) =~= seq![body]);
    assert(spec_collect_fields(seq![body]) == spec_apply_field(
        body,
        spec_collect_fields(seq![body].drop_first()),
    )) by {
        assert(seq![body][0] == body);
    }
    assert(seq![body].drop_first() =~= Seq::<Seq<char>>::empty());
    assert(spec_collect_fields(Seq::<Seq<char>>::empty()) == no_fields());
    assert(body[9] == '=');
    assert(forall|j: int| 0 <= j < 9 ==> body[j] != '=');
    lemma_find_char_unique(body, '=', 0, 9);
    assert(spec_field_entry(body) == Some((spec_lower_seq(body.subrange(0, 9)), body.skip(10))));
    assert(spec_lower_seq(body.subrange(0, 9)) =~= lower_secreturi());
    assert(body.skip(10) =~= u);
    lemma_parse_canonical_uri(r);
}

/// Reading the inline form that carries plain vault, name and version
/// fields yields the reference with the canonical vault address built
/// from the vault name.
pub proof fn lemma_parse_inline_fields_round_trip(vn: Seq<char>, sn: Seq<char>, ver: Option<Seq<char>>)
    requires
        plain_component(vn),
        plain_component(sn),
        match ver {
            Some(w) => plain_component(w) && spec_find_char(w, '=', 0) is None,
            None => true,
        },
        spec_find_char(vn, '=', 0) is None,
        spec_find_char(sn, '=', 0) is None,
    ensures
        spec_parse_inline(spec_enc_inline_fields(vn, sn, ver)) == Some(
            SecretReferenceV {
                vault_base: https_scheme() + vn + vault_host_suffix(),
                name: sn,
                version: ver,
            },
        ),
{
    match ver {
        None => {
            lemma_inline_fields_round_trip_no_version(vn, sn);
        },
        Some(w) => {
            lemma_inline_fields_round_trip_with_version(vn, sn, w);
        },
    }
}

proof fn lemma_inline_fields_round_trip_no_version(vn: Seq<char>, sn: Seq<char>)
    requires
        plain_component(vn),
        plain_component(sn),
        spec_find_char(vn, '=', 0) is None,
        spec_find_char(sn, '=', 0) is None,
    ensures
        spec_parse_inline(spec_enc_inline_fields(vn, sn, None)) == Some(
            SecretReferenceV {
                vault_base: https_scheme() + vn + vault_host_suffix(),
                name: sn,
                version: None,
            },
        ),
{
    let v = spec_enc_inline_fields(vn, sn, None);
    let f1 = seq!['V', 'a', 'u', 'l', 't', 'N', 'a', 'm', 'e', '='] + vn;
    let f2 = seq!['S', 'e', 'c', 'r', 'e', 't', 'N', 'a', 'm', 'e', '='] + sn;
    lemma_plain_no_char(vn, ';');
    lemma_plain_no_char(sn, ';');
    lemma_find_char_properties(vn, ';', 0);
    lemma_find_char_properties(sn, ';', 0);
    assert(forall|j: int| 0 <= j < vn.len() ==> vn[j] != ';');
    assert(forall|j: int| 0 <= j < sn.len() ==> sn[j] != ';');
    assert(forall|j: int| 0 <= j < f1.len() ==> f1[j] != ';') by {
        assert(forall|j: int| 10 <= j < f1.len() ==> f1[j] == vn[j - 10]);
    }
    assert(forall|j: int| 0 <= j < f2.len() ==> f2[j] != ';') by {
        assert(forall|j: int| 11 <= j < f2.len() ==> f2[j] == sn[j - 11]);
    }
    lemma_plain_no_char(vn, '/');
    lemma_plain_no_char(sn, '/');
    let body = f1 + seq![';'] + f2;
    assert(v =~= indirection_open() + body + seq![')']);
    assert(spec_starts_with(v, indirection_open())) by {
        assert(v.subrange(0, 13) =~= indirection_open());
    }
    assert(v[v.len() - 1] == ')');
    assert(v.subrange(13, v.len() - 1) =~= body);
    assert(body[f1.len() as int] == ';');
    assert(forall|j: int| 0 <= j < f1.len() ==> body[j] == f1[j]);
    lemma_find_char_unique(body, ';', 0, f1.len() as int);
    assert(body.subrange(0, f1.len() as int) =~= f1);
    assert(body.skip(f1.len() as int + 1) =~= f2);
    lemma_find_char_properties(f2, ';', 0);
    if spec_find_char(f2, ';', 0) is Some {
        let i = spec_find_char(f2, ';', 0)->0;
        assert(f2[i] == ';');
        assert(false);
    }
    assert(spec_split_semis(f2) == seq![f2]);
    assert(spec_split_semis(body) == seq![body.subrange(0, f1.len() as int)] + spec_split_semis(
        body.skip(f1.len() as int + 1),
    ));
    assert(spec_split_semis(body) =~= seq![f1] + (seq![f2]));
    lemma_fields_pair(f1, f2, vn, sn);
}

proof fn lemma_inline_fields_round_trip_with_version(vn: Seq<char>, sn: Seq<char>, w: Seq<char>)
    requires
        plain_component(vn),
        plain_component(sn),
        plain_component(w),
        spec_find_char(vn, '=', 0) is None,
        spec_find_char(sn, '=', 0) is None,
        spec_find_char(w, '=', 0) is None,
    ensures
        spec_parse_inline(spec_enc_inline_fields(vn, sn, Some(w))) == Some(
            SecretReferenceV {
                vault_base: https_scheme() + vn + vault_host_suffix(),
                name: sn,
                version: Some(w),
            },
        ),
{
    let v = spec_enc_inline_fields(vn, sn, Some(w));
    let f1 = seq!['V', 'a', 'u', 'l', 't', 'N', 'a', 'm', 'e', '='] + vn;
    let f2 = seq!['S', 'e', 'c', 'r', 'e', 't', 'N', 'a', 'm', 'e', '='] + sn;
    let f3 = seq!['S', 'e', 'c', 'r', 'e', 't', 'V', 'e', 'r', 's', 'i', 'o', 'n', '='] + w;
    lemma_plain_no_char(vn, ';');
    lemma_plain_no_char(sn, ';');
    lemma_plain_no_char(w, ';');
    lemma_find_char_properties(vn, ';', 0);
    lemma_find_char_properties(sn, ';', 0);
    lemma_find_char_properties(w, ';', 0);
    assert(forall|j: int| 0 <= j < vn.len() ==> vn[j] != ';');
    assert(forall|j: int| 0 <= j < sn.len() ==> sn[j] != ';');
    assert(forall|j: int| 0 <= j < w.len() ==> w[j] != ';');
    assert(forall|j: int| 0 <= j < f1.len() ==> f1[j] != ';') by {
        assert(forall|j: int| 10 <= j < f1.len() ==> f1[j] == vn[j - 10]);
    }
    assert(forall|j: int| 0 <= j < f2.len() ==> f2[j] != ';') by {
        assert(forall|j: int| 11 <= j < f2.len() ==> f2[j] == sn[j - 11]);
    }
    assert(forall|j: int| 0 <= j < f3.len() ==> f3[j] != ';') by {
        assert(forall|j: int| 14 <= j < f3.len() ==> f3[j] == w[j - 14]);
    }
    lemma_plain_no_char(vn, '/');
    lemma_plain_no_char(sn, '/');
    lemma_plain_no_char(w, '/');
    let body = f1 + seq![';'] + f2 + seq![';'] + f3;
    assert(v =~= indirection_open() + body + seq![')']);
    assert(spec_starts_with(v, indirection_open())) by {
        assert(v.subrange(0, 13) =~= indirection_open());
    }
    assert(v[v.len() - 1] == ')');
    assert(v.subrange(13, v.len() - 1) =~= body);
    assert(body[f1.len() as int] == ';');
    assert(forall|j: int| 0 <= j < f1.len() ==> body[j] == f1[j]);
    lemma_find_char_unique(body, ';', 0, f1.len() as int);
    assert(body.subrange(0, f1.len() as int) =~= f1);
    let body2 = body.skip(f1.len() as int + 1);
    assert(body2 =~= f2 + seq![';'] + f3);
    assert(body2[f2.len() as int] == ';');
    assert(forall|j: int| 0 <= j < f2.len() ==> body2[j] == f2[j]);
    lemma_find_char_unique(body2, ';', 0, f2.len() as int);
    assert(body2.subrange(0, f2.len() as int) =~= f2);
    let body3 = body2.skip(f2.len() as int + 1);
    assert(body3 =~= f3);
    lemma_find_char_properties(f3, ';', 0);
    if spec_find_char(f3, ';', 0) is Some {
        let i = spec_find_char(f3, ';', 0)->0;
        assert(f3[i] == ';');
        assert(false);
    }
    assert(spec_split_semis(f3) == seq![f3]);
    assert(spec_split_semis(body2) == seq![body2.subrange(0, f2.len() as int)]
        + spec_split_semis(body2.skip(f2.len() as int + 1)));
    assert(spec_split_semis(body2) =~= seq![f2] + (seq![f3]));
    assert(spec_split_semis(body) == seq![body.subrange(0, f1.len() as int)] + spec_split_semis(
        body.skip(f1.len() as int + 1),
    ));
    assert(spec_split_semis(body) =~= seq![f1] + (seq![f2] + (seq![f3])));
    lemma_fields_triple(f1, f2, f3, vn, sn, w);
}

/// The payload key `uri`.
pub open spec fn uri_key() -> Seq<char> {
    seq!['u', 'r', 'i']
}

/// The payload key `secretUri`.
pub open spec fn secret_uri_key() -> Seq<char> {
    seq!['s', 'e', 'c', 'r', 'e', 't', 'U', 'r', 'i']
}

/// The first value stored under `k` in a read document.
pub open spec fn spec_doc_lookup(d: Seq<(Seq<char>, crate::json::JsonValV)>, k: Seq<char>) -> Option<
    crate::json::JsonValV,
>
    decreases d.len(),
{
    if d.len() == 0 {
        None
    } else if d[0].0 == k {
        Some(d[0].1)
    } else {
        spec_doc_lookup(d.drop_first(), k)
    }
}

/// Reads a structured payload: a JSON object exposing the address
/// under `uri` or `secretUri`, with `uri` preferred.
pub open spec fn spec_parse_payload(v: Seq<char>) -> Option<SecretReferenceV> {
    match crate::json::spec_parse_doc(v) {
        None => None,
        Some(d) => {
            let hit = match spec_doc_lookup(d, uri_key()) {
                Some(x) => Some(x),
                None => spec_doc_lookup(d, secret_uri_key()),
            };
            match hit {
                Some(crate::json::JsonValV::JStr(u)) => spec_parse_uri(u),
                _ => None,
            }
        },
    }
}

/// The structured payload carrying the canonical address of a
/// reference.
pub open spec fn spec_enc_payload(r: SecretReferenceV) -> Seq<char> {
    seq!['{'] + crate::json::spec_emit_string(uri_key()) + seq![':']
        + crate::json::spec_emit_string(spec_canonical_uri(r)) + seq!['}']
}

/// What decoding an entry value yields: the inline form is tried
/// first, then the structured payload; the bare canonical address is
/// read only when the content type marks an indirection.
pub open spec fn spec_decode(value: Seq<char>, secret_content_type: bool) -> Option<SecretReferenceV> {
    match spec_parse_inline(value) {
        Some(r) => Some(r),
        None => match spec_parse_payload(value) {
            Some(r) => Some(r),
            None => if secret_content_type {
                spec_parse_uri(value)
            } else {
                None
            },
        },
    }
}

/// Reading the structured payload of a well-formed reference recovers
/// the reference exactly.
pub proof fn lemma_parse_payload_round_trip(r: SecretReferenceV)
    requires
        wf_reference(r),
    ensures
        spec_parse_payload(spec_enc_payload(r)) == Some(r),
{
    let u = spec_canonical_uri(r);
    let q1 = crate::json::spec_emit_string(uri_key());
    let q2 = crate::json::spec_emit_string(u);
    let v = spec_enc_payload(r);
    let rest1 = seq![':'] + q2 + seq!['}'];
    let inner = q1 + rest1;
    assert(v =~= seq!['{'] + inner);
    assert(v[0] == '{');
    crate::json::lemma_skip_ws_clean(v);
    assert(v.drop_first() =~= inner);
    assert(inner[0] == '"');
    crate::json::lemma_skip_ws_clean(inner);
    assert(inner =~= q1 + rest1);
    crate::json::lemma_parse_quoted_round_trip(uri_key(), rest1);
    assert(crate::json::spec_parse_quoted(inner) == Some((uri_key(), rest1)));
    assert(rest1[0] == ':');
    crate::json::lemma_skip_ws_clean(rest1);
    let rest2 = rest1.drop_first();
    assert(rest2 =~= q2 + seq!['}']);
    assert(rest2[0] == '"');
    crate::json::lemma_skip_ws_clean(rest2);
    crate::json::lemma_parse_quoted_round_trip(u, seq!['}']);
    assert(crate::json::spec_parse_quoted(rest2) == Some((u, seq!['}'])));
    assert(crate::json::spec_parse_value(rest2) == Some(
        (crate::json::JsonValV::JStr(u), seq!['}']),
    ));
    let rest3: Seq<char> = seq!['}'];
    crate::json::lemma_skip_ws_clean(rest3);
    assert(rest3[0] == '}');
    assert(rest3.drop_first() =~= Seq::<char>::empty());
    crate::json::lemma_skip_ws_clean(Seq::<char>::empty());
    assert(crate::json::spec_parse_doc_pairs(inner) == Some(
        (seq![(uri_key(), crate::json::JsonValV::JStr(u))], Seq::<char>::empty()),
    ));
    let d = seq![(uri_key(), crate::json::JsonValV::JStr(u))];
    assert(crate::json::spec_parse_doc(v) == Some(d));
    assert(d[0].0 == uri_key());
    assert(spec_doc_lookup(d, uri_key()) == Some(crate::json::JsonValV::JStr(u)));
    lemma_parse_canonical_uri(r);
}

/// Decoding the inline form that carries a direct address, then
/// re-encoding, yields the same vault address, name and version.
pub proof fn lemma_decode_inline_uri(r: SecretReferenceV)
    requires
        wf_reference(r),
    ensures
        spec_decode(spec_enc_inline_uri(r), false) == Some(r),
{
    lemma_parse_inline_uri_round_trip(r);
}

/// Decoding the inline form that carries vault, name and version
/// fields yields the reference those fields denote.
pub proof fn lemma_decode_inline_fields(vn: Seq<char>, sn: Seq<char>, ver: Option<Seq<char>>)
    requires
        plain_component(vn),
        plain_component(sn),
        match ver {
            Some(w) => plain_component(w) && spec_find_char(w, '=', 0) is None,
            None => true,
        },
        spec_find_char(vn, '=', 0) is None,
        spec_find_char(sn, '=', 0) is None,
    ensures
        spec_decode(spec_enc_inline_fields(vn, sn, ver), false) == Some(
            SecretReferenceV {
                vault_base: https_scheme() + vn + vault_host_suffix(),
                name: sn,
                version: ver,
            },
        ),
{
    lemma_parse_inline_fields_round_trip(vn, sn, ver);
}

/// Decoding the structured payload of a well-formed reference recovers
/// the reference: the payload is not an inline form, so the second
/// encoding is the one that is read.
pub proof fn lemma_decode_payload(r: SecretReferenceV)
    requires
        wf_reference(r),
    ensures
        spec_decode(spec_enc_payload(r), false) == Some(r),
{
    let v = spec_enc_payload(r);
    assert(v[0] == '{');
    assert(spec_parse_inline(v) is None) by {
        if v.len() >= 14 && spec_starts_with(v, indirection_open()) {
            assert(v.subrange(0, 13)[0] == v[0]);
            assert(indirection_open()[0] == '@');
            assert(false);
        }
    }
    lemma_parse_payload_round_trip(r);
}

/// Decoding the bare canonical address of a well-formed reference,
/// when the content type marks an indirection, recovers the reference.
pub proof fn lemma_decode_canonical(r: SecretReferenceV)
    requires
        wf_reference(r),
    ensures
        spec_decode(spec_canonical_uri(r), true) == Some(r),
{
    let v = spec_canonical_uri(r);
    assert(v[0] == 'h') by {
        assert(v.subrange(0, 8) =~= r.vault_base.subrange(0, 8));
        assert(r.vault_base.subrange(0, 8) == https_scheme());
        assert(v.subrange(0, 8)[0] == v[0]);
    }
    assert(spec_parse_inline(v) is None) by {
        if v.len() >= 14 && spec_starts_with(v, indirection_open()) {
            assert(v.subrange(0, 13)[0] == v[0]);
            assert(indirection_open()[0] == '@');
            assert(false);
        }
    }
    assert(spec_parse_payload(v) is None) by {
        crate::json::lemma_skip_ws_clean(v);
        assert(crate::json::spec_parse_doc(v) is None);
    }
    lemma_parse_canonical_uri(r);
}

/// The lowered field names are pairwise distinct.
proof fn lemma_field_names_distinct()
    ensures
        lower_vaultname() != lower_secreturi(),
        lower_secretname() != lower_secreturi(),
        lower_secretname() != lower_vaultname(),
        lower_secretversion() != lower_secreturi(),
        lower_secretversion() != lower_vaultname(),
        lower_secretversion() != lower_secretname(),
{
    assert(lower_vaultname()[0] == 'v' && lower_secreturi()[0] == 's');
    assert(lower_secretname().len() == 10 && lower_secreturi().len() == 9);
    assert(lower_vaultname().len() == 9);
    assert(lower_secretversion().len() == 13);
}

/// Collecting a vault field and a name field fills exactly those.
proof fn lemma_fields_pair(f1: Seq<char>, f2: Seq<char>, vn: Seq<char>, sn: Seq<char>)
    requires
        f1 == seq!['V', 'a', 'u', 'l', 't', 'N', 'a', 'm', 'e', '='] + vn,
        f2 == seq!['S', 'e', 'c', 'r', 'e', 't', 'N', 'a', 'm', 'e', '='] + sn,
        spec_find_char(vn, '=', 0) is None,
        spec_find_char(sn, '=', 0) is None,
    ensures
        spec_collect_fields(seq![f1] + (seq![f2])) == (InlineFields {
            secret_uri: None,
            vault: Some(vn),
            name: Some(sn),
            version: None,
        }),
{
    lemma_field_names_distinct();
    lemma_field_entry_tagged(f1, 9, vn);
    assert(spec_lower_seq(f1.subrange(0, 9)) =~= lower_vaultname());
    assert(spec_field_entry(f1) == Some((lower_vaultname(), vn)));
    lemma_field_entry_tagged(f2, 10, sn);
    assert(spec_lower_seq(f2.subrange(0, 10)) =~= lower_secretname());
    assert(spec_field_entry(f2) == Some((lower_secretname(), sn)));
    let ps = seq![f1] + (seq![f2]);
    assert(ps[0] == f1);
    assert(ps.drop_first() =~= seq![f2]);
    assert(seq![f2][0] == f2);
    assert(seq![f2].drop_first() =~= Seq::<Seq<char>>::empty());
    assert(spec_collect_fields(Seq::<Seq<char>>::empty()) == no_fields());
    let g2 = spec_apply_field(f2, no_fields());
    assert(g2 == (InlineFields { secret_uri: None, vault: None, name: Some(sn), version: None }));
    assert(spec_collect_fields(seq![f2]) == g2);
    assert(spec_collect_fields(ps.drop_first()) == g2);
    assert(spec_collect_fields(ps) == spec_apply_field(f1, g2));
    assert(spec_apply_field(f1, g2) == (InlineFields {
        secret_uri: None,
        vault: Some(vn),
        name: Some(sn),
        version: None,
    }));
}

/// Collecting vault, name and version fields fills exactly those.
proof fn lemma_fields_triple(
    f1: Seq<char>,
    f2: Seq<char>,
    f3: Seq<char>,
    vn: Seq<char>,
    sn: Seq<char>,
    w: Seq<char>,
)
    requires
        f1 == seq!['V', 'a', 'u', 'l', 't', 'N', 'a', 'm', 'e', '='] + vn,
        f2 == seq!['S', 'e', 'c', 'r', 'e', 't', 'N', 'a', 'm', 'e', '='] + sn,
        f3 == seq!['S', 'e', 'c', 'r', 'e', 't', 'V', 'e', 'r', 's', 'i', 'o', 'n', '='] + w,
        spec_find_char(vn, '=', 0) is None,
        spec_find_char(sn, '=', 0) is None,
        spec_find_char(w, '=', 0) is None,
    ensures
        spec_collect_fields(seq![f1] + (seq![f2] + (seq![f3]))) == (InlineFields {
            secret_uri: None,
            vault: Some(vn),
            name: Some(sn),
            version: Some(w),
        }),
{
    lemma_field_names_distinct();
    lemma_field_entry_tagged(f1, 9, vn);
    assert(spec_lower_seq(f1.subrange(0, 9)) =~= lower_vaultname());
    assert(spec_field_entry(f1) == Some((lower_vaultname(), vn)));
    lemma_field_entry_tagged(f2, 10, sn);
    assert(spec_lower_seq(f2.subrange(0, 10)) =~= lower_secretname());
    assert(spec_field_entry(f2) == Some((lower_secretname(), sn)));
    lemma_field_entry_tagged(f3, 13, w);
    assert(spec_lower_seq(f3.subrange(0, 13)) =~= lower_secretversion());
    assert(spec_field_entry(f3) == Some((lower_secretversion(), w)));
    let ps = seq![f1] + (seq![f2] + (seq![f3]));
    assert(ps[0] == f1);
    assert(ps.drop_first() =~= seq![f2] + (seq![f3]));
    assert((seq![f2] + (seq![f3]))[0] == f2);
    assert((seq![f2] + (seq![f3])).drop_first() =~= seq![f3]);
    assert(seq![f3][0] == f3);
    assert(seq![f3].drop_first() =~= Seq::<Seq<char>>::empty());
    assert(spec_collect_fields(Seq::<Seq<char>>::empty()) == no_fields());
    let g3 = spec_apply_field(f3, no_fields());
    assert(g3 == (InlineFields { secret_uri: None, vault: None, name: None, version: Some(w) }));
    assert(spec_collect_fields(seq![f3]) == g3);
    let g2 = spec_apply_field(f2, g3);
    assert(g2 == (InlineFields {
        secret_uri: None,
        vault: None,
        name: Some(sn),
        version: Some(w),
    }));
    assert(spec_collect_fields(seq![f2] + (seq![f3])) == g2);
    assert(spec_collect_fields(ps.drop_first()) == g2);
    assert(spec_collect_fields(ps) == spec_apply_field(f1, g2));
    assert(spec_apply_field(f1, g2) == (InlineFields {
        secret_uri: None,
        vault: Some(vn),
        name: Some(sn),
        version: Some(w),
    }));
}

/// A `tag=value` piece whose value has no equals sign reads as the tag
/// and the value.
proof fn lemma_field_entry_tagged(f: Seq<char>, taglen: int, val: Seq<char>)
    requires
        0 <= taglen,
        f.len() == taglen + 1 + val.len(),
        f[taglen] == '=',
        forall|j: int| 0 <= j < taglen ==> f[j] != '=',
        forall|j: int| 0 <= j < val.len() ==> f[taglen + 1 + j] == val[j],
        spec_find_char(val, '=', 0) is None,
    ensures
        spec_field_entry(f) == Some((spec_lower_seq(f.subrange(0, taglen)), val)),
{
    lemma_find_char_unique(f, '=', 0, taglen);
    assert(f.skip(taglen + 1) =~= val);
}

/// Reads a canonical address held in a character vector.
pub fn parse_uri_vec(u: &Vec<char>) -> (r: Option<SecretReference>)
    ensures
        match r {
            Some(x) => spec_parse_uri(u@) == Some(x@),
            None => spec_parse_uri(u@) is None,
        },
{
    let scheme = chars_of("https://");
    proof {
        reveal_strlit("https://");
        assert(scheme@ =~= https_scheme());
    }
    if !starts_with_chars(u, &scheme) {
        return None;
    }
    let i = match find_char(u, '/', 8) {
        None => {
            return None;
        },
        Some(i) => i,
    };
    if i == 8 {
        return None;
    }
    let ghost rest = u@.skip(i as int);
    if u.len() - i < 9 {
        proof {
            assert(rest.len() < 9);
            assert(!spec_starts_with(rest, secrets_seg()));
        }
        return None;
    }
    let seg = chars_of("/secrets/");
    proof {
        reveal_strlit("/secrets/");
        assert(seg@ =~= secrets_seg());
        assert(rest.subrange(0, 9) =~= u@.subrange(i as int, i as int + 9));
    }
    let mid = subvec(u, i, i + 9);
    if !eq_chars(&mid, &seg) {
        proof {
            assert(!spec_starts_with(rest, secrets_seg()));
        }
        return None;
    }
    proof {
        assert(spec_starts_with(rest, secrets_seg()));
    }
    let base = subvec(u, 0, i);
    let ghost after = rest.skip(9);
    proof {
        assert(after =~= u@.skip(i as int + 9));
        lemma_find_char_skip(u@, '/', i as int + 9, 0);
    }
    match find_char(u, '/', i + 9) {
        None => {
            if u.len() == i + 9 {
                proof {
                    assert(after.len() == 0);
                }
                return None;
            }
            let name = subvec(u, i + 9, u.len());
            proof {
                assert(name@ =~= after);
            }
            Some(
                SecretReference {
                    vault_base: string_from_chars(&base),
                    name: string_from_chars(&name),
                    version: None,
                },
            )
        },
        Some(j2) => {
            proof {
                assert(spec_find_char(after, '/', 0) == Some(j2 - (i + 9) as int));
            }
            if j2 == i + 9 {
                proof {
                    assert(after.subrange(0, 0).len() == 0);
                }
                return None;
            }
            if j2 + 1 >= u.len() {
                proof {
                    assert(after.skip(j2 - (i + 9) as int + 1) =~= u@.skip(j2 as int + 1));
                }
                return None;
            }
            proof {
                assert(after.skip(j2 - (i + 9) as int + 1) =~= u@.skip(j2 as int + 1));
                lemma_find_char_skip(u@, '/', j2 as int + 1, 0);
            }
            match find_char(u, '/', j2 + 1) {
                Some(_) => None,
                None => {
                    let name = subvec(u, i + 9, j2);
                    let ver = subvec(u, j2 + 1, u.len());
                    proof {
                        assert(name@ =~= after.subrange(0, j2 - (i + 9) as int));
                        assert(ver@ =~= u@.skip(j2 as int + 1));
                    }
                    Some(
                        SecretReference {
                            vault_base: string_from_chars(&base),
                            name: string_from_chars(&name),
                            version: Some(string_from_chars(&ver)),
                        },
                    )
                },
            }
        },
    }
}

/// Folds one character to lower case.
fn lower_char(c: char) -> (r: char)
    ensures
        r == spec_lower(c),
{
    if 'A' <= c && c <= 'Z' {
        (((c as u8) + 32) as char)
    } else {
        c
    }
}

/// Folds a field name to lower case.
fn lower_vec(v: &Vec<char>) -> (r: Vec<char>)
    ensures
        r@ == spec_lower_seq(v@),
{
    let mut out: Vec<char> = Vec::new();
    let mut i: usize = 0;
    proof {
        assert(out@ =~= spec_lower_seq(v@.subrange(0, 0)));
    }
    while i < v.len()
        invariant
            i <= v@.len(),
            out@ == spec_lower_seq(v@.subrange(0, i as int)),
        decreases v@.len() - i,
    {
        out.push(lower_char(v[i]));
        proof {
            assert(out@ =~= spec_lower_seq(v@.subrange(0, i as int + 1)));
        }
        i = i + 1;
    }
    proof {
        assert(v@.subrange(0, v@.len() as int) =~= v@);
    }
    out
}

/// The collected fields, as an operation holds them.
struct FieldsAcc {
    secret_uri: Option<Vec<char>>,
    vault: Option<Vec<char>>,
    name: Option<Vec<char>>,
    version: Option<Vec<char>>,
}

impl FieldsAcc {
    spec fn view_fields(&self) -> InlineFields {
        InlineFields {
            secret_uri: match self.secret_uri {
                Some(v) => Some(v@),
                None => None,
            },
            vault: match self.vault {
                Some(v) => Some(v@),
                None => None,
            },
            name: match self.name {
                Some(v) => Some(v@),
                None => None,
            },
            version: match self.version {
                Some(v) => Some(v@),
                None => None,
            },
        }
    }
}

/// Applies one piece to the collected fields.
fn apply_field(piece: &Vec<char>, st: FieldsAcc) -> (r: FieldsAcc)
    ensures
        r.view_fields() == spec_apply_field(piece@, st.view_fields()),
{
    let e = match find_char(piece, '=', 0) {
        None => {
            return st;
        },
        Some(e) => e,
    };
    let n = piece.len();
    proof {
        assert(e < n);
    }
    let raw_name = subvec(piece, 0, e);
    let name = lower_vec(&raw_name);
    let value = subvec(piece, e + 1, n);
    proof {
        assert(value@ =~= piece@.skip(e as int + 1));
    }
    let k_uri = chars_of("secreturi");
    let k_vault = chars_of("vaultname");
    let k_name = chars_of("secretname");
    let k_version = chars_of("secretversion");
    proof {
        reveal_strlit("secreturi");
        reveal_strlit("vaultname");
        reveal_strlit("secretname");
        reveal_strlit("secretversion");
        assert(k_uri@ =~= lower_secreturi());
        assert(k_vault@ =~= lower_vaultname());
        assert(k_name@ =~= lower_secretname());
        assert(k_version@ =~= lower_secretversion());
    }
    if eq_chars(&name, &k_uri) {
        FieldsAcc { secret_uri: Some(value), ..st }
    } else if eq_chars(&name, &k_vault) {
        FieldsAcc { vault: Some(value), ..st }
    } else if eq_chars(&name, &k_name) {
        FieldsAcc { name: Some(value), ..st }
    } else if eq_chars(&name, &k_version) {
        FieldsAcc { version: Some(value), ..st }
    } else {
        st
    }
}

/// Reads the inline form held in a character vector.
#[verifier::loop_isolation(false)]
fn parse_inline_vec(v: &Vec<char>) -> (r: Option<SecretReference>)
    ensures
        match r {
            Some(x) => spec_parse_inline(v@) == Some(x@),
            None => spec_parse_inline(v@) is None,
        },
{
    let open = chars_of("@Indirection(");
    proof {
        reveal_strlit("@Indirection(");
        assert(open@ =~= indirection_open());
    }
    if v.len() < 14 || !starts_with_chars(v, &open) {
        return None;
    }
    if v[v.len() - 1] != ')' {
        return None;
    }
    let body = subvec(v, 13, v.len() - 1);
    // Split the body on semicolons.
    let mut pieces: Vec<Vec<char>> = Vec::new();
    let mut cur: usize = 0;
    proof {
        assert(body@.skip(0) =~= body@);
        assert(pieces@.map_values(|p: Vec<char>| p@) =~= Seq::<Seq<char>>::empty());
        assert(spec_split_semis(body@) =~= pieces@.map_values(|p: Vec<char>| p@)
            + spec_split_semis(body@.skip(0)));
    }
    loop
        invariant
            cur <= body@.len(),
            spec_split_semis(body@) == pieces@.map_values(|p: Vec<char>| p@) + spec_split_semis(
                body@.skip(cur as int),
            ),
        decreases body@.len() - cur,
    {
        let ghost pieces_old = pieces@;
        proof {
            lemma_find_char_skip(body@, ';', cur as int, 0);
        }
        match find_char(&body, ';', cur) {
            Some(i) => {
                let piece = subvec(&body, cur, i);
                pieces.push(piece);
                proof {
                    assert(spec_find_char(body@.skip(cur as int), ';', 0) == Some(
                        i - cur as int,
                    ));
                    assert(body@.skip(cur as int).subrange(0, i - cur as int) =~= body@.subrange(
                        cur as int,
                        i as int,
                    ));
                    assert(body@.skip(cur as int).skip(i - cur as int + 1) =~= body@.skip(
                        i as int + 1,
                    ));
                    assert(spec_split_semis(body@.skip(cur as int)) == seq![body@.subrange(
                        cur as int,
                        i as int,
                    )] + spec_split_semis(body@.skip(i as int + 1)));
                    assert(pieces@.map_values(|p: Vec<char>| p@) =~= pieces_old.map_values(
                        |p: Vec<char>| p@,
                    ).push(body@.subrange(cur as int, i as int)));
                    assert(pieces_old.map_values(|p: Vec<char>| p@) + (seq![body@.subrange(
                        cur as int,
                        i as int,
                    )] + spec_split_semis(body@.skip(i as int + 1))) =~= pieces@.map_values(
                        |p: Vec<char>| p@,
                    ) + spec_split_semis(body@.skip(i as int + 1)));
                }
                cur = i + 1;
            },
            None => {
                let piece = subvec(&body, cur, body.len());
                pieces.push(piece);
                proof {
                    assert(spec_find_char(body@.skip(cur as int), ';', 0) is None);
                    assert(body@.skip(cur as int).subrange(0, body@.len() - cur as int)
                        =~= body@.subrange(cur as int, body@.len() as int));
                    assert(body@.skip(cur as int) =~= body@.subrange(
                        cur as int,
                        body@.len() as int,
                    ));
                    assert(spec_split_semis(body@.skip(cur as int)) == seq![body@.skip(
                        cur as int,
                    )]);
                    assert(pieces@.map_values(|p: Vec<char>| p@) =~= pieces_old.map_values(
                        |p: Vec<char>| p@,
                    ).push(body@.skip(cur as int)));
                    assert(pieces_old.map_values(|p: Vec<char>| p@) + seq![body@.skip(cur as int)]
                        =~= pieces@.map_values(|p: Vec<char>| p@));
                    assert(spec_split_semis(body@) =~= pieces@.map_values(|p: Vec<char>| p@)
                        + Seq::<Seq<char>>::empty());
                }
                break ;
            },
        }
    }
    proof {
        assert(spec_split_semis(body@) == pieces@.map_values(|p: Vec<char>| p@));
    }
    // Collect the fields, rightmost piece first, so that the leftmost
    // occurrence of a field wins.
    let mut st = FieldsAcc { secret_uri: None, vault: None, name: None, version: None };
    let mut k: usize = pieces.len();
    proof {
        assert(pieces@.map_values(|p: Vec<char>| p@).skip(k as int) =~= Seq::<Seq<char>>::empty());
    }
    while k > 0
        invariant
            k <= pieces@.len(),
            st.view_fields() == spec_collect_fields(
                pieces@.map_values(|p: Vec<char>| p@).skip(k as int),
            ),
        decreases k,
    {
        k = k - 1;
        st = apply_field(&pieces[k], st);
        proof {
            let pv = pieces@.map_values(|p: Vec<char>| p@);
            assert(pv.skip(k as int)[0] == pieces@[k as int]@);
            assert(pv.skip(k as int).drop_first() =~= pv.skip(k as int + 1));
        }
    }
    proof {
        assert(pieces@.map_values(|p: Vec<char>| p@).skip(0) =~= pieces@.map_values(
            |p: Vec<char>| p@,
        ));
    }
    // Resolve the collected fields.
    match st.secret_uri {
        Some(u) => parse_uri_vec(&u),
        None => {
            match (st.vault, st.name) {
                (Some(vn), Some(sn)) => {
                    if vn.len() == 0 || sn.len() == 0 {
                        return None;
                    }
                    match find_char(&vn, '/', 0) {
                        Some(_) => {
                            return None;
                        },
                        None => {},
                    }
                    match find_char(&sn, '/', 0) {
                        Some(_) => {
                            return None;
                        },
                        None => {},
                    }
                    let mut base = chars_of("https://");
                    proof {
                        reveal_strlit("https://");
                        assert(base@ =~= https_scheme());
                    }
                    append_chars(&mut base, &vn);
                    let suffix = chars_of(".vault.azure.net");
                    proof {
                        reveal_strlit(".vault.azure.net");
                        assert(suffix@ =~= vault_host_suffix());
                    }
                    append_chars(&mut base, &suffix);
                    let version = match st.version {
                        Some(w) => {
                            if w.len() > 0 {
                                match find_char(&w, '/', 0) {
                                    None => Some(string_from_chars(&w)),
                                    Some(_) => None,
                                }
                            } else {
                                None
                            }
                        },
                        None => None,
                    };
                    Some(
                        SecretReference {
                            vault_base: string_from_chars(&base),
                            name: string_from_chars(&sn),
                            version,
                        },
                    )
                },
                _ => None,
            }
        },
    }
}

/// Reads a structured payload held in a character vector.
fn parse_payload_vec(v: &Vec<char>) -> (r: Option<SecretReference>)
    ensures
        match r {
            Some(x) => spec_parse_payload(v@) == Some(x@),
            None => spec_parse_payload(v@) is None,
        },
{
    let doc = match crate::json::parse_doc(v) {
        None => {
            return None;
        },
        Some(d) => d,
    };
    let k_uri = chars_of("uri");
    let k_secret_uri = chars_of("secretUri");
    proof {
        reveal_strlit("uri");
        reveal_strlit("secretUri");
        assert(k_uri@ =~= uri_key());
        assert(k_secret_uri@ =~= secret_uri_key());
    }
    let hit = match doc_lookup(&doc, &k_uri) {
        Some(i) => Some(i),
        None => doc_lookup(&doc, &k_secret_uri),
    };
    match hit {
        None => None,
        Some(i) => {
            match &doc[i].1 {
                crate::json::JsonVal::JStr(u) => parse_uri_vec(u),
                crate::json::JsonVal::JObj(_) => None,
            }
        },
    }
}

/// Index of the first member stored under `k` in a read document.
#[verifier::loop_isolation(false)]
fn doc_lookup(d: &Vec<(Vec<char>, crate::json::JsonVal)>, k: &Vec<char>) -> (r: Option<usize>)
    ensures
        match r {
            Some(i) => i < d@.len() && spec_doc_lookup(crate::json::doc_views(d@), k@) == Some(
                d@[i as int].1@,
            ),
            None => spec_doc_lookup(crate::json::doc_views(d@), k@) is None,
        },
{
    let ghost dv = crate::json::doc_views(d@);
    let mut i: usize = 0;
    proof {
        assert(dv.skip(0) =~= dv);
    }
    while i < d.len()
        invariant
            i <= d@.len(),
            spec_doc_lookup(crate::json::doc_views(d@), k@) == spec_doc_lookup(
                crate::json::doc_views(d@).skip(i as int),
                k@,
            ),
        decreases d@.len() - i,
    {
        proof {
            assert(dv.skip(i as int)[0] == (d@[i as int].0@, d@[i as int].1@));
            assert(dv.skip(i as int).drop_first() =~= dv.skip(i as int + 1));
        }
        let key = &d[i].0;
        if eq_chars(key, k) {
            return Some(i);
        }
        i = i + 1;
    }
    proof {
        assert(dv.skip(d@.len() as int).len() == 0);
    }
    None
}

/// Decodes an entry's value, with its content-type flag, into the
/// reference it carries, if any; a value carrying none is a plain
/// string.
pub fn decode(value: &str, secret_content_type: bool) -> (r: Option<SecretReference>)
    ensures
        match r {
            Some(x) => spec_decode(value@, secret_content_type) == Some(x@),
            None => spec_decode(value@, secret_content_type) is None,
        },
{
    let v = chars_of(value);
    match parse_inline_vec(&v) {
        Some(x) => {
            return Some(x);
        },
        None => {},
    }
    match parse_payload_vec(&v) {
        Some(x) => {
            return Some(x);
        },
        None => {},
    }
    if secret_content_type {
        parse_uri_vec(&v)
    } else {
        None
    }
}

impl SecretReference {
    /// The canonical written address of this reference.
    pub fn canonical_uri(&self) -> (r: String)
        ensures
            r@ == spec_canonical_uri(self@),
    {
        let mut out = chars_of(self.vault_base.as_str());
        let seg = chars_of("/secrets/");
        proof {
            reveal_strlit("/secrets/");
            assert(seg@ =~= secrets_seg());
        }
        append_chars(&mut out, &seg);
        let nm = chars_of(self.name.as_str());
        append_chars(&mut out, &nm);
        match &self.version {
            Some(ver) => {
                out.push('/');
                let vv = chars_of(ver.as_str());
                append_chars(&mut out, &vv);
                proof {
                    assert(out@ =~= spec_canonical_uri(self@));
                }
            },
            None => {
                proof {
                    assert(out@ =~= spec_canonical_uri(self@));
                }
            },
        }
        string_from_chars(&out)
    }
}


/// True when the address already carries a scheme separator `://`.
pub open spec fn spec_has_scheme(s: Seq<char>) -> bool {
    exists|i: int|
        0 <= i && i + 3 <= s.len() && #[trigger] s[i] == ':' && s[i + 1] == '/' && s[i + 2] == '/'
}

/// The vault base an operation uses: a bare name becomes the canonical
/// https address; an address carrying a scheme loses one trailing
/// slash.
pub open spec fn spec_normalized_vault(s: Seq<char>) -> Seq<char> {
    if spec_has_scheme(s) {
        if s.len() > 0 && s[s.len() - 1] == '/' {
            s.take(s.len() - 1)
        } else {
            s
        }
    } else {
        https_scheme() + s + vault_host_suffix()
    }
}

/// Normalizes a vault base address.
pub fn normalize_vault_base(s: &str) -> (r: String)
    ensures
        r@ == spec_normalized_vault(s@),
{
    let v = chars_of(s);
    let mut found: Option<usize> = None;
    let mut i: usize = 0;
    loop
        invariant_except_break
            i <= v@.len(),
            found is None,
            forall|j: int|
                0 <= j < i ==> !(j + 3 <= v@.len() && #[trigger] v@[j] == ':' && v@[j + 1] == '/'
                    && v@[j + 2] == '/'),
        ensures
            match found {
                Some(w) => 0 <= w && w + 3 <= v@.len() && v@[w as int] == ':' && v@[w as int + 1]
                    == '/' && v@[w as int + 2] == '/',
                None => forall|j: int|
                    0 <= j ==> !(j + 3 <= v@.len() && #[trigger] v@[j] == ':' && v@[j + 1] == '/'
                        && v@[j + 2] == '/'),
            },
        decreases v@.len() - i,
    {
        if i >= v.len() || v.len() - i < 3 {
            break ;
        }
        if v[i] == ':' && v[i + 1] == '/' && v[i + 2] == '/' {
            found = Some(i);
            break ;
        }
        i = i + 1;
    }
    match found {
        Some(_) => {
            proof {
                assert(spec_has_scheme(v@));
            }
            if v.len() > 0 && v[v.len() - 1] == '/' {
                let trimmed = subvec(&v, 0, v.len() - 1);
                proof {
                    assert(trimmed@ =~= v@.take(v@.len() - 1));
                }
                string_from_chars(&trimmed)
            } else {
                s.to_owned()
            }
        },
        None => {
            proof {
                assert(!spec_has_scheme(v@));
            }
            let mut out = chars_of("https://");
            proof {
                reveal_strlit("https://");
                assert(out@ =~= https_scheme());
            }
            append_chars(&mut out, &v);
            let suffix = chars_of(".vault.azure.net");
            proof {
                reveal_strlit(".vault.azure.net");
                assert(suffix@ =~= vault_host_suffix());
            }
            append_chars(&mut out, &suffix);
            string_from_chars(&out)
        },
    }
}

/// True when a character survives the secret-name folding.
pub open spec fn is_alnum(c: char) -> bool {
    ('a' <= c && c <= 'z') || ('A' <= c && c <= 'Z') || ('0' <= c && c <= '9')
}

/// A letter raised to upper case at a word boundary.
pub open spec fn spec_upper(c: char) -> char {
    if 'a' <= c && c <= 'z' {
        (((c as u8) - 32) as char)
    } else {
        c
    }
}

/// The secret name a key folds to: alphanumeric characters are kept,
/// every separator starts a new camel-cased word.
pub open spec fn spec_camel(s: Seq<char>, boundary: bool) -> Seq<char>
    decreases s.len(),
{
    if s.len() == 0 {
        Seq::empty()
    } else if is_alnum(s[0]) {
        seq![if boundary {
            spec_upper(s[0])
        } else {
            s[0]
        }] + spec_camel(s.drop_first(), false)
    } else {
        spec_camel(s.drop_first(), true)
    }
}

/// Folds a namespaced key into its secret name.
#[verifier::loop_isolation(false)]
pub fn secret_name_of_key(key: &str) -> (r: String)
    ensures
        r@ == spec_camel(key@, false),
{
    let v = chars_of(key);
    let mut out: Vec<char> = Vec::new();
    let mut boundary = false;
    let mut i: usize = 0;
    proof {
        assert(v@.skip(0) =~= v@);
        assert(out@ + spec_camel(v@.skip(0), false) =~= spec_camel(v@, false));
    }
    while i < v.len()
        invariant
            i <= v@.len(),
            spec_camel(v@, false) == out@ + spec_camel(v@.skip(i as int), boundary),
        decreases v@.len() - i,
    {
        let c = v[i];
        proof {
            assert(v@.skip(i as int)[0] == v@[i as int]);
            assert(v@.skip(i as int).drop_first() =~= v@.skip(i as int + 1));
        }
        let ghost out_old = out@;
        let ghost b_old = boundary;
        if ('a' <= c && c <= 'z') || ('A' <= c && c <= 'Z') || ('0' <= c && c <= '9') {
            let folded = if boundary && 'a' <= c && c <= 'z' {
                (((c as u8) - 32) as char)
            } else {
                c
            };
            out.push(folded);
            boundary = false;
            proof {
                assert(spec_camel(v@.skip(i as int), b_old) == seq![if b_old {
                    spec_upper(v@[i as int])
                } else {
                    v@[i as int]
                }] + spec_camel(v@.skip(i as int + 1), false));
                assert(folded == (if b_old {
                    spec_upper(v@[i as int])
                } else {
                    v@[i as int]
                }));
                assert(out_old + (seq![folded] + spec_camel(v@.skip(i as int + 1), false))
                    =~= out@ + spec_camel(v@.skip(i as int + 1), false));
            }
        } else {
            boundary = true;
            proof {
                assert(spec_camel(v@.skip(i as int), b_old) == spec_camel(
                    v@.skip(i as int + 1),
                    true,
                ));
            }
        }
        i = i + 1;
    }
    proof {
        assert(v@.skip(v@.len() as int).len() == 0);
        assert(out@ + Seq::<char>::empty() =~= out@);
    }
    string_from_chars(&out)
}

/// The reference a bulk write stores a key's secret under: the
/// normalized vault address and the folded secret name, unversioned.
pub fn build_reference(vault_base: &str, full_key: &str) -> (r: SecretReference)
    ensures
        r@.vault_base == spec_normalized_vault(vault_base@),
        r@.name == spec_camel(full_key@, false),
        r@.version is None,
{
    SecretReference {
        vault_base: normalize_vault_base(vault_base),
        name: secret_name_of_key(full_key),
        version: None,
    }
}

} // verus!
