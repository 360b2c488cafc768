//! Key namespace mapper: prefixes and strips the application scope on
//! key names, using the configurable separator of the active context.

use vstd::prelude::*;
use crate::text::{chars_of, starts_with_chars, string_from_chars, subvec};

verus! {

/// The namespaced form of `key` under application `app`: `app + sep + key`
/// when an application is selected, the key unchanged otherwise.
pub open spec fn spec_prefixed(app: Seq<char>, sep: Seq<char>, key: Seq<char>) -> Seq<char> {
    if app.len() == 0 {
        key
    } else {
        app + sep + key
    }
}

/// The application-relative form of `full`: a leading `app + sep` is
/// removed when present, otherwise the input is returned unchanged.
pub open spec fn spec_stripped(app: Seq<char>, sep: Seq<char>, full: Seq<char>) -> Seq<char> {
    let p = app + sep;
    if app.len() > 0 && p.len() <= full.len() && full.subrange(0, p.len() as int) == p {
        full.subrange(p.len() as int, full.len() as int)
    } else {
        full
    }
}

pub fn prefix_key(app: &str, sep: &str, key: &str) -> (r: String)
    ensures
        r@ == spec_prefixed(app@, sep@, key@),
{
    let av = chars_of(app);
    if av.len() == 0 {
        return key.to_owned();
    }
    let mut out = av;
    let sv = chars_of(sep);
    let kv = chars_of(key);
    crate::text::append_chars(&mut out, &sv);
    crate::text::append_chars(&mut out, &kv);
    string_from_chars(&out)
}

pub fn strip_key(app: &str, sep: &str, full: &str) -> (r: String)
    ensures
        r@ == spec_stripped(app@, sep@, full@),
{
    let av = chars_of(app);
    if av.len() == 0 {
        return full.to_owned();
    }
    let mut p = av;
    let sv = chars_of(sep);
    crate::text::append_chars(&mut p, &sv);
    let fv = chars_of(full);
    if starts_with_chars(&fv, &p) {
        let rest = subvec(&fv, p.len(), fv.len());
        string_from_chars(&rest)
    } else {
        full.to_owned()
    }
}

/// Stripping the namespaced form of a key always recovers the key:
/// `strip(app, sep, prefix(app, sep, key)) == key`, for every
/// application, separator, and relative key.
pub proof fn lemma_strip_of_prefix(app: Seq<char>, sep: Seq<char>, key: Seq<char>)
    ensures
        spec_stripped(app, sep, spec_prefixed(app, sep, key)) == key,
{
    if app.len() == 0 {
    } else {
        let p = app + sep;
        let full = app + sep + key;
        assert(full =~= p + key);
        assert((p + key).subrange(0, p.len() as int) =~= p);
        assert((p + key).subrange(p.len() as int, (p + key).len() as int) =~= key);
    }
}

} // verus!
