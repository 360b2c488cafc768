//! Persisted context state: the named scopes the tool switches among,
//! and the operations that create, look up, and reshape them. The store
//! is an explicit value; loading it from disk and writing it back wrap
//! each operation outside the library.

use vstd::prelude::*;
use crate::text::{chars_of, lex_le, lex_le_chars};

verus! {

/// One named scope: which subscription and store it points at, how keys
/// are namespaced under it, and which vault backs its secrets.
pub struct Context {
    pub alias: String,
    pub sub: String,
    pub name: String,
    pub base: String,
    pub separator: String,
    pub label: String,
    pub vault: Option<String>,
}

/// The mathematical value of a `Context`: each field as a character
/// sequence.
pub struct ContextV {
    pub alias: Seq<char>,
    pub sub: Seq<char>,
    pub name: Seq<char>,
    pub base: Seq<char>,
    pub separator: Seq<char>,
    pub label: Seq<char>,
    pub vault: Option<Seq<char>>,
}

impl View for Context {
    type V = ContextV;

    open spec fn view(&self) -> ContextV {
        ContextV {
            alias: self.alias@,
            sub: self.sub@,
            name: self.name@,
            base: self.base@,
            separator: self.separator@,
            label: self.label@,
            vault: match self.vault {
                Some(v) => Some(v@),
                None => None,
            },
        }
    }
}

impl Context {
    /// A field-by-field copy whose value equals this one.
    pub fn duplicate(&self) -> (r: Context)
        ensures
            r@ == self@,
    {
        Context {
            alias: self.alias.clone(),
            sub: self.sub.clone(),
            name: self.name.clone(),
            base: self.base.clone(),
            separator: self.separator.clone(),
            label: self.label.clone(),
            vault: match &self.vault {
                Some(v) => Some(v.clone()),
                None => None,
            },
        }
    }
}

/// Why a context operation was refused.
#[derive(Debug)]
pub enum ContextError {
    EmptyAlias,
    DuplicateAlias(String),
    UnknownAlias(String),
    CurrentContextMissing(String),
}

impl ContextError {
    /// A diagnostic line naming the offending alias.
    pub fn message(&self) -> (r: String)
        ensures
            match self {
                ContextError::EmptyAlias => r@ == "Alias cannot be empty"@,
                ContextError::DuplicateAlias(a) => r@ == "Alias '"@ + a@ + "' already exists"@,
                ContextError::UnknownAlias(a) => r@ == "Alias '"@ + a@ + "' not found"@,
                ContextError::CurrentContextMissing(a) => r@ == "Current context '"@ + a@
                    + "' not found in store"@,
            },
    {
        match self {
            ContextError::EmptyAlias => "Alias cannot be empty".to_owned(),
            ContextError::DuplicateAlias(a) => {
                let mut m = "Alias '".to_owned();
                m.append(a.as_str());
                m.append("' already exists");
                m
            },
            ContextError::UnknownAlias(a) => {
                let mut m = "Alias '".to_owned();
                m.append(a.as_str());
                m.append("' not found");
                m
            },
            ContextError::CurrentContextMissing(a) => {
                let mut m = "Current context '".to_owned();
                m.append(a.as_str());
                m.append("' not found in store");
                m
            },
        }
    }
}

/// The collection of saved contexts together with the alias of the one
/// currently selected, if any.
pub struct ContextStore {
    pub current: Option<String>,
    pub contexts: Vec<Context>,
}

/// Index of the first context at or after `from` whose alias reads `a`.
pub open spec fn spec_find_alias(s: Seq<Context>, a: Seq<char>, from: int) -> Option<int>
    decreases s.len() - from,
{
    if from < 0 || from >= s.len() {
        None
    } else if s[from].alias@ == a {
        Some(from)
    } else {
        spec_find_alias(s, a, from + 1)
    }
}

pub open spec fn has_alias(s: Seq<Context>, a: Seq<char>) -> bool {
    spec_find_alias(s, a, 0) is Some
}

/// What `spec_find_alias` returns is the first match, and a `None`
/// means no context from `from` on carries the alias.
pub proof fn lemma_find_alias_properties(s: Seq<Context>, a: Seq<char>, from: int)
    requires
        0 <= from <= s.len(),
    ensures
        match spec_find_alias(s, a, from) {
            Some(i) => from <= i < s.len() && s[i].alias@ == a && forall|j: int|
                from <= j < i ==> s[j].alias@ != a,
            None => forall|j: int| from <= j < s.len() ==> s[j].alias@ != a,
        },
    decreases s.len() - from,
{
    if from < s.len() && s[from].alias@ != a {
        lemma_find_alias_properties(s, a, from + 1);
    }
}

impl ContextStore {
    /// No two saved contexts share an alias.
    pub open spec fn wf(&self) -> bool {
        forall|i: int, j: int|
            0 <= i < j < self.contexts@.len() ==> self.contexts@[i].alias@
                != self.contexts@[j].alias@
    }

    /// The store that exists before anything was saved.
    pub fn empty() -> (r: ContextStore)
        ensures
            r.wf(),
            r.current is None,
            r.contexts@.len() == 0,
    {
        ContextStore { current: None, contexts: Vec::new() }
    }

    /// True when the selected alias reads `a`.
    pub open spec fn is_current(&self, a: Seq<char>) -> bool {
        self.current is Some && self.current->0@ == a
    }
}

pub(crate) fn find_alias_in(v: &Vec<Context>, alias: &str) -> (r: Option<usize>)
    ensures
        match r {
            Some(i) => i < v@.len() && spec_find_alias(v@, alias@, 0) == Some(i as int),
            None => spec_find_alias(v@, alias@, 0) is None,
        },
{
    let a = chars_of(alias);
    let mut i: usize = 0;
    while i < v.len()
        invariant
            i <= v@.len(),
            a@ == alias@,
            spec_find_alias(v@, alias@, 0) == spec_find_alias(v@, alias@, i as int),
        decreases v.len() - i,
    {
        let c = chars_of(v[i].alias.as_str());
        if crate::text::eq_chars(&c, &a) {
            return Some(i);
        }
        i = i + 1;
    }
    None
}

/// True when a character counts as blank for alias validation.
pub open spec fn is_space(c: char) -> bool {
    c == ' ' || c == '\t' || c == '\n' || c == '\r'
}

/// True when the alias holds nothing but blanks.
pub open spec fn blank_chars(v: Seq<char>) -> bool {
    forall|i: int| 0 <= i < v.len() ==> is_space(v[i])
}

fn is_blank(s: &str) -> (r: bool)
    ensures
        r == blank_chars(s@),
{
    let v = chars_of(s);
    let mut i: usize = 0;
    while i < v.len()
        invariant
            i <= v@.len(),
            v@ == s@,
            forall|j: int| 0 <= j < i ==> is_space(v@[j]),
        decreases v.len() - i,
    {
        let c = v[i];
        if !(c == ' ' || c == '\t' || c == '\n' || c == '\r') {
            assert(!is_space(v@[i as int]));
            return false;
        }
        i = i + 1;
    }
    true
}

/// Saves a new context under its alias. Refused when the alias is blank
/// or already taken; the store is then left as it was.
pub fn save_context(store: &mut ContextStore, ctx: Context) -> (r: Result<(), ContextError>)
    requires
        old(store).wf(),
    ensures
        final(store).wf(),
        blank_chars(ctx.alias@) ==> (r matches Err(e) && e is EmptyAlias && *final(store)
            == *old(store)),
        !blank_chars(ctx.alias@) && has_alias(old(store).contexts@, ctx.alias@) ==> (r matches Err(
            e,
        ) && (e matches ContextError::DuplicateAlias(a) && a@ == ctx.alias@) && *final(store)
            == *old(store)),
        !blank_chars(ctx.alias@) && !has_alias(old(store).contexts@, ctx.alias@) ==> r is Ok
            && final(store).contexts@ == old(store).contexts@.push(ctx) && final(store).current
            == old(store).current,
{
    if is_blank(ctx.alias.as_str()) {
        return Err(ContextError::EmptyAlias);
    }
    match find_alias_in(&store.contexts, ctx.alias.as_str()) {
        Some(_) => Err(ContextError::DuplicateAlias(ctx.alias.clone())),
        None => {
            proof {
                lemma_find_alias_properties(store.contexts@, ctx.alias@, 0);
            }
            store.contexts.push(ctx);
            Ok(())
        },
    }
}

/// Looks a context up by alias and returns a copy of it.
pub fn get_context(store: &ContextStore, alias: &str) -> (r: Result<Context, ContextError>)
    ensures
        match spec_find_alias(store.contexts@, alias@, 0) {
            Some(i) => r matches Ok(c) && c@ == store.contexts@[i]@,
            None => r matches Err(e) && (e matches ContextError::UnknownAlias(a) && a@ == alias@),
        },
{
    match find_alias_in(&store.contexts, alias) {
        Some(i) => Ok(store.contexts[i].duplicate()),
        None => Err(ContextError::UnknownAlias(alias.to_owned())),
    }
}

/// Selects the context saved under `alias` as the current one.
pub fn set_current(store: &mut ContextStore, alias: &str) -> (r: Result<(), ContextError>)
    requires
        old(store).wf(),
    ensures
        final(store).wf(),
        final(store).contexts@ == old(store).contexts@,
        has_alias(old(store).contexts@, alias@) ==> r is Ok && final(store).is_current(alias@),
        !has_alias(old(store).contexts@, alias@) ==> (r matches Err(e) && (e
            matches ContextError::UnknownAlias(a) && a@ == alias@)) && final(store).current == old(store).current,
{
    match find_alias_in(&store.contexts, alias) {
        Some(_) => {
            store.current = Some(alias.to_owned());
            Ok(())
        },
        None => Err(ContextError::UnknownAlias(alias.to_owned())),
    }
}

/// The currently selected context, if one is selected and still saved.
pub fn current_context(store: &ContextStore) -> (r: Result<Option<Context>, ContextError>)
    ensures
        match store.current {
            None => r matches Ok(o) && o is None,
            Some(cur) => match spec_find_alias(store.contexts@, cur@, 0) {
                Some(i) => r matches Ok(o) && (o matches Some(c) && c@ == store.contexts@[i]@),
                None => r matches Err(e) && (e matches ContextError::CurrentContextMissing(a) && a@
                    == cur@),
            },
        },
{
    match &store.current {
        None => Ok(None),
        Some(cur) => {
            match find_alias_in(&store.contexts, cur.as_str()) {
                Some(i) => Ok(Some(store.contexts[i].duplicate())),
                None => Err(ContextError::CurrentContextMissing(cur.clone())),
            }
        },
    }
}

/// Removes the context saved under `alias`; a removed current selection
/// is cleared.
pub fn delete_context(store: &mut ContextStore, alias: &str) -> (r: Result<(), ContextError>)
    requires
        old(store).wf(),
    ensures
        final(store).wf(),
        match spec_find_alias(old(store).contexts@, alias@, 0) {
            Some(i) => r is Ok && final(store).contexts@ == old(store).contexts@.remove(i) && (if
            old(store).is_current(alias@) {
                final(store).current is None
            } else {
                final(store).current == old(store).current
            }),
            None => (r matches Err(e) && (e matches ContextError::UnknownAlias(a) && a@ == alias@))
                && *final(store) == *old(store),
        },
{
    match find_alias_in(&store.contexts, alias) {
        None => Err(ContextError::UnknownAlias(alias.to_owned())),
        Some(i) => {
            store.contexts.remove(i);
            let clear = match &store.current {
                Some(cur) => {
                    let cv = chars_of(cur.as_str());
                    let av = chars_of(alias);
                    crate::text::eq_chars(&cv, &av)
                },
                None => false,
            };
            if clear {
                store.current = None;
            }
            proof {
                let oldc = old(store).contexts@;
                assert forall|p: int, q: int|
                    0 <= p < q < oldc.remove(i as int).len() implies oldc.remove(i as int)[p].alias@
                    != oldc.remove(i as int)[q].alias@ by {
                    assert(oldc.remove(i as int)[p] == (if p < i as int {
                        oldc[p]
                    } else {
                        oldc[p + 1]
                    }));
                    assert(oldc.remove(i as int)[q] == (if q < i as int {
                        oldc[q]
                    } else {
                        oldc[q + 1]
                    }));
                }
            }
            Ok(())
        },
    }
}

/// The values of a run of contexts.
pub open spec fn views_of(s: Seq<Context>) -> Seq<ContextV> {
    s.map_values(|c: Context| c@)
}

/// The context values of a run of listing rows.
pub open spec fn row_views_of(s: Seq<(Context, bool)>) -> Seq<ContextV> {
    s.map_values(|p: (Context, bool)| p.0@)
}

/// Inserting anywhere adds exactly one occurrence to the multiset of a
/// sequence.
proof fn lemma_to_multiset_insert<A>(s: Seq<A>, i: int, x: A)
    requires
        0 <= i <= s.len(),
    ensures
        s.insert(i, x).to_multiset() == s.to_multiset().insert(x),
{
    broadcast use vstd::multiset::group_multiset_axioms;
    broadcast use vstd::seq_lib::group_to_multiset_ensures;

    let a = s.subrange(0, i);
    let b = s.subrange(i, s.len() as int);
    assert(s =~= a + b);
    vstd::seq_lib::lemma_multiset_commutative(a.push(x), b);
    vstd::seq_lib::lemma_multiset_commutative(a, b);
    assert(a.push(x).to_multiset() =~= a.to_multiset().insert(x));
    assert(s.insert(i, x).to_multiset() =~= s.to_multiset().insert(x));
}

/// The saved contexts with a mark on the current one, ordered by alias.
#[verifier::rlimit(60)]
pub fn list_contexts(store: &ContextStore) -> (r: Vec<(Context, bool)>)
    ensures
        r@.len() == store.contexts@.len(),
        row_views_of(r@).to_multiset() == views_of(store.contexts@).to_multiset(),
        forall|i: int| 0 <= i < r@.len() ==> r@[i].1 == store.is_current(#[trigger] r@[i].0.alias@),
        forall|i: int| 0 <= i && i + 1 < r@.len() ==> lex_le(#[trigger] r@[i].0.alias@, r@[i + 1].0.alias@),
{
    let mut r: Vec<(Context, bool)> = Vec::new();
    let mut k: usize = 0;
    proof {
        assert(views_of(store.contexts@.subrange(0, 0)) =~= Seq::<ContextV>::empty());
        assert(row_views_of(r@) =~= Seq::<ContextV>::empty());
        assert(row_views_of(r@).to_multiset() =~= views_of(
            store.contexts@.subrange(0, 0),
        ).to_multiset());
    }
    while k < store.contexts.len()
        invariant
            k <= store.contexts@.len(),
            r@.len() == k,
            row_views_of(r@).to_multiset() == views_of(
                store.contexts@.subrange(0, k as int),
            ).to_multiset(),
            forall|i: int|
                0 <= i < r@.len() ==> r@[i].1 == store.is_current(#[trigger] r@[i].0.alias@),
            forall|i: int|
                0 <= i && i + 1 < r@.len() ==> lex_le(#[trigger] r@[i].0.alias@, r@[i + 1].0.alias@),
        decreases store.contexts@.len() - k,
    {
        let row = store.contexts[k].duplicate();
        let flag = match &store.current {
            Some(cur) => {
                let cv = chars_of(cur.as_str());
                let av = chars_of(row.alias.as_str());
                crate::text::eq_chars(&cv, &av)
            },
            None => false,
        };
        let ra = chars_of(row.alias.as_str());
        let mut p: usize = 0;
        loop
            invariant_except_break
                p <= r@.len(),
                ra@ == row.alias@,
                forall|j: int| 0 <= j < p ==> lex_le(#[trigger] r@[j].0.alias@, row.alias@),
            ensures
                p <= r@.len(),
                forall|j: int| 0 <= j < p ==> lex_le(#[trigger] r@[j].0.alias@, row.alias@),
                p < r@.len() ==> lex_le(row.alias@, r@[p as int].0.alias@),
            decreases r@.len() - p,
        {
            if p >= r.len() {
                break ;
            }
            let pa = chars_of(r[p].0.alias.as_str());
            if !lex_le_chars(&pa, &ra) {
                proof {
                    crate::text::lemma_lex_le_total(r@[p as int].0.alias@, row.alias@);
                }
                break ;
            }
            p = p + 1;
        }
        let ghost oldr = r@;
        let ghost pos = p as int;
        r.insert(p, (row, flag));
        proof {
            assert(r@ == oldr.insert(pos, (row, flag)));
            oldr.insert_ensures(pos, (row, flag));
            assert(forall|i: int| 0 <= i < pos ==> r@[i] == oldr[i]);
            assert(forall|i: int| pos <= i < oldr.len() ==> r@[i + 1] == oldr[i]);
            assert(r@[pos] == (row, flag));
            lemma_to_multiset_insert(row_views_of(oldr), pos, row@);
            assert(row_views_of(oldr.insert(pos, (row, flag))) =~= row_views_of(oldr).insert(
                pos,
                row@,
            ));
            assert(views_of(store.contexts@.subrange(0, k as int + 1)) =~= views_of(
                store.contexts@.subrange(0, k as int),
            ).push(store.contexts@[k as int]@));
            broadcast use vstd::seq_lib::group_to_multiset_ensures;

            assert forall|i: int| 0 <= i && i + 1 < r@.len() implies lex_le(
                #[trigger] r@[i].0.alias@,
                r@[i + 1].0.alias@,
            ) by {
                if i + 1 < pos {
                    assert(r@[i] == oldr[i] && r@[i + 1] == oldr[i + 1]);
                    assert(lex_le(oldr[i].0.alias@, oldr[i + 1].0.alias@));
                } else if i + 1 == pos {
                    assert(r@[i] == oldr[i] && r@[i + 1] == (row, flag));
                    assert(lex_le(oldr[i].0.alias@, row.alias@));
                } else if i == pos {
                    assert(r@[i] == (row, flag) && r@[i + 1] == oldr[i]);
                    assert(pos < oldr.len());
                    assert(lex_le(row.alias@, oldr[pos].0.alias@));
                } else {
                    assert(r@[i] == oldr[i - 1] && r@[i + 1] == oldr[i]);
                    assert(lex_le(oldr[i - 1].0.alias@, oldr[i].0.alias@));
                }
            }
            assert forall|i: int| 0 <= i < r@.len() implies r@[i].1 == store.is_current(
                #[trigger] r@[i].0.alias@,
            ) by {
                if i < pos {
                    assert(r@[i] == oldr[i]);
                } else if i == pos {
                    assert(r@[i] == (row, flag));
                } else {
                    assert(r@[i] == oldr[i - 1]);
                }
            }
        }
        k = k + 1;
    }
    proof {
        assert(store.contexts@.subrange(0, store.contexts@.len() as int) =~= store.contexts@);
    }
    r
}

/// `b` with its alias replaced by `alias`, every other field kept.
pub open spec fn same_but_alias(a: Context, b: Context, alias: Seq<char>) -> bool {
    a.alias@ == alias && a.sub@ == b.sub@ && a.name@ == b.name@ && a.base@ == b.base@
        && a.separator@ == b.separator@ && a.label@ == b.label@ && a@.vault == b@.vault
}

/// `b` with its separator replaced, every other field kept.
pub open spec fn same_but_separator(a: Context, b: Context, sep: Seq<char>) -> bool {
    a.alias@ == b.alias@ && a.sub@ == b.sub@ && a.name@ == b.name@ && a.base@ == b.base@
        && a.separator@ == sep && a.label@ == b.label@ && a@.vault == b@.vault
}

/// `b` with its application prefix replaced, every other field kept.
pub open spec fn same_but_base(a: Context, b: Context, base: Seq<char>) -> bool {
    a.alias@ == b.alias@ && a.sub@ == b.sub@ && a.name@ == b.name@ && a.base@ == base
        && a.separator@ == b.separator@ && a.label@ == b.label@ && a@.vault == b@.vault
}

/// `b` with its label replaced, every other field kept.
pub open spec fn same_but_label(a: Context, b: Context, label: Seq<char>) -> bool {
    a.alias@ == b.alias@ && a.sub@ == b.sub@ && a.name@ == b.name@ && a.base@ == b.base@
        && a.separator@ == b.separator@ && a.label@ == label && a@.vault == b@.vault
}

/// `b` with its vault set, every other field kept.
pub open spec fn same_but_vault(a: Context, b: Context, vault: Seq<char>) -> bool {
    a.alias@ == b.alias@ && a.sub@ == b.sub@ && a.name@ == b.name@ && a.base@ == b.base@
        && a.separator@ == b.separator@ && a.label@ == b.label@ && a@.vault == Some(vault)
}

/// Removing an element keeps aliases unique, maps the remaining indices
/// over, and leaves no element carrying the removed alias.
proof fn lemma_remove_unique(s: Seq<Context>, i: int)
    requires
        forall|p: int, q: int| 0 <= p < q < s.len() ==> s[p].alias@ != s[q].alias@,
        0 <= i < s.len(),
    ensures
        forall|j: int|
            0 <= j < s.remove(i).len() ==> s.remove(i)[j] == (if j < i {
                s[j]
            } else {
                s[j + 1]
            }),
        forall|p: int, q: int|
            0 <= p < q < s.remove(i).len() ==> s.remove(i)[p].alias@ != s.remove(i)[q].alias@,
        forall|j: int| 0 <= j < s.remove(i).len() ==> s.remove(i)[j].alias@ != s[i].alias@,
{
    assert forall|j: int| 0 <= j < s.remove(i).len() implies s.remove(i)[j] == (if j < i {
        s[j]
    } else {
        s[j + 1]
    }) by {}
}

/// Replaces the context saved under `original_alias` with `ctx`, which
/// may carry a new alias; a current selection that pointed at the old
/// alias follows to the new one.
pub fn update_context(store: &mut ContextStore, original_alias: &str, ctx: Context) -> (r: Result<
    (),
    ContextError,
>)
    requires
        old(store).wf(),
    ensures
        final(store).wf(),
        blank_chars(ctx.alias@) ==> (r matches Err(e) && e is EmptyAlias && *final(store) == *old(store)),
        !blank_chars(ctx.alias@) ==> match spec_find_alias(
            old(store).contexts@,
            original_alias@,
            0,
        ) {
            None => (r matches Err(e) && (e matches ContextError::UnknownAlias(a) && a@
                == original_alias@)) && *final(store) == *old(store),
            Some(i) => if original_alias@ != ctx.alias@ && has_alias(
                old(store).contexts@,
                ctx.alias@,
            ) {
                (r matches Err(e) && (e matches ContextError::DuplicateAlias(a) && a@
                    == ctx.alias@)) && *final(store) == *old(store)
            } else {
                r is Ok && final(store).contexts@ == old(store).contexts@.remove(i).push(ctx) && (
                if old(store).is_current(original_alias@) {
                    final(store).is_current(ctx.alias@)
                } else {
                    final(store).current == old(store).current
                })
            },
        },
{
    if is_blank(ctx.alias.as_str()) {
        return Err(ContextError::EmptyAlias);
    }
    match find_alias_in(&store.contexts, original_alias) {
        None => Err(ContextError::UnknownAlias(original_alias.to_owned())),
        Some(i) => {
            let ov = chars_of(original_alias);
            let nv = chars_of(ctx.alias.as_str());
            let renaming = !crate::text::eq_chars(&ov, &nv);
            if renaming {
                match find_alias_in(&store.contexts, ctx.alias.as_str()) {
                    Some(_) => {
                        return Err(ContextError::DuplicateAlias(ctx.alias.clone()));
                    },
                    None => {},
                }
            }
            let was_current = match &store.current {
                Some(cur) => {
                    let cv = chars_of(cur.as_str());
                    crate::text::eq_chars(&cv, &ov)
                },
                None => false,
            };
            let new_alias = ctx.alias.clone();
            proof {
                lemma_find_alias_properties(store.contexts@, original_alias@, 0);
                lemma_remove_unique(store.contexts@, i as int);
                if renaming {
                    lemma_find_alias_properties(store.contexts@, ctx.alias@, 0);
                }
            }
            store.contexts.remove(i);
            store.contexts.push(ctx);
            if was_current {
                store.current = Some(new_alias);
            }
            Ok(())
        },
    }
}

/// Moves a saved context from one alias to another, following with the
/// current selection; renaming an alias to itself changes nothing.
pub fn rename_context(store: &mut ContextStore, from: &str, to: &str) -> (r: Result<
    (),
    ContextError,
>)
    requires
        old(store).wf(),
    ensures
        final(store).wf(),
        from@ == to@ ==> r is Ok && *final(store) == *old(store),
        from@ != to@ && blank_chars(to@) ==> (r matches Err(e) && e is EmptyAlias && *final(store)
            == *old(store)),
        from@ != to@ && !blank_chars(to@) ==> match spec_find_alias(
            old(store).contexts@,
            from@,
            0,
        ) {
            None => (r matches Err(e) && (e matches ContextError::UnknownAlias(a) && a@ == from@))
                && *final(store) == *old(store),
            Some(i) => if has_alias(old(store).contexts@, to@) {
                (r matches Err(e) && (e matches ContextError::DuplicateAlias(a) && a@ == to@))
                    && *final(store) == *old(store)
            } else {
                r is Ok && final(store).contexts@.len() == old(store).contexts@.len() && final(store).contexts@ == old(store).contexts@.remove(i).push(final(store).contexts@.last())
                    && same_but_alias(
                    final(store).contexts@.last(),
                    old(store).contexts@[i],
                    to@,
                ) && (if old(store).is_current(from@) {
                    final(store).is_current(to@)
                } else {
                    final(store).current == old(store).current
                })
            },
        },
{
    let fv = chars_of(from);
    let tv = chars_of(to);
    if crate::text::eq_chars(&fv, &tv) {
        return Ok(());
    }
    if is_blank(to) {
        return Err(ContextError::EmptyAlias);
    }
    match find_alias_in(&store.contexts, from) {
        None => Err(ContextError::UnknownAlias(from.to_owned())),
        Some(i) => {
            match find_alias_in(&store.contexts, to) {
                Some(_) => Err(ContextError::DuplicateAlias(to.to_owned())),
                None => {
                    let was_current = match &store.current {
                        Some(cur) => {
                            let cv = chars_of(cur.as_str());
                            crate::text::eq_chars(&cv, &fv)
                        },
                        None => false,
                    };
                    proof {
                        lemma_find_alias_properties(store.contexts@, from@, 0);
                        lemma_find_alias_properties(store.contexts@, to@, 0);
                        lemma_remove_unique(store.contexts@, i as int);
                    }
                    let mut moved = store.contexts.remove(i);
                    moved.alias = to.to_owned();
                    store.contexts.push(moved);
                    if was_current {
                        store.current = Some(to.to_owned());
                    }
                    Ok(())
                },
            }
        },
    }
}

/// Copies the context saved under `source` to a fresh alias.
pub fn clone_context(store: &mut ContextStore, source: &str, new_alias: &str) -> (r: Result<
    (),
    ContextError,
>)
    requires
        old(store).wf(),
    ensures
        final(store).wf(),
        blank_chars(new_alias@) ==> (r matches Err(e) && e is EmptyAlias && *final(store) == *old(store)),
        !blank_chars(new_alias@) ==> match spec_find_alias(old(store).contexts@, source@, 0) {
            None => (r matches Err(e) && (e matches ContextError::UnknownAlias(a) && a@ == source@))
                && *final(store) == *old(store),
            Some(i) => if has_alias(old(store).contexts@, new_alias@) {
                (r matches Err(e) && (e matches ContextError::DuplicateAlias(a) && a@
                    == new_alias@)) && *final(store) == *old(store)
            } else {
                r is Ok && final(store).current == old(store).current && final(store).contexts@
                    == old(store).contexts@.push(final(store).contexts@.last())
                    && same_but_alias(
                    final(store).contexts@.last(),
                    old(store).contexts@[i],
                    new_alias@,
                )
            },
        },
{
    if is_blank(new_alias) {
        return Err(ContextError::EmptyAlias);
    }
    match find_alias_in(&store.contexts, source) {
        None => Err(ContextError::UnknownAlias(source.to_owned())),
        Some(i) => {
            match find_alias_in(&store.contexts, new_alias) {
                Some(_) => Err(ContextError::DuplicateAlias(new_alias.to_owned())),
                None => {
                    proof {
                        lemma_find_alias_properties(store.contexts@, new_alias@, 0);
                    }
                    let mut copied = store.contexts[i].duplicate();
                    copied.alias = new_alias.to_owned();
                    store.contexts.push(copied);
                    Ok(())
                },
            }
        },
    }
}

} // verus!
