//! Model of the remote key-value configuration store: the entries an
//! operation observes and the effect each of the five operations has on
//! them. The model backs the bulk operations of the library; the live
//! client that issues the same operations over the wire stands outside
//! the verified code and obeys this contract.

use vstd::prelude::*;
use crate::text::{chars_of, eq_chars, spec_starts_with, starts_with_chars};

verus! {

/// One key/value record of the store.
#[derive(Debug)]
pub struct ConfigEntry {
    pub key: String,
    pub label: String,
    pub value: String,
    pub secret_content_type: bool,
}

/// The mathematical value of a `ConfigEntry`.
pub struct ConfigEntryV {
    pub key: Seq<char>,
    pub label: Seq<char>,
    pub value: Seq<char>,
    pub secret_content_type: bool,
}

impl View for ConfigEntry {
    type V = ConfigEntryV;

    open spec fn view(&self) -> ConfigEntryV {
        ConfigEntryV {
            key: self.key@,
            label: self.label@,
            value: self.value@,
            secret_content_type: self.secret_content_type,
        }
    }
}

impl ConfigEntry {
    /// A field-by-field copy whose value equals this one.
    pub fn duplicate(&self) -> (r: ConfigEntry)
        ensures
            r@ == self@,
    {
        ConfigEntry {
            key: self.key.clone(),
            label: self.label.clone(),
            value: self.value.clone(),
            secret_content_type: self.secret_content_type,
        }
    }
}

/// Why a single-entry operation failed.
#[derive(Debug)]
pub enum StoreError {
    NotFound(String),
}

impl StoreError {
    /// A diagnostic line naming the offending key.
    pub fn message(&self) -> (r: String)
        ensures
            match self {
                StoreError::NotFound(k) => r@ == "Key '"@ + k@ + "' not found"@,
            },
    {
        match self {
            StoreError::NotFound(k) => {
                let mut m = "Key '".to_owned();
                m.append(k.as_str());
                m.append("' not found");
                m
            },
        }
    }
}

/// The values of a run of entries.
pub open spec fn entry_views(s: Seq<ConfigEntry>) -> Seq<ConfigEntryV> {
    s.map_values(|e: ConfigEntry| e@)
}

/// Index of the first entry at or after `from` stored under `key` and
/// `label`.
pub open spec fn spec_find_entry(s: Seq<ConfigEntryV>, key: Seq<char>, label: Seq<char>, from: int) -> Option<int>
    decreases s.len() - from,
{
    if from < 0 || from >= s.len() {
        None
    } else if s[from].key == key && s[from].label == label {
        Some(from)
    } else {
        spec_find_entry(s, key, label, from + 1)
    }
}

/// What `spec_find_entry` returns is the first match, and a `None`
/// means no entry carries the key and label.
pub proof fn lemma_find_entry_properties(s: Seq<ConfigEntryV>, key: Seq<char>, label: Seq<char>, from: int)
    requires
        0 <= from <= s.len(),
    ensures
        match spec_find_entry(s, key, label, from) {
            Some(i) => from <= i < s.len() && s[i].key == key && s[i].label == label && forall|
                j: int,
            | from <= j < i ==> !(s[j].key == key && s[j].label == label),
            None => forall|j: int|
                from <= j < s.len() ==> !(s[j].key == key && s[j].label == label),
        },
    decreases s.len() - from,
{
    if from < s.len() && !(s[from].key == key && s[from].label == label) {
        lemma_find_entry_properties(s, key, label, from + 1);
    }
}

/// The entry stored under `key` and `label`, if any.
pub open spec fn spec_get(s: Seq<ConfigEntryV>, key: Seq<char>, label: Seq<char>) -> Option<ConfigEntryV> {
    match spec_find_entry(s, key, label, 0) {
        Some(i) => Some(s[i]),
        None => None,
    }
}

/// The entries after writing `value` under `key` and `label`: the first
/// matching entry is replaced, or a new entry is appended.
pub open spec fn spec_set(
    s: Seq<ConfigEntryV>,
    key: Seq<char>,
    label: Seq<char>,
    value: Seq<char>,
    secret_content_type: bool,
) -> Seq<ConfigEntryV> {
    let e = ConfigEntryV { key, label, value, secret_content_type };
    match spec_find_entry(s, key, label, 0) {
        Some(i) => s.update(i, e),
        None => s.push(e),
    }
}

/// The entries after deleting `key` under `label`: the first matching
/// entry is removed, or nothing changes.
pub open spec fn spec_delete(s: Seq<ConfigEntryV>, key: Seq<char>, label: Seq<char>) -> Seq<ConfigEntryV> {
    match spec_find_entry(s, key, label, 0) {
        Some(i) => s.remove(i),
        None => s,
    }
}

/// The store as one operation observes it.
pub struct StoreState {
    pub entries: Vec<ConfigEntry>,
}

impl StoreState {
    /// No two entries share a key and label.
    pub open spec fn wf(&self) -> bool {
        forall|i: int, j: int|
            0 <= i < j < self.entries@.len() ==> !(self.entries@[i].key@ == self.entries@[j].key@
                && self.entries@[i].label@ == self.entries@[j].label@)
    }

    /// The store with no entries.
    pub fn new_empty() -> (r: StoreState)
        ensures
            r.wf(),
            r.entries@.len() == 0,
    {
        StoreState { entries: Vec::new() }
    }

    /// The values of the entries, in store order.
    pub open spec fn view_entries(&self) -> Seq<ConfigEntryV> {
        entry_views(self.entries@)
    }
}

fn find_entry(v: &Vec<ConfigEntry>, key: &str, label: &str) -> (r: Option<usize>)
    ensures
        match r {
            Some(i) => i < v@.len() && spec_find_entry(entry_views(v@), key@, label@, 0) == Some(
                i as int,
            ),
            None => spec_find_entry(entry_views(v@), key@, label@, 0) is None,
        },
{
    let kv = chars_of(key);
    let lv = chars_of(label);
    let mut i: usize = 0;
    while i < v.len()
        invariant
            i <= v@.len(),
            kv@ == key@,
            lv@ == label@,
            spec_find_entry(entry_views(v@), key@, label@, 0) == spec_find_entry(
                entry_views(v@),
                key@,
                label@,
                i as int,
            ),
        decreases v.len() - i,
    {
        let ek = chars_of(v[i].key.as_str());
        let el = chars_of(v[i].label.as_str());
        if eq_chars(&ek, &kv) && eq_chars(&el, &lv) {
            return Some(i);
        }
        i = i + 1;
    }
    None
}

impl StoreState {
    /// Reads the entry stored under `key` and `label`.
    pub fn show_entry(&self, key: &str, label: &str) -> (r: Result<ConfigEntry, StoreError>)
        ensures
            match spec_get(self.view_entries(), key@, label@) {
                Some(e) => r matches Ok(c) && c@ == e,
                None => r matches Err(err) && (err matches StoreError::NotFound(k) && k@ == key@),
            },
    {
        match find_entry(&self.entries, key, label) {
            Some(i) => Ok(self.entries[i].duplicate()),
            None => Err(StoreError::NotFound(key.to_owned())),
        }
    }

    /// Writes `value` under `key` and `label`, replacing any entry
    /// already stored there, and returns the entry as stored.
    pub fn set_entry(&mut self, key: &str, value: &str, label: &str, secret_content_type: bool) -> (r:
        ConfigEntry)
        requires
            old(self).wf(),
        ensures
            final(self).wf(),
            r@ == (ConfigEntryV { key: key@, label: label@, value: value@, secret_content_type }),
            final(self).view_entries() == spec_set(
                old(self).view_entries(),
                key@,
                label@,
                value@,
                secret_content_type,
            ),
    {
        let stored = ConfigEntry {
            key: key.to_owned(),
            label: label.to_owned(),
            value: value.to_owned(),
            secret_content_type,
        };
        let copy = stored.duplicate();
        match find_entry(&self.entries, key, label) {
            Some(i) => {
                self.entries.set(i, stored);
                proof {
                    assert(entry_views(self.entries@) =~= spec_set(
                        entry_views(old(self).entries@),
                        key@,
                        label@,
                        value@,
                        secret_content_type,
                    ));
                    lemma_find_entry_properties(entry_views(old(self).entries@), key@, label@, 0);
                    assert(old(self).entries@[i as int].key@ == key@);
                    assert(old(self).entries@[i as int].label@ == label@);
                    assert forall|p: int, q: int|
                        0 <= p < q < self.entries@.len() implies !(self.entries@[p].key@
                        == self.entries@[q].key@ && self.entries@[p].label@
                        == self.entries@[q].label@) by {
                        assert(p != i as int ==> self.entries@[p] == old(self).entries@[p]);
                        assert(q != i as int ==> self.entries@[q] == old(self).entries@[q]);
                    }
                }
            },
            None => {
                self.entries.push(stored);
                proof {
                    assert(entry_views(self.entries@) =~= spec_set(
                        entry_views(old(self).entries@),
                        key@,
                        label@,
                        value@,
                        secret_content_type,
                    ));
                    lemma_find_entry_properties(entry_views(old(self).entries@), key@, label@, 0);
                    let n = old(self).entries@.len() as int;
                    assert forall|p: int, q: int|
                        0 <= p < q < self.entries@.len() implies !(self.entries@[p].key@
                        == self.entries@[q].key@ && self.entries@[p].label@
                        == self.entries@[q].label@) by {
                        assert(p < n ==> self.entries@[p] == old(self).entries@[p]);
                        assert(q < n ==> self.entries@[q] == old(self).entries@[q]);
                        if q == n {
                            assert(entry_views(old(self).entries@)[p].key == old(
                                self,
                            ).entries@[p].key@);
                        }
                    }
                }
            },
        }
        copy
    }

    /// Stores a secret indirection: the reference address as the value,
    /// under the content-type flag that marks an indirection.
    pub fn set_secret_reference(&mut self, key: &str, secret_uri: &str, label: &str) -> (r: ConfigEntry)
        requires
            old(self).wf(),
        ensures
            final(self).wf(),
            r@ == (ConfigEntryV {
                key: key@,
                label: label@,
                value: secret_uri@,
                secret_content_type: true,
            }),
            final(self).view_entries() == spec_set(
                old(self).view_entries(),
                key@,
                label@,
                secret_uri@,
                true,
            ),
    {
        self.set_entry(key, secret_uri, label, true)
    }

    /// Deletes the entry stored under `key` and `label`, if any.
    pub fn delete_entry(&mut self, key: &str, label: &str)
        requires
            old(self).wf(),
        ensures
            final(self).wf(),
            final(self).view_entries() == spec_delete(old(self).view_entries(), key@, label@),
    {
        match find_entry(&self.entries, key, label) {
            Some(i) => {
                self.entries.remove(i);
                proof {
                    assert(entry_views(self.entries@) =~= entry_views(old(self).entries@).remove(
                        i as int,
                    ));
                    assert forall|p: int, q: int|
                        0 <= p < q < self.entries@.len() implies !(self.entries@[p].key@
                        == self.entries@[q].key@ && self.entries@[p].label@
                        == self.entries@[q].label@) by {
                        assert(self.entries@[p] == (if p < i as int {
                            old(self).entries@[p]
                        } else {
                            old(self).entries@[p + 1]
                        }));
                        assert(self.entries@[q] == (if q < i as int {
                            old(self).entries@[q]
                        } else {
                            old(self).entries@[q + 1]
                        }));
                    }
                }
            },
            None => {},
        }
    }

    /// Copies of the entries under `label` whose key begins with
    /// `prefix`, in store order.
    pub fn list_entries(&self, prefix: &str, label: &str) -> (r: Vec<ConfigEntry>)
        ensures
            entry_views(r@) == self.view_entries().filter(
                |e: ConfigEntryV| e.label == label@ && spec_starts_with(e.key, prefix@),
            ),
    {
        let pv = chars_of(prefix);
        let lv = chars_of(label);
        let mut r: Vec<ConfigEntry> = Vec::new();
        let mut i: usize = 0;
        proof {
            reveal(Seq::filter);
            assert(self.view_entries().subrange(0, 0) =~= Seq::<ConfigEntryV>::empty());
            assert(entry_views(r@) =~= self.view_entries().subrange(0, 0).filter(
                |e: ConfigEntryV| e.label == label@ && spec_starts_with(e.key, prefix@),
            ));
        }
        while i < self.entries.len()
            invariant
                i <= self.entries@.len(),
                pv@ == prefix@,
                lv@ == label@,
                entry_views(r@) == self.view_entries().subrange(0, i as int).filter(
                    |e: ConfigEntryV| e.label == label@ && spec_starts_with(e.key, prefix@),
                ),
            decreases self.entries@.len() - i,
        {
            let ghost pre = self.view_entries().subrange(0, i as int);
            let ghost f = |e: ConfigEntryV| e.label == label@ && spec_starts_with(e.key, prefix@);
            let el = chars_of(self.entries[i].label.as_str());
            let ek = chars_of(self.entries[i].key.as_str());
            proof {
                assert(self.view_entries().subrange(0, i as int + 1) =~= pre.push(
                    self.view_entries()[i as int],
                ));
                pre.lemma_filter_push(self.view_entries()[i as int], f);
            }
            if eq_chars(&el, &lv) && starts_with_chars(&ek, &pv) {
                r.push(self.entries[i].duplicate());
                proof {
                    assert(entry_views(r@) =~= pre.filter(f).push(self.view_entries()[i as int]));
                }
            }
            i = i + 1;
        }
        proof {
            assert(self.view_entries().subrange(0, self.entries@.len() as int)
                =~= self.view_entries());
        }
        r
    }
}

/// Writing the same value to the same key twice leaves the same store
/// as writing it once, and what the next read returns is that value.
pub proof fn lemma_set_idempotent(
    s: Seq<ConfigEntryV>,
    key: Seq<char>,
    label: Seq<char>,
    value: Seq<char>,
    ct: bool,
)
    ensures
        spec_set(spec_set(s, key, label, value, ct), key, label, value, ct) == spec_set(
            s,
            key,
            label,
            value,
            ct,
        ),
        spec_get(spec_set(s, key, label, value, ct), key, label) == Some(
            ConfigEntryV { key, label, value, secret_content_type: ct },
        ),
{
    let e = ConfigEntryV { key, label, value, secret_content_type: ct };
    lemma_find_entry_properties(s, key, label, 0);
    match spec_find_entry(s, key, label, 0) {
        Some(i) => {
            let s1 = s.update(i, e);
            lemma_find_entry_first(s1, key, label, i);
            assert(s1.update(i, e) =~= s1);
        },
        None => {
            let s1 = s.push(e);
            lemma_find_entry_first(s1, key, label, s.len() as int);
            assert(s1.update(s.len() as int, e) =~= s1);
        },
    }
}

/// When position `i` is the first to carry `key` and `label`, the find
/// returns exactly `i`.
pub proof fn lemma_find_entry_first(s: Seq<ConfigEntryV>, key: Seq<char>, label: Seq<char>, i: int)
    requires
        0 <= i < s.len(),
        s[i].key == key,
        s[i].label == label,
        forall|j: int| 0 <= j < i ==> !(s[j].key == key && s[j].label == label),
    ensures
        spec_find_entry(s, key, label, 0) == Some(i),
{
    lemma_find_entry_from(s, key, label, 0, i);
}

proof fn lemma_find_entry_from(s: Seq<ConfigEntryV>, key: Seq<char>, label: Seq<char>, from: int, i: int)
    requires
        0 <= from <= i < s.len(),
        s[i].key == key,
        s[i].label == label,
        forall|j: int| from <= j < i ==> !(s[j].key == key && s[j].label == label),
    ensures
        spec_find_entry(s, key, label, from) == Some(i),
    decreases i - from,
{
    if from < i {
        lemma_find_entry_from(s, key, label, from + 1, i);
    }
}

} // verus!
