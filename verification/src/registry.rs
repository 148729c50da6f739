//! The registry: the authoritative record of the JDKs installed on disk,
//! persisted as a small index file that is rewritten in full on every
//! mutation. A record is added only for a completed extraction, and keys
//! are unique.

use vstd::prelude::*;
use crate::JoltError;
use crate::entry::{
    CatalogEntry, InstalledJdk, JdkModel, KeyModel, key_of_jdk, key_of_entry, same_key, jdk_wf,
};
use crate::feed::{
    spec_parse_index, unique_jdk_keys, parse_index, has_duplicate_jdk_keys, jdk_keys_equal,
    entry_jdk_keys_equal, spec_render_jdks, render_jdks, spec_parse_jdk_lines,
};
use crate::text::{spec_split, spec_drop_empty, NEWLINE};

verus! {

/// Internal consistency of the registry: every record well-formed, keys
/// unique.
pub open spec fn registry_wf(s: Seq<JdkModel>) -> bool {
    &&& forall|i: int| 0 <= i < s.len() ==> jdk_wf(#[trigger] s[i])
    &&& unique_jdk_keys(s)
}

/// Every record an index parse yields is well-formed.
pub proof fn lemma_parsed_jdks_wf(lines: Seq<Seq<u8>>, i: int)
    ensures
        spec_parse_jdk_lines(lines, i) matches Some(ms) ==> forall|k: int|
            0 <= k < ms.len() ==> jdk_wf(#[trigger] ms[k]),
    decreases lines.len() - i,
{
    if i < lines.len() {
        lemma_parsed_jdks_wf(lines, i + 1);
        if let Some(m) = crate::feed::spec_parse_jdk_line(lines[i]) {
            let fields = spec_split(lines[i], crate::text::TAB);
            crate::entry::lemma_lower_clean(fields[0]);
            crate::entry::lemma_lower_idempotent(fields[0]);
        }
    }
}

/// What loading an index yields: its records, which must carry unique keys.
pub open spec fn spec_load_registry(s: Seq<u8>) -> Option<Seq<JdkModel>> {
    match spec_parse_index(s) {
        Option::None => Option::None,
        Option::Some(ms) => if unique_jdk_keys(ms) {
            Some(ms)
        } else {
            Option::None
        },
    }
}

/// The first position in `s` carrying key `k`, or `s.len()`.
pub open spec fn find_jdk_key(s: Seq<JdkModel>, k: KeyModel, i: int) -> int
    decreases s.len() - i,
{
    if i >= s.len() {
        s.len() as int
    } else if same_key(key_of_jdk(s[i]), k) {
        i
    } else {
        find_jdk_key(s, k, i + 1)
    }
}

/// What registering a record leaves behind: the record under its key,
/// replacing any previous holder of that key.
pub open spec fn spec_upsert(s: Seq<JdkModel>, m: JdkModel) -> Seq<JdkModel> {
    let i = find_jdk_key(s, key_of_jdk(m), 0);
    if i < s.len() {
        s.update(i, m)
    } else {
        s.push(m)
    }
}

pub proof fn lemma_find_jdk_key_range(s: Seq<JdkModel>, k: KeyModel, i: int)
    requires
        0 <= i <= s.len(),
    ensures
        i <= find_jdk_key(s, k, i) <= s.len(),
        find_jdk_key(s, k, i) < s.len() ==> same_key(
            key_of_jdk(s[find_jdk_key(s, k, i)]),
            k,
        ),
        forall|j: int| i <= j < find_jdk_key(s, k, i) ==> !same_key(key_of_jdk(#[trigger] s[j]), k),
    decreases s.len() - i,
{
    if i < s.len() && !same_key(key_of_jdk(s[i]), k) {
        lemma_find_jdk_key_range(s, k, i + 1);
    }
}

/// The registry of installed JDKs.
pub struct Registry {
    pub records: Vec<InstalledJdk>,
}

impl View for Registry {
    type V = Seq<JdkModel>;

    open spec fn view(&self) -> Seq<JdkModel> {
        self.records.deep_view()
    }
}

impl Registry {
    /// A registry with nothing installed.
    pub fn empty() -> (r: Registry)
        ensures
            r@.len() == 0,
            registry_wf(r@),
    {
        let r = Registry { records: Vec::new() };
        proof {
            assert(r@ =~= Seq::<JdkModel>::empty());
        }
        r
    }

    /// Loads the registry from index bytes; an index that does not parse
    /// in full is reported corrupt.
    pub fn from_index(bytes: &Vec<u8>) -> (r: Result<Registry, JoltError>)
        ensures
            (r is Ok) == (spec_load_registry(bytes@) is Some),
            r matches Ok(g) ==> Some(g@) == spec_load_registry(bytes@) && registry_wf(g@),
            r matches Err(e) ==> e == JoltError::CorruptCache,
    {
        let records = match parse_index(bytes) {
            Option::None => {
                return Err(JoltError::CorruptCache);
            },
            Option::Some(ms) => ms,
        };
        if has_duplicate_jdk_keys(&records) {
            return Err(JoltError::CorruptCache);
        }
        proof {
            lemma_parsed_jdks_wf(spec_drop_empty(spec_split(bytes@, NEWLINE)), 0);
        }
        Ok(Registry { records })
    }

    /// Renders the registry as index bytes.
    pub fn render(&self) -> (r: Vec<u8>)
        ensures
            r@ == spec_render_jdks(self@, 0),
    {
        render_jdks(&self.records)
    }

    /// The position of the record carrying the same key as catalog entry
    /// `e`, if one is installed.
    pub fn find_entry(&self, e: &CatalogEntry) -> (r: Option<usize>)
        ensures
            match r {
                Option::Some(i) => 0 <= i < self@.len() && same_key(
                    key_of_jdk(self@[i as int]),
                    key_of_entry(e@),
                ),
                Option::None => forall|j: int|
                    0 <= j < self@.len() ==> !same_key(
                        key_of_jdk(#[trigger] self@[j]),
                        key_of_entry(e@),
                    ),
            },
    {
        let ghost dv = self@;
        let mut i: usize = 0;
        while i < self.records.len()
            invariant
                0 <= i <= self.records.len(),
                dv == self.records.deep_view(),
                forall|j: int|
                    0 <= j < i ==> !same_key(key_of_jdk(#[trigger] dv[j]), key_of_entry(e@)),
            decreases self.records.len() - i,
        {
            if entry_jdk_keys_equal(e, &self.records[i]) {
                return Some(i);
            }
            i = i + 1;
        }
        None
    }

    /// Records a completed installation. The caller states whether the
    /// install path exists as a fully-extracted, non-empty directory;
    /// without that the registry refuses the record and stays as it was.
    pub fn register(&mut self, jdk: InstalledJdk, path_present: bool) -> (r: Result<
        (),
        JoltError,
    >)
        requires
            registry_wf(old(self)@),
            jdk_wf(jdk@),
        ensures
            !path_present ==> r == Err::<(), JoltError>(JoltError::PathMissing) && final(self)@
                == old(self)@,
            path_present ==> r == Ok::<(), JoltError>(()) && final(self)@ == spec_upsert(
                old(self)@,
                jdk@,
            ),
            registry_wf(final(self)@),
    {
        let ghost odv = self@;
        if !path_present {
            return Err(JoltError::PathMissing);
        }
        proof {
            lemma_find_jdk_key_range(odv, key_of_jdk(jdk@), 0);
        }
        let mut i: usize = 0;
        while i < self.records.len()
            invariant
                0 <= i <= self.records.len(),
                odv == self.records.deep_view(),
                odv == old(self)@,
                path_present,
                registry_wf(odv),
                jdk_wf(jdk@),
                forall|j: int|
                    0 <= j < i ==> !same_key(key_of_jdk(#[trigger] odv[j]), key_of_jdk(jdk@)),
            decreases self.records.len() - i,
        {
            if jdk_keys_equal(&self.records[i], &jdk) {
                proof {
                    lemma_find_jdk_key_range(odv, key_of_jdk(jdk@), 0);
                    let f = find_jdk_key(odv, key_of_jdk(jdk@), 0);
                    assert(same_key(key_of_jdk(odv[i as int]), key_of_jdk(jdk@)));
                    if f < i as int {
                        assert(!same_key(key_of_jdk(odv[f]), key_of_jdk(jdk@)));
                    }
                    if f > i as int {
                        assert(!same_key(key_of_jdk(odv[i as int]), key_of_jdk(jdk@)));
                    }
                    assert(f == i as int);
                }
                let ghost target = odv.update(i as int, jdk@);
                self.records.remove(i);
                self.records.insert(i, jdk);
                proof {
                    assert(self.records.deep_view() =~= target);
                    assert(registry_wf(target)) by {
                        assert(forall|a: int|
                            0 <= a < target.len() ==> jdk_wf(#[trigger] target[a]));
                        assert forall|a: int, b: int|
                            0 <= a < b < target.len() implies !#[trigger] same_key(
                            key_of_jdk(target[a]),
                            key_of_jdk(target[b]),
                        ) by {
                            assert(!same_key(key_of_jdk(odv[a]), key_of_jdk(odv[b])));
                        }
                    }
                }
                return Ok(());
            }
            i = i + 1;
        }
        proof {
            assert(find_jdk_key(odv, key_of_jdk(jdk@), 0) == odv.len()) by {
                lemma_find_jdk_key_range(odv, key_of_jdk(jdk@), 0);
            }
        }
        let ghost target = odv.push(jdk@);
        self.records.push(jdk);
        proof {
            assert(self.records.deep_view() =~= target);
            assert(registry_wf(target)) by {
                assert(forall|a: int| 0 <= a < target.len() ==> jdk_wf(#[trigger] target[a]));
                assert forall|a: int, b: int|
                    0 <= a < b < target.len() implies !#[trigger] same_key(
                    key_of_jdk(target[a]),
                    key_of_jdk(target[b]),
                ) by {
                    if b < target.len() - 1 {
                        assert(!same_key(key_of_jdk(odv[a]), key_of_jdk(odv[b])));
                    }
                }
            }
        }
        Ok(())
    }

    /// Removes the record carrying the key of installed record `jdk`, if
    /// present; files on disk are not touched. Reports whether a record
    /// was removed.
    pub fn unregister(&mut self, jdk: &InstalledJdk) -> (r: bool)
        requires
            registry_wf(old(self)@),
        ensures
            ({
                let i = find_jdk_key(old(self)@, key_of_jdk(jdk@), 0);
                if i < old(self)@.len() {
                    r == true && final(self)@ == old(self)@.remove(i)
                } else {
                    r == false && final(self)@ == old(self)@
                }
            }),
            registry_wf(final(self)@),
    {
        let ghost odv = self@;
        proof {
            lemma_find_jdk_key_range(odv, key_of_jdk(jdk@), 0);
        }
        let mut i: usize = 0;
        while i < self.records.len()
            invariant
                0 <= i <= self.records.len(),
                odv == self.records.deep_view(),
                odv == old(self)@,
                registry_wf(odv),
                forall|j: int|
                    0 <= j < i ==> !same_key(key_of_jdk(#[trigger] odv[j]), key_of_jdk(jdk@)),
            decreases self.records.len() - i,
        {
            if jdk_keys_equal(&self.records[i], jdk) {
                proof {
                    lemma_find_jdk_key_range(odv, key_of_jdk(jdk@), 0);
                    let f = find_jdk_key(odv, key_of_jdk(jdk@), 0);
                    assert(same_key(key_of_jdk(odv[i as int]), key_of_jdk(jdk@)));
                    if f < i as int {
                        assert(!same_key(key_of_jdk(odv[f]), key_of_jdk(jdk@)));
                    }
                    if f > i as int {
                        assert(!same_key(key_of_jdk(odv[i as int]), key_of_jdk(jdk@)));
                    }
                    assert(f == i as int);
                }
                let ghost target = odv.remove(i as int);
                self.records.remove(i);
                proof {
                    assert(self.records.deep_view() =~= target);
                    assert(registry_wf(target)) by {
                        assert(forall|a: int|
                            0 <= a < target.len() ==> jdk_wf(#[trigger] target[a]));
                        assert forall|a: int, b: int|
                            0 <= a < b < target.len() implies !#[trigger] same_key(
                            key_of_jdk(target[a]),
                            key_of_jdk(target[b]),
                        ) by {
                            let oa = if a < i as int {
                                a
                            } else {
                                a + 1
                            };
                            let ob = if b < i as int {
                                b
                            } else {
                                b + 1
                            };
                            assert(target[a] == odv[oa] && target[b] == odv[ob]);
                            assert(!same_key(key_of_jdk(odv[oa]), key_of_jdk(odv[ob])));
                        }
                    }
                }
                return true;
            }
            i = i + 1;
        }
        proof {
            assert(find_jdk_key(odv, key_of_jdk(jdk@), 0) == odv.len()) by {
                lemma_find_jdk_key_range(odv, key_of_jdk(jdk@), 0);
            }
        }
        false
    }
}

} // verus!
