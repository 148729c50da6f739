//! Pure resolution: filter a store's records by an optional distribution
//! and an optional version filter, then order the survivors
//! deterministically (distribution ascending, version descending, then
//! architecture and operating system). An empty result is not an error
//! here; the caller decides what it means.

use vstd::prelude::*;
use crate::entry::{
    CatalogEntry, InstalledJdk, EntryModel, JdkModel, KeyModel, key_of_entry, key_of_jdk, key_le,
    lemma_key_le_total, lemma_key_le_trans,
};
use crate::text::{spec_lower, lower_bytes, eq_bytes, lex_cmp, seq_u8_int, seq_u64_int, lemma_lex_cmp_zero};
use crate::version::{spec_version_parts, components_match, parse_version, is_component_prefix};

verus! {

/// The mathematical value of a query.
pub ghost struct QueryModel {
    pub distribution: Option<Seq<u8>>,
    pub version: Option<Seq<u8>>,
}

/// An optional distribution filter and an optional version filter.
pub struct JdkQuery {
    pub distribution: Option<Vec<u8>>,
    pub version: Option<Vec<u8>>,
}

impl View for JdkQuery {
    type V = QueryModel;

    open spec fn view(&self) -> QueryModel {
        QueryModel {
            distribution: match self.distribution {
                Option::None => Option::None,
                Option::Some(d) => Some(d@),
            },
            version: match self.version {
                Option::None => Option::None,
                Option::Some(v) => Some(v@),
            },
        }
    }
}

/// Whether a record with key `k` answers the query: the distribution filter
/// compares case-insensitively against the normalized key, and the version
/// filter matches any version it is a numeric componentwise prefix of. A
/// version filter that does not parse matches nothing.
pub open spec fn query_matches(k: KeyModel, q: QueryModel) -> bool {
    &&& match q.distribution {
        Option::None => true,
        Option::Some(d) => k.distribution == spec_lower(d),
    }
    &&& match q.version {
        Option::None => true,
        Option::Some(v) => match spec_version_parts(v) {
            Option::None => false,
            Option::Some(qp) => components_match(qp, k.version_parts),
        },
    }
}

/// The subsequence of catalog entries answering the query, in store order.
pub open spec fn matching_entries(s: Seq<EntryModel>, q: QueryModel) -> Seq<EntryModel>
    decreases s.len(),
{
    if s.len() == 0 {
        Seq::empty()
    } else if query_matches(key_of_entry(s[0]), q) {
        seq![s[0]] + matching_entries(s.drop_first(), q)
    } else {
        matching_entries(s.drop_first(), q)
    }
}

/// The subsequence of installed records answering the query, in store order.
pub open spec fn matching_jdks(s: Seq<JdkModel>, q: QueryModel) -> Seq<JdkModel>
    decreases s.len(),
{
    if s.len() == 0 {
        Seq::empty()
    } else if query_matches(key_of_jdk(s[0]), q) {
        seq![s[0]] + matching_jdks(s.drop_first(), q)
    } else {
        matching_jdks(s.drop_first(), q)
    }
}

pub open spec fn entry_le(a: EntryModel, b: EntryModel) -> bool {
    key_le(key_of_entry(a), key_of_entry(b))
}

/// Sorted in the resolver's order.
pub open spec fn entries_sorted(s: Seq<EntryModel>) -> bool {
    forall|i: int, j: int| 0 <= i < j < s.len() ==> #[trigger] entry_le(s[i], s[j])
}

/// Sorted in the resolver's order.
pub open spec fn jdks_sorted(s: Seq<JdkModel>) -> bool {
    forall|i: int, j: int| 0 <= i < j < s.len() ==> #[trigger] jdk_le(s[i], s[j])
}

/// Within one distribution the resolver's order lists numerically higher
/// versions first: of two entries with the same distribution, the one
/// ordered earlier has version components that are lexicographically at
/// least the later one's.
pub proof fn lemma_order_is_version_descending(a: EntryModel, b: EntryModel)
    requires
        entry_le(a, b),
        a.distribution == b.distribution,
    ensures
        lex_cmp(seq_u64_int(b.version_parts), seq_u64_int(a.version_parts)) <= 0,
{
    lemma_lex_cmp_zero(seq_u8_int(a.distribution), seq_u8_int(b.distribution));
}

pub open spec fn jdk_le(a: JdkModel, b: JdkModel) -> bool {
    key_le(key_of_jdk(a), key_of_jdk(b))
}

/// Whether a catalog entry answers the query.
pub fn entry_matches(e: &CatalogEntry, q: &JdkQuery) -> (r: bool)
    ensures
        r == query_matches(key_of_entry(e@), q@),
{
    let dist_ok = match &q.distribution {
        Option::None => true,
        Option::Some(d) => {
            let dl = lower_bytes(d);
            eq_bytes(&e.distribution, &dl)
        },
    };
    if !dist_ok {
        return false;
    }
    match &q.version {
        Option::None => true,
        Option::Some(v) => {
            match parse_version(v) {
                Option::None => false,
                Option::Some(qp) => {
                    proof {
                        assert(qp.deep_view() =~= qp@);
                    }
                    is_component_prefix(&qp, &e.version_parts)
                },
            }
        },
    }
}

/// Whether an installed record answers the query.
pub fn jdk_matches(j: &InstalledJdk, q: &JdkQuery) -> (r: bool)
    ensures
        r == query_matches(key_of_jdk(j@), q@),
{
    let dist_ok = match &q.distribution {
        Option::None => true,
        Option::Some(d) => {
            let dl = lower_bytes(d);
            eq_bytes(&j.distribution, &dl)
        },
    };
    if !dist_ok {
        return false;
    }
    match &q.version {
        Option::None => true,
        Option::Some(v) => {
            match parse_version(v) {
                Option::None => false,
                Option::Some(qp) => {
                    proof {
                        assert(qp.deep_view() =~= qp@);
                    }
                    is_component_prefix(&qp, &j.version_parts)
                },
            }
        },
    }
}

/// Inserts an entry into a run kept sorted by the resolver's order.
fn insert_entry_sorted(out: &mut Vec<CatalogEntry>, e: CatalogEntry)
    requires
        entries_sorted(old(out).deep_view()),
    ensures
        entries_sorted(final(out).deep_view()),
        final(out).deep_view().to_multiset() == old(out).deep_view().to_multiset().insert(e@),
{
    let ghost odv = out.deep_view();
    let mut j: usize = 0;
    while j < out.len() && out[j].cmp_order(&e) <= 0
        invariant
            0 <= j <= out.len(),
            odv == out.deep_view(),
            forall|k: int| 0 <= k < j ==> entry_le(odv[k], e@),
        decreases out.len() - j,
    {
        j = j + 1;
    }
    proof {
        if j < out.len() {
            lemma_key_le_total(key_of_entry(odv[j as int]), key_of_entry(e@));
        }
    }
    out.insert(j, e);
    proof {
        broadcast use vstd::seq_lib::group_to_multiset_ensures;
        broadcast use vstd::multiset::group_multiset_axioms;

        let ndv = out.deep_view();
        let front = odv.take(j as int);
        let back = odv.subrange(j as int, odv.len() as int);
        assert(ndv =~= front + seq![e@] + back);
        assert(odv.insert(j as int, e@) =~= front + seq![e@] + back);
        assert(odv =~= front + back);
        assert forall|x: int, y: int| 0 <= x < y < ndv.len() implies entry_le(ndv[x], ndv[y]) by {
            if x < j && y > j {
                assert(entry_le(odv[x], odv[y - 1]));
            } else if x == j && y > j + 1 {
                assert(key_le(key_of_entry(e@), key_of_entry(odv[j as int])));
                assert(entry_le(odv[j as int], odv[y - 1]));
                lemma_key_le_trans(key_of_entry(e@), key_of_entry(odv[j as int]), key_of_entry(
                    odv[y - 1],
                ));
            }
        }
        assert(ndv.to_multiset() == odv.insert(j as int, e@).to_multiset());
        assert(ndv.to_multiset() == odv.to_multiset().insert(e@));
    }
}

/// Inserts an installed record into a run kept sorted by the resolver's order.
fn insert_jdk_sorted(out: &mut Vec<InstalledJdk>, e: InstalledJdk)
    requires
        jdks_sorted(old(out).deep_view()),
    ensures
        jdks_sorted(final(out).deep_view()),
        final(out).deep_view().to_multiset() == old(out).deep_view().to_multiset().insert(e@),
{
    let ghost odv = out.deep_view();
    let mut j: usize = 0;
    while j < out.len() && out[j].cmp_order(&e) <= 0
        invariant
            0 <= j <= out.len(),
            odv == out.deep_view(),
            forall|k: int| 0 <= k < j ==> jdk_le(odv[k], e@),
        decreases out.len() - j,
    {
        j = j + 1;
    }
    proof {
        if j < out.len() {
            lemma_key_le_total(key_of_jdk(odv[j as int]), key_of_jdk(e@));
        }
    }
    out.insert(j, e);
    proof {
        broadcast use vstd::seq_lib::group_to_multiset_ensures;
        broadcast use vstd::multiset::group_multiset_axioms;

        let ndv = out.deep_view();
        let front = odv.take(j as int);
        let back = odv.subrange(j as int, odv.len() as int);
        assert(ndv =~= front + seq![e@] + back);
        assert(odv.insert(j as int, e@) =~= front + seq![e@] + back);
        assert(odv =~= front + back);
        assert forall|x: int, y: int| 0 <= x < y < ndv.len() implies jdk_le(ndv[x], ndv[y]) by {
            if x < j && y > j {
                assert(jdk_le(odv[x], odv[y - 1]));
            } else if x == j && y > j + 1 {
                assert(key_le(key_of_jdk(e@), key_of_jdk(odv[j as int])));
                assert(jdk_le(odv[j as int], odv[y - 1]));
                lemma_key_le_trans(key_of_jdk(e@), key_of_jdk(odv[j as int]), key_of_jdk(
                    odv[y - 1],
                ));
            }
        }
        assert(ndv.to_multiset() == odv.insert(j as int, e@).to_multiset());
        assert(ndv.to_multiset() == odv.to_multiset().insert(e@));
    }
}

/// Resolves a query against catalog entries: exactly the matching entries,
/// in the deterministic order.
pub fn resolve_entries(entries: &Vec<CatalogEntry>, q: &JdkQuery) -> (r: Vec<CatalogEntry>)
    ensures
        entries_sorted(r.deep_view()),
        r.deep_view().to_multiset() == matching_entries(entries.deep_view(), q@).to_multiset(),
        forall|m: EntryModel| #[trigger] r.deep_view().contains(m) <==> matching_entries(
            entries.deep_view(),
            q@,
        ).contains(m),
{
    let ghost dv = entries.deep_view();
    let mut out: Vec<CatalogEntry> = Vec::new();
    let mut i: usize = 0;
    proof {
        assert(dv.take(0) =~= Seq::<EntryModel>::empty());
        assert(out.deep_view() =~= Seq::<EntryModel>::empty());
    }
    while i < entries.len()
        invariant
            0 <= i <= entries.len(),
            dv == entries.deep_view(),
            entries_sorted(out.deep_view()),
            out.deep_view().to_multiset() == matching_entries(dv.take(i as int), q@).to_multiset(),
        decreases entries.len() - i,
    {
        proof {
            broadcast use vstd::seq_lib::group_to_multiset_ensures;

            lemma_matching_entries_take_step(dv, q@, i as int);
        }
        if entry_matches(&entries[i], q) {
            let e = entries[i].duplicate();
            proof {
                assert(e@ == dv[i as int]);
            }
            insert_entry_sorted(&mut out, e);
        }
        proof {
            broadcast use vstd::seq_lib::group_to_multiset_ensures;
            broadcast use vstd::multiset::group_multiset_axioms;

            if query_matches(key_of_entry(dv[i as int]), q@) {
                assert(matching_entries(dv.take(i as int), q@).push(
                    dv[i as int],
                ).to_multiset() =~= matching_entries(dv.take(i as int), q@).to_multiset().insert(
                    dv[i as int],
                ));
            }
        }
        i = i + 1;
    }
    proof {
        broadcast use vstd::seq_lib::group_to_multiset_ensures;
        broadcast use vstd::multiset::group_multiset_axioms;

        assert(dv.take(i as int) =~= dv);

        assert forall|m: EntryModel| #[trigger] out.deep_view().contains(m) <==> matching_entries(
            dv,
            q@,
        ).contains(m) by {
            assert(out.deep_view().contains(m) <==> out.deep_view().to_multiset().count(m) > 0);
            assert(matching_entries(dv, q@).contains(m) <==> matching_entries(
                dv,
                q@,
            ).to_multiset().count(m) > 0);
        }
    }
    out
}

/// Resolves a query against installed records: exactly the matching
/// records, in the deterministic order.
pub fn resolve_jdks(records: &Vec<InstalledJdk>, q: &JdkQuery) -> (r: Vec<InstalledJdk>)
    ensures
        jdks_sorted(r.deep_view()),
        r.deep_view().to_multiset() == matching_jdks(records.deep_view(), q@).to_multiset(),
        forall|m: JdkModel| #[trigger] r.deep_view().contains(m) <==> matching_jdks(
            records.deep_view(),
            q@,
        ).contains(m),
{
    let ghost dv = records.deep_view();
    let mut out: Vec<InstalledJdk> = Vec::new();
    let mut i: usize = 0;
    proof {
        assert(dv.take(0) =~= Seq::<JdkModel>::empty());
        assert(out.deep_view() =~= Seq::<JdkModel>::empty());
    }
    while i < records.len()
        invariant
            0 <= i <= records.len(),
            dv == records.deep_view(),
            jdks_sorted(out.deep_view()),
            out.deep_view().to_multiset() == matching_jdks(dv.take(i as int), q@).to_multiset(),
        decreases records.len() - i,
    {
        proof {
            broadcast use vstd::seq_lib::group_to_multiset_ensures;

            lemma_matching_jdks_take_step(dv, q@, i as int);
        }
        if jdk_matches(&records[i], q) {
            let e = records[i].duplicate();
            proof {
                assert(e@ == dv[i as int]);
            }
            insert_jdk_sorted(&mut out, e);
        }
        proof {
            broadcast use vstd::seq_lib::group_to_multiset_ensures;
            broadcast use vstd::multiset::group_multiset_axioms;

            if query_matches(key_of_jdk(dv[i as int]), q@) {
                assert(matching_jdks(dv.take(i as int), q@).push(dv[i as int]).to_multiset()
                    =~= matching_jdks(dv.take(i as int), q@).to_multiset().insert(dv[i as int]));
            }
        }
        i = i + 1;
    }
    proof {
        broadcast use vstd::seq_lib::group_to_multiset_ensures;
        broadcast use vstd::multiset::group_multiset_axioms;

        assert(dv.take(i as int) =~= dv);

        assert forall|m: JdkModel| #[trigger] out.deep_view().contains(m) <==> matching_jdks(
            dv,
            q@,
        ).contains(m) by {
            assert(out.deep_view().contains(m) <==> out.deep_view().to_multiset().count(m) > 0);
            assert(matching_jdks(dv, q@).contains(m) <==> matching_jdks(
                dv,
                q@,
            ).to_multiset().count(m) > 0);
        }
    }
    out
}

/// One step of the matching subsequence along a growing prefix.
proof fn lemma_matching_entries_take_step(s: Seq<EntryModel>, q: QueryModel, i: int)
    requires
        0 <= i < s.len(),
    ensures
        matching_entries(s.take(i + 1), q) == if query_matches(key_of_entry(s[i]), q) {
            matching_entries(s.take(i), q).push(s[i])
        } else {
            matching_entries(s.take(i), q)
        },
    decreases i,
{
    if i == 0 {
        assert(s.take(1) =~= seq![s[0]]);
        assert(s.take(1).drop_first() =~= Seq::<EntryModel>::empty());
        assert(s.take(0) =~= Seq::<EntryModel>::empty());
        assert(matching_entries(Seq::<EntryModel>::empty(), q) == Seq::<EntryModel>::empty());
        if query_matches(key_of_entry(s[0]), q) {
            assert(matching_entries(s.take(1), q) =~= Seq::<EntryModel>::empty().push(s[0]));
        }
    } else {
        lemma_matching_entries_take_step(s.drop_first(), q, i - 1);
        assert(s.take(i + 1).drop_first() =~= s.drop_first().take(i));
        assert(s.take(i).drop_first() =~= s.drop_first().take(i - 1));
        assert(s.drop_first()[i - 1] == s[i]);
        if query_matches(key_of_entry(s[0]), q) {
            if query_matches(key_of_entry(s[i]), q) {
                assert(matching_entries(s.take(i + 1), q) =~= matching_entries(
                    s.take(i),
                    q,
                ).push(s[i]));
            }
        }
    }
}

/// One step of the matching subsequence along a growing prefix.
proof fn lemma_matching_jdks_take_step(s: Seq<JdkModel>, q: QueryModel, i: int)
    requires
        0 <= i < s.len(),
    ensures
        matching_jdks(s.take(i + 1), q) == if query_matches(key_of_jdk(s[i]), q) {
            matching_jdks(s.take(i), q).push(s[i])
        } else {
            matching_jdks(s.take(i), q)
        },
    decreases i,
{
    if i == 0 {
        assert(s.take(1) =~= seq![s[0]]);
        assert(s.take(1).drop_first() =~= Seq::<JdkModel>::empty());
        assert(s.take(0) =~= Seq::<JdkModel>::empty());
        assert(matching_jdks(Seq::<JdkModel>::empty(), q) == Seq::<JdkModel>::empty());
        if query_matches(key_of_jdk(s[0]), q) {
            assert(matching_jdks(s.take(1), q) =~= Seq::<JdkModel>::empty().push(s[0]));
        }
    } else {
        lemma_matching_jdks_take_step(s.drop_first(), q, i - 1);
        assert(s.take(i + 1).drop_first() =~= s.drop_first().take(i));
        assert(s.take(i).drop_first() =~= s.drop_first().take(i - 1));
        assert(s.drop_first()[i - 1] == s[i]);
        if query_matches(key_of_jdk(s[0]), q) {
            if query_matches(key_of_jdk(s[i]), q) {
                assert(matching_jdks(s.take(i + 1), q) =~= matching_jdks(s.take(i), q).push(
                    s[i],
                ));
            }
        }
    }
}

} // verus!
