//! The catalog: an immutable snapshot of the available JDK builds, loaded
//! from a cached file and replaced wholesale by a refresh. A refresh
//! either parses the whole feed and yields the new snapshot together with
//! a diff summary, or fails and leaves the previous snapshot untouched.

use vstd::prelude::*;
use crate::JoltError;
use crate::entry::{
    CatalogEntry, EntryModel, KeyModel, key_of_entry, same_key, entry_wf,
    lemma_lower_clean, lemma_lower_idempotent,
};
use crate::feed::{
    spec_parse_entry_lines, spec_parse_feed, unique_entry_keys, parse_entry_lines, parse_feed,
    has_duplicate_entry_keys, entry_keys_equal, spec_render_entries, render_entries,
};
use crate::text::{
    spec_split, spec_drop_empty, spec_parse_u64, spec_render_u64, is_clean, split_bytes,
    drop_empty, parse_u64, render_u64, check_clean, clone_bytes, push_all, eq_bytes, TAB, NEWLINE,
};

verus! {

/// The mathematical value of a catalog snapshot.
pub ghost struct CatalogModel {
    pub etag: Seq<u8>,
    pub fetched_at: u64,
    pub entries: Seq<EntryModel>,
}

/// A snapshot of the available builds: a feed tag, the time it was
/// fetched, and its entries.
pub struct Catalog {
    pub etag: Vec<u8>,
    pub fetched_at: u64,
    pub entries: Vec<CatalogEntry>,
}

impl View for Catalog {
    type V = CatalogModel;

    open spec fn view(&self) -> CatalogModel {
        CatalogModel { etag: self.etag@, fetched_at: self.fetched_at, entries: self.entries.deep_view() }
    }
}

/// Internal consistency of a snapshot: every entry is well-formed, no two
/// entries share their natural key, and the tag fits on the header line.
pub open spec fn catalog_wf(c: CatalogModel) -> bool {
    &&& c.etag.len() > 0
    &&& is_clean(c.etag)
    &&& forall|i: int| 0 <= i < c.entries.len() ==> entry_wf(#[trigger] c.entries[i])
    &&& unique_entry_keys(c.entries)
}

/// Every record a feed parse yields is well-formed.
pub proof fn lemma_parsed_entries_wf(lines: Seq<Seq<u8>>, i: int)
    ensures
        spec_parse_entry_lines(lines, i) matches Some(ms) ==> forall|k: int|
            0 <= k < ms.len() ==> entry_wf(#[trigger] ms[k]),
    decreases lines.len() - i,
{
    if i < lines.len() {
        lemma_parsed_entries_wf(lines, i + 1);
        if let Some(m) = crate::feed::spec_parse_entry_line(lines[i]) {
            let fields = spec_split(lines[i], crate::text::TAB);
            lemma_lower_clean(fields[0]);
            lemma_lower_idempotent(fields[0]);
        }
    }
}

/// What loading a cache yields: the header line holds the tag and fetch
/// time, the remaining lines the entries, and keys must be unique.
pub open spec fn spec_load_catalog(s: Seq<u8>) -> Option<CatalogModel> {
    let lines = spec_drop_empty(spec_split(s, NEWLINE));
    if lines.len() == 0 {
        Option::None
    } else {
        let header = spec_split(lines[0], TAB);
        if header.len() != 2 || header[0].len() == 0 || !is_clean(header[0]) {
            Option::None
        } else {
            match (spec_parse_u64(header[1]), spec_parse_entry_lines(lines, 1)) {
                (Option::Some(at), Option::Some(ms)) => if unique_entry_keys(ms) {
                    Some(CatalogModel { etag: header[0], fetched_at: at, entries: ms })
                } else {
                    Option::None
                },
                _ => Option::None,
            }
        }
    }
}

/// The rendered cache: a header line, then one line per entry.
pub open spec fn spec_render_catalog(c: CatalogModel) -> Seq<u8> {
    c.etag + seq![TAB] + spec_render_u64(c.fetched_at as int) + seq![NEWLINE]
        + spec_render_entries(c.entries, 0)
}

/// The diff summary a refresh reports against the previous snapshot.
#[derive(Clone, Copy, Debug, PartialEq, Eq, Structural)]
pub struct UpdateSummary {
    pub added: usize,
    pub removed: usize,
    pub changed: usize,
}

/// Whether some record in `s` carries the key `k`.
pub open spec fn has_entry_key(s: Seq<EntryModel>, k: KeyModel) -> bool {
    exists|i: int| 0 <= i < s.len() && same_key(key_of_entry(#[trigger] s[i]), k)
}

/// Whether `s` holds a record with `m`'s key that differs from `m`.
pub open spec fn entry_differs(s: Seq<EntryModel>, m: EntryModel) -> bool {
    exists|i: int|
        0 <= i < s.len() && same_key(key_of_entry(#[trigger] s[i]), key_of_entry(m)) && s[i] != m
}

/// How many records of `newer` from `i` on carry a key absent from `older`.
pub open spec fn count_added(newer: Seq<EntryModel>, older: Seq<EntryModel>, i: int) -> int
    decreases newer.len() - i,
{
    if i >= newer.len() {
        0
    } else {
        (if has_entry_key(older, key_of_entry(newer[i])) {
            0int
        } else {
            1int
        }) + count_added(newer, older, i + 1)
    }
}

/// How many records of `newer` from `i` on supersede a record of `older`
/// with the same key but different contents.
pub open spec fn count_changed(newer: Seq<EntryModel>, older: Seq<EntryModel>, i: int) -> int
    decreases newer.len() - i,
{
    if i >= newer.len() {
        0
    } else {
        (if entry_differs(older, newer[i]) {
            1int
        } else {
            0int
        }) + count_changed(newer, older, i + 1)
    }
}

/// What a refresh yields: the new snapshot and the diff counts, or
/// nothing if the feed or the tag is unusable.
pub open spec fn spec_refresh(
    prev: CatalogModel,
    feed: Seq<u8>,
    etag: Seq<u8>,
    now: u64,
) -> Option<CatalogModel> {
    if etag.len() > 0 && is_clean(etag) {
        match spec_parse_feed(feed) {
            Option::None => Option::None,
            Option::Some(ms) => if unique_entry_keys(ms) {
                Some(CatalogModel { etag: etag, fetched_at: now, entries: ms })
            } else {
                Option::None
            },
        }
    } else {
        Option::None
    }
}

/// Finds the record carrying `e`'s key.
fn find_entry_key(v: &Vec<CatalogEntry>, e: &CatalogEntry) -> (r: Option<usize>)
    ensures
        match r {
            Option::Some(i) => 0 <= i < v.deep_view().len() && same_key(
                key_of_entry(v.deep_view()[i as int]),
                key_of_entry(e@),
            ),
            Option::None => !has_entry_key(v.deep_view(), key_of_entry(e@)),
        },
{
    let ghost dv = v.deep_view();
    let mut i: usize = 0;
    while i < v.len()
        invariant
            0 <= i <= v.len(),
            dv == v.deep_view(),
            forall|k: int| 0 <= k < i ==> !same_key(key_of_entry(#[trigger] dv[k]), key_of_entry(e@)),
        decreases v.len() - i,
    {
        if entry_keys_equal(&v[i], e) {
            return Some(i);
        }
        i = i + 1;
    }
    None
}

/// Whether two catalog records agree in every field.
fn entries_equal(a: &CatalogEntry, b: &CatalogEntry) -> (r: bool)
    ensures
        r == (a@ == b@),
{
    let fields = eq_bytes(&a.distribution, &b.distribution) && eq_bytes(&a.version, &b.version)
        && eq_bytes(&a.architecture, &b.architecture) && eq_bytes(
        &a.operating_system,
        &b.operating_system,
    ) && eq_bytes(&a.download_url, &b.download_url) && eq_bytes(
        &a.checksum_algorithm,
        &b.checksum_algorithm,
    ) && eq_bytes(&a.checksum_digest, &b.checksum_digest) && a.file_size == b.file_size;
    if !fields {
        return false;
    }
    let mut i: usize = 0;
    if a.version_parts.len() != b.version_parts.len() {
        return false;
    }
    while i < a.version_parts.len()
        invariant
            0 <= i <= a.version_parts.len(),
            a.version_parts@.len() == b.version_parts@.len(),
            forall|k: int| 0 <= k < i ==> a.version_parts@[k] == b.version_parts@[k],
            a@.distribution == b@.distribution,
            a@.version == b@.version,
            a@.architecture == b@.architecture,
            a@.operating_system == b@.operating_system,
            a@.download_url == b@.download_url,
            a@.checksum_algorithm == b@.checksum_algorithm,
            a@.checksum_digest == b@.checksum_digest,
            a@.file_size == b@.file_size,
        decreases a.version_parts.len() - i,
    {
        if a.version_parts[i] != b.version_parts[i] {
            return false;
        }
        i = i + 1;
    }
    proof {
        assert(a.version_parts@ =~= b.version_parts@);
    }
    true
}

/// With unique keys, a record equal to the one found under its key rules
/// out any differing record under that key.
proof fn lemma_unique_no_differ(s: Seq<EntryModel>, m: EntryModel, j: int)
    requires
        unique_entry_keys(s),
        0 <= j < s.len(),
        same_key(key_of_entry(s[j]), key_of_entry(m)),
        s[j] == m,
    ensures
        !entry_differs(s, m),
{
    assert forall|i: int|
        0 <= i < s.len() && same_key(key_of_entry(#[trigger] s[i]), key_of_entry(m)) implies s[i]
        == m by {
        if i != j {
            assert(!same_key(key_of_entry(s[if i < j {
                i
            } else {
                j
            }]), key_of_entry(s[if i < j {
                j
            } else {
                i
            }])));
        }
    }
}

impl Catalog {
    /// A catalog with no entries, as used before the first refresh.
    pub fn empty() -> (r: Catalog)
        ensures
            r@.entries.len() == 0,
            r@.fetched_at == 0,
            catalog_wf(r@),
    {
        let mut etag: Vec<u8> = Vec::new();
        etag.push(45);
        Catalog { etag, fetched_at: 0, entries: Vec::new() }
    }

    /// Loads a snapshot from cache bytes; a cache that does not parse in
    /// full is reported corrupt and yields no snapshot.
    pub fn from_cache(bytes: &Vec<u8>) -> (r: Result<Catalog, JoltError>)
        ensures
            (r is Ok) == (spec_load_catalog(bytes@) is Some),
            r matches Ok(c) ==> Some(c@) == spec_load_catalog(bytes@) && catalog_wf(c@),
            r matches Err(e) ==> e == JoltError::CorruptCache,
    {
        let raw_lines = split_bytes(bytes, NEWLINE);
        let lines = drop_empty(&raw_lines);
        let ghost lv = lines.deep_view();
        if lines.len() == 0 {
            return Err(JoltError::CorruptCache);
        }
        let header = split_bytes(&lines[0], TAB);
        proof {
            assert(lines@[0]@ =~= lv[0]);
            assert(header@.len() == header.deep_view().len());
        }
        if header.len() != 2 {
            return Err(JoltError::CorruptCache);
        }
        proof {
            assert(header@[0]@ =~= header.deep_view()[0]);
            assert(header@[1]@ =~= header.deep_view()[1]);
        }
        if header[0].len() == 0 || !check_clean(&header[0]) {
            return Err(JoltError::CorruptCache);
        }
        let at = match parse_u64(&header[1]) {
            Option::None => {
                return Err(JoltError::CorruptCache);
            },
            Option::Some(at) => at,
        };
        let entries = match parse_entry_lines(&lines, 1) {
            Option::None => {
                return Err(JoltError::CorruptCache);
            },
            Option::Some(es) => es,
        };
        if has_duplicate_entry_keys(&entries) {
            return Err(JoltError::CorruptCache);
        }
        proof {
            lemma_parsed_entries_wf(lv, 1);
        }
        let etag = clone_bytes(&header[0]);
        Ok(Catalog { etag, fetched_at: at, entries })
    }

    /// Renders the snapshot as cache bytes.
    pub fn render(&self) -> (r: Vec<u8>)
        ensures
            r@ == spec_render_catalog(self@),
    {
        let mut out: Vec<u8> = Vec::new();
        push_all(&mut out, &self.etag);
        out.push(TAB);
        let at = render_u64(self.fetched_at);
        push_all(&mut out, &at);
        out.push(NEWLINE);
        let body = render_entries(&self.entries);
        push_all(&mut out, &body);
        proof {
            assert(out@ =~= spec_render_catalog(self@));
        }
        out
    }

    /// Builds the snapshot a fully-parsed feed describes, together with
    /// the diff counts against this one. A feed that does not parse past
    /// any line, duplicate keys in it, or an unusable tag fail the whole
    /// refresh; this snapshot is never touched either way.
    pub fn refresh(&self, feed: &Vec<u8>, etag: &Vec<u8>, now: u64) -> (r: Result<
        (Catalog, UpdateSummary),
        JoltError,
    >)
        requires
            catalog_wf(self@),
        ensures
            (r is Ok) == (spec_refresh(self@, feed@, etag@, now) is Some),
            r matches Ok(p) ==> Some(p.0@) == spec_refresh(self@, feed@, etag@, now)
                && catalog_wf(p.0@) && p.1.added as int == count_added(
                p.0@.entries,
                self@.entries,
                0,
            ) && p.1.removed as int == count_added(self@.entries, p.0@.entries, 0)
                && p.1.changed as int == count_changed(p.0@.entries, self@.entries, 0),
            r matches Err(e) ==> e == JoltError::FeedMalformed,
    {
        if etag.len() == 0 || !check_clean(etag) {
            return Err(JoltError::FeedMalformed);
        }
        let entries = match parse_feed(feed) {
            Option::None => {
                return Err(JoltError::FeedMalformed);
            },
            Option::Some(es) => es,
        };
        if has_duplicate_entry_keys(&entries) {
            return Err(JoltError::FeedMalformed);
        }
        proof {
            lemma_parsed_entries_wf(spec_drop_empty(spec_split(feed@, NEWLINE)), 0);
        }
        let added = count_new_keys(&entries, &self.entries);
        let removed = count_new_keys(&self.entries, &entries);
        let changed = count_changed_entries(&entries, &self.entries);
        let newer = Catalog { etag: clone_bytes(etag), fetched_at: now, entries };
        Ok((newer, UpdateSummary { added, removed, changed }))
    }
}

/// Counts the records of `newer` whose key is absent from `older`.
fn count_new_keys(newer: &Vec<CatalogEntry>, older: &Vec<CatalogEntry>) -> (r: usize)
    ensures
        r as int == count_added(newer.deep_view(), older.deep_view(), 0),
{
    let ghost nv = newer.deep_view();
    let ghost ov = older.deep_view();
    let mut acc: usize = 0;
    let mut i: usize = 0;
    while i < newer.len()
        invariant
            0 <= i <= newer.len(),
            acc <= i,
            nv == newer.deep_view(),
            ov == older.deep_view(),
            count_added(nv, ov, 0) == acc + count_added(nv, ov, i as int),
        decreases newer.len() - i,
    {
        match find_entry_key(older, &newer[i]) {
            Option::None => {
                acc = acc + 1;
            },
            Option::Some(_) => {},
        }
        i = i + 1;
    }
    acc
}

/// Counts the records of `newer` that supersede an `older` record with
/// the same key but different contents.
fn count_changed_entries(newer: &Vec<CatalogEntry>, older: &Vec<CatalogEntry>) -> (r: usize)
    requires
        unique_entry_keys(older.deep_view()),
    ensures
        r as int == count_changed(newer.deep_view(), older.deep_view(), 0),
{
    let ghost nv = newer.deep_view();
    let ghost ov = older.deep_view();
    let mut acc: usize = 0;
    let mut i: usize = 0;
    while i < newer.len()
        invariant
            0 <= i <= newer.len(),
            acc <= i,
            nv == newer.deep_view(),
            ov == older.deep_view(),
            unique_entry_keys(ov),
            count_changed(nv, ov, 0) == acc + count_changed(nv, ov, i as int),
        decreases newer.len() - i,
    {
        match find_entry_key(older, &newer[i]) {
            Option::None => {
                proof {
                    assert(!entry_differs(ov, nv[i as int]));
                }
            },
            Option::Some(j) => {
                if !entries_equal(&older[j], &newer[i]) {
                    acc = acc + 1;
                } else {
                    proof {
                        lemma_unique_no_differ(ov, nv[i as int], j as int);
                    }
                }
            },
        }
        i = i + 1;
    }
    acc
}

} // verus!
