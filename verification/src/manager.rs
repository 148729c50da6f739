//! The manager: orchestration of catalog, registry and the install state
//! machine. An install request moves through
//! `Downloading -> Verifying -> Extracting -> Registering -> Installed`, or
//! falls to `Failed` from any of them; the registry changes only on the
//! single step that reaches `Installed`, so any failure leaves the visible
//! state exactly as it was. The outer I/O loop performs each returned
//! action (download, extract into a staging path and rename it into place,
//! discard staging) and feeds the outcome back as the next event.

use vstd::prelude::*;
use crate::JoltError;
use crate::entry::{
    CatalogEntry, InstalledJdk, EntryModel, JdkModel, KeyModel, key_of_entry, key_of_jdk,
    same_key, entry_wf, jdk_wf, lemma_key_cmp_self,
};
use crate::catalog::{
    Catalog, CatalogModel, catalog_wf, spec_refresh, count_added, count_changed, UpdateSummary,
};
use crate::registry::{Registry, registry_wf, spec_upsert, find_jdk_key, lemma_find_jdk_key_range};
use crate::resolver::{
    JdkQuery, QueryModel, query_matches, matching_entries, matching_jdks, entry_le,
    entries_sorted, jdks_sorted, resolve_entries, resolve_jdks,
};
use crate::text::{is_clean, clone_bytes, push_all};

verus! {

/// The mathematical value of the manager: the catalog snapshot and the
/// installed records.
pub ghost struct ManagerModel {
    pub catalog: CatalogModel,
    pub registry: Seq<JdkModel>,
}

pub open spec fn manager_wf(m: ManagerModel) -> bool {
    catalog_wf(m.catalog) && registry_wf(m.registry)
}

/// The stage an install request is in.
pub ghost enum StateModel {
    Downloading { entry: EntryModel },
    Verifying { entry: EntryModel, digest: Seq<u8> },
    Extracting { entry: EntryModel },
    Registering { entry: EntryModel, path_present: bool, installed_at: u64 },
    Installed { jdk: JdkModel },
    Failed { error: JoltError },
}

/// What the outer loop reports back.
pub ghost enum EventModel {
    Fetched { digest: Seq<u8> },
    FetchFailed,
    Proceed,
    Extracted { path_present: bool, installed_at: u64 },
    ExtractFailed,
}

/// What the outer loop is asked to do next.
pub ghost enum ActionModel {
    Download { url: Seq<u8> },
    VerifyChecksum,
    Extract { install_path: Seq<u8> },
    Commit,
    Done,
    Discard,
}

pub enum InstallState {
    Downloading { entry: CatalogEntry },
    Verifying { entry: CatalogEntry, digest: Vec<u8> },
    Extracting { entry: CatalogEntry },
    Registering { entry: CatalogEntry, path_present: bool, installed_at: u64 },
    Installed { jdk: InstalledJdk },
    Failed { error: JoltError },
}

pub enum InstallEvent {
    /// The artifact was downloaded in full; `digest` is the checksum of
    /// the downloaded bytes, computed with the entry's algorithm.
    Fetched { digest: Vec<u8> },
    FetchFailed,
    /// No outside work was needed; take the internal step.
    Proceed,
    /// The archive was extracted into a fresh staging directory which was
    /// renamed onto the install path; `path_present` reports that the
    /// path now exists as a non-empty directory.
    Extracted { path_present: bool, installed_at: u64 },
    ExtractFailed,
}

pub enum InstallAction {
    Download { url: Vec<u8> },
    VerifyChecksum,
    Extract { install_path: Vec<u8> },
    Commit,
    Done,
    Discard,
}

impl View for InstallState {
    type V = StateModel;

    open spec fn view(&self) -> StateModel {
        match self {
            InstallState::Downloading { entry } => StateModel::Downloading { entry: entry@ },
            InstallState::Verifying { entry, digest } => StateModel::Verifying {
                entry: entry@,
                digest: digest@,
            },
            InstallState::Extracting { entry } => StateModel::Extracting { entry: entry@ },
            InstallState::Registering { entry, path_present, installed_at } =>
                StateModel::Registering {
                entry: entry@,
                path_present: *path_present,
                installed_at: *installed_at,
            },
            InstallState::Installed { jdk } => StateModel::Installed { jdk: jdk@ },
            InstallState::Failed { error } => StateModel::Failed { error: *error },
        }
    }
}

impl View for InstallEvent {
    type V = EventModel;

    open spec fn view(&self) -> EventModel {
        match self {
            InstallEvent::Fetched { digest } => EventModel::Fetched { digest: digest@ },
            InstallEvent::FetchFailed => EventModel::FetchFailed,
            InstallEvent::Proceed => EventModel::Proceed,
            InstallEvent::Extracted { path_present, installed_at } => EventModel::Extracted {
                path_present: *path_present,
                installed_at: *installed_at,
            },
            InstallEvent::ExtractFailed => EventModel::ExtractFailed,
        }
    }
}

impl View for InstallAction {
    type V = ActionModel;

    open spec fn view(&self) -> ActionModel {
        match self {
            InstallAction::Download { url } => ActionModel::Download { url: url@ },
            InstallAction::VerifyChecksum => ActionModel::VerifyChecksum,
            InstallAction::Extract { install_path } => ActionModel::Extract {
                install_path: install_path@,
            },
            InstallAction::Commit => ActionModel::Commit,
            InstallAction::Done => ActionModel::Done,
            InstallAction::Discard => ActionModel::Discard,
        }
    }
}

/// The entries carried through the machine stay well-formed.
pub open spec fn state_wf(st: StateModel) -> bool {
    match st {
        StateModel::Downloading { entry } => entry_wf(entry),
        StateModel::Verifying { entry, digest } => entry_wf(entry),
        StateModel::Extracting { entry } => entry_wf(entry),
        StateModel::Registering { entry, path_present, installed_at } => entry_wf(entry),
        StateModel::Installed { jdk } => jdk_wf(jdk),
        StateModel::Failed { error } => true,
    }
}

pub const DASH: u8 = 45;

/// The deterministic install path of a build, relative to the
/// destination root.
pub open spec fn spec_install_path(e: EntryModel) -> Seq<u8> {
    e.distribution + seq![DASH] + e.version + seq![DASH] + e.architecture + seq![DASH]
        + e.operating_system
}

/// The record a completed install of `e` leaves in the registry.
pub open spec fn spec_jdk_of(e: EntryModel, at: u64) -> JdkModel {
    JdkModel {
        distribution: e.distribution,
        version: e.version,
        version_parts: e.version_parts,
        architecture: e.architecture,
        operating_system: e.operating_system,
        install_path: spec_install_path(e),
        installed_at: at,
        source_checksum: e.checksum_digest,
    }
}

/// Separator-freedom survives concatenation.
pub proof fn lemma_clean_concat(a: Seq<u8>, b: Seq<u8>)
    requires
        is_clean(a),
        is_clean(b),
    ensures
        is_clean(a + b),
{
    assert forall|i: int| 0 <= i < (a + b).len() implies (a + b)[i] != crate::text::TAB && (a
        + b)[i] != crate::text::NEWLINE by {
        if i < a.len() {
            assert((a + b)[i] == a[i]);
        } else {
            assert((a + b)[i] == b[i - a.len()]);
        }
    }
}

/// The record of a well-formed entry is itself well-formed.
pub proof fn lemma_jdk_of_wf(e: EntryModel, at: u64)
    requires
        entry_wf(e),
    ensures
        jdk_wf(spec_jdk_of(e, at)),
        same_key(key_of_jdk(spec_jdk_of(e, at)), key_of_entry(e)),
{
    lemma_clean_concat(e.distribution, seq![DASH]);
    lemma_clean_concat(e.distribution + seq![DASH], e.version);
    lemma_clean_concat(e.distribution + seq![DASH] + e.version, seq![DASH]);
    lemma_clean_concat(e.distribution + seq![DASH] + e.version + seq![DASH], e.architecture);
    lemma_clean_concat(
        e.distribution + seq![DASH] + e.version + seq![DASH] + e.architecture,
        seq![DASH],
    );
    lemma_clean_concat(
        e.distribution + seq![DASH] + e.version + seq![DASH] + e.architecture + seq![DASH],
        e.operating_system,
    );
}

/// One transition of the install machine: the registry after the step,
/// the next state, and the action the outer loop must take. The registry
/// changes on exactly one transition: the registering step that reaches
/// `Installed`. An event that does not belong to the current stage
/// re-issues the stage's action and changes nothing.
pub open spec fn spec_install_step(
    reg: Seq<JdkModel>,
    st: StateModel,
    ev: EventModel,
) -> (Seq<JdkModel>, StateModel, ActionModel) {
    match st {
        StateModel::Downloading { entry } => match ev {
            EventModel::Fetched { digest } => (
                reg,
                StateModel::Verifying { entry, digest },
                ActionModel::VerifyChecksum,
            ),
            EventModel::FetchFailed => (
                reg,
                StateModel::Failed { error: JoltError::Network },
                ActionModel::Discard,
            ),
            _ => (reg, st, ActionModel::Download { url: entry.download_url }),
        },
        StateModel::Verifying { entry, digest } => match ev {
            EventModel::Proceed => if digest == entry.checksum_digest {
                (
                    reg,
                    StateModel::Extracting { entry },
                    ActionModel::Extract { install_path: spec_install_path(entry) },
                )
            } else {
                (
                    reg,
                    StateModel::Failed { error: JoltError::ChecksumMismatch },
                    ActionModel::Discard,
                )
            },
            _ => (reg, st, ActionModel::VerifyChecksum),
        },
        StateModel::Extracting { entry } => match ev {
            EventModel::Extracted { path_present, installed_at } => (
                reg,
                StateModel::Registering { entry, path_present, installed_at },
                ActionModel::Commit,
            ),
            EventModel::ExtractFailed => (
                reg,
                StateModel::Failed { error: JoltError::Extraction },
                ActionModel::Discard,
            ),
            _ => (reg, st, ActionModel::Extract { install_path: spec_install_path(entry) }),
        },
        StateModel::Registering { entry, path_present, installed_at } => match ev {
            EventModel::Proceed => if path_present {
                (
                    spec_upsert(reg, spec_jdk_of(entry, installed_at)),
                    StateModel::Installed { jdk: spec_jdk_of(entry, installed_at) },
                    ActionModel::Done,
                )
            } else {
                (
                    reg,
                    StateModel::Failed { error: JoltError::PathMissing },
                    ActionModel::Discard,
                )
            },
            _ => (reg, st, ActionModel::Commit),
        },
        StateModel::Installed { jdk } => (reg, st, ActionModel::Done),
        StateModel::Failed { error } => (reg, st, ActionModel::Discard),
    }
}

/// Builds the deterministic install path of a build.
pub fn install_path_of(e: &CatalogEntry) -> (r: Vec<u8>)
    ensures
        r@ == spec_install_path(e@),
{
    let mut out: Vec<u8> = Vec::new();
    push_all(&mut out, &e.distribution);
    out.push(DASH);
    push_all(&mut out, &e.version);
    out.push(DASH);
    push_all(&mut out, &e.architecture);
    out.push(DASH);
    push_all(&mut out, &e.operating_system);
    proof {
        assert(out@ =~= spec_install_path(e@));
    }
    out
}

/// Builds the registry record of a completed install of `e`.
fn jdk_from_entry(e: &CatalogEntry, at: u64) -> (r: InstalledJdk)
    ensures
        r@ == spec_jdk_of(e@, at),
{
    let mut parts: Vec<u64> = Vec::new();
    let mut i: usize = 0;
    while i < e.version_parts.len()
        invariant
            0 <= i <= e.version_parts.len(),
            parts@ =~= e.version_parts@.take(i as int),
        decreases e.version_parts.len() - i,
    {
        parts.push(e.version_parts[i]);
        proof {
            assert(parts@ =~= e.version_parts@.take(i + 1));
        }
        i = i + 1;
    }
    proof {
        assert(e.version_parts@.take(i as int) =~= e.version_parts@);
    }
    InstalledJdk {
        distribution: clone_bytes(&e.distribution),
        version: clone_bytes(&e.version),
        version_parts: parts,
        architecture: clone_bytes(&e.architecture),
        operating_system: clone_bytes(&e.operating_system),
        install_path: install_path_of(e),
        installed_at: at,
        source_checksum: clone_bytes(&e.checksum_digest),
    }
}

/// How the outer loop learned of the remote feed.
pub enum FetchOutcome {
    /// The feed body arrived, under this tag.
    Feed { etag: Vec<u8>, body: Vec<u8> },
    /// The feed URL answered that no such resource exists: a likely
    /// catalog-feed break, not a transient failure.
    NotFound,
    /// A transient transport failure; safe to retry.
    Unreachable,
}

pub ghost enum FetchModel {
    Feed { etag: Seq<u8>, body: Seq<u8> },
    NotFound,
    Unreachable,
}

impl View for FetchOutcome {
    type V = FetchModel;

    open spec fn view(&self) -> FetchModel {
        match self {
            FetchOutcome::Feed { etag, body } => FetchModel::Feed { etag: etag@, body: body@ },
            FetchOutcome::NotFound => FetchModel::NotFound,
            FetchOutcome::Unreachable => FetchModel::Unreachable,
        }
    }
}

/// How an install request begins.
pub enum InstallStart {
    /// The resolved build is already installed; its record, unchanged.
    AlreadyInstalled { jdk: InstalledJdk },
    /// The resolved build must be fetched: the initial machine state and
    /// the first action.
    Begin { state: InstallState, action: InstallAction },
}

/// `m` answers the query and no other answer orders before it.
pub open spec fn is_best_entry(s: Seq<EntryModel>, q: QueryModel, m: EntryModel) -> bool {
    &&& matching_entries(s, q).contains(m)
    &&& forall|x: EntryModel| matching_entries(s, q).contains(x) ==> #[trigger] entry_le(m, x)
}

/// The manager: the catalog and registry it orchestrates.
pub struct Manager {
    pub catalog: Catalog,
    pub registry: Registry,
}

impl View for Manager {
    type V = ManagerModel;

    open spec fn view(&self) -> ManagerModel {
        ManagerModel { catalog: self.catalog@, registry: self.registry@ }
    }
}

impl Manager {
    pub fn new(catalog: Catalog, registry: Registry) -> (r: Manager)
        requires
            catalog_wf(catalog@),
            registry_wf(registry@),
        ensures
            r@.catalog == catalog@,
            r@.registry == registry@,
            manager_wf(r@),
    {
        Manager { catalog, registry }
    }

    /// A pure read over the registry: exactly the installed records
    /// answering the query, in the deterministic order. Both filters
    /// absent means all records.
    pub fn list(&self, q: &JdkQuery) -> (r: Vec<InstalledJdk>)
        ensures
            jdks_sorted(r.deep_view()),
            r.deep_view().to_multiset() == matching_jdks(self@.registry, q@).to_multiset(),
            forall|m: JdkModel| #[trigger] r.deep_view().contains(m) <==> matching_jdks(
                self@.registry,
                q@,
            ).contains(m),
    {
        resolve_jdks(&self.registry.records, q)
    }

    /// A pure read over the catalog: exactly the available builds
    /// answering the query, in the deterministic order. A search with
    /// neither filter is refused before any work is done.
    pub fn search(&self, q: &JdkQuery) -> (r: Result<Vec<CatalogEntry>, JoltError>)
        ensures
            (r is Err) <==> (q@.distribution is None && q@.version is None),
            r matches Err(e) ==> e == JoltError::AmbiguousFilter,
            r matches Ok(v) ==> entries_sorted(v.deep_view()) && v.deep_view().to_multiset()
                == matching_entries(self@.catalog.entries, q@).to_multiset() && (forall|
                m: EntryModel,
            |
                #[trigger] v.deep_view().contains(m) <==> matching_entries(
                    self@.catalog.entries,
                    q@,
                ).contains(m)),
    {
        let filtered = match (&q.distribution, &q.version) {
            (Option::None, Option::None) => {
                return Err(JoltError::AmbiguousFilter);
            },
            _ => resolve_entries(&self.catalog.entries, q),
        };
        Ok(filtered)
    }

    /// Refreshes the catalog from a fetched feed. The new snapshot
    /// replaces the old one only after the whole feed has parsed; any
    /// failure leaves the previous snapshot authoritative and untouched.
    /// The registry is never touched.
    pub fn update(&mut self, fetch: FetchOutcome, now: u64) -> (r: Result<
        UpdateSummary,
        JoltError,
    >)
        requires
            manager_wf(old(self)@),
        ensures
            manager_wf(final(self)@),
            final(self)@.registry == old(self)@.registry,
            r is Err ==> final(self)@.catalog == old(self)@.catalog,
            fetch@ is NotFound ==> r == Err::<UpdateSummary, JoltError>(JoltError::FeedMalformed),
            fetch@ is Unreachable ==> r == Err::<UpdateSummary, JoltError>(JoltError::Network),
            fetch@ matches FetchModel::Feed { etag, body } ==> {
                &&& (r is Ok) == (spec_refresh(old(self)@.catalog, body, etag, now) is Some)
                &&& r matches Ok(s) ==> Some(final(self)@.catalog) == spec_refresh(
                    old(self)@.catalog,
                    body,
                    etag,
                    now,
                ) && s.added as int == count_added(
                    final(self)@.catalog.entries,
                    old(self)@.catalog.entries,
                    0,
                ) && s.removed as int == count_added(
                    old(self)@.catalog.entries,
                    final(self)@.catalog.entries,
                    0,
                ) && s.changed as int == count_changed(
                    final(self)@.catalog.entries,
                    old(self)@.catalog.entries,
                    0,
                )
                &&& r matches Err(e) ==> e == JoltError::FeedMalformed
            },
    {
        match fetch {
            FetchOutcome::NotFound => Err(JoltError::FeedMalformed),
            FetchOutcome::Unreachable => Err(JoltError::Network),
            FetchOutcome::Feed { etag, body } => {
                match self.catalog.refresh(&body, &etag, now) {
                    Result::Err(e) => Err(e),
                    Result::Ok((newer, summary)) => {
                        self.catalog = newer;
                        Ok(summary)
                    },
                }
            },
        }
    }

    /// Resolves an install request. No match is an error; a build already
    /// installed under the resolved key short-circuits to its existing
    /// record, untouched; otherwise the install machine starts in
    /// `Downloading` with the entry's URL to fetch. Nothing is mutated.
    pub fn install_start(&self, distribution: &Vec<u8>, version: &Vec<u8>) -> (r: Result<
        InstallStart,
        JoltError,
    >)
        requires
            manager_wf(self@),
        ensures
            ({
                let q = QueryModel {
                    distribution: Some(distribution@),
                    version: Some(version@),
                };
                let ms = matching_entries(self@.catalog.entries, q);
                &&& (r is Err) <==> ms.len() == 0
                &&& r matches Err(e) ==> e == JoltError::NoMatch
                &&& r matches Ok(s) ==> match s {
                    InstallStart::AlreadyInstalled { jdk } => exists|i: int|
                        0 <= i < self@.registry.len() && #[trigger] self@.registry[i] == jdk@
                            && is_best_key(self@.catalog.entries, q, key_of_jdk(jdk@)),
                    InstallStart::Begin { state, action } => {
                        &&& state@ matches StateModel::Downloading { entry } && is_best_entry(
                            self@.catalog.entries,
                            q,
                            entry,
                        ) && entry_wf(entry) && (forall|j: int|
                            0 <= j < self@.registry.len() ==> !same_key(
                                key_of_jdk(#[trigger] self@.registry[j]),
                                key_of_entry(entry),
                            )) && action@ == (ActionModel::Download { url: entry.download_url })
                    },
                }
            }),
    {
        let q = JdkQuery {
            distribution: Some(clone_bytes(distribution)),
            version: Some(clone_bytes(version)),
        };
        let found = resolve_entries(&self.catalog.entries, &q);
        let ghost ms = matching_entries(self@.catalog.entries, q@);
        proof {
            broadcast use vstd::seq_lib::group_to_multiset_ensures;

        }
        if found.len() == 0 {
            proof {
                assert(found.deep_view().to_multiset().len() == 0);
                assert(ms.to_multiset().len() == ms.len());
            }
            return Err(JoltError::NoMatch);
        }
        let best = &found[0];
        proof {
            let fdv = found.deep_view();
            assert(fdv.contains(fdv[0]));
            assert(fdv.to_multiset().count(fdv[0]) > 0);
            assert(ms.to_multiset().len() == ms.len());
            assert(ms.contains(best@));
            assert forall|x: EntryModel| matching_entries(
                self@.catalog.entries,
                q@,
            ).contains(x) implies #[trigger] entry_le(best@, x) by {
                assert(ms.to_multiset().count(x) > 0);
                assert(fdv.contains(x));
                let ix = choose|ix: int| 0 <= ix < fdv.len() && fdv[ix] == x;
                if ix == 0 {
                    lemma_key_cmp_self(key_of_entry(best@));
                } else {
                    assert(entry_le(fdv[0], fdv[ix]));
                }
            }
            assert(is_best_entry(self@.catalog.entries, q@, best@));
        }
        match self.registry.find_entry(best) {
            Option::Some(i) => {
                let jdk = self.registry.records[i].duplicate();
                proof {
                    assert(self@.registry[i as int] == jdk@);
                    lemma_same_key_best(self@.catalog.entries, q@, best@, key_of_jdk(jdk@));
                }
                Ok(InstallStart::AlreadyInstalled { jdk })
            },
            Option::None => {
                let url = clone_bytes(&best.download_url);
                let entry = best.duplicate();
                proof {
                    lemma_best_entry_wf(self@.catalog.entries, q@, best@);
                }
                Ok(
                    InstallStart::Begin {
                        state: InstallState::Downloading { entry },
                        action: InstallAction::Download { url },
                    },
                )
            },
        }
    }

    /// Takes one step of the install machine. The catalog is never
    /// touched; the registry changes on exactly the transition that
    /// reaches `Installed`, and keeps its invariant.
    pub fn install_step(&mut self, st: InstallState, ev: InstallEvent) -> (r: (
        InstallState,
        InstallAction,
    ))
        requires
            manager_wf(old(self)@),
            state_wf(st@),
        ensures
            manager_wf(final(self)@),
            final(self)@.catalog == old(self)@.catalog,
            ({
                let (nr, ns, na) = spec_install_step(old(self)@.registry, st@, ev@);
                final(self)@.registry == nr && r.0@ == ns && r.1@ == na
            }),
            state_wf(r.0@),
            !(r.0@ is Installed) ==> final(self)@.registry == old(self)@.registry,
    {
        match st {
            InstallState::Downloading { entry } => match ev {
                InstallEvent::Fetched { digest } => (
                    InstallState::Verifying { entry, digest },
                    InstallAction::VerifyChecksum,
                ),
                InstallEvent::FetchFailed => (
                    InstallState::Failed { error: JoltError::Network },
                    InstallAction::Discard,
                ),
                _ => {
                    let url = clone_bytes(&entry.download_url);
                    (InstallState::Downloading { entry }, InstallAction::Download { url })
                },
            },
            InstallState::Verifying { entry, digest } => match ev {
                InstallEvent::Proceed => {
                    if crate::text::eq_bytes(&digest, &entry.checksum_digest) {
                        let install_path = install_path_of(&entry);
                        (
                            InstallState::Extracting { entry },
                            InstallAction::Extract { install_path },
                        )
                    } else {
                        (
                            InstallState::Failed { error: JoltError::ChecksumMismatch },
                            InstallAction::Discard,
                        )
                    }
                },
                _ => (InstallState::Verifying { entry, digest }, InstallAction::VerifyChecksum),
            },
            InstallState::Extracting { entry } => match ev {
                InstallEvent::Extracted { path_present, installed_at } => (
                    InstallState::Registering { entry, path_present, installed_at },
                    InstallAction::Commit,
                ),
                InstallEvent::ExtractFailed => (
                    InstallState::Failed { error: JoltError::Extraction },
                    InstallAction::Discard,
                ),
                _ => {
                    let install_path = install_path_of(&entry);
                    (InstallState::Extracting { entry }, InstallAction::Extract { install_path })
                },
            },
            InstallState::Registering { entry, path_present, installed_at } => match ev {
                InstallEvent::Proceed => {
                    if path_present {
                        let jdk = jdk_from_entry(&entry, installed_at);
                        proof {
                            lemma_jdk_of_wf(entry@, installed_at);
                        }
                        let record = jdk.duplicate();
                        let res = self.registry.register(jdk, true);
                        (InstallState::Installed { jdk: record }, InstallAction::Done)
                    } else {
                        (
                            InstallState::Failed { error: JoltError::PathMissing },
                            InstallAction::Discard,
                        )
                    }
                },
                _ => (
                    InstallState::Registering { entry, path_present, installed_at },
                    InstallAction::Commit,
                ),
            },
            InstallState::Installed { jdk } => (
                InstallState::Installed { jdk },
                InstallAction::Done,
            ),
            InstallState::Failed { error } => (
                InstallState::Failed { error },
                InstallAction::Discard,
            ),
        }
    }
}

/// A key equal to the best answer's key.
pub open spec fn is_best_key(s: Seq<EntryModel>, q: QueryModel, k: KeyModel) -> bool {
    exists|m: EntryModel| #[trigger] is_best_entry(s, q, m) && same_key(k, key_of_entry(m))
}

proof fn lemma_same_key_best(s: Seq<EntryModel>, q: QueryModel, m: EntryModel, k: KeyModel)
    requires
        is_best_entry(s, q, m),
        same_key(k, key_of_entry(m)),
    ensures
        is_best_key(s, q, k),
{
}

/// A matching entry of a well-formed catalog is well-formed.
proof fn lemma_best_entry_wf(s: Seq<EntryModel>, q: QueryModel, m: EntryModel)
    requires
        forall|i: int| 0 <= i < s.len() ==> entry_wf(#[trigger] s[i]),
        matching_entries(s, q).contains(m),
    ensures
        entry_wf(m),
    decreases s.len(),
{
    if s.len() > 0 {
        if query_matches(key_of_entry(s[0]), q) {
            let rest = matching_entries(s.drop_first(), q);
            if m == s[0] {
            } else {
                assert((seq![s[0]] + rest).contains(m));
                let ix = choose|ix: int| 0 <= ix < (seq![s[0]] + rest).len() && (seq![s[0]]
                    + rest)[ix] == m;
                assert(rest[ix - 1] == m);
                assert(rest.contains(m));
                assert(forall|i: int|
                    0 <= i < s.drop_first().len() ==> entry_wf(#[trigger] s.drop_first()[i]));
                lemma_best_entry_wf(s.drop_first(), q, m);
            }
        } else {
            assert(forall|i: int|
                0 <= i < s.drop_first().len() ==> entry_wf(#[trigger] s.drop_first()[i]));
            lemma_best_entry_wf(s.drop_first(), q, m);
        }
    }
}

/// A whole run of the install machine: the registry and state after the
/// events from position `i` on have been fed in turn.
pub open spec fn spec_install_run(
    reg: Seq<JdkModel>,
    st: StateModel,
    evs: Seq<EventModel>,
    i: int,
) -> (Seq<JdkModel>, StateModel)
    decreases evs.len() - i,
{
    if i >= evs.len() {
        (reg, st)
    } else {
        let (r1, s1, a1) = spec_install_step(reg, st, evs[i]);
        spec_install_run(r1, s1, evs, i + 1)
    }
}

/// An installed request is finished: later events change nothing.
pub proof fn lemma_installed_absorbing(
    reg: Seq<JdkModel>,
    jdk: JdkModel,
    evs: Seq<EventModel>,
    i: int,
)
    ensures
        spec_install_run(reg, StateModel::Installed { jdk }, evs, i) == (
            reg,
            StateModel::Installed { jdk },
        ),
    decreases evs.len() - i,
{
    if i < evs.len() {
        lemma_installed_absorbing(reg, jdk, evs, i + 1);
    }
}

/// A failed request stays failed and never touches the registry.
pub proof fn lemma_failed_absorbing(
    reg: Seq<JdkModel>,
    error: JoltError,
    evs: Seq<EventModel>,
    i: int,
)
    ensures
        spec_install_run(reg, StateModel::Failed { error }, evs, i) == (
            reg,
            StateModel::Failed { error },
        ),
    decreases evs.len() - i,
{
    if i < evs.len() {
        lemma_failed_absorbing(reg, error, evs, i + 1);
    }
}

/// Atomicity under interruption: however an install run is cut short or
/// fails -- after the download, before the final rename, anywhere -- if it
/// did not end in `Installed`, the registry is exactly what it was before
/// the request began.
pub proof fn lemma_install_atomic(
    reg: Seq<JdkModel>,
    st: StateModel,
    evs: Seq<EventModel>,
    i: int,
)
    requires
        !(st is Installed),
    ensures
        !(spec_install_run(reg, st, evs, i).1 is Installed) ==> spec_install_run(
            reg,
            st,
            evs,
            i,
        ).0 == reg,
    decreases evs.len() - i,
{
    if i < evs.len() {
        let (r1, s1, a1) = spec_install_step(reg, st, evs[i]);
        if let StateModel::Installed { jdk } = s1 {
            lemma_installed_absorbing(r1, jdk, evs, i + 1);
        } else {
            assert(r1 == reg);
            lemma_install_atomic(r1, s1, evs, i + 1);
        }
    }
}

/// Checksum enforcement: from a verifying state whose computed digest does
/// not match the entry's checksum, no continuation ever installs anything
/// or touches the registry; the first internal step lands in
/// `Failed(ChecksumMismatch)` and stays there.
pub proof fn lemma_checksum_enforced(
    reg: Seq<JdkModel>,
    e: EntryModel,
    digest: Seq<u8>,
    evs: Seq<EventModel>,
    i: int,
)
    requires
        digest != e.checksum_digest,
    ensures
        ({
            let (nr, ns) = spec_install_run(
                reg,
                StateModel::Verifying { entry: e, digest },
                evs,
                i,
            );
            &&& nr == reg
            &&& ns == StateModel::Verifying { entry: e, digest } || ns == (
                StateModel::Failed { error: JoltError::ChecksumMismatch })
        }),
    decreases evs.len() - i,
{
    if i < evs.len() {
        if evs[i] is Proceed {
            lemma_failed_absorbing(reg, JoltError::ChecksumMismatch, evs, i + 1);
        } else {
            lemma_checksum_enforced(reg, e, digest, evs, i + 1);
        }
    }
}

/// Idempotent install: completing an install of `e` on a registry without
/// its key appends exactly one record, whose install path is the
/// deterministic path of `e` whatever the wall clock said; a repeat
/// install finds that record under the key, and even a forced re-commit
/// would replace it rather than add a second one.
pub proof fn lemma_install_idempotent(reg: Seq<JdkModel>, e: EntryModel, at: u64, at2: u64)
    requires
        registry_wf(reg),
        entry_wf(e),
        forall|j: int|
            0 <= j < reg.len() ==> !same_key(key_of_jdk(#[trigger] reg[j]), key_of_entry(e)),
    ensures
        ({
            let first = spec_jdk_of(e, at);
            let reg1 = spec_upsert(reg, first);
            &&& reg1 == reg.push(first)
            &&& reg1[reg.len() as int].install_path == spec_install_path(e)
            &&& spec_jdk_of(e, at2).install_path == spec_install_path(e)
            &&& find_jdk_key(reg1, key_of_jdk(spec_jdk_of(e, at2)), 0) == reg.len()
            &&& spec_upsert(reg1, spec_jdk_of(e, at2)) == reg1.update(
                reg.len() as int,
                spec_jdk_of(e, at2),
            )
        }),
{
    let first = spec_jdk_of(e, at);
    let second = spec_jdk_of(e, at2);
    lemma_jdk_of_wf(e, at);
    lemma_jdk_of_wf(e, at2);
    lemma_find_jdk_key_range(reg, key_of_jdk(first), 0);
    let f0 = find_jdk_key(reg, key_of_jdk(first), 0);
    if f0 < reg.len() {
        assert(same_key(key_of_jdk(reg[f0]), key_of_jdk(first)));
        assert(!same_key(key_of_jdk(reg[f0]), key_of_entry(e)));
        assert(false);
    }
    let reg1 = spec_upsert(reg, first);
    assert(reg1 == reg.push(first));
    lemma_find_jdk_key_range(reg1, key_of_jdk(second), 0);
    let f1 = find_jdk_key(reg1, key_of_jdk(second), 0);
    assert(same_key(key_of_jdk(reg1[reg.len() as int]), key_of_jdk(second)));
    if f1 < reg.len() as int {
        assert(reg1[f1] == reg[f1]);
        assert(!same_key(key_of_jdk(reg[f1]), key_of_entry(e)));
        assert(false);
    }
    assert(f1 == reg.len());
}

} // verus!
