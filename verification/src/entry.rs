//! The two record types of the manager: a catalog entry describing an
//! available JDK build, and an installed-JDK record. Records are keyed by
//! (distribution, version, architecture, operating system); a deterministic
//! total order on keys sorts by distribution ascending, then version
//! descending, then architecture and operating system ascending.

use vstd::prelude::*;
use crate::text::{
    lex_cmp, seq_u8_int, seq_u64_int, spec_lower, is_clean, lemma_lex_cmp_trans,
    lemma_lex_cmp_zero, lemma_lex_cmp_antisym, cmp_bytes, cmp_u64s, lower_bytes, check_clean,
    clone_bytes,
};
use crate::version::spec_version_parts;

verus! {

/// The mathematical value of a catalog entry.
pub ghost struct EntryModel {
    pub distribution: Seq<u8>,
    pub version: Seq<u8>,
    pub version_parts: Seq<u64>,
    pub architecture: Seq<u8>,
    pub operating_system: Seq<u8>,
    pub download_url: Seq<u8>,
    pub checksum_algorithm: Seq<u8>,
    pub checksum_digest: Seq<u8>,
    pub file_size: u64,
}

/// The mathematical value of an installed-JDK record.
pub ghost struct JdkModel {
    pub distribution: Seq<u8>,
    pub version: Seq<u8>,
    pub version_parts: Seq<u64>,
    pub architecture: Seq<u8>,
    pub operating_system: Seq<u8>,
    pub install_path: Seq<u8>,
    pub installed_at: u64,
    pub source_checksum: Seq<u8>,
}

/// The natural key of either record, with the parsed version components
/// carried along for ordering and matching.
pub ghost struct KeyModel {
    pub distribution: Seq<u8>,
    pub version: Seq<u8>,
    pub version_parts: Seq<u64>,
    pub architecture: Seq<u8>,
    pub operating_system: Seq<u8>,
}

/// An available JDK build as listed in the catalog.
pub struct CatalogEntry {
    pub distribution: Vec<u8>,
    pub version: Vec<u8>,
    pub version_parts: Vec<u64>,
    pub architecture: Vec<u8>,
    pub operating_system: Vec<u8>,
    pub download_url: Vec<u8>,
    pub checksum_algorithm: Vec<u8>,
    pub checksum_digest: Vec<u8>,
    pub file_size: u64,
}

impl View for CatalogEntry {
    type V = EntryModel;

    open spec fn view(&self) -> EntryModel {
        EntryModel {
            distribution: self.distribution@,
            version: self.version@,
            version_parts: self.version_parts@,
            architecture: self.architecture@,
            operating_system: self.operating_system@,
            download_url: self.download_url@,
            checksum_algorithm: self.checksum_algorithm@,
            checksum_digest: self.checksum_digest@,
            file_size: self.file_size,
        }
    }
}

impl DeepView for CatalogEntry {
    type V = EntryModel;

    open spec fn deep_view(&self) -> EntryModel {
        self.view()
    }
}

/// A JDK recorded as installed on disk.
pub struct InstalledJdk {
    pub distribution: Vec<u8>,
    pub version: Vec<u8>,
    pub version_parts: Vec<u64>,
    pub architecture: Vec<u8>,
    pub operating_system: Vec<u8>,
    pub install_path: Vec<u8>,
    pub installed_at: u64,
    pub source_checksum: Vec<u8>,
}

impl View for InstalledJdk {
    type V = JdkModel;

    open spec fn view(&self) -> JdkModel {
        JdkModel {
            distribution: self.distribution@,
            version: self.version@,
            version_parts: self.version_parts@,
            architecture: self.architecture@,
            operating_system: self.operating_system@,
            install_path: self.install_path@,
            installed_at: self.installed_at,
            source_checksum: self.source_checksum@,
        }
    }
}

impl DeepView for InstalledJdk {
    type V = JdkModel;

    open spec fn deep_view(&self) -> JdkModel {
        self.view()
    }
}

/// Internal consistency of a catalog entry: the distribution is normalized
/// to lowercase, the version token parses to the carried components, every
/// field fits on a record line, and no required field is empty.
pub open spec fn entry_wf(m: EntryModel) -> bool {
    &&& spec_version_parts(m.version) == Some(m.version_parts)
    &&& m.distribution == spec_lower(m.distribution)
    &&& m.distribution.len() > 0
    &&& m.architecture.len() > 0
    &&& m.operating_system.len() > 0
    &&& m.download_url.len() > 0
    &&& m.checksum_algorithm.len() > 0
    &&& m.checksum_digest.len() > 0
    &&& is_clean(m.distribution)
    &&& is_clean(m.version)
    &&& is_clean(m.architecture)
    &&& is_clean(m.operating_system)
    &&& is_clean(m.download_url)
    &&& is_clean(m.checksum_algorithm)
    &&& is_clean(m.checksum_digest)
}

/// Internal consistency of an installed-JDK record.
pub open spec fn jdk_wf(m: JdkModel) -> bool {
    &&& spec_version_parts(m.version) == Some(m.version_parts)
    &&& m.distribution == spec_lower(m.distribution)
    &&& m.distribution.len() > 0
    &&& m.architecture.len() > 0
    &&& m.operating_system.len() > 0
    &&& m.install_path.len() > 0
    &&& m.source_checksum.len() > 0
    &&& is_clean(m.distribution)
    &&& is_clean(m.version)
    &&& is_clean(m.architecture)
    &&& is_clean(m.operating_system)
    &&& is_clean(m.install_path)
    &&& is_clean(m.source_checksum)
}

pub open spec fn key_of_entry(m: EntryModel) -> KeyModel {
    KeyModel {
        distribution: m.distribution,
        version: m.version,
        version_parts: m.version_parts,
        architecture: m.architecture,
        operating_system: m.operating_system,
    }
}

pub open spec fn key_of_jdk(m: JdkModel) -> KeyModel {
    KeyModel {
        distribution: m.distribution,
        version: m.version,
        version_parts: m.version_parts,
        architecture: m.architecture,
        operating_system: m.operating_system,
    }
}

/// Two records answer the same query slot when the four key fields agree.
pub open spec fn same_key(a: KeyModel, b: KeyModel) -> bool {
    a.distribution == b.distribution && a.version == b.version && a.architecture
        == b.architecture && a.operating_system == b.operating_system
}

/// Three-way comparison giving the resolver's deterministic output order:
/// distribution ascending, version descending (numerically, the latest
/// build first), then version token, architecture and operating system
/// ascending as tie-breaks.
pub open spec fn key_cmp(a: KeyModel, b: KeyModel) -> int {
    let d = lex_cmp(seq_u8_int(a.distribution), seq_u8_int(b.distribution));
    let p = lex_cmp(seq_u64_int(b.version_parts), seq_u64_int(a.version_parts));
    let v = lex_cmp(seq_u8_int(a.version), seq_u8_int(b.version));
    let r = lex_cmp(seq_u8_int(a.architecture), seq_u8_int(b.architecture));
    let o = lex_cmp(seq_u8_int(a.operating_system), seq_u8_int(b.operating_system));
    if d != 0 {
        d
    } else if p != 0 {
        p
    } else if v != 0 {
        v
    } else if r != 0 {
        r
    } else {
        o
    }
}

pub open spec fn key_le(a: KeyModel, b: KeyModel) -> bool {
    key_cmp(a, b) <= 0
}

/// A chained lexicographic comparison is transitive, and lands on zero only
/// when both links were zero.
proof fn lemma_lex_chain(a: Seq<int>, b: Seq<int>, c: Seq<int>)
    requires
        lex_cmp(a, b) <= 0,
        lex_cmp(b, c) <= 0,
    ensures
        lex_cmp(a, c) <= 0,
        lex_cmp(a, c) == 0 ==> lex_cmp(a, b) == 0 && lex_cmp(b, c) == 0,
{
    lemma_lex_cmp_trans(a, b, c);
    if lex_cmp(a, c) == 0 {
        lemma_lex_cmp_zero(a, c);
        lemma_lex_cmp_antisym(a, b);
        lemma_lex_cmp_zero(a, b);
        lemma_lex_cmp_zero(b, c);
    }
}

pub proof fn lemma_key_cmp_antisym(a: KeyModel, b: KeyModel)
    ensures
        key_cmp(a, b) == -key_cmp(b, a),
{
    lemma_lex_cmp_antisym(seq_u8_int(a.distribution), seq_u8_int(b.distribution));
    lemma_lex_cmp_antisym(seq_u64_int(b.version_parts), seq_u64_int(a.version_parts));
    lemma_lex_cmp_antisym(seq_u8_int(a.version), seq_u8_int(b.version));
    lemma_lex_cmp_antisym(seq_u8_int(a.architecture), seq_u8_int(b.architecture));
    lemma_lex_cmp_antisym(seq_u8_int(a.operating_system), seq_u8_int(b.operating_system));
}

/// A key orders at par with itself.
pub proof fn lemma_key_cmp_self(a: KeyModel)
    ensures
        key_cmp(a, a) == 0,
{
    lemma_lex_cmp_zero(seq_u8_int(a.distribution), seq_u8_int(a.distribution));
    lemma_lex_cmp_zero(seq_u64_int(a.version_parts), seq_u64_int(a.version_parts));
    lemma_lex_cmp_zero(seq_u8_int(a.version), seq_u8_int(a.version));
    lemma_lex_cmp_zero(seq_u8_int(a.architecture), seq_u8_int(a.architecture));
    lemma_lex_cmp_zero(seq_u8_int(a.operating_system), seq_u8_int(a.operating_system));
}

pub proof fn lemma_key_le_total(a: KeyModel, b: KeyModel)
    ensures
        key_le(a, b) || key_le(b, a),
{
    lemma_key_cmp_antisym(a, b);
}

pub proof fn lemma_key_le_trans(a: KeyModel, b: KeyModel, c: KeyModel)
    requires
        key_le(a, b),
        key_le(b, c),
    ensures
        key_le(a, c),
{
    lemma_lex_chain(seq_u8_int(a.distribution), seq_u8_int(b.distribution), seq_u8_int(c.distribution));
    if lex_cmp(seq_u8_int(a.distribution), seq_u8_int(c.distribution)) == 0 {
        lemma_lex_chain(
            seq_u64_int(c.version_parts),
            seq_u64_int(b.version_parts),
            seq_u64_int(a.version_parts),
        );
        if lex_cmp(seq_u64_int(c.version_parts), seq_u64_int(a.version_parts)) == 0 {
            lemma_lex_chain(seq_u8_int(a.version), seq_u8_int(b.version), seq_u8_int(c.version));
            if lex_cmp(seq_u8_int(a.version), seq_u8_int(c.version)) == 0 {
                lemma_lex_chain(
                    seq_u8_int(a.architecture),
                    seq_u8_int(b.architecture),
                    seq_u8_int(c.architecture),
                );
                if lex_cmp(seq_u8_int(a.architecture), seq_u8_int(c.architecture)) == 0 {
                    lemma_lex_chain(
                        seq_u8_int(a.operating_system),
                        seq_u8_int(b.operating_system),
                        seq_u8_int(c.operating_system),
                    );
                }
            }
        }
    }
}

impl CatalogEntry {
    /// The resolver's order, as an executable three-way comparison.
    pub fn cmp_order(&self, other: &Self) -> (r: i32)
        ensures
            r as int == key_cmp(key_of_entry(self@), key_of_entry(other@)),
    {
        let d = cmp_bytes(&self.distribution, &other.distribution);
        if d != 0 {
            return d;
        }
        let p = cmp_u64s(&other.version_parts, &self.version_parts);
        if p != 0 {
            return p;
        }
        let v = cmp_bytes(&self.version, &other.version);
        if v != 0 {
            return v;
        }
        let r = cmp_bytes(&self.architecture, &other.architecture);
        if r != 0 {
            return r;
        }
        cmp_bytes(&self.operating_system, &other.operating_system)
    }

    /// A field-for-field copy.
    pub fn duplicate(&self) -> (r: Self)
        ensures
            r@ == self@,
    {
        let mut parts: Vec<u64> = Vec::new();
        let mut i: usize = 0;
        while i < self.version_parts.len()
            invariant
                0 <= i <= self.version_parts.len(),
                parts@ =~= self.version_parts@.take(i as int),
            decreases self.version_parts.len() - i,
        {
            parts.push(self.version_parts[i]);
            proof {
                assert(parts@ =~= self.version_parts@.take(i + 1));
            }
            i = i + 1;
        }
        proof {
            assert(self.version_parts@.take(i as int) =~= self.version_parts@);
        }
        CatalogEntry {
            distribution: clone_bytes(&self.distribution),
            version: clone_bytes(&self.version),
            version_parts: parts,
            architecture: clone_bytes(&self.architecture),
            operating_system: clone_bytes(&self.operating_system),
            download_url: clone_bytes(&self.download_url),
            checksum_algorithm: clone_bytes(&self.checksum_algorithm),
            checksum_digest: clone_bytes(&self.checksum_digest),
            file_size: self.file_size,
        }
    }

    /// Builds a catalog entry from raw fields: the distribution is
    /// lowercased, the version token is parsed, and every field is checked
    /// to be non-empty (the version's own check is that it parses) and free
    /// of record separators.
    pub fn assemble(
        distribution: Vec<u8>,
        version: Vec<u8>,
        architecture: Vec<u8>,
        operating_system: Vec<u8>,
        download_url: Vec<u8>,
        checksum_algorithm: Vec<u8>,
        checksum_digest: Vec<u8>,
        file_size: u64,
    ) -> (r: Option<CatalogEntry>)
        ensures
            r.deep_view() == spec_assemble_entry(
                distribution@,
                version@,
                architecture@,
                operating_system@,
                download_url@,
                checksum_algorithm@,
                checksum_digest@,
                file_size,
            ),
            r is Some ==> entry_wf(r.unwrap()@),
    {
        let ok = distribution.len() > 0 && architecture.len() > 0 && operating_system.len() > 0
            && download_url.len() > 0 && checksum_algorithm.len() > 0 && checksum_digest.len() > 0
            && check_clean(&distribution) && check_clean(&version) && check_clean(&architecture)
            && check_clean(&operating_system) && check_clean(&download_url) && check_clean(
            &checksum_algorithm,
        ) && check_clean(&checksum_digest);
        if !ok {
            return None;
        }
        match crate::version::parse_version(&version) {
            Option::None => None,
            Option::Some(parts) => {
                let lowered = lower_bytes(&distribution);
                proof {
                    lemma_lower_clean(distribution@);
                    lemma_lower_idempotent(distribution@);
                    assert(parts.deep_view() =~= parts@);
                }
                Some(
                    CatalogEntry {
                        distribution: lowered,
                        version,
                        version_parts: parts,
                        architecture,
                        operating_system,
                        download_url,
                        checksum_algorithm,
                        checksum_digest,
                        file_size,
                    },
                )
            },
        }
    }
}

/// What `CatalogEntry::assemble` yields from raw fields.
pub open spec fn spec_assemble_entry(
    d: Seq<u8>,
    v: Seq<u8>,
    a: Seq<u8>,
    o: Seq<u8>,
    u: Seq<u8>,
    alg: Seq<u8>,
    dig: Seq<u8>,
    size: u64,
) -> Option<EntryModel> {
    if d.len() > 0 && a.len() > 0 && o.len() > 0 && u.len() > 0 && alg.len() > 0 && dig.len() > 0
        && is_clean(d) && is_clean(v) && is_clean(a) && is_clean(o) && is_clean(u) && is_clean(alg)
        && is_clean(dig) {
        match spec_version_parts(v) {
            Option::None => Option::None,
            Option::Some(parts) => Some(
                EntryModel {
                    distribution: spec_lower(d),
                    version: v,
                    version_parts: parts,
                    architecture: a,
                    operating_system: o,
                    download_url: u,
                    checksum_algorithm: alg,
                    checksum_digest: dig,
                    file_size: size,
                },
            ),
        }
    } else {
        Option::None
    }
}

/// Lowercasing touches only letter bytes, so separator-freedom survives it.
pub proof fn lemma_lower_clean(s: Seq<u8>)
    ensures
        is_clean(spec_lower(s)) == is_clean(s),
{
    let t = spec_lower(s);
    if is_clean(s) {
        assert forall|i: int| 0 <= i < t.len() implies t[i] != crate::text::TAB && t[i]
            != crate::text::NEWLINE by {
            assert(t[i] == crate::text::lower_byte(s[i]));
        }
    }
    if is_clean(t) {
        assert forall|i: int| 0 <= i < s.len() implies s[i] != crate::text::TAB && s[i]
            != crate::text::NEWLINE by {
            assert(t[i] == crate::text::lower_byte(s[i]));
        }
    }
}

/// Lowercasing is idempotent.
pub proof fn lemma_lower_idempotent(s: Seq<u8>)
    ensures
        spec_lower(spec_lower(s)) == spec_lower(s),
{
    assert(spec_lower(spec_lower(s)) =~= spec_lower(s));
}

impl InstalledJdk {
    /// The resolver's order, as an executable three-way comparison.
    pub fn cmp_order(&self, other: &Self) -> (r: i32)
        ensures
            r as int == key_cmp(key_of_jdk(self@), key_of_jdk(other@)),
    {
        let d = cmp_bytes(&self.distribution, &other.distribution);
        if d != 0 {
            return d;
        }
        let p = cmp_u64s(&other.version_parts, &self.version_parts);
        if p != 0 {
            return p;
        }
        let v = cmp_bytes(&self.version, &other.version);
        if v != 0 {
            return v;
        }
        let r = cmp_bytes(&self.architecture, &other.architecture);
        if r != 0 {
            return r;
        }
        cmp_bytes(&self.operating_system, &other.operating_system)
    }

    /// A field-for-field copy.
    pub fn duplicate(&self) -> (r: Self)
        ensures
            r@ == self@,
    {
        let mut parts: Vec<u64> = Vec::new();
        let mut i: usize = 0;
        while i < self.version_parts.len()
            invariant
                0 <= i <= self.version_parts.len(),
                parts@ =~= self.version_parts@.take(i as int),
            decreases self.version_parts.len() - i,
        {
            parts.push(self.version_parts[i]);
            proof {
                assert(parts@ =~= self.version_parts@.take(i + 1));
            }
            i = i + 1;
        }
        proof {
            assert(self.version_parts@.take(i as int) =~= self.version_parts@);
        }
        InstalledJdk {
            distribution: clone_bytes(&self.distribution),
            version: clone_bytes(&self.version),
            version_parts: parts,
            architecture: clone_bytes(&self.architecture),
            operating_system: clone_bytes(&self.operating_system),
            install_path: clone_bytes(&self.install_path),
            installed_at: self.installed_at,
            source_checksum: clone_bytes(&self.source_checksum),
        }
    }

    /// Builds an installed-JDK record from raw fields, with the same
    /// normalization and checks as `CatalogEntry::assemble`.
    pub fn assemble(
        distribution: Vec<u8>,
        version: Vec<u8>,
        architecture: Vec<u8>,
        operating_system: Vec<u8>,
        install_path: Vec<u8>,
        installed_at: u64,
        source_checksum: Vec<u8>,
    ) -> (r: Option<InstalledJdk>)
        ensures
            r.deep_view() == spec_assemble_jdk(
                distribution@,
                version@,
                architecture@,
                operating_system@,
                install_path@,
                installed_at,
                source_checksum@,
            ),
            r is Some ==> jdk_wf(r.unwrap()@),
    {
        let ok = distribution.len() > 0 && architecture.len() > 0 && operating_system.len() > 0
            && install_path.len() > 0 && source_checksum.len() > 0 && check_clean(&distribution)
            && check_clean(&version) && check_clean(&architecture) && check_clean(
            &operating_system,
        ) && check_clean(&install_path) && check_clean(&source_checksum);
        if !ok {
            return None;
        }
        match crate::version::parse_version(&version) {
            Option::None => None,
            Option::Some(parts) => {
                let lowered = lower_bytes(&distribution);
                proof {
                    lemma_lower_clean(distribution@);
                    lemma_lower_idempotent(distribution@);
                    assert(parts.deep_view() =~= parts@);
                }
                Some(
                    InstalledJdk {
                        distribution: lowered,
                        version,
                        version_parts: parts,
                        architecture,
                        operating_system,
                        install_path,
                        installed_at,
                        source_checksum,
                    },
                )
            },
        }
    }
}

/// What `InstalledJdk::assemble` yields from raw fields.
pub open spec fn spec_assemble_jdk(
    d: Seq<u8>,
    v: Seq<u8>,
    a: Seq<u8>,
    o: Seq<u8>,
    path: Seq<u8>,
    at: u64,
    checksum: Seq<u8>,
) -> Option<JdkModel> {
    if d.len() > 0 && a.len() > 0 && o.len() > 0 && path.len() > 0 && checksum.len() > 0
        && is_clean(d) && is_clean(v) && is_clean(a) && is_clean(o) && is_clean(path) && is_clean(
        checksum,
    ) {
        match spec_version_parts(v) {
            Option::None => Option::None,
            Option::Some(parts) => Some(
                JdkModel {
                    distribution: spec_lower(d),
                    version: v,
                    version_parts: parts,
                    architecture: a,
                    operating_system: o,
                    install_path: path,
                    installed_at: at,
                    source_checksum: checksum,
                },
            ),
        }
    } else {
        Option::None
    }
}

} // verus!
