//! The line format shared by the remote feed, the catalog cache and the
//! registry index: one record per line, fields separated by tabs, blank
//! lines ignored. A catalog record carries distribution, version,
//! architecture, operating system, download URL, checksum algorithm,
//! checksum digest and file size; an installed record carries distribution,
//! version, architecture, operating system, install path, install time and
//! source checksum.

use vstd::prelude::*;
use crate::entry::{
    CatalogEntry, InstalledJdk, EntryModel, JdkModel, key_of_entry, key_of_jdk, same_key,
    spec_assemble_entry, spec_assemble_jdk,
};
use crate::text::{
    spec_split, spec_drop_empty, spec_parse_u64, spec_render_u64, split_bytes, drop_empty,
    parse_u64, render_u64, clone_bytes, push_all, eq_bytes, TAB, NEWLINE,
};

verus! {

/// One catalog record, parsed from its tab-separated fields.
pub open spec fn spec_parse_entry_fields(fields: Seq<Seq<u8>>) -> Option<EntryModel> {
    if fields.len() != 8 {
        Option::None
    } else {
        match spec_parse_u64(fields[7]) {
            Option::None => Option::None,
            Option::Some(size) => spec_assemble_entry(
                fields[0],
                fields[1],
                fields[2],
                fields[3],
                fields[4],
                fields[5],
                fields[6],
                size,
            ),
        }
    }
}

pub open spec fn spec_parse_entry_line(line: Seq<u8>) -> Option<EntryModel> {
    spec_parse_entry_fields(spec_split(line, TAB))
}

/// The catalog records on `lines` from position `i` on; `None` as soon as
/// any single line is malformed.
pub open spec fn spec_parse_entry_lines(lines: Seq<Seq<u8>>, i: int) -> Option<Seq<EntryModel>>
    decreases lines.len() - i,
{
    if i >= lines.len() {
        Some(Seq::empty())
    } else {
        match spec_parse_entry_line(lines[i]) {
            Option::None => Option::None,
            Option::Some(m) => match spec_parse_entry_lines(lines, i + 1) {
                Option::None => Option::None,
                Option::Some(rest) => Some(seq![m] + rest),
            },
        }
    }
}

/// A whole feed: every non-blank line must be a catalog record.
pub open spec fn spec_parse_feed(s: Seq<u8>) -> Option<Seq<EntryModel>> {
    spec_parse_entry_lines(spec_drop_empty(spec_split(s, NEWLINE)), 0)
}

/// One installed record, parsed from its tab-separated fields.
pub open spec fn spec_parse_jdk_fields(fields: Seq<Seq<u8>>) -> Option<JdkModel> {
    if fields.len() != 7 {
        Option::None
    } else {
        match spec_parse_u64(fields[5]) {
            Option::None => Option::None,
            Option::Some(at) => spec_assemble_jdk(
                fields[0],
                fields[1],
                fields[2],
                fields[3],
                fields[4],
                at,
                fields[6],
            ),
        }
    }
}

pub open spec fn spec_parse_jdk_line(line: Seq<u8>) -> Option<JdkModel> {
    spec_parse_jdk_fields(spec_split(line, TAB))
}

/// The installed records on `lines` from position `i` on.
pub open spec fn spec_parse_jdk_lines(lines: Seq<Seq<u8>>, i: int) -> Option<Seq<JdkModel>>
    decreases lines.len() - i,
{
    if i >= lines.len() {
        Some(Seq::empty())
    } else {
        match spec_parse_jdk_line(lines[i]) {
            Option::None => Option::None,
            Option::Some(m) => match spec_parse_jdk_lines(lines, i + 1) {
                Option::None => Option::None,
                Option::Some(rest) => Some(seq![m] + rest),
            },
        }
    }
}

/// A whole registry index: every non-blank line must be an installed record.
pub open spec fn spec_parse_index(s: Seq<u8>) -> Option<Seq<JdkModel>> {
    spec_parse_jdk_lines(spec_drop_empty(spec_split(s, NEWLINE)), 0)
}

/// No two catalog records share their natural key.
pub open spec fn unique_entry_keys(s: Seq<EntryModel>) -> bool {
    forall|x: int, y: int|
        0 <= x < y < s.len() ==> !#[trigger] same_key(key_of_entry(s[x]), key_of_entry(s[y]))
}

/// No two installed records share their natural key.
pub open spec fn unique_jdk_keys(s: Seq<JdkModel>) -> bool {
    forall|x: int, y: int|
        0 <= x < y < s.len() ==> !#[trigger] same_key(key_of_jdk(s[x]), key_of_jdk(s[y]))
}

/// Parses the catalog records on the non-blank lines of `lines`, starting
/// at `from`.
pub fn parse_entry_lines(lines: &Vec<Vec<u8>>, from: usize) -> (r: Option<Vec<CatalogEntry>>)
    requires
        from <= lines.len(),
    ensures
        r.deep_view() == spec_parse_entry_lines(lines.deep_view(), from as int),
{
    let ghost lv = lines.deep_view();
    let mut out: Vec<CatalogEntry> = Vec::new();
    proof {
        if let Some(rest) = spec_parse_entry_lines(lv, from as int) {
            assert(out.deep_view() + rest =~= rest);
        }
    }
    let mut i: usize = from;
    while i < lines.len()
        invariant
            from <= i <= lines.len(),
            lv == lines.deep_view(),
            spec_parse_entry_lines(lv, from as int) == match spec_parse_entry_lines(
                lv,
                i as int,
            ) {
                Option::None => Option::None::<Seq<EntryModel>>,
                Option::Some(rest) => Some(out.deep_view() + rest),
            },
        decreases lines.len() - i,
    {
        let fields = split_bytes(&lines[i], TAB);
        proof {
            assert(lines@[i as int]@ =~= lv[i as int]);
        }
        if fields.len() != 8 {
            return None;
        }
        let size = match parse_u64(&fields[7]) {
            Option::None => {
                proof {
                    assert(fields@[7]@ =~= fields.deep_view()[7]);
                }
                return None;
            },
            Option::Some(size) => size,
        };
        proof {
            assert forall|k: int| 0 <= k < 8 implies fields@[k]@ =~= fields.deep_view()[k] by {}
        }
        match CatalogEntry::assemble(
            clone_bytes(&fields[0]),
            clone_bytes(&fields[1]),
            clone_bytes(&fields[2]),
            clone_bytes(&fields[3]),
            clone_bytes(&fields[4]),
            clone_bytes(&fields[5]),
            clone_bytes(&fields[6]),
            size,
        ) {
            Option::None => {
                return None;
            },
            Option::Some(e) => {
                out.push(e);
                proof {
                    if let Some(rest) = spec_parse_entry_lines(lv, i + 1) {
                        assert(out.deep_view() + rest =~= out.deep_view().drop_last() + (seq![
                            e@,
                        ] + rest));
                    }
                }
            },
        }
        i = i + 1;
    }
    proof {
        assert(spec_parse_entry_lines(lv, i as int) == Some(Seq::<EntryModel>::empty()));
        assert(out.deep_view() + Seq::<EntryModel>::empty() =~= out.deep_view());
    }
    Some(out)
}

/// Parses the installed records on the non-blank lines of `lines`,
/// starting at `from`.
pub fn parse_jdk_lines(lines: &Vec<Vec<u8>>, from: usize) -> (r: Option<Vec<InstalledJdk>>)
    requires
        from <= lines.len(),
    ensures
        r.deep_view() == spec_parse_jdk_lines(lines.deep_view(), from as int),
{
    let ghost lv = lines.deep_view();
    let mut out: Vec<InstalledJdk> = Vec::new();
    proof {
        if let Some(rest) = spec_parse_jdk_lines(lv, from as int) {
            assert(out.deep_view() + rest =~= rest);
        }
    }
    let mut i: usize = from;
    while i < lines.len()
        invariant
            from <= i <= lines.len(),
            lv == lines.deep_view(),
            spec_parse_jdk_lines(lv, from as int) == match spec_parse_jdk_lines(lv, i as int) {
                Option::None => Option::None::<Seq<JdkModel>>,
                Option::Some(rest) => Some(out.deep_view() + rest),
            },
        decreases lines.len() - i,
    {
        let fields = split_bytes(&lines[i], TAB);
        proof {
            assert(lines@[i as int]@ =~= lv[i as int]);
        }
        if fields.len() != 7 {
            return None;
        }
        let at = match parse_u64(&fields[5]) {
            Option::None => {
                proof {
                    assert(fields@[5]@ =~= fields.deep_view()[5]);
                }
                return None;
            },
            Option::Some(at) => at,
        };
        proof {
            assert forall|k: int| 0 <= k < 7 implies fields@[k]@ =~= fields.deep_view()[k] by {}
        }
        match InstalledJdk::assemble(
            clone_bytes(&fields[0]),
            clone_bytes(&fields[1]),
            clone_bytes(&fields[2]),
            clone_bytes(&fields[3]),
            clone_bytes(&fields[4]),
            at,
            clone_bytes(&fields[6]),
        ) {
            Option::None => {
                return None;
            },
            Option::Some(j) => {
                out.push(j);
                proof {
                    if let Some(rest) = spec_parse_jdk_lines(lv, i + 1) {
                        assert(out.deep_view() + rest =~= out.deep_view().drop_last() + (seq![
                            j@,
                        ] + rest));
                    }
                }
            },
        }
        i = i + 1;
    }
    proof {
        assert(spec_parse_jdk_lines(lv, i as int) == Some(Seq::<JdkModel>::empty()));
        assert(out.deep_view() + Seq::<JdkModel>::empty() =~= out.deep_view());
    }
    Some(out)
}

/// Parses a whole feed of catalog records.
pub fn parse_feed(bytes: &Vec<u8>) -> (r: Option<Vec<CatalogEntry>>)
    ensures
        r.deep_view() == spec_parse_feed(bytes@),
{
    let raw_lines = split_bytes(bytes, NEWLINE);
    let lines = drop_empty(&raw_lines);
    parse_entry_lines(&lines, 0)
}

/// Parses a whole registry index of installed records.
pub fn parse_index(bytes: &Vec<u8>) -> (r: Option<Vec<InstalledJdk>>)
    ensures
        r.deep_view() == spec_parse_index(bytes@),
{
    let raw_lines = split_bytes(bytes, NEWLINE);
    let lines = drop_empty(&raw_lines);
    parse_jdk_lines(&lines, 0)
}

/// Whether `v` holds two catalog records with one key.
pub fn has_duplicate_entry_keys(v: &Vec<CatalogEntry>) -> (r: bool)
    ensures
        r == !unique_entry_keys(v.deep_view()),
{
    let ghost dv = v.deep_view();
    let mut x: usize = 0;
    while x < v.len()
        invariant
            0 <= x <= v.len(),
            dv == v.deep_view(),
            forall|a: int, b: int|
                0 <= a < b < dv.len() && a < x ==> !#[trigger] same_key(
                    key_of_entry(dv[a]),
                    key_of_entry(dv[b]),
                ),
        decreases v.len() - x,
    {
        let mut y: usize = x + 1;
        while y < v.len()
            invariant
                0 <= x < y <= v.len(),
                dv == v.deep_view(),
                forall|b: int|
                    x < b < y ==> !#[trigger] same_key(key_of_entry(dv[x as int]), key_of_entry(
                        dv[b],
                    )),
            decreases v.len() - y,
        {
            if entry_keys_equal(&v[x], &v[y]) {
                proof {
                    assert(same_key(key_of_entry(dv[x as int]), key_of_entry(dv[y as int])));
                }
                return true;
            }
            y = y + 1;
        }
        x = x + 1;
    }
    false
}

/// Whether `v` holds two installed records with one key.
pub fn has_duplicate_jdk_keys(v: &Vec<InstalledJdk>) -> (r: bool)
    ensures
        r == !unique_jdk_keys(v.deep_view()),
{
    let ghost dv = v.deep_view();
    let mut x: usize = 0;
    while x < v.len()
        invariant
            0 <= x <= v.len(),
            dv == v.deep_view(),
            forall|a: int, b: int|
                0 <= a < b < dv.len() && a < x ==> !#[trigger] same_key(
                    key_of_jdk(dv[a]),
                    key_of_jdk(dv[b]),
                ),
        decreases v.len() - x,
    {
        let mut y: usize = x + 1;
        while y < v.len()
            invariant
                0 <= x < y <= v.len(),
                dv == v.deep_view(),
                forall|b: int|
                    x < b < y ==> !#[trigger] same_key(key_of_jdk(dv[x as int]), key_of_jdk(
                        dv[b],
                    )),
            decreases v.len() - y,
        {
            if jdk_keys_equal(&v[x], &v[y]) {
                proof {
                    assert(same_key(key_of_jdk(dv[x as int]), key_of_jdk(dv[y as int])));
                }
                return true;
            }
            y = y + 1;
        }
        x = x + 1;
    }
    false
}

/// Whether two catalog records share their natural key.
pub fn entry_keys_equal(a: &CatalogEntry, b: &CatalogEntry) -> (r: bool)
    ensures
        r == same_key(key_of_entry(a@), key_of_entry(b@)),
{
    eq_bytes(&a.distribution, &b.distribution) && eq_bytes(&a.version, &b.version) && eq_bytes(
        &a.architecture,
        &b.architecture,
    ) && eq_bytes(&a.operating_system, &b.operating_system)
}

/// Whether two installed records share their natural key.
pub fn jdk_keys_equal(a: &InstalledJdk, b: &InstalledJdk) -> (r: bool)
    ensures
        r == same_key(key_of_jdk(a@), key_of_jdk(b@)),
{
    eq_bytes(&a.distribution, &b.distribution) && eq_bytes(&a.version, &b.version) && eq_bytes(
        &a.architecture,
        &b.architecture,
    ) && eq_bytes(&a.operating_system, &b.operating_system)
}

/// Whether a catalog record and an installed record share their key.
pub fn entry_jdk_keys_equal(a: &CatalogEntry, b: &InstalledJdk) -> (r: bool)
    ensures
        r == same_key(key_of_entry(a@), key_of_jdk(b@)),
{
    eq_bytes(&a.distribution, &b.distribution) && eq_bytes(&a.version, &b.version) && eq_bytes(
        &a.architecture,
        &b.architecture,
    ) && eq_bytes(&a.operating_system, &b.operating_system)
}

/// The rendered line of one catalog record, without its newline.
pub open spec fn spec_render_entry(m: EntryModel) -> Seq<u8> {
    m.distribution + seq![TAB] + m.version + seq![TAB] + m.architecture + seq![TAB]
        + m.operating_system + seq![TAB] + m.download_url + seq![TAB] + m.checksum_algorithm
        + seq![TAB] + m.checksum_digest + seq![TAB] + spec_render_u64(m.file_size as int)
}

/// The rendered lines of catalog records from position `i` on.
pub open spec fn spec_render_entries(ms: Seq<EntryModel>, i: int) -> Seq<u8>
    decreases ms.len() - i,
{
    if i >= ms.len() {
        Seq::empty()
    } else {
        spec_render_entry(ms[i]) + seq![NEWLINE] + spec_render_entries(ms, i + 1)
    }
}

/// The rendered line of one installed record, without its newline.
pub open spec fn spec_render_jdk(m: JdkModel) -> Seq<u8> {
    m.distribution + seq![TAB] + m.version + seq![TAB] + m.architecture + seq![TAB]
        + m.operating_system + seq![TAB] + m.install_path + seq![TAB] + spec_render_u64(
        m.installed_at as int,
    ) + seq![TAB] + m.source_checksum
}

/// The rendered lines of installed records from position `i` on.
pub open spec fn spec_render_jdks(ms: Seq<JdkModel>, i: int) -> Seq<u8>
    decreases ms.len() - i,
{
    if i >= ms.len() {
        Seq::empty()
    } else {
        spec_render_jdk(ms[i]) + seq![NEWLINE] + spec_render_jdks(ms, i + 1)
    }
}

/// Renders one catalog record as a line, without its newline.
pub fn render_entry(e: &CatalogEntry) -> (r: Vec<u8>)
    ensures
        r@ == spec_render_entry(e@),
{
    let mut out: Vec<u8> = Vec::new();
    push_all(&mut out, &e.distribution);
    out.push(TAB);
    push_all(&mut out, &e.version);
    out.push(TAB);
    push_all(&mut out, &e.architecture);
    out.push(TAB);
    push_all(&mut out, &e.operating_system);
    out.push(TAB);
    push_all(&mut out, &e.download_url);
    out.push(TAB);
    push_all(&mut out, &e.checksum_algorithm);
    out.push(TAB);
    push_all(&mut out, &e.checksum_digest);
    out.push(TAB);
    let size = render_u64(e.file_size);
    push_all(&mut out, &size);
    proof {
        assert(out@ =~= spec_render_entry(e@));
    }
    out
}

/// Renders one installed record as a line, without its newline.
pub fn render_jdk(j: &InstalledJdk) -> (r: Vec<u8>)
    ensures
        r@ == spec_render_jdk(j@),
{
    let mut out: Vec<u8> = Vec::new();
    push_all(&mut out, &j.distribution);
    out.push(TAB);
    push_all(&mut out, &j.version);
    out.push(TAB);
    push_all(&mut out, &j.architecture);
    out.push(TAB);
    push_all(&mut out, &j.operating_system);
    out.push(TAB);
    push_all(&mut out, &j.install_path);
    out.push(TAB);
    let at = render_u64(j.installed_at);
    push_all(&mut out, &at);
    out.push(TAB);
    push_all(&mut out, &j.source_checksum);
    proof {
        assert(out@ =~= spec_render_jdk(j@));
    }
    out
}

/// Renders catalog records, one line each.
pub fn render_entries(v: &Vec<CatalogEntry>) -> (r: Vec<u8>)
    ensures
        r@ == spec_render_entries(v.deep_view(), 0),
{
    let ghost dv = v.deep_view();
    let mut out: Vec<u8> = Vec::new();
    proof {
        assert(out@ + spec_render_entries(dv, 0) =~= spec_render_entries(dv, 0));
    }
    let mut i: usize = 0;
    while i < v.len()
        invariant
            0 <= i <= v.len(),
            dv == v.deep_view(),
            spec_render_entries(dv, 0) == out@ + spec_render_entries(dv, i as int),
        decreases v.len() - i,
    {
        let line = render_entry(&v[i]);
        push_all(&mut out, &line);
        out.push(NEWLINE);
        proof {
            assert(spec_render_entries(dv, 0) =~= out@ + spec_render_entries(dv, i + 1));
        }
        i = i + 1;
    }
    proof {
        assert(spec_render_entries(dv, i as int) == Seq::<u8>::empty());
        assert(spec_render_entries(dv, 0) =~= out@);
    }
    out
}

/// Renders installed records, one line each.
pub fn render_jdks(v: &Vec<InstalledJdk>) -> (r: Vec<u8>)
    ensures
        r@ == spec_render_jdks(v.deep_view(), 0),
{
    let ghost dv = v.deep_view();
    let mut out: Vec<u8> = Vec::new();
    proof {
        assert(out@ + spec_render_jdks(dv, 0) =~= spec_render_jdks(dv, 0));
    }
    let mut i: usize = 0;
    while i < v.len()
        invariant
            0 <= i <= v.len(),
            dv == v.deep_view(),
            spec_render_jdks(dv, 0) == out@ + spec_render_jdks(dv, i as int),
        decreases v.len() - i,
    {
        let line = render_jdk(&v[i]);
        push_all(&mut out, &line);
        out.push(NEWLINE);
        proof {
            assert(spec_render_jdks(dv, 0) =~= out@ + spec_render_jdks(dv, i + 1));
        }
        i = i + 1;
    }
    proof {
        assert(spec_render_jdks(dv, i as int) == Seq::<u8>::empty());
        assert(spec_render_jdks(dv, 0) =~= out@);
    }
    out
}

} // verus!
