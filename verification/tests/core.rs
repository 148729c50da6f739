use jolt::JoltError;
use jolt::catalog::Catalog;
use jolt::manager::{FetchOutcome, InstallEvent, InstallStart, InstallState, Manager};
use jolt::registry::Registry;
use jolt::resolver::JdkQuery;

fn b(s: &str) -> Vec<u8> {
    s.as_bytes().to_vec()
}

fn feed_line(dist: &str, ver: &str, arch: &str, os: &str, digest: &str) -> String {
    format!(
        "{}\t{}\t{}\t{}\thttp://builds.example/{}-{}.tgz\tsha256\t{}\t1000\n",
        dist, ver, arch, os, dist, ver, digest
    )
}

fn manager_with_feed(feed: &str) -> Manager {
    let mut m = Manager::new(Catalog::empty(), Registry::empty());
    let outcome = FetchOutcome::Feed {
        etag: b("tag-1"),
        body: feed.as_bytes().to_vec(),
    };
    m.update(outcome, 7).expect("feed should parse");
    m
}

fn query(dist: Option<&str>, ver: Option<&str>) -> JdkQuery {
    JdkQuery {
        distribution: dist.map(b),
        version: ver.map(b),
    }
}

/// Drives one install request through the machine until it installs.
fn run_install(m: &mut Manager, dist: &str, ver: &str, digest: &str, at: u64) -> Vec<u8> {
    let start = m
        .install_start(&b(dist), &b(ver))
        .expect("query should resolve");
    let state = match start {
        InstallStart::AlreadyInstalled { jdk } => return jdk.install_path,
        InstallStart::Begin { state, .. } => state,
    };
    let (state, _) = m.install_step(state, InstallEvent::Fetched { digest: b(digest) });
    let (state, _) = m.install_step(state, InstallEvent::Proceed);
    assert!(matches!(state, InstallState::Extracting { .. }));
    let (state, _) = m.install_step(
        state,
        InstallEvent::Extracted {
            path_present: true,
            installed_at: at,
        },
    );
    let (state, _) = m.install_step(state, InstallEvent::Proceed);
    match state {
        InstallState::Installed { jdk } => jdk.install_path,
        _ => panic!("install did not complete"),
    }
}

#[test]
fn resolver_orders_one_distribution_by_version_descending() {
    let feed = [
        feed_line("openjdk", "11.0.2", "x64", "linux", "aa"),
        feed_line("openjdk", "17.0.1", "x64", "linux", "bb"),
        feed_line("openjdk", "8.0.332", "x64", "linux", "cc"),
        feed_line("oracle", "11.0.2", "x64", "linux", "dd"),
        feed_line("oracle", "17.0.1", "x64", "linux", "ee"),
        feed_line("oracle", "21.0.1", "x64", "linux", "ff"),
    ]
    .concat();
    let m = manager_with_feed(&feed);
    let found = m.search(&query(Some("openjdk"), None)).unwrap();
    let versions: Vec<Vec<u8>> = found.iter().map(|e| e.version.clone()).collect();
    assert_eq!(found.len(), 3);
    for e in &found {
        assert_eq!(e.distribution, b("openjdk"));
    }
    assert_eq!(versions, vec![b("17.0.1"), b("11.0.2"), b("8.0.332")]);
}

#[test]
fn version_major_matches_prefix_and_orders_descending() {
    let feed = [
        feed_line("openjdk", "11.0.2", "x64", "linux", "aa"),
        feed_line("openjdk", "11.0.9", "x64", "linux", "bb"),
        feed_line("openjdk", "17.0.1", "x64", "linux", "cc"),
    ]
    .concat();
    let m = manager_with_feed(&feed);
    let found = m.search(&query(None, Some("11"))).unwrap();
    assert_eq!(found.len(), 2);
    assert_eq!(found[0].version, b("11.0.9"));
    assert_eq!(found[1].version, b("11.0.2"));
}

#[test]
fn install_is_idempotent() {
    let feed = feed_line("openjdk", "17.0.1", "x64", "linux", "aa");
    let mut m = manager_with_feed(&feed);
    let first = run_install(&mut m, "openjdk", "17", "aa", 100);
    let second = run_install(&mut m, "openjdk", "17", "aa", 999);
    assert_eq!(first, second);
    let installed = m.list(&query(None, None));
    assert_eq!(installed.len(), 1);
    assert_eq!(installed[0].install_path, first);
}

#[test]
fn interrupted_install_leaves_no_trace() {
    let feed = feed_line("openjdk", "17.0.1", "x64", "linux", "aa");
    let mut m = manager_with_feed(&feed);
    let registry_before = m.registry.render();
    let start = m.install_start(&b("openjdk"), &b("17")).unwrap();
    let state = match start {
        InstallStart::Begin { state, .. } => state,
        _ => panic!("nothing is installed yet"),
    };
    // The download completes and verifies, but the run is cut off before
    // the final rename ever commits anything.
    let (state, _) = m.install_step(state, InstallEvent::Fetched { digest: b("aa") });
    let (state, _) = m.install_step(state, InstallEvent::Proceed);
    let (state, _) = m.install_step(state, InstallEvent::ExtractFailed);
    assert!(matches!(
        state,
        InstallState::Failed {
            error: JoltError::Extraction
        }
    ));
    assert_eq!(m.list(&query(None, None)).len(), 0);
    assert_eq!(m.registry.render(), registry_before);
}

#[test]
fn refresh_with_half_parsable_feed_keeps_cache_bytes() {
    let good = feed_line("openjdk", "11.0.2", "x64", "linux", "aa");
    let mut m = manager_with_feed(&good);
    let cache_before = m.catalog.render();
    let half_bad = [
        feed_line("openjdk", "17.0.1", "x64", "linux", "bb"),
        "oracle\tnot-a-version\n".to_string(),
    ]
    .concat();
    let outcome = FetchOutcome::Feed {
        etag: b("tag-2"),
        body: half_bad.into_bytes(),
    };
    let r = m.update(outcome, 8);
    assert_eq!(r, Err(JoltError::FeedMalformed));
    assert_eq!(m.catalog.render(), cache_before);
}

#[test]
fn checksum_mismatch_is_rejected_and_never_registered() {
    let feed = feed_line("openjdk", "17.0.1", "x64", "linux", "expected");
    let mut m = manager_with_feed(&feed);
    let start = m.install_start(&b("openjdk"), &b("17")).unwrap();
    let state = match start {
        InstallStart::Begin { state, .. } => state,
        _ => panic!("nothing is installed yet"),
    };
    let (state, _) = m.install_step(
        state,
        InstallEvent::Fetched {
            digest: b("corrupt"),
        },
    );
    let (state, _) = m.install_step(state, InstallEvent::Proceed);
    assert!(matches!(
        state,
        InstallState::Failed {
            error: JoltError::ChecksumMismatch
        }
    ));
    assert_eq!(m.list(&query(None, None)).len(), 0);
}

#[test]
fn search_without_any_filter_is_ambiguous() {
    let m = manager_with_feed(&feed_line("openjdk", "11.0.2", "x64", "linux", "aa"));
    match m.search(&query(None, None)) {
        Err(e) => assert_eq!(e, JoltError::AmbiguousFilter),
        Ok(_) => panic!("a search with no filter must be refused"),
    }
}

#[test]
fn end_to_end_install_then_list() {
    let feed = [
        feed_line("openjdk", "11.0.2", "linux-x64", "linux", "aa"),
        feed_line("openjdk", "17.0.1", "linux-x64", "linux", "bb"),
    ]
    .concat();
    let mut m = manager_with_feed(&feed);
    let start = m.install_start(&b("openjdk"), &b("17")).unwrap();
    let state = match start {
        InstallStart::Begin { state, .. } => state,
        _ => panic!("nothing is installed yet"),
    };
    match &state {
        InstallState::Downloading { entry } => assert_eq!(entry.version, b("17.0.1")),
        _ => panic!("expected the download stage"),
    }
    let (state, _) = m.install_step(state, InstallEvent::Fetched { digest: b("bb") });
    let (state, _) = m.install_step(state, InstallEvent::Proceed);
    let (state, _) = m.install_step(
        state,
        InstallEvent::Extracted {
            path_present: true,
            installed_at: 50,
        },
    );
    let (state, _) = m.install_step(state, InstallEvent::Proceed);
    assert!(matches!(state, InstallState::Installed { .. }));
    let listed = m.list(&query(Some("openjdk"), None));
    assert_eq!(listed.len(), 1);
    assert_eq!(listed[0].version, b("17.0.1"));
    assert_eq!(listed[0].install_path, b("openjdk-17.0.1-linux-x64-linux"));
    assert_eq!(listed[0].source_checksum, b("bb"));
}

#[test]
fn install_of_unknown_build_reports_no_match() {
    let mut m = manager_with_feed(&feed_line("openjdk", "11.0.2", "x64", "linux", "aa"));
    let r = m.install_start(&b("openjdk"), &b("21"));
    assert!(matches!(r, Err(JoltError::NoMatch)));
    assert!(m.install_start(&b("zulu"), &b("11")).is_err());
}

#[test]
fn extraction_to_missing_path_is_refused() {
    let feed = feed_line("openjdk", "17.0.1", "x64", "linux", "aa");
    let mut m = manager_with_feed(&feed);
    let start = m.install_start(&b("openjdk"), &b("17")).unwrap();
    let state = match start {
        InstallStart::Begin { state, .. } => state,
        _ => panic!("nothing is installed yet"),
    };
    let (state, _) = m.install_step(state, InstallEvent::Fetched { digest: b("aa") });
    let (state, _) = m.install_step(state, InstallEvent::Proceed);
    let (state, _) = m.install_step(
        state,
        InstallEvent::Extracted {
            path_present: false,
            installed_at: 50,
        },
    );
    let (state, _) = m.install_step(state, InstallEvent::Proceed);
    assert!(matches!(
        state,
        InstallState::Failed {
            error: JoltError::PathMissing
        }
    ));
    assert_eq!(m.list(&query(None, None)).len(), 0);
}

#[test]
fn download_failure_fails_cleanly() {
    let feed = feed_line("openjdk", "17.0.1", "x64", "linux", "aa");
    let mut m = manager_with_feed(&feed);
    let start = m.install_start(&b("openjdk"), &b("17")).unwrap();
    let state = match start {
        InstallStart::Begin { state, .. } => state,
        _ => panic!("nothing is installed yet"),
    };
    let (state, _) = m.install_step(state, InstallEvent::FetchFailed);
    assert!(matches!(
        state,
        InstallState::Failed {
            error: JoltError::Network
        }
    ));
    assert_eq!(m.list(&query(None, None)).len(), 0);
}

#[test]
fn update_maps_transport_outcomes_to_errors() {
    let mut m = manager_with_feed(&feed_line("openjdk", "11.0.2", "x64", "linux", "aa"));
    assert_eq!(m.update(FetchOutcome::Unreachable, 9), Err(JoltError::Network));
    assert_eq!(
        m.update(FetchOutcome::NotFound, 9),
        Err(JoltError::FeedMalformed)
    );
    assert_eq!(m.search(&query(Some("openjdk"), None)).unwrap().len(), 1);
}

#[test]
fn update_reports_added_removed_changed() {
    let first = [
        feed_line("openjdk", "11.0.2", "x64", "linux", "aa"),
        feed_line("openjdk", "17.0.1", "x64", "linux", "bb"),
    ]
    .concat();
    let mut m = manager_with_feed(&first);
    let second = [
        feed_line("openjdk", "17.0.1", "x64", "linux", "changed-digest"),
        feed_line("openjdk", "21.0.1", "x64", "linux", "cc"),
    ]
    .concat();
    let s = m
        .update(
            FetchOutcome::Feed {
                etag: b("tag-2"),
                body: second.into_bytes(),
            },
            9,
        )
        .unwrap();
    assert_eq!(s.added, 1);
    assert_eq!(s.removed, 1);
    assert_eq!(s.changed, 1);
}

#[test]
fn duplicate_feed_keys_fail_the_refresh() {
    let feed = [
        feed_line("openjdk", "11.0.2", "x64", "linux", "aa"),
        feed_line("OPENJDK", "11.0.2", "x64", "linux", "bb"),
    ]
    .concat();
    let mut m = Manager::new(Catalog::empty(), Registry::empty());
    let r = m.update(
        FetchOutcome::Feed {
            etag: b("tag-1"),
            body: feed.into_bytes(),
        },
        7,
    );
    assert_eq!(r, Err(JoltError::FeedMalformed));
}

#[test]
fn distribution_matching_is_case_insensitive() {
    let m = manager_with_feed(&feed_line("OpenJDK", "11.0.2", "x64", "linux", "aa"));
    let found = m.search(&query(Some("OPENJDK"), None)).unwrap();
    assert_eq!(found.len(), 1);
    assert_eq!(found[0].distribution, b("openjdk"));
}

#[test]
fn corrupt_cache_is_reported() {
    let r = Catalog::from_cache(&b("not\ta\tcatalog"));
    assert!(matches!(r, Err(JoltError::CorruptCache)));
    let r2 = Registry::from_index(&b("garbage index"));
    assert!(matches!(r2, Err(JoltError::CorruptCache)));
}

#[test]
fn catalog_cache_round_trips() {
    let feed = [
        feed_line("openjdk", "11.0.2", "x64", "linux", "aa"),
        feed_line("oracle", "17.0.1", "aarch64", "mac", "bb"),
    ]
    .concat();
    let m = manager_with_feed(&feed);
    let bytes = m.catalog.render();
    let reloaded = Catalog::from_cache(&bytes).expect("rendered cache must load");
    assert_eq!(reloaded.render(), bytes);
    assert_eq!(reloaded.etag, b("tag-1"));
    assert_eq!(reloaded.fetched_at, 7);
    assert_eq!(reloaded.entries.len(), 2);
}

#[test]
fn registry_index_round_trips_and_unregister_removes() {
    let feed = feed_line("openjdk", "17.0.1", "x64", "linux", "aa");
    let mut m = manager_with_feed(&feed);
    run_install(&mut m, "openjdk", "17", "aa", 100);
    let bytes = m.registry.render();
    let reloaded = Registry::from_index(&bytes).expect("rendered index must load");
    assert_eq!(reloaded.render(), bytes);
    assert_eq!(reloaded.records.len(), 1);
    let record = m.list(&query(None, None)).remove(0);
    assert!(m.registry.unregister(&record));
    assert_eq!(m.list(&query(None, None)).len(), 0);
    assert!(!m.registry.unregister(&record));
}

#[test]
fn version_tokens_parse_numerically() {
    assert_eq!(jolt::version::parse_version(&b("11")), Some(vec![11]));
    assert_eq!(
        jolt::version::parse_version(&b("11.0.2")),
        Some(vec![11, 0, 2])
    );
    assert_eq!(
        jolt::version::parse_version(&b("17.0.1+9")),
        Some(vec![17, 0, 1])
    );
    assert_eq!(jolt::version::parse_version(&b("")), None);
    assert_eq!(jolt::version::parse_version(&b("11.")), None);
    assert_eq!(jolt::version::parse_version(&b("1a")), None);
    assert_eq!(
        jolt::version::parse_version(&b("18446744073709551615")),
        Some(vec![u64::MAX])
    );
    assert_eq!(jolt::version::parse_version(&b("18446744073709551616")), None);
}

#[test]
fn decimal_rendering_is_exact() {
    assert_eq!(jolt::text::render_u64(0), b("0"));
    assert_eq!(jolt::text::render_u64(90210), b("90210"));
    assert_eq!(jolt::text::parse_u64(&b("90210")), Some(90210));
}

#[test]
fn version_matching_is_componentwise_not_textual() {
    let feed = [
        feed_line("openjdk", "11.0.2", "x64", "linux", "aa"),
        feed_line("openjdk", "1.8.0", "x64", "linux", "bb"),
    ]
    .concat();
    let m = manager_with_feed(&feed);
    // "1" is not a component prefix of 11.0.2, only of 1.8.0.
    let found = m.search(&query(None, Some("1"))).unwrap();
    assert_eq!(found.len(), 1);
    assert_eq!(found[0].version, b("1.8.0"));
    // "11.0" is a component prefix of 11.0.2.
    let found = m.search(&query(None, Some("11.0"))).unwrap();
    assert_eq!(found.len(), 1);
    assert_eq!(found[0].version, b("11.0.2"));
    // An unparsable version filter matches nothing.
    assert_eq!(m.search(&query(None, Some("abc"))).unwrap().len(), 0);
}

#[test]
fn build_metadata_is_ignored_for_matching() {
    let feed = feed_line("openjdk", "17.0.1+9", "x64", "linux", "aa");
    let m = manager_with_feed(&feed);
    let found = m.search(&query(None, Some("17.0.1"))).unwrap();
    assert_eq!(found.len(), 1);
    assert_eq!(found[0].version, b("17.0.1+9"));
}
