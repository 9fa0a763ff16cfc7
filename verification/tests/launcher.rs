use tq_launcher::catalog::{edition_infos, patch_key, tqo_channel};
use tq_launcher::digest::{
    digest_hex_of_decodings, digest_to_hex, hex, verify_digest, DownloadDigest,
};
use tq_launcher::fetch::{
    channel_outcome, first_matching_asset, github_builds, github_releases_url, plan_fetch, plan_fetch_for,
    release_build, sort_builds_newest_first, tqo_build, tqo_manifest_url, FetchError, FetchPlan,
    ChannelOutcome, Release, ReleaseAsset, TqoManifest,
};
use tq_launcher::install::{expected_size, is_archive, is_zip_extension, plan_install};
use tq_launcher::layout::{
    edition_dir, find_binary, is_binary_name, platform, platform_for_separator, sanitize,
    version_dir,
};
use tq_launcher::model::{AppState, Build, Catalog, Display, Edition, GithubConfig, TqoConfig};
use tq_launcher::scan::{scan, sort_versions_newest_first};
use tq_launcher::state::lookup_patch;
use tq_launcher::table::KeyedTable;
use tq_launcher::version::version_key;

fn s(x: &str) -> String {
    x.to_string()
}

fn key(a: i64, b: i64, c: i64, d: &str) -> (i64, i64, i64, String) {
    (a, b, c, s(d))
}

fn github_edition(repo: &str, platform: &str, pattern: &str) -> Edition {
    let mut assets = KeyedTable::new();
    assets.insert(s(platform), s(pattern));
    Edition {
        source: s("github"),
        github: Some(GithubConfig { repo: s(repo), assets }),
        tqo: None,
        display: Some(Display { title: s("TardQuest"), subtitle: s("The first game") }),
    }
}

fn tqo_edition(base_url: &str, channel: &str) -> Edition {
    Edition {
        source: s("tqo"),
        github: None,
        tqo: Some(TqoConfig {
            base_url: s(base_url),
            channel: s(channel),
            file_name: s("TQO.AppImage"),
        }),
        display: None,
    }
}

fn sample_catalog() -> Catalog {
    let mut editions = KeyedTable::new();
    editions.insert(s("tqo"), tqo_edition("https://tardquest.online/updates/", "live"));
    editions.insert(s("tq"), github_edition("packardbell95/tardquest", "linux", r"\.AppImage$"));
    Catalog { editions }
}

fn build(version: &str) -> Build {
    Build {
        edition: s("tq"),
        version: s(version),
        label: s(version),
        file_name: s("game.AppImage"),
        download_url: s("https://example.org/game"),
        sha256: None,
        size: None,
        release_notes: s(""),
        patch: None,
    }
}

// ------------------------------------------------------------ version keys

#[test]
fn version_key_reads_semver() {
    assert_eq!(version_key("1.19.2"), key(1, 19, 2, ""));
}

#[test]
fn version_key_keeps_suffix() {
    assert_eq!(version_key("1.19.2-251213"), key(1, 19, 2, "-251213"));
    assert_eq!(version_key("0.0.0-ERA"), key(0, 0, 0, "-ERA"));
    assert_eq!(version_key("2.1+build.7"), key(2, 1, 0, "+build.7"));
}

#[test]
fn version_key_trims_and_defaults() {
    assert_eq!(version_key("  3.4\n"), key(3, 4, 0, ""));
    assert_eq!(version_key("PTE"), key(0, 0, 0, ""));
    assert_eq!(version_key(""), key(0, 0, 0, ""));
    assert_eq!(version_key("1.x.5"), key(1, 0, 5, ""));
    assert_eq!(version_key("1..5.9"), key(1, 0, 5, ""));
}

#[test]
fn version_key_overflow_reads_zero() {
    assert_eq!(version_key("99999999999999999999.2"), key(0, 2, 0, ""));
    assert_eq!(version_key("9223372036854775807.1"), key(i64::MAX, 1, 0, ""));
    assert_eq!(version_key("9223372036854775808.1"), key(0, 1, 0, ""));
}

#[test]
fn versions_sort_newest_first() {
    let v = vec![s("1.2.0"), s("1.10.0"), s("PTE"), s("1.9.0"), s("1.9.0-beta")];
    let sorted = sort_versions_newest_first(v);
    assert_eq!(sorted, vec![s("1.10.0"), s("1.9.0-beta"), s("1.9.0"), s("1.2.0"), s("PTE")]);
}

#[test]
fn versions_sort_is_stable() {
    let v = vec![s("1.0"), s("0.5"), s("1.0.0"), s(" 1.0")];
    let sorted = sort_versions_newest_first(v);
    assert_eq!(sorted, vec![s("1.0"), s("1.0.0"), s(" 1.0"), s("0.5")]);
}

// ------------------------------------------------------------ layout

#[test]
fn platform_is_named() {
    assert_eq!(platform_for_separator('\\'), "windows");
    assert_eq!(platform_for_separator('/'), "linux");
    let p = platform();
    assert!(p == "windows" || p == "linux");
    assert_eq!(p, if std::path::MAIN_SEPARATOR == '\\' { "windows" } else { "linux" });
}

#[test]
fn sanitize_replaces_separators() {
    assert_eq!(sanitize("a/b\\c:d"), "a_b_c_d");
    assert_eq!(sanitize("TQ Online 1.2-rc_3"), "TQ Online 1.2-rc_3");
    assert_eq!(sanitize("ünï*?"), "ünï__");
    assert_eq!(sanitize(".."), "..");
}

#[test]
fn edition_and_version_dirs() {
    assert_eq!(edition_dir("/games", "tq"), "/games/tq");
    assert_eq!(edition_dir("/games/", "t/q"), "/games/t_q");
    assert_eq!(version_dir("/games", "tqo", "1.2.3"), "/games/tqo/1.2.3");
    assert_eq!(version_dir("/games", "tqo", "../x"), "/games/tqo/.._x");
}

#[test]
fn binary_names() {
    assert!(is_binary_name("TardQuest.EXE", true));
    assert!(!is_binary_name("TardQuest.AppImage", true));
    assert!(is_binary_name("TardQuest-1.2.AppImage", false));
    assert!(!is_binary_name("TardQuest.appimage", false));
    assert!(!is_binary_name("game.exe", false));
}

#[test]
fn find_binary_prefers_version_name() {
    let names = vec![s("launcher.AppImage"), s("TardQuest-1.2.AppImage")];
    assert_eq!(find_binary("1.2", &names), Some(1));
}

#[test]
fn find_binary_falls_back_to_first() {
    let names = vec![s("a.AppImage"), s("b.AppImage")];
    assert_eq!(find_binary("9.9", &names), Some(0));
    assert_eq!(find_binary("9.9", &vec![s("only.AppImage")]), Some(0));
    assert_eq!(find_binary("9.9", &vec![]), None);
}

// ------------------------------------------------------------ digests

#[test]
fn hex_is_lower_case() {
    assert_eq!(hex(&[0x00, 0xff, 0x1a, 0x9b]), "00ff1a9b");
    assert_eq!(hex(&[]), "");
}

#[test]
fn digest_from_standard_base64() {
    assert_eq!(
        digest_to_hex("sha256:ungWv48Bz+pBQUDeXa4iI7ADYaOWF3qctBD/YfIAFa0="),
        Some(s("ba7816bf8f01cfea414140de5dae2223b00361a396177a9cb410ff61f20015ad"))
    );
}

#[test]
fn digest_from_url_safe_base64() {
    assert_eq!(
        digest_to_hex(" ungWv48Bz-pBQUDeXa4iI7ADYaOWF3qctBD_YfIAFa0 "),
        Some(s("ba7816bf8f01cfea414140de5dae2223b00361a396177a9cb410ff61f20015ad"))
    );
    assert_eq!(
        digest_to_hex("uU0nuZNNPgilLlLX2n2r-sSE7-N6U4DukIj3rOLvzek="),
        Some(s("b94d27b9934d3e08a52e52d7da7dabfac484efe37a5380ee9088f7ace2efcde9"))
    );
}

#[test]
fn digest_from_hex_text() {
    assert_eq!(
        digest_to_hex("sha256:BA7816BF8F01CFEA414140DE5DAE2223B00361A396177A9CB410FF61F20015AD"),
        Some(s("ba7816bf8f01cfea414140de5dae2223b00361a396177a9cb410ff61f20015ad"))
    );
}

#[test]
fn digest_rejects_other_values() {
    assert_eq!(digest_to_hex("sha256:"), None);
    assert_eq!(digest_to_hex("not a digest"), None);
    // valid base64, but of 3 bytes
    assert_eq!(digest_to_hex("YWJj"), None);
}

#[test]
fn digest_choice_from_decodings() {
    let bytes = vec![7u8; 32];
    let short = vec![1u8, 2, 3];
    assert_eq!(
        digest_hex_of_decodings("x", Some(short.clone()), None, Some(bytes.clone())),
        Some("07".repeat(32))
    );
    assert_eq!(
        digest_hex_of_decodings("x", Some(bytes.clone()), Some(vec![9u8; 32]), None),
        Some("07".repeat(32))
    );
    assert_eq!(digest_hex_of_decodings("x", Some(short), None, None), None);
    assert_eq!(
        digest_hex_of_decodings(&"Ab".repeat(32), None, None, None),
        Some("ab".repeat(32))
    );
    assert_eq!(digest_hex_of_decodings(&"Ag".repeat(32), None, None, None), None);
}

#[test]
fn download_digest_of_chunks() {
    let mut d = DownloadDigest::new();
    d.update(b"a");
    d.update(b"");
    d.update(b"bc");
    let digest = d.finish();
    assert_eq!(hex(&digest), "ba7816bf8f01cfea414140de5dae2223b00361a396177a9cb410ff61f20015ad");
}

#[test]
fn verify_digest_cases() {
    let mut d = DownloadDigest::new();
    d.update(b"abc");
    let digest = d.finish();
    assert!(verify_digest(&digest, &None));
    assert!(verify_digest(
        &digest,
        &Some(s("BA7816BF8F01CFEA414140DE5DAE2223B00361A396177A9CB410FF61F20015AD"))
    ));
    assert!(!verify_digest(
        &digest,
        &Some(s("b94d27b9934d3e08a52e52d7da7dabfac484efe37a5380ee9088f7ace2efcde9"))
    ));
    assert!(!verify_digest(&digest, &Some(s(""))));
}

// ------------------------------------------------------------ tables and state

#[test]
fn table_insert_get_replace() {
    let mut t: KeyedTable<String> = KeyedTable::new();
    assert_eq!(t.len(), 0);
    assert_eq!(t.insert(s("a"), s("1")), None);
    assert_eq!(t.insert(s("b"), s("2")), None);
    assert_eq!(t.insert(s("a"), s("3")), Some(s("1")));
    assert_eq!(t.len(), 2);
    assert_eq!(t.get("a"), Some(&s("3")));
    assert_eq!(t.get("b"), Some(&s("2")));
    assert_eq!(t.get("c"), None);
    assert!(t.contains_key("b"));
    assert_eq!(t.entry(0), (&s("a"), &s("3")));
}

#[test]
fn app_state_defaults_and_dirs() {
    let mut st = AppState::default();
    assert_eq!(st.install_dir, None);
    assert_eq!(st.local_patches.len(), 0);
    assert_eq!(st.base_dir("/data"), "/data");
    st.set_install_dir(s("/games"));
    assert_eq!(st.base_dir("/data"), "/games");
}

#[test]
fn tqo_channel_and_patch_key() {
    let c = sample_catalog();
    assert_eq!(tqo_channel(&c, "tqo"), Some(s("live")));
    assert_eq!(tqo_channel(&c, "tq"), None);
    assert_eq!(tqo_channel(&c, "nope"), None);
    assert_eq!(patch_key(&c, "tqo"), Some(s("tqo/live")));
    assert_eq!(patch_key(&c, "tq"), None);
}

#[test]
fn installed_patch_is_scanned_back() {
    let c = sample_catalog();
    let mut st = AppState::default();
    let mut b = build("2.0.1");
    b.edition = s("tqo");
    b.patch = Some(s("p42"));
    assert!(st.record_installed_patch(&c, "tqo", &b));
    assert_eq!(st.local_patches.get("tqo/live"), Some(&s("p42")));
    let key = patch_key(&c, "tqo");
    let r = scan("/games", "tqo", vec![], key.as_deref(), &st.local_patches);
    assert_eq!(r.installed_patch, Some(s("p42")));
    assert_eq!(r.install_dir, "/games/tqo");
}

#[test]
fn patch_key_falls_back_to_version() {
    let c = sample_catalog();
    let mut st = AppState::default();
    let mut b = build("1.5");
    b.patch = Some(s("x"));
    assert!(st.record_installed_patch(&c, "tq", &b));
    assert_eq!(st.local_patches.get("tq/1.5"), Some(&s("x")));
    let plain = build("1.6");
    assert!(!st.record_installed_patch(&c, "tq", &plain));
    assert_eq!(st.local_patches.len(), 1);
}

#[test]
fn lookup_patch_without_key() {
    let mut t = KeyedTable::new();
    t.insert(s("k"), s("v"));
    assert_eq!(lookup_patch(&t, None), None);
    assert_eq!(lookup_patch(&t, Some("k")), Some(s("v")));
    assert_eq!(lookup_patch(&t, Some("z")), None);
}

#[test]
fn scan_sorts_found_versions() {
    let t = KeyedTable::new();
    let r = scan("/g", "tq", vec![s("1.0.9"), s("1.0.10"), s("0.9")], None, &t);
    assert_eq!(r.installed_versions, vec![s("1.0.10"), s("1.0.9"), s("0.9")]);
    assert_eq!(r.installed_patch, None);
}

#[test]
fn edition_infos_sorted_by_key() {
    let infos = edition_infos(&sample_catalog());
    assert_eq!(infos.len(), 2);
    assert_eq!(infos[0].key, "tq");
    assert_eq!(infos[0].title, "TardQuest");
    assert_eq!(infos[0].subtitle, "The first game");
    assert_eq!(infos[0].source, "github");
    assert_eq!(infos[1].key, "tqo");
    assert_eq!(infos[1].title, "");
    assert_eq!(infos[1].subtitle, "");
    assert_eq!(infos[1].source, "tqo");
}

// ------------------------------------------------------------ fetch plans

#[test]
fn plan_for_unknown_edition() {
    let r = plan_fetch_for(&sample_catalog(), "zz", "linux");
    assert!(matches!(r, Err(FetchError::UnknownEdition(ref k)) if k == "zz"));
}

#[test]
fn plan_for_unsupported_source() {
    let mut editions = KeyedTable::new();
    let mut e = tqo_edition("x", "y");
    e.source = s("itch");
    editions.insert(s("e"), e);
    let r = plan_fetch_for(&Catalog { editions }, "e", "linux");
    assert!(matches!(r, Err(FetchError::UnsupportedSource(ref k)) if k == "itch"));
}

#[test]
fn plan_for_missing_configs() {
    let mut editions = KeyedTable::new();
    let mut g = github_edition("o/r", "linux", "x");
    g.github = None;
    editions.insert(s("g"), g);
    let mut t = tqo_edition("x", "y");
    t.tqo = None;
    editions.insert(s("t"), t);
    let c = Catalog { editions };
    assert!(matches!(plan_fetch_for(&c, "g", "linux"), Err(FetchError::GithubConfigMissing)));
    assert!(matches!(plan_fetch_for(&c, "t", "linux"), Err(FetchError::TqoConfigMissing)));
}

#[test]
fn plan_for_missing_platform() {
    let r = plan_fetch_for(&sample_catalog(), "tq", "windows");
    assert_eq!(
        r.err(),
        Some(FetchError::NoAssetMatcher { platform: s("windows"), edition: s("tq") })
    );
}

#[test]
fn plan_for_invalid_pattern() {
    let mut editions = KeyedTable::new();
    editions.insert(s("g"), github_edition("o/r", "linux", "(unclosed"));
    let r = plan_fetch_for(&Catalog { editions }, "g", "linux");
    let expected = regex::Regex::new("(unclosed").unwrap_err().to_string();
    assert!(expected.contains("unclosed"));
    assert_eq!(r.err(), Some(FetchError::InvalidAssetPattern(expected)));
}

#[test]
fn plan_for_github() {
    match plan_fetch_for(&sample_catalog(), "tq", "linux") {
        Ok(FetchPlan::Github { url, pattern }) => {
            assert_eq!(
                url,
                "https://api.github.com/repos/packardbell95/tardquest/releases?per_page=100"
            );
            assert_eq!(pattern.source(), r"\.AppImage$");
        }
        _ => panic!("expected a GitHub plan"),
    }
}

#[test]
fn plan_for_tqo() {
    match plan_fetch_for(&sample_catalog(), "tqo", "linux") {
        Ok(FetchPlan::Tqo { url, config }) => {
            assert_eq!(url, "https://tardquest.online/updates/live/latest.json");
            assert_eq!(config.channel, "live");
        }
        _ => panic!("expected a TQO plan"),
    }
    // on this platform
    assert!(matches!(plan_fetch(&sample_catalog(), "tqo"), Ok(FetchPlan::Tqo { .. })));
}

#[test]
fn urls() {
    assert_eq!(github_releases_url("a/b"), "https://api.github.com/repos/a/b/releases?per_page=100");
    let cfg = TqoConfig { base_url: s("https://h///"), channel: s("beta"), file_name: s("f") };
    assert_eq!(tqo_manifest_url(&cfg), "https://h/beta/latest.json");
    let cfg = TqoConfig { base_url: s(""), channel: s("c"), file_name: s("f") };
    assert_eq!(tqo_manifest_url(&cfg), "/c/latest.json");
}

// ------------------------------------------------------------ builds

fn asset(name: Option<&str>, digest: Option<&str>) -> ReleaseAsset {
    ReleaseAsset {
        name: name.map(s),
        browser_download_url: name.map(|n| format!("https://dl/{}", n)),
        size: Some(10),
        digest: digest.map(s),
    }
}

fn release(tag: Option<&str>, assets: Vec<ReleaseAsset>) -> Release {
    Release { tag_name: tag.map(s), body: tag.map(|t| format!("notes {}", t)), assets }
}

#[test]
fn github_builds_pick_matching_assets() {
    let pattern = match plan_fetch_for(&sample_catalog(), "tq", "linux") {
        Ok(FetchPlan::Github { pattern, .. }) => pattern,
        _ => panic!("expected a GitHub plan"),
    };
    let releases = vec![
        release(
            Some("1.2.0"),
            vec![
                asset(Some("game.exe"), None),
                asset(
                    Some("game-1.2.0.AppImage"),
                    Some("sha256:ungWv48Bz+pBQUDeXa4iI7ADYaOWF3qctBD/YfIAFa0="),
                ),
                asset(Some("other.AppImage"), None),
            ],
        ),
        release(Some(""), vec![asset(Some("x.AppImage"), None)]),
        release(None, vec![asset(Some("y.AppImage"), None)]),
        release(Some("1.10.0"), vec![asset(Some("g.AppImage"), Some("bogus"))]),
        release(Some("2.0.0"), vec![asset(Some("windows.exe"), None), asset(None, None)]),
        release(Some("0.9"), vec![]),
    ];
    assert_eq!(first_matching_asset(&pattern, &releases[0].assets), Some(1));
    assert_eq!(first_matching_asset(&pattern, &releases[4].assets), None);
    let builds = github_builds("tq", &pattern, &releases);
    assert_eq!(builds.len(), 2);
    assert_eq!(builds[0].version, "1.10.0");
    assert_eq!(builds[0].label, "1.10.0");
    assert_eq!(builds[0].file_name, "g.AppImage");
    assert_eq!(builds[0].sha256, None);
    assert_eq!(builds[1].version, "1.2.0");
    assert_eq!(builds[1].edition, "tq");
    assert_eq!(builds[1].file_name, "game-1.2.0.AppImage");
    assert_eq!(builds[1].download_url, "https://dl/game-1.2.0.AppImage");
    assert_eq!(
        builds[1].sha256,
        Some(s("ba7816bf8f01cfea414140de5dae2223b00361a396177a9cb410ff61f20015ad"))
    );
    assert_eq!(builds[1].size, Some(10));
    assert_eq!(builds[1].release_notes, "notes 1.2.0");
    assert_eq!(builds[1].patch, None);
}

#[test]
fn release_build_cases() {
    let r = release(Some("3.0"), vec![ReleaseAsset {
        name: None,
        browser_download_url: None,
        size: None,
        digest: None,
    }]);
    let b = release_build("e", &r, Some(0), Some(s("ab"))).unwrap();
    assert_eq!(b.file_name, "");
    assert_eq!(b.download_url, "");
    assert_eq!(b.sha256, Some(s("ab")));
    assert_eq!(b.version, "3.0");
    assert_eq!(release_build("e", &r, None, None), None);
    let untagged = release(None, vec![asset(Some("a"), None)]);
    assert_eq!(release_build("e", &untagged, Some(0), None), None);
}

#[test]
fn builds_sort_newest_first_stably() {
    let mut a = build("1.0");
    a.label = s("first");
    let mut b = build("1.0.0");
    b.label = s("second");
    let sorted = sort_builds_newest_first(vec![build("0.1"), a, build("2.0"), b]);
    let labels: Vec<String> = sorted.iter().map(|x| x.label.clone()).collect();
    assert_eq!(labels, vec![s("2.0"), s("first"), s("second"), s("0.1")]);
}

#[test]
fn tqo_build_uses_manifest_and_defaults() {
    let cfg = TqoConfig { base_url: s("u"), channel: s("live"), file_name: s("TQO.AppImage") };
    let full = TqoManifest {
        patch: Some(s("p7")),
        file_name: Some(s("TQO-2.AppImage")),
        download_url: Some(s("https://d")),
        sha256: Some(s("abc")),
        size: Some(99),
        release_notes: Some(s("n")),
        version: Some(s("2.0.0")),
    };
    let b = tqo_build("tqo", &cfg, &full);
    assert_eq!(b.edition, "tqo");
    assert_eq!(b.version, "2.0.0");
    assert_eq!(b.label, "live");
    assert_eq!(b.file_name, "TQO-2.AppImage");
    assert_eq!(b.download_url, "https://d");
    assert_eq!(b.sha256, Some(s("abc")));
    assert_eq!(b.size, Some(99));
    assert_eq!(b.release_notes, "n");
    assert_eq!(b.patch, Some(s("p7")));
    let empty = TqoManifest {
        patch: None,
        file_name: None,
        download_url: None,
        sha256: None,
        size: None,
        release_notes: None,
        version: None,
    };
    let b = tqo_build("tqo", &cfg, &empty);
    assert_eq!(b.version, "live");
    assert_eq!(b.file_name, "TQO.AppImage");
    assert_eq!(b.download_url, "");
    assert_eq!(b.release_notes, "");
    assert_eq!(b.patch, Some(s("")));
    assert_eq!(b.sha256, None);
}

// ------------------------------------------------------------ install

#[test]
fn install_plan_for_pte_and_archives() {
    let mut b = build("PTE");
    b.file_name = s("TQO.ZIP");
    let p = plan_install("tqo", &b, true);
    assert!(p.clear_existing);
    assert_eq!(p.temp_dir_name, "tq-tqo-PTE");
    assert!(p.extract);
    assert!(!plan_install("tqo", &b, false).clear_existing);
    let plain = build("1.0");
    let p = plan_install("tq", &plain, true);
    assert!(!p.clear_existing);
    assert!(!p.extract);
    assert_eq!(p.temp_dir_name, "tq-tq-1.0");
}

#[test]
fn archive_extensions() {
    assert!(is_zip_extension(Some("zip")));
    assert!(is_zip_extension(Some("ZiP")));
    assert!(!is_zip_extension(Some("zipx")));
    assert!(!is_zip_extension(None));
    assert!(is_archive("game.zip"));
    assert!(!is_archive("game.zip.AppImage"));
    assert!(!is_archive("zip"));
    assert!(!is_archive(".zip"));
}

#[test]
fn expected_size_prefers_build() {
    assert_eq!(expected_size(Some(5), Some(7)), Some(5));
    assert_eq!(expected_size(None, Some(7)), Some(7));
    assert_eq!(expected_size(None, None), None);
}

#[test]
fn install_keeps_other_patches() {
    let c = sample_catalog();
    let mut st = AppState::default();
    st.local_patches.insert(s("tq/1.0"), s("old"));
    st.local_patches.insert(s("other"), s("kept"));
    let mut b = build("2.0");
    b.edition = s("tqo");
    b.patch = Some(s("new"));
    assert!(st.record_installed_patch(&c, "tqo", &b));
    assert_eq!(st.local_patches.get("tq/1.0"), Some(&s("old")));
    assert_eq!(st.local_patches.get("other"), Some(&s("kept")));
    assert_eq!(st.local_patches.get("tqo/live"), Some(&s("new")));
    assert_eq!(st.local_patches.len(), 3);
}

#[test]
fn decimal_versions_order_as_numbers() {
    assert_eq!(version_key("12.0.345"), key(12, 0, 345, ""));
    assert_eq!(version_key("4294967295.0.1"), key(4294967295, 0, 1, ""));
    assert!(version_key("1.9.9") < version_key("1.10.0"));
    assert!(version_key("2.0.0") > version_key("1.99.99"));
    assert!(version_key("3.1.4") == version_key("3.1.4"));
}

#[test]
fn plan_install_only_extracts_zip_names() {
    let mut b = build("1.0");
    b.file_name = s("game.zip.AppImage");
    assert!(!plan_install("tq", &b, false).extract);
    b.file_name = s("Game.Zip");
    assert!(plan_install("tq", &b, false).extract);
}

#[test]
fn archive_names_with_directories() {
    assert!(is_archive("dir/game.zip"));
    assert!(is_archive("a/b/Game.ZIP"));
    assert!(is_archive("dir/game.zip/"));
    assert!(is_archive("dir/game.zip/."));
    assert!(!is_archive("a.zip/b"));
    assert!(!is_archive("a.zip/.."));
    assert!(!is_archive("dir/.zip"));
    assert!(!is_archive("/"));
    let mut b = build("1.0");
    b.file_name = s("dir/Game.ZIP");
    assert!(plan_install("tq", &b, false).extract);
    b.file_name = s("a.zip/b");
    assert!(!plan_install("tq", &b, false).extract);
    b.file_name = s("a.zip/");
    assert!(plan_install("tq", &b, false).extract);
}

#[test]
fn join_cases() {
    assert_eq!(edition_dir("", "tq"), "tq");
    assert_eq!(edition_dir("/", "tq"), "/tq");
    assert_eq!(version_dir("/games", "tardquest", "1.19.2-251213"), "/games/tardquest/1.19.2-251213");
    assert_eq!(version_dir("/g", "a/b", "../x"), "/g/a_b/.._x");
}

#[test]
fn channel_falls_back_on_cache_only_when_offline() {
    let fresh = vec![build("2.0")];
    let cached = vec![build("1.0")];
    assert_eq!(
        channel_outcome(Ok(fresh.clone()), Some(cached.clone())),
        ChannelOutcome::Fresh(fresh.clone())
    );
    assert_eq!(channel_outcome(Ok(fresh.clone()), None), ChannelOutcome::Fresh(fresh));
    assert_eq!(
        channel_outcome(Err(s("offline")), Some(cached.clone())),
        ChannelOutcome::Cached(cached)
    );
    assert_eq!(
        channel_outcome::<Vec<Build>>(Err(s("offline")), None),
        ChannelOutcome::Failed(s("offline"))
    );
}
