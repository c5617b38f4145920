use agentplug::clock;
use agentplug::download;
use agentplug::download::ProjectPluginSpec;
use agentplug::json;
use agentplug::update;
use agentplug::update::{ApiFailure, FailureNote, InstallStep, MarkerTrust, RefreshStep};

#[test]
fn the_hash_is_sha256() {
    assert_eq!(
        download::sha256_hex(b""),
        "e3b0c44298fc1c149afbf4c8996fb92427ae41e4649b934ca495991b7852b855"
    );
    assert_eq!(
        download::sha256_hex(b"abc"),
        "ba7816bf8f01cfea414140de5dae2223b00361a396177a9cb410ff61f20015ad"
    );
}

#[test]
fn what_is_downloaded_is_checked() {
    let h = download::sha256_hex(b"abc");
    assert!(download::download_and_verify("u", b"abc", &h).is_ok());
    let e = download::download_and_verify("u", b"abd", &h).err().unwrap();
    assert!(e.contains('u') && e.contains(&h));
    assert_eq!(download::expected_hash(&format!("{h}  gm.wasm\n"), "gm.wasm", "p"), Ok(h));
    assert!(download::expected_hash("  ", "gm.wasm", "p").is_err());
}

#[test]
fn versions_are_read_from_addresses() {
    let u = format!("{}/gm.wasm", download::release_base_url("o/r", "1.2.3"));
    assert_eq!(download::extract_version_from_release_url(&u), Some("1.2.3".to_string()));
    assert_eq!(download::extract_version_from_release_url("https://x/y"), None);
    assert!(download::is_recognized_release_semver("1.2.3"));
    assert!(!download::is_recognized_release_semver("1.2"));
    assert!(!download::is_recognized_release_semver("latest"));
}

#[test]
fn a_noted_version_reads_back() {
    assert_eq!(download::installed_plugin_version(Some("1.2.3\n")), Some("1.2.3".to_string()));
    assert_eq!(download::installed_plugin_version(Some(" ")), None);
    assert_eq!(download::installed_runner_version(None), None);
}

#[test]
fn declarations_win_over_what_is_built_in() {
    let own = ProjectPluginSpec { name: "gm".into(), repo: "me/gm".into(), asset_basename: "mine".into() };
    let s = download::plugin_asset_spec_for_roots("gm", &vec![vec![own]]).unwrap();
    assert_eq!((s.repo.as_str(), s.asset_basename.as_str()), ("me/gm", "mine"));
    let s = download::plugin_asset_spec_for_roots("gm", &vec![]).unwrap();
    let b = download::builtin_plugin_asset_spec("gm").unwrap();
    assert_eq!(s.repo, b.repo);
    assert!(download::plugin_asset_spec_for_roots("nothing", &vec![]).is_none());
    assert!(download::unknown_plugin_error("nothing").contains("nothing"));
}

#[test]
fn the_root_of_this_process_declares_too() {
    let known = vec!["/p".to_string()];
    assert_eq!(download::declaring_roots(&known, Some("/q")).len(), 2);
    assert_eq!(download::declaring_roots(&known, Some("/p")).len(), 1);
    assert_eq!(download::declaring_roots(&known, None), known);
}

#[test]
fn a_failed_load_brings_the_previous_plugin_back() {
    let kept = update::snapshot_prev_wasm_and_version("/i/gm.wasm", "/i/gm.version", true, true);
    let back = update::record_plugin_load_failure_and_rollback("/i/gm.wasm", "/i/gm.version", true, true).unwrap();
    assert_eq!(kept.len(), 2);
    for (k, b) in kept.iter().zip(back.iter()) {
        assert_eq!(k.source, b.target);
        assert_eq!(k.target, b.source);
    }
    assert!(update::record_plugin_load_failure_and_rollback("/i/gm.wasm", "/i/gm.version", false, true).is_none());
    assert!(update::snapshot_prev_wasm_and_version("/i/gm.wasm", "/i/gm.version", false, false).is_empty());
}

#[test]
fn bad_versions_are_remembered() {
    let none = update::read_known_bad_versions(None);
    assert!(none.is_empty());
    let one = update::record_known_bad_version(&none, "1.0.0").unwrap();
    assert!(update::record_known_bad_version(&one, "1.0.0").is_none());
    let two = update::record_known_bad_version(&one, "1.0.1").unwrap();
    assert_eq!(update::read_known_bad_versions(Some(&update::known_bad_text(&two))), two);
}

#[test]
fn a_refused_request_says_why() {
    let limited = ApiFailure::Status { code: 403, remaining: Some("0".into()), reset: Some("99".into()) };
    let t = update::describe_github_api_error("u", &limited);
    assert!(t.contains("403") && t.contains("99"), "{t}");
    let t = update::describe_github_api_error("u", &ApiFailure::Transport("down".into()));
    assert!(t.contains("down"));
    assert!(update::retries_without_token(true, Some(401)));
    assert!(!update::retries_without_token(false, Some(401)));
    assert!(!update::retries_without_token(true, None));
    assert_eq!(update::github_token(Some("a"), Some("b")), Some("a"));
    assert_eq!(update::github_token(None, Some("b")), Some("b"));
}

#[test]
fn the_newest_release_is_found() {
    assert_eq!(update::fetch_latest_runner_version(r#"{"tag_name":"v1.2.3"}"#), Ok(Some("1.2.3".to_string())));
    assert_eq!(update::fetch_latest_runner_version("{}"), Ok(None));
    assert!(update::fetch_latest_runner_version("{").is_err());
    assert!(update::fetch_latest_plugin_version("{", "r", "gm").is_err());
}

#[test]
fn a_platform_has_its_runner() {
    assert!(update::runner_asset_name("linux", "x86_64").is_some());
    assert!(update::runner_asset_name("plan9", "x86_64").is_none());
}

#[test]
fn a_marker_is_trusted_as_far_as_it_goes() {
    assert!(update::marker_trust(Some("1.0.1"), "1.0.1", "1.0.1") == MarkerTrust::Current);
    assert!(update::marker_trust(Some("1.0.1"), "1.0.1", "1.0.0") == MarkerTrust::Wrong);
    assert!(update::marker_trust(Some("1.0.0"), "1.0.1", "1.0.0") == MarkerTrust::Outdated);
    assert!(update::marker_trust(None, "1.0.1", "1.0.0") == MarkerTrust::Outdated);
}

#[test]
fn the_canonical_runner_is_settled() {
    let c = update::canonical_runner_exe_path("/b/agentplug-runner.new");
    assert_eq!(update::canonical_runner_exe_path(&c), c);
    let c = update::canonical_runner_exe_path("/b/agentplug-runner");
    assert_eq!(c, "/b/agentplug-runner");
}

#[test]
fn a_plugin_is_refreshed_only_when_it_is_stale() {
    let none: Vec<String> = Vec::new();
    assert!(matches!(update::latest_known("1.0.0", Some("1.0.0"), &none), RefreshStep::CompareHashes));
    assert!(matches!(update::latest_known("1.0.0", Some("1.0.1"), &none), RefreshStep::Install));
    assert!(matches!(update::latest_known("1.0.0", Some("1.0.1"), &vec!["1.0.1".to_string()]), RefreshStep::StayFromBad));
    assert!(matches!(update::latest_known("1.0.0", None, &none), RefreshStep::Stay));
    assert!(matches!(update::hashes_compared("1.0.0", Some("AB"), Some("ab"), &none), RefreshStep::Stay));
    assert!(matches!(update::hashes_compared("1.0.0", Some("cd"), Some("ab"), &none), RefreshStep::Install));
    assert!(matches!(update::hashes_compared("1.0.0", None, Some("ab"), &none), RefreshStep::Stay));
    assert!(matches!(update::refresh_plugin_if_stale(None, true), RefreshStep::Stay));
    assert!(matches!(update::refresh_plugin_if_stale(Some("dev"), true), RefreshStep::NoteSideload));
    assert!(matches!(update::refresh_plugin_if_stale(Some("1.0.0"), true), RefreshStep::AskLatest));
    assert!(matches!(update::refresh_plugin_if_stale(Some("1.0.0"), false), RefreshStep::Stay));
    assert!(update::refreshes_skills("gm") && !update::refreshes_skills("bert"));
}

#[test]
fn a_failed_install_waits() {
    assert!(matches!(update::ensure_plugin_installed("p", true, None, None, true), InstallStep::Installed));
    assert!(matches!(update::ensure_plugin_installed("p", false, None, Some(29_999), true), InstallStep::Refused(_)));
    assert!(matches!(update::ensure_plugin_installed("p", false, None, Some(30_000), true), InstallStep::Fetch));
    assert!(matches!(update::ensure_plugin_installed("p", false, None, None, true), InstallStep::Fetch));
    assert!(matches!(update::ensure_plugin_installed("p", false, None, None, false), InstallStep::Refused(_)));
    assert!(matches!(update::failure_note(false, true, 5), FailureNote::Remove));
    match update::failure_note(false, false, 5) {
        FailureNote::Write(t) => assert_eq!(update::read_plugin_install_failure_elapsed(Some(&t), 12), Some(7)),
        _ => panic!("not noted"),
    }
    assert_eq!(update::read_plugin_install_failure_elapsed(None, 12), None);
}

#[test]
fn skills_are_written_when_they_differ() {
    assert!(update::skill_needs_write(None, "a"));
    assert!(update::skill_needs_write(Some("a"), "b"));
    assert!(!update::skill_needs_write(Some("a\r\nb"), "a\nb"));
    assert_eq!(update::normalize_newlines("a\r\nb\rc"), "a\r\nb\rc".replace("\r\n", "\n"));
    let dirs = vec![".agents".to_string(), ".others".to_string()];
    assert_eq!(update::installed_skill_roots("/h", &dirs), vec!["/h/.agents/skills", "/h/.others/skills"]);
    let found = vec!["b".to_string(), "a".to_string(), "b".to_string()];
    assert_eq!(update::discover_installed_skill_names(&found), vec!["a", "b"]);
    assert_eq!(update::skill_file("/h", "gm"), "/h/gm/SKILL.md");
}

#[test]
fn a_sideloaded_plugin_is_marked() {
    let m = json::to_text(&update::sideload_marker("gm", "dev", 7));
    assert!(m.contains("gm") && m.contains("dev") && m.contains('7'));
}

#[test]
fn time_is_told_in_milliseconds() {
    assert_eq!(clock::now_ms(Some((2, 3_999_999))), 2003);
    assert_eq!(clock::now_ms(None), 0);
}

#[test]
fn left_downloads_are_found_by_their_name() {
    let left = update::download_temporary_path("/p/gm.wasm", 42);
    assert_eq!(left, "/p/gm.tmp.42");
    assert!(update::is_download_tmp_name("gm.tmp.42"));
    assert!(!update::is_download_tmp_name("backup.tmp.old"));
    assert!(!update::is_download_tmp_name("gm.tmp."));
    assert!(!update::is_download_tmp_name("gm.tmp.42.wasm"));
    assert!(!update::is_download_tmp_name("gm.wasm"));
    assert!(update::is_stale_tmp_file("gm.tmp.42", Some(3_600_000), 3_600_000));
    assert!(!update::is_stale_tmp_file("gm.tmp.42", Some(3_599_999), 3_600_000));
    assert!(!update::is_stale_tmp_file("gm.tmp.42", None, 0));
    assert!(!update::is_stale_tmp_file("gm.wasm", Some(u64::MAX), 0));
}

#[test]
fn a_new_runner_waits_beside_the_running_one() {
    assert_eq!(update::staged_runner_path("/b/runner.exe"), "/b/runner.exe.new");
    assert_eq!(update::staged_runner_path("/b/runner.exe.new"), "/b/runner.exe.new2");
    assert_eq!(update::staged_runner_path("/b/runner"), "/b/runner.new");
}

#[test]
fn the_first_declaring_project_decides() {
    let spec = |repo: &str| ProjectPluginSpec {
        name: "gm".to_string(),
        repo: repo.to_string(),
        asset_basename: "gm".to_string(),
    };
    let declared = vec![vec![], vec![spec("a/b")], vec![spec("c/d")]];
    assert_eq!(download::plugin_asset_spec_for_roots("gm", &declared).unwrap().repo, "a/b");
}

#[test]
fn a_bad_version_is_not_taken_again() {
    let bad = vec!["1.0.1".to_string()];
    assert!(matches!(update::latest_known("1.0.0", Some("1.0.1"), &bad), RefreshStep::StayFromBad));
    assert!(matches!(update::latest_known("1.0.0", Some("1.0.2"), &bad), RefreshStep::Install));
    assert!(matches!(update::hashes_compared("1.0.1", Some("aa"), Some("bb"), &bad), RefreshStep::StayFromBad));
}

#[test]
fn a_root_declares_once_however_it_is_written() {
    let known = vec!["/p/".to_string()];
    assert_eq!(download::declaring_roots(&known, Some("/p")), known);
}
