use agentplug::browser;
use agentplug::browser::{BrowserAction, BrowserRuntimeConfig, RunEnd, ScriptPlan};
use agentplug::browser_engine;
use agentplug::browser_engine::{AcquiredEngine, BrowserEngineFileConfig, Engine};
use agentplug::chrome;
use agentplug::chrome::{DirEntry, Platform};
use agentplug::dispatch_origin::DispatchOrigin;
use agentplug::json;
use agentplug::json::Json;
use agentplug::oxibrowser_driver;
use agentplug::oxibrowser_driver::{OxiPlan, OxiStep};
use agentplug::prefixes;
use agentplug::prefixes::BrowserMode;
use agentplug::serve;
use agentplug::serve::ServeStep;
use agentplug::sessions;
use agentplug::sessions::{BrowserSession, Ending, LivenessProbe};
use agentplug::strmap::StrMap;

fn session(cwd: &str, id: &str, used: u64) -> BrowserSession {
    let mut s = browser::new_session(cwd, id, 7, 9222, true, true, used);
    s.last_used_ms = used;
    s
}

fn table(list: Vec<BrowserSession>) -> StrMap<BrowserSession> {
    let mut m = StrMap::new();
    for s in list {
        m.insert(sessions::session_key(&s.cwd, &s.session_id), s);
    }
    m
}

fn no_engine() -> BrowserEngineFileConfig {
    BrowserEngineFileConfig { engine: None, lightpanda_path: None, steel_endpoint: None }
}

#[test]
fn prefix_lines_stand_in_any_order() {
    let (a, rest_a) = prefixes::strip_all("timeout=5000\nurl=https://x.y\nreturn 1");
    let (b, rest_b) = prefixes::strip_all("url=https://x.y\ntimeout=5000\nreturn 1");
    assert_eq!(a.timeout_ms, Some(5000));
    assert_eq!(b.timeout_ms, Some(5000));
    assert_eq!(a.start_url, b.start_url);
    assert_eq!(a.start_url, Some("https://x.y".to_string()));
    assert_eq!(rest_a, "return 1");
    assert_eq!(rest_b, "return 1");
}

#[test]
fn a_mode_is_named_by_its_prefix() {
    let (p, rest) = prefixes::strip_all("screenshot=shot\nreturn 1");
    assert!(p.mode == BrowserMode::Screenshot);
    assert_eq!(p.mode_name, "shot");
    assert_eq!(rest, "return 1");
    let (p, _) = prefixes::strip_all("return 1");
    assert!(p.mode == BrowserMode::Default && p.timeout_ms.is_none() && p.viewport.is_none());
}

#[test]
fn a_session_is_named_by_its_line() {
    let (id, rest) = prefixes::strip_session_id_prefix("sessionId=abc\nreturn 1");
    assert_eq!(id, Some("abc".to_string()));
    assert_eq!(rest, "return 1");
    assert_eq!(prefixes::strip_session_id_prefix("sessionId=\nreturn 1"), (None, "return 1"));
    assert_eq!(prefixes::strip_session_id_prefix("return 1"), (None, "return 1"));
}

#[test]
fn a_viewport_has_a_width_and_a_height() {
    let (v, rest) = prefixes::strip_viewport_width_height_scale_mobile_prefix("viewport=390x844\nx").unwrap();
    assert_eq!((v.width, v.height), (390, 844));
    assert_eq!(rest, "x");
    assert!(prefixes::strip_viewport_width_height_scale_mobile_prefix("viewport=390\nx").is_none());
}

#[test]
fn no_empty_script_runs() {
    let p = browser::plan("timeout=5000\n  ", "{}", "s");
    match p.action {
        BrowserAction::Answer(j) => assert_eq!(j.bool_field("ok"), Some(false)),
        _ => panic!("something would run"),
    }
    let p = browser::plan("return 1", "{}", "s");
    match p.action {
        BrowserAction::Run(plan) => {
            assert_eq!(plan.script, "return 1");
            assert_eq!(plan.timeout_ms, browser::EVAL_TIMEOUT_MS_DEFAULT);
        }
        _ => panic!("not run"),
    }
    assert!(!p.session_id.is_empty());
}

#[test]
fn a_session_is_opened_listed_and_closed() {
    assert!(matches!(browser::plan("session new", "{}", "s").action, BrowserAction::New));
    assert!(matches!(browser::plan("session list", "{}", "s").action, BrowserAction::List));
    match browser::plan("session close abc", "{}", "s").action {
        BrowserAction::Close { id, .. } => assert_eq!(id, "abc"),
        _ => panic!("not closed"),
    }
    let mut m = table(vec![session("/p", "a", 1)]);
    let keys = browser::session_keys(&m, "/p");
    assert_eq!(keys.len(), 1);
    let listed = json::to_text(&browser::session_list(&m, &keys, &vec![true], 11));
    assert!(listed.contains("9222"), "{listed}");
    let (gone, reply) = browser::session_close(&mut m, "/p", "a", true);
    assert!(gone.is_some());
    assert_eq!(reply.bool_field("ok"), Some(true));
    let (gone, reply) = browser::session_close(&mut m, "/p", "a", true);
    assert!(gone.is_none());
    assert_eq!(reply.bool_field("ok"), Some(false));
    assert_eq!(browser::session_close(&mut m, "/p", "a", false).1.bool_field("ok"), Some(true));
}

#[test]
fn dead_sessions_are_dropped() {
    let mut m = table(vec![session("/p", "a", 1), session("/p", "b", 1)]);
    let keys = browser::session_keys(&m, "/p");
    browser::drop_dead_sessions(&mut m, &keys, &vec![true, false]);
    assert_eq!(m.len(), 1);
    assert!(m.contains(&keys[0]));
}

#[test]
fn a_run_that_did_not_evaluate_is_no_success() {
    let end = RunEnd { exit_code: 0, timed_out: false, duration_ms: 5 };
    let reply = browser::run_reply(BrowserMode::Default, "", end, "", &browser::run_result(None), &None);
    assert_eq!(reply.bool_field("ok"), Some(false));
    let end = RunEnd { exit_code: 0, timed_out: false, duration_ms: 5 };
    let result = browser::run_result(Some(r#"{"ok":true,"result":3}"#));
    let reply = browser::run_reply(BrowserMode::Default, "", end, "", &result, &None);
    assert_eq!(reply.bool_field("ok"), Some(true), "{}", json::to_text(&reply));
    let end = RunEnd { exit_code: -1, timed_out: true, duration_ms: 5 };
    let reply = browser::run_reply(BrowserMode::Default, "", end, "", &result, &None);
    assert_eq!(reply.bool_field("ok"), Some(false));
}

#[test]
fn settings_have_defaults() {
    let c = BrowserRuntimeConfig {
        cdp_poll_timeout_ms: None,
        cdp_poll_interval_ms: Some(7),
        chrome_ready_deadline_ms: None,
        eval_timeout_grace_ms: None,
        headless: None,
        session_idle_timeout_ms: None,
    };
    assert_eq!(c.cdp_poll_interval(), 7);
    assert!(c.cdp_poll_timeout() > 0 && c.session_idle_timeout() > 0);
    assert!(!c.headless());
}

#[test]
fn unknown_requests_get_chrome() {
    assert!(browser_engine::select_engine(None, &no_engine(), Some("netscape"), true) == Engine::Chrome);
    assert!(browser_engine::select_engine(None, &no_engine(), None, true) == Engine::Chrome);
    assert!(browser_engine::select_engine(None, &no_engine(), Some("lightpanda"), true) == Engine::Lightpanda);
    assert!(browser_engine::select_engine(None, &no_engine(), Some("lightpanda"), false) == Engine::Chrome);
    assert!(browser_engine::select_engine(Some("http://h:1"), &no_engine(), None, true) == Engine::Steel);
    let configured = BrowserEngineFileConfig { engine: Some("lightpanda".to_string()), ..no_engine() };
    assert!(browser_engine::select_engine(None, &configured, None, true) == Engine::Chrome);
    assert!(browser_engine::select_engine(None, &configured, Some("chrome"), true) == Engine::Chrome);
}

#[test]
fn an_engine_of_others_is_not_owned() {
    assert!(browser_engine::owns_process(Engine::Chrome));
    assert!(browser_engine::owns_process(Engine::Lightpanda));
    assert!(!browser_engine::owns_process(Engine::Steel));
}

#[test]
fn the_port_of_an_endpoint_is_read() {
    assert_eq!(browser_engine::parse_steel_port("http://127.0.0.1:3000"), Ok(3000));
    assert_eq!(browser_engine::parse_steel_port("ws://h:9223/x"), Ok(9223));
    assert!(browser_engine::parse_steel_port("http://h").is_err());
    assert!(browser_engine::parse_steel_port("http://h:70000").is_err());
}

#[test]
fn a_log_is_shown_by_its_last_lines() {
    assert!(browser_engine::tail_of_log("a\nb\nc", 2).contains('c'));
    assert!(!browser_engine::tail_of_log("a\nb\nc", 2).contains('a'));
    assert!(browser_engine::lightpanda_not_ready(None, 5).contains('5'));
    assert!(browser::chrome_not_ready(Some("boom"), 5).contains("boom"));
}

#[test]
fn session_keys_are_distinct() {
    assert_ne!(sessions::session_key("/a", "b"), sessions::session_key("/b", "a"));
    assert_eq!(sessions::session_key("/a", "b"), sessions::session_key("/a", "b"));
}

#[test]
fn idle_sessions_end() {
    let mut m = table(vec![session("/p", "old", 0), session("/p", "new", 90), session("/q", "x", 0)]);
    let ended = sessions::end_sessions(&mut m, Ending::Idle { cwd: "/p", timeout_ms: 50, now_ms: 100 });
    assert_eq!(ended.len(), 1);
    assert_eq!(ended[0].session_id, "old");
    let roots = vec!["/p".to_string()];
    let ended = sessions::end_sessions(&mut m, Ending::Unknown { roots: &roots });
    assert_eq!(ended.len(), 1);
    assert_eq!(ended[0].cwd, "/q");
    assert_eq!(sessions::close_all_sessions(&mut m).len(), 1);
    assert_eq!(m.len(), 0);
}

#[test]
fn every_known_project_loses_its_idle_sessions() {
    let mut m = table(vec![session("/p", "a", 0), session("/q", "b", 0), session("/r", "c", 0)]);
    let roots = vec!["/p".to_string(), "/q".to_string()];
    let ended = sessions::reap_idle_sessions_and_os_orphans_across_every_known_project_root(
        &mut m,
        &roots,
        &vec![10, 1000],
        100,
    );
    let ids: Vec<&str> = ended.iter().map(|s| s.session_id.as_str()).collect();
    assert_eq!(ids.len(), 2);
    assert!(ids.contains(&"a") && ids.contains(&"c") && !ids.contains(&"b"));
}

#[test]
fn only_own_processes_are_ended() {
    let mut s = session("/p", "a", 0);
    let plan = sessions::kill_plan(&s).unwrap();
    assert_eq!(plan.pid, 7);
    assert!(!plan.files.is_empty());
    s.owns_process = false;
    assert!(sessions::kill_plan(&s).is_none());
    assert!(matches!(sessions::liveness_probe(&s), LivenessProbe::Endpoint { port: 9222 }));
}

#[test]
fn notes_are_read_back() {
    let profile = sessions::browser_chrome_profile_dir("/p", "my session");
    let notes = serve::session_notes(&profile, 42, 9333, "my session");
    let get = |p: String| notes.iter().find(|n| n.0 == p).map(|n| n.1.as_str());
    let a = browser::adoption_from_notes(
        get(sessions::session_id_sidecar_path(&profile)),
        None,
        "whatever",
        get(sessions::pid_sidecar_path(&profile)),
        get(sessions::port_sidecar_path(&profile)),
    )
    .unwrap();
    assert_eq!((a.session_id.as_str(), a.pid, a.port), ("my session", 42, 9333));
    assert!(browser::adoption_from_notes(None, None, "x", None, Some("9")).is_none());
    let noted = || browser::adoption_from_notes(None, None, "browser-chrome-profile-s", Some(" 7\n"), Some("9"));
    let found = browser::adoptable(noted(), true, true).unwrap();
    assert_eq!((found.session_id.as_str(), found.pid, found.port), ("s", 7, 9));
    assert!(browser::adoptable(noted(), false, true).is_none());
    assert!(browser::adoptable(noted(), true, false).is_none());
    assert_eq!(browser::noted_process(Some("12\n")), Some(12));
    assert_eq!(browser::noted_process(Some("x")), None);
}

#[test]
fn lines_before_a_script_stack_in_any_order() {
    let seen = |body: &str| {
        let (p, rest) = prefixes::strip_all(body);
        (p.timeout_ms, p.mode, p.mode_name, p.viewport.map(|v| (v.width, v.height)), p.start_url, rest.to_string())
    };
    let said = seen("url=https://x.y\ndom=#a\nviewport=3x4\ntimeout=9\nreturn 1");
    assert_eq!(said.4.as_deref(), Some("https://x.y"));
    assert_eq!(said.5, "return 1");
    assert_eq!(seen("  timeout=9\ndom=#a\nhttps://x.y\nviewport=3x4\nreturn 1"), said);
    assert_eq!(seen("viewport=3x4\ntimeout=9\n url=https://x.y \ndom=#a\nreturn 1"), said);
}

#[test]
fn a_session_is_served_from_the_table_the_notes_or_a_new_browser() {
    let mut m = table(vec![session("/p", "a", 1)]);
    let key = sessions::session_key("/p", "a");
    assert!(matches!(serve::begin_serving(&m, &key, Engine::Chrome), ServeStep::CheckAlive));
    match serve::session_checked(&mut m, &key, Engine::Chrome, true) {
        ServeStep::CheckEndpoint { port } => assert_eq!(port, 9222),
        _ => panic!("endpoint not checked"),
    }
    let (step, ended) = serve::endpoint_checked(&mut m, &key, Engine::Chrome, 9222, true, 50);
    assert!(matches!(step, ServeStep::Ready { serving_port: 9222, .. }));
    assert!(ended.is_none());
    assert_eq!(m.get(&key).unwrap().last_used_ms, 50);
    let (step, ended) = serve::endpoint_checked(&mut m, &key, Engine::Chrome, 9222, false, 60);
    assert!(ended.is_some());
    assert!(matches!(step, ServeStep::ReadNotes));
    assert!(matches!(serve::notes_read(&mut m, "/p", "a", &None, false, 60), ServeStep::Acquire));
    let e = AcquiredEngine { child: Some(9), port: 1234, owns_process: true };
    match serve::acquired(&mut m, "/p", "a", &e, 70) {
        ServeStep::Ready { serving_port, .. } => assert_eq!(serving_port, 1234),
        _ => panic!("not ready"),
    }
    assert!(serve::evict_if_wedged(&mut m, &key, true, true).is_none());
    assert!(serve::evict_if_wedged(&mut m, &key, true, false).is_some());
    assert!(!m.contains(&key));
}

#[test]
fn processes_are_found_by_their_profile() {
    let list = vec![
        (5, "chrome --user-data-dir=/p/x --headless".to_string()),
        (6, "chrome --user-data-dir=/q".to_string()),
    ];
    assert_eq!(browser::find_pids_of_chrome_processes_using_profile_dir(&list, "/p/x"), vec![5]);
    assert_eq!(browser::pids_to_check(Some("9"), &list, "/p/x"), vec![9]);
    assert_eq!(browser::pids_to_check(None, &list, "/P/X"), vec![5]);
    assert_eq!(browser::cmdline_flag_value("chrome --a=b --c", "--a="), Some("b".to_string()));
}

#[test]
fn the_daemon_is_known_by_its_status() {
    assert!(browser::this_process_is_the_registered_daemon(Some(r#"{"pid":5,"ts":100}"#), 200, 5));
    assert!(!browser::this_process_is_the_registered_daemon(Some(r#"{"pid":6,"ts":100}"#), 200, 5));
    assert!(browser::this_process_is_the_registered_daemon(Some(r#"{"pid":6,"ts":100}"#), 30_000, 5));
    assert!(browser::this_process_is_the_registered_daemon(None, 200, 5));
}

#[test]
fn chrome_starts_with_its_profile_and_port() {
    let args = browser::chrome_args("/p/x", 9222, true, true);
    assert!(args.contains(&"--user-data-dir=/p/x".to_string()));
    assert!(args.contains(&"--remote-debugging-port=9222".to_string()));
    assert!(args.iter().any(|a| a.starts_with("--headless")));
    assert!(args.contains(&"--no-sandbox".to_string()));
    assert!(!browser::chrome_args("/p/x", 9222, false, false).contains(&"--no-sandbox".to_string()));
}

#[test]
fn the_helper_is_told_what_to_do() {
    let plan = ScriptPlan {
        timeout_ms: 5,
        mode: BrowserMode::Default,
        mode_name: String::new(),
        viewport: None,
        start_url: Some("https://x".to_string()),
        script: "1".to_string(),
    };
    let files = browser::run_files("/tmp", &browser::run_stamp(3, "s"));
    let c = json::to_text(&browser::helper_config(&plan, 9222, &Some("T".to_string()), &files, &None, Json::Null));
    assert!(c.contains("9222") && c.contains("https://x") && c.contains(&files.result), "{c}");
    assert_ne!(files.script, files.result);
}

#[test]
fn chrome_is_looked_for_in_its_usual_places() {
    let dirs = vec!["/bin".to_string(), "/usr/bin".to_string()];
    assert_eq!(chrome::which_candidates(&dirs, "node", Platform::Other), vec!["/bin/node", "/usr/bin/node"]);
    assert!(chrome::chrome_candidates(Platform::MacOs, Some("/h")).iter().any(|p| p.ends_with("Google Chrome")));
    let places = vec!["/a".to_string(), "/b".to_string()];
    assert_eq!(chrome::first_existing(&places, &vec![false, true]), Some("/b".to_string()));
    assert_eq!(chrome::first_existing(&places, &vec![false, false]), None);
    assert_eq!(chrome::find_chrome(None, Some("b".into()), Some("c".into()), None), Some("b".to_string()));
    let mut left = Vec::new();
    let entries = vec![
        DirEntry { path: "/x/sub".to_string(), is_dir: true },
        DirEntry { path: "/x/chrome".to_string(), is_dir: false },
    ];
    assert_eq!(chrome::scan_entries(&mut left, &entries, "chrome"), Some("/x/chrome".to_string()));
    let mut left = Vec::new();
    assert_eq!(chrome::scan_entries(&mut left, &entries, "other"), None);
    assert_eq!(left, vec!["/x/sub"]);
}

#[test]
fn terminal_commands_run_nothing() {
    let origin = DispatchOrigin { gm_session: None, named_page_session: None };
    assert!(matches!(oxibrowser_driver::plan("session list", &origin, "s"), OxiPlan::List { .. }));
    assert!(matches!(oxibrowser_driver::plan("session close x", &origin, "s"), OxiPlan::Close { .. }));
    assert!(matches!(oxibrowser_driver::plan("session new", &origin, "s"), OxiPlan::Answer(_)));
    match oxibrowser_driver::plan("return 1", &origin, "s") {
        OxiPlan::Run { script, .. } => assert_eq!(script, "return 1"),
        _ => panic!("not run"),
    }
}

#[test]
fn what_the_engine_cannot_do_is_refused() {
    let r = oxibrowser_driver::rejects_unsupported_mode("screenshot=x\n1").unwrap();
    assert_eq!(r.bool_field("ok"), Some(false));
    assert!(oxibrowser_driver::rejects_unsupported_mode("return 1").is_none());
}

#[test]
fn a_script_goes_to_the_page() {
    let script = oxibrowser_driver::parse_script("return 1").ok().unwrap();
    match oxibrowser_driver::step_after_navigation(&script, None, "page", &None) {
        OxiStep::Call { verb, body } => {
            assert_eq!(verb, "evaluate");
            assert!(json::to_text(&body).contains("return 1"));
        }
        OxiStep::Answer(_) => panic!("not called"),
    }
    let failed = json::object1("ok", json::boolean(false));
    let script = oxibrowser_driver::parse_script("url=https://x\nreturn 1").ok().unwrap();
    match oxibrowser_driver::step_after_navigation(&script, Some(failed), "page", &None) {
        OxiStep::Answer(j) => assert_eq!(j.bool_field("ok"), Some(false)),
        OxiStep::Call { .. } => panic!("called"),
    }
}

#[test]
fn a_session_stays_with_its_project_however_that_is_written() {
    let mut m = table(vec![session("/p", "a", 90)]);
    let roots = vec!["/p/".to_string()];
    assert!(sessions::end_sessions(&mut m, Ending::Unknown { roots: &roots }).is_empty());
    assert!(sessions::end_sessions(&mut m, Ending::Idle { cwd: "/p/./", timeout_ms: 50, now_ms: 100 }).is_empty());
    assert_eq!(sessions::end_sessions(&mut m, Ending::Idle { cwd: "/p/./", timeout_ms: 5, now_ms: 100 }).len(), 1);
}
