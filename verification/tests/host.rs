use agentplug::dispatch_origin;
use agentplug::guest_abi;
use agentplug::guest_abi::{BufferEvent, HandOver};
use agentplug::host_state;
use agentplug::host_state::HostState;
use agentplug::imports;
use agentplug::imports::{EmbedStep, GuestReply, LogEntry};
use agentplug::install;
use agentplug::json;
use agentplug::memory_pressure;
use agentplug::precompiled;
use agentplug::strmap::StrMap;

#[test]
fn a_pointer_and_a_length_are_packed_and_unpacked() {
    let n = guest_abi::pack_guest_ptr_len(2048, 2);
    assert_eq!(n, (2u64 << 32) | 2048);
    assert_eq!(guest_abi::unpack_guest_ptr_len(n), (2048, 2));
    assert_eq!(guest_abi::unpack_guest_ptr_len(guest_abi::pack_guest_ptr_len(u32::MAX, 0xffff_ffff)), (u32::MAX, u32::MAX));
}

#[test]
fn one_plugin_sees_the_whole_file_system() {
    assert_eq!(host_state::host_fs_root(false, Some("/p")), "/");
    assert_eq!(host_state::host_fs_root(true, Some("D:/work/p")), "D:/");
    assert_eq!(host_state::host_fs_root(true, None), "C:/");
    let (host, guest) = HostState::for_plugin("/p", "libsql", "/").preopened;
    assert_eq!((host.as_str(), guest.as_str()), ("/", "/"));
    let (host, guest) = HostState::for_plugin("/p", "gm", "/").preopened;
    assert_eq!((host.as_str(), guest.as_str()), ("/p", "."));
}

#[test]
fn a_response_that_could_not_be_handed_over_is_told_once() {
    let mut h = HostState::new("/p", "gm");
    match guest_abi::begin_hand_over(&mut h, 10) {
        HandOver::Allocate { len, .. } => assert_eq!(len, 10),
        _ => panic!("not allocated"),
    }
    let (packed, _) = guest_abi::end_hand_over(&mut h, 10, BufferEvent::Failed { error: "no memory".to_string() });
    assert_eq!(packed, 0);
    assert!(h.take_lost_response().unwrap().contains("no memory"));
    assert!(h.take_lost_response().is_none());
    let (packed, _) = guest_abi::end_hand_over(&mut h, 10, BufferEvent::Given { ptr: 64, written: true });
    assert_eq!(guest_abi::unpack_guest_ptr_len(packed), (64, 10));
    assert!(matches!(guest_abi::begin_hand_over(&mut h, 0), HandOver::Nothing));
}

#[test]
fn no_plugin_calls_another_without_leave() {
    assert!(imports::plugin_call_capability_allowed(None, "gm", "libsql"));
    assert!(!imports::plugin_call_capability_allowed(None, "libsql", "gm"));
    let mut config: StrMap<Vec<String>> = StrMap::new();
    config.insert("libsql".to_string(), vec!["gm".to_string()]);
    assert!(imports::plugin_call_capability_allowed(Some(&config), "libsql", "gm"));
    let refused = imports::plugin_call_refusal(None, "libsql", "gm", "x", "{}");
    assert_eq!(refused.unwrap().bool_field("ok"), Some(false));
    assert!(imports::plugin_call_refusal(None, "gm", "libsql", "query", "{}").is_none());
    assert!(imports::plugin_call_refusal(None, "gm", "li/bsql", "query", "{}").is_some());
    assert!(imports::plugin_call_refusal(None, "gm", "libsql", "qu ery", "{}").is_some());
    assert!(imports::plugin_call_refusal(None, "gm", "libsql", "query", "{").is_some());
    assert_eq!(
        json::to_text(&imports::plugin_load_failed_reply("bert", "no module")),
        "{\"error\":\"plugin_load_failed: no module\",\"ok\":false,\"plugin\":\"bert\"}"
    );
}

#[test]
fn the_sandbox_holds() {
    let none: Vec<String> = Vec::new();
    let inside = imports::sandboxed_guest_path_with_extra_roots("/p", "a/../b.txt", &none, None, None, false);
    assert_eq!(inside, Some("/p/b.txt".to_string()));
    assert_eq!(imports::sandboxed_guest_path_with_extra_roots("/p", "../q", &none, None, None, false), None);
    assert_eq!(imports::sandboxed_guest_path_with_extra_roots("/p", "/etc/passwd", &none, None, None, false), None);
    let extra = vec!["/q".to_string()];
    assert_eq!(
        imports::sandboxed_guest_path_with_extra_roots("/p", "/q/x", &extra, None, None, false),
        Some("/q/x".to_string())
    );
    assert_eq!(imports::sandboxed_guest_path_with_extra_roots("/p", "/r/x", &extra, None, None, false), None);
    assert_eq!(
        imports::sandboxed_guest_path_with_extra_roots("/p", "/q/x", &extra, Some("/h"), None, false),
        Some("/q/x".to_string())
    );
    assert_eq!(
        imports::sandboxed_guest_path_with_extra_roots("/p", "/h/.gm/x", &none, Some("/h"), None, false),
        Some("/h/.gm/x".to_string())
    );
    assert_eq!(imports::sandboxed_guest_path_with_extra_roots("/p", "/q/x", &none, Some("/h"), None, false), None);
    assert_eq!(
        imports::sandboxed_guest_path_with_extra_roots("/p", "b.txt", &extra, None, None, false),
        Some("/p/b.txt".to_string())
    );
}

#[test]
fn names_of_keys_are_one_segment() {
    let p = imports::kv_file_path("/p", "../x", "a/b").unwrap();
    assert_eq!(p, "/p/.agentplug-kv/.._x/a_b.json");
    assert_eq!(imports::safe_name("../a/b c"), ".._a_b_c");
}

#[test]
fn a_write_goes_ahead_only_on_what_was_expected() {
    assert!(imports::cas_write_goes_ahead(Some("a"), "a"));
    assert!(!imports::cas_write_goes_ahead(Some("b"), "a"));
    assert!(imports::cas_write_goes_ahead(None, ""));
    assert!(!imports::cas_write_goes_ahead(None, "a"));
}

#[test]
fn roots_are_allowed_only_for_projects() {
    let mut h = HostState::new("/p", "gm");
    let refused = imports::allow_root(&mut h, "/q", true, false);
    assert!(h.extra_readable_roots().is_empty());
    let allowed = imports::allow_root(&mut h, "/q", true, true);
    assert_ne!(refused, allowed);
    assert_eq!(h.extra_readable_roots(), &vec!["/q".to_string()]);
    assert!(imports::project_marker_paths("/q").contains(&"/q/.git".to_string()));
}

#[test]
fn git_arguments_come_as_a_list_or_as_words() {
    assert_eq!(imports::git_argv(r#"["log","-n 1"]"#), vec!["log", "-n 1"]);
    assert_eq!(imports::git_argv("log -n 1"), vec!["log", "-n", "1"]);
    assert_eq!(imports::git_subprocess_timeout_ms(None), 300_000);
    assert_eq!(imports::git_subprocess_timeout_ms(Some("17")), 17);
    assert_eq!(imports::git_subprocess_timeout_ms(Some("x")), 300_000);
    let t = json::to_text(&imports::git_timeout_reply(&vec!["push".to_string()], 5));
    assert!(t.contains("push") && t.contains('5'));
}

#[test]
fn an_answer_of_a_plugin_is_handed_on() {
    match imports::plugin_call_reply(Ok("yes".to_string()), "x") {
        GuestReply::Text(s) => assert_eq!(s, "yes"),
        GuestReply::Answer(_) => panic!("not handed on"),
    }
    match imports::plugin_call_reply(Err("bad".to_string()), "x") {
        GuestReply::Answer(j) => assert_eq!(j.bool_field("ok"), Some(false)),
        GuestReply::Text(_) => panic!("no error"),
    }
}

#[test]
fn embedding_is_retried_and_read() {
    assert!(matches!(imports::embed_step(0, true), EmbedStep::Done));
    assert!(matches!(imports::embed_step(0, false), EmbedStep::Retry { .. }));
    assert!(matches!(imports::embed_step(100, false), EmbedStep::GiveUp));
    let body = json::parse(&imports::embed_body("hi \"x\"")).unwrap();
    assert!(json::to_text(&body).contains("hi"));
    assert_eq!(imports::embedding_numbers(r#"{"embedding":[1,2.5]}"#).ok(), Some(vec!["1".to_string(), "2.5".to_string()]));
    assert!(imports::embedding_numbers("{").is_err());
}

#[test]
fn random_bytes_depend_on_the_seed() {
    let a = imports::random_fill(imports::first_seed(Some(5), 7), 16);
    let b = imports::random_fill(imports::first_seed(Some(5), 7), 16);
    let c = imports::random_fill(imports::first_seed(Some(6), 7), 16);
    assert_eq!(a.len(), 16);
    assert_eq!(a, b);
    assert_ne!(a, c);
}

#[test]
fn queries_look_at_values_in_any_letter_case() {
    let files = vec![
        ("a.json".to_string(), "one".to_string()),
        ("b.json".to_string(), "TWO Alpha".to_string()),
        ("c.txt".to_string(), "alpha".to_string()),
    ];
    assert_eq!(json::to_text(&imports::kv_query("ALPHA", &files)), r#"[{"key":"b","value":"TWO Alpha"}]"#);
    assert_eq!(
        json::to_text(&imports::kv_query("", &files)),
        r#"[{"key":"a","value":"one"},{"key":"b","value":"TWO Alpha"}]"#
    );
}

#[test]
fn log_lines_go_to_the_console_or_to_a_file() {
    match imports::log_entry("/p", "gm", 1, "hello") {
        LogEntry::Console { line } => assert!(line.contains("hello")),
        LogEntry::Event { line, .. } => assert!(line.contains("hello")),
    }
}

#[test]
fn sessions_are_found_in_tasks() {
    let o = dispatch_origin::dispatch_origin_of("s1-17", "{}");
    assert_eq!(o.gm_session, dispatch_origin::gm_session_from_spool_task("s1-17"));
    assert_eq!(dispatch_origin::gm_session_from_spool_task("s1-17"), Some("s1".to_string()));
    assert_eq!(dispatch_origin::gm_session_from_spool_task("17"), None);
}

#[test]
fn the_origin_of_a_dispatch_is_put_back() {
    let mut current = None;
    let mut activity: StrMap<u64> = StrMap::new();
    let outer = dispatch_origin::enter_dispatch_origin_scope(&mut current, &mut activity, "a-1", "{}", 10);
    let inner = dispatch_origin::enter_dispatch_origin_scope(&mut current, &mut activity, "b-2", "{}", 20);
    assert_eq!(dispatch_origin::current_dispatch_origin(&current).gm_session, Some("b".to_string()));
    dispatch_origin::leave_dispatch_origin_scope(&mut current, inner);
    assert_eq!(dispatch_origin::current_dispatch_origin(&current).gm_session, Some("a".to_string()));
    dispatch_origin::leave_dispatch_origin_scope(&mut current, outer);
    assert!(dispatch_origin::current_dispatch_origin(&current).gm_session.is_none());
    assert_eq!(dispatch_origin::session_activity_elapsed(&activity, "b", 25), Some(5));
}

#[test]
fn files_are_where_they_are_installed() {
    assert_eq!(install::install_dir(Some("/x"), "/h"), "/x");
    let d = install::install_dir(None, "/h");
    assert!(d.starts_with("/h/"));
    assert_eq!(install::plugins_dir(&d), format!("{d}/plugins"));
}

#[test]
fn memory_is_read_from_the_status() {
    let status = "VmRSS:\t  100 kB\nRssAnon:\t  60 kB\nRssFile:\t 30 kB\nRssShmem:\t 10 kB\nVmSwap:\t 5 kB\n";
    let b = memory_pressure::process_memory_breakdown(Some(status)).unwrap();
    assert_eq!(b.rss_bytes, 100 * 1024);
    assert_eq!(b.anon_bytes, 60 * 1024);
    assert_eq!(b.swap_bytes, 5 * 1024);
    assert_eq!(memory_pressure::process_private_bytes_tracking_retained_wasm_peak_unlike_working_set(Some(status)), Some(b.private_bytes));
    assert!(memory_pressure::process_memory_breakdown(None).is_none());
    let mut n = 0;
    memory_pressure::note_shared_plugin_dispatch(&mut n);
    assert_eq!(memory_pressure::shared_dispatches_since_release(&n), 1);
    memory_pressure::reset_shared_dispatch_count(&mut n);
    assert_eq!(memory_pressure::shared_dispatches_since_release(&n), 0);
}

#[test]
fn artifacts_are_named_by_content_and_compiler() {
    assert_eq!(precompiled::engine_compatibility_key(0xabc), "0000000000000abc");
    let name = precompiled::precompiled_file_name("gm", "0123456789abcdef0123", "k");
    assert_eq!(name, "gm-0123456789abcdef-k.cwasm");
    assert!(precompiled::is_superseded_artifact("/d/gm-1-k.cwasm", "gm-1-k.cwasm", "gm", "/d/gm-2-k.cwasm"));
    assert!(!precompiled::is_superseded_artifact("/d/gm-1-k.cwasm", "gm-1-k.cwasm", "gm", "/d/gm-1-k.cwasm"));
    assert_eq!(precompiled::bytes_hex(&vec![0, 15, 255]), "000fff");
}

#[test]
fn a_request_is_read_from_its_options() {
    let opts = imports::options_of(r#"{"method":"post","body":"x","headers":{"A":"b"},"timeoutMs":5}"#);
    let r = imports::fetch_request("https://x", &opts);
    assert_eq!(r.method, "POST");
    assert_eq!(r.url, "https://x");
    assert_eq!(r.headers, vec![("A".to_string(), "b".to_string())]);
    assert_eq!(r.body, Some("x".to_string()));
    assert_eq!(imports::fetch_request("u", &imports::options_of("not json")).method, "GET");
    assert_eq!(imports::fetch_reply(true, 200, "hi").u64_field("status"), Some(200));
    assert_eq!(imports::fetch_failed_reply("down").bool_field("ok"), Some(false));
}

#[test]
fn texts_are_quoted_in_errors() {
    let r = json::to_text(&imports::git_no_cwd_reply("/p", "a\"b"));
    assert!(r.contains("a\\\\\\\"b"), "{r}");
    let r = imports::git_timeout_reply(&vec!["log".to_string(), "-1".to_string()], 5);
    assert!(json::to_text(&r).contains("[\\\"log\\\", \\\"-1\\\"]"), "{}", json::to_text(&r));
}

#[test]
fn git_tells_how_it_ended() {
    assert_eq!(
        json::to_text(&imports::git_reply("out", "err", Some(2))),
        r#"{"exit_code":2,"stderr":"err","stdout":"out"}"#
    );
    assert_eq!(imports::git_reply("", "", None).i64_field("exit_code"), Some(-1));
    assert_eq!(imports::git_wait_failed_reply("e").str_field("stderr"), Some("wait_timeout failed: e"));
    assert_eq!(imports::git_spawn_failed_reply("e").i64_field("exit_code"), Some(1));
}

#[test]
fn bodies_are_limited() {
    assert!(imports::validate_plugin_call_body("{}").is_none());
    assert!(imports::validate_plugin_call_body("{").is_some());
    assert_eq!(imports::effective_cwd("", "/own"), "/own");
    assert_eq!(imports::effective_cwd("/named", "/own"), "/named");
}

#[test]
fn the_sandbox_holds_on_windows() {
    let reach = |p: &str, extra: &Vec<String>| {
        imports::sandboxed_guest_path_with_extra_roots("C:\\p", p, extra, None, Some("C:\\Users\\u"), true)
    };
    let none: Vec<String> = vec![];
    assert_eq!(reach("a\\..\\b.txt", &none), Some("C:/p/b.txt".to_string()));
    assert_eq!(reach("c:\\p\\b.txt", &none), Some("c:/p/b.txt".to_string()));
    assert_eq!(reach("..\\..\\x", &none), None);
    assert_eq!(reach("..\\x", &none), None);
    assert_eq!(reach("C:\\x", &none), None);
    assert_eq!(reach("D:\\p\\x", &none), None);
    assert_eq!(reach("C:x", &none), None);
    assert_eq!(reach("\\p\\x", &none), None);
    assert_eq!(reach("C:\\Users\\u\\.gm\\x", &none), Some("C:/Users/u/.gm/x".to_string()));
    assert_eq!(reach("D:\\q\\x", &vec!["D:\\q".to_string()]), Some("D:/q/x".to_string()));
}

#[test]
fn git_runs_where_it_is_told() {
    assert_eq!(imports::git_cwd("", "/p", false), "/p");
    assert_eq!(imports::git_cwd("a", "/p", false), "/p/a");
    assert_eq!(imports::git_cwd("/q", "/p", false), "/q");
    assert_eq!(imports::git_cwd("C:\\x", "D:\\p", true), "C:/x");
    assert_eq!(imports::git_cwd("a\\b", "D:\\p", true), "D:/p/a/b");
}

#[test]
fn a_root_is_named_once_however_it_is_written() {
    let mut h = HostState::new("/p", "gm");
    assert_eq!(imports::allow_root(&mut h, "/q", true, true), 1);
    assert_eq!(imports::allow_root(&mut h, "/q/", true, true), 1);
    assert_eq!(h.extra_readable_roots(), &vec!["/q".to_string()]);
}

#[test]
fn memory_is_read_from_two_sizes() {
    let b = memory_pressure::memory_breakdown_from_sizes(300, 1000);
    assert_eq!((b.rss_bytes, b.anon_bytes, b.file_bytes), (1000, 300, 700));
    assert_eq!((b.shmem_bytes, b.swap_bytes, b.private_bytes), (0, 0, 300));
    assert_eq!(memory_pressure::memory_breakdown_from_sizes(1000, 300).file_bytes, 0);
}

#[test]
fn a_share_is_the_root_of_what_is_on_it() {
    assert_eq!(host_state::host_fs_root(true, Some("//server/share/x")), "//server/share/");
    assert_eq!(host_state::host_fs_root(true, Some("//?/C:/x")), "//?/C:/");
    assert_eq!(host_state::host_fs_root(true, Some("/x")), "/");
}

#[test]
fn headers_are_set_in_the_order_of_their_names() {
    let opts = imports::options_of(r#"{"headers":{"x-b":"2","Accept":"1","X-B":"3","n":4}}"#);
    let r = imports::fetch_request("http://h/", &opts);
    let names: Vec<(&str, &str)> = r.headers.iter().map(|(k, v)| (k.as_str(), v.as_str())).collect();
    assert_eq!(names, vec![("Accept", "1"), ("X-B", "3"), ("x-b", "2")]);
}

#[test]
fn the_artifact_to_keep_is_kept_however_it_is_written() {
    assert!(!precompiled::is_superseded_artifact("/d//gm-1-k.cwasm", "gm-1-k.cwasm", "gm", "/d/gm-1-k.cwasm"));
}
