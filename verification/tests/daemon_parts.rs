use agentplug::claims;
use agentplug::claims::{InFlight, ProjectSpool, Requeue, SpoolEntry, SweepAction};
use agentplug::daemon;
use agentplug::daemon::{
    CompileFailures, CompileStep, DirectLoad, FileStat, PluginModules, ProjectState, ReleaseStep, Selection,
    SpoolStep, WorkerStep,
};
use agentplug::daemon_config::DaemonConfig;
use agentplug::daemon_config;
use agentplug::handoff;
use agentplug::handoff::{HandoffFailures, HandoffReason, HandoffStep, PromoteStep, TakeoverStep};
use agentplug::json;
use agentplug::ownership;
use agentplug::ownership::{Authority, ClaimStep, Heartbeat, StartStep};
use agentplug::pool::SlotContentSnapshot;
use agentplug::projects;
use agentplug::spool;
use agentplug::spool::{DispatchEnd, Routed};
use agentplug::status;
use agentplug::status::{DaemonVitals, ProjectVitals};
use agentplug::strmap::StrMap;

fn texts(list: &[&str]) -> Vec<String> {
    list.iter().map(|s| s.to_string()).collect()
}

fn config() -> DaemonConfig {
    DaemonConfig {
        registry_poll_interval_secs: None,
        heartbeat_interval_secs: None,
        plugin_update_poll_interval_secs: None,
        plugin_update_poll_interval_secs_by_name: StrMap::new(),
        runner_update_poll_interval_secs: None,
        instruction_source_poll_interval_secs: None,
        gm_concurrency: None,
        side_plugin_concurrency: None,
        gm_pool_size: None,
        shared_store_recycle_private_mb: None,
        shared_store_recycle_dispatches: None,
        project_idle_evict_secs: None,
        shared_plugin_release_idle_secs: None,
    }
}

fn beat(pid: u64, ts: u64) -> Option<Heartbeat> {
    Some(Heartbeat { pid: Some(pid), ts: Some(ts) })
}

#[test]
fn settings_of_the_daemon_have_defaults() {
    let c = config();
    assert_eq!(c.project_idle_evict_ms(), 1_800_000);
    assert_eq!(c.shared_plugin_release_idle_ms(), 1_800_000);
    assert_eq!(c.shared_store_recycle_private_bytes(), 768 * 1024 * 1024);
    assert_eq!(c.plugin_update_poll_interval_for("gm"), c.plugin_update_poll_interval());
    let mut c = config();
    c.plugin_update_poll_interval_secs_by_name.insert("gm".to_string(), 7);
    assert_eq!(c.plugin_update_poll_interval_for("gm"), 7);
    assert_eq!(c.shortest_plugin_poll_interval(), 7);
    for cores in [0, 1, 4, 16] {
        assert_eq!(c.gm_pool_size(cores), 1);
        assert_eq!(c.side_plugin_concurrency(), 1);
        assert_eq!(c.max_concurrent_projects(cores), cores.max(1));
        assert_eq!(c.gm_concurrency(cores), cores.max(1));
    }
    assert_eq!(c.shared_store_recycle_dispatches(16), 8000);
    c.gm_pool_size = Some(9);
    assert_eq!(c.gm_pool_size(64), daemon_config::MAX_POOL_SIZE);
    assert_eq!(c.gm_pool_size(2), 2);
    c.gm_concurrency = Some(0);
    assert_eq!(c.gm_concurrency(16), 1);
    c.gm_concurrency = Some(3);
    assert_eq!(c.gm_concurrency(16), 3);
    assert_eq!(c.shared_store_recycle_dispatches(16), 1500);
    assert_eq!(daemon_config::config_text("\u{feff}{}"), "{}");
}

#[test]
fn the_store_is_recycled_for_a_reason() {
    let f = daemon_config::shared_store_recycle_reason_independent_of_daemon_idle_state;
    assert!(f(Some(10), 100, 5, 50).is_none());
    assert!(f(Some(100), 100, 5, 50).is_some());
    assert!(f(None, 100, 50, 50).is_some());
    assert!(f(None, 100, 5, 50).is_none());
}

#[test]
fn a_registered_project_reads_back() {
    let none: Vec<String> = Vec::new();
    let text = projects::register_project(&none, &vec![], "/p").unwrap();
    assert!(projects::read_registry(&text).contains(&"/p".to_string()));
    let entries = projects::registry_entries(&text);
    let there = vec![true; entries.len()];
    assert!(projects::register_project(&entries, &there, "/p").is_none());
    let more = projects::register_project(&entries, &vec![false; entries.len()], "/q").unwrap();
    assert_eq!(projects::read_registry(&more), vec!["/q"]);
}

#[test]
fn a_spool_is_no_project() {
    assert!(projects::cwd_is_inside_a_spool_tree("/p/.gm/exec-spool/in/x"));
    assert!(!projects::cwd_is_inside_a_spool_tree("/p"));
    assert!(projects::check_project("/p/.gm/exec-spool").is_err());
    assert!(projects::check_project("/p").is_ok());
    assert_eq!(projects::spool_verb_dirs("/p").len(), projects::gm_spool_verbs().len());
    assert_eq!(projects::spool_dir("/p"), "/p/.gm/exec-spool");
}

#[test]
fn a_live_daemon_keeps_its_place() {
    assert!(matches!(ownership::begin_claim(Some(9), beat(9, 100), true, 200, 5), ClaimStep::Decided(false)));
    assert!(matches!(ownership::begin_claim(Some(5), beat(5, 100), true, 200, 5), ClaimStep::Decided(true)));
    assert!(matches!(ownership::begin_claim(Some(9), None, true, 200, 5), ClaimStep::Recheck));
    assert!(matches!(ownership::begin_claim(None, None, false, 200, 5), ClaimStep::Recheck));
    assert!(matches!(ownership::recheck_claim(Some(9), beat(9, 100), true, 200, 5), ClaimStep::Decided(false)));
    assert!(matches!(ownership::recheck_claim(Some(3), None, true, 200, 5), ClaimStep::Decided(false)));
    assert!(matches!(ownership::recheck_claim(Some(9), None, true, 200, 5), ClaimStep::Take));
    assert!(matches!(ownership::recheck_claim(Some(3), beat(3, 100), false, 200, 5), ClaimStep::Take));
    assert!(matches!(ownership::recheck_claim(None, None, false, 200, 5), ClaimStep::Take));
    assert!(ownership::claim_ownership(Some(5), 5));
    assert!(!ownership::claim_ownership(Some(9), 5));
    assert!(!ownership::claim_ownership(None, 5));
}

#[test]
fn a_heartbeat_ages() {
    assert!(ownership::shared_daemon_is_serving(beat(9, 100), 200, true));
    assert!(!ownership::shared_daemon_is_serving(beat(9, 100), 200, false));
    assert!(!ownership::shared_daemon_is_serving(beat(9, 100), 100 + ownership::DAEMON_STALE_MS, true));
    assert_eq!(ownership::read_heartbeat(Some(r#"{"pid":3,"ts":4}"#)).unwrap().pid, Some(3));
    assert!(ownership::read_heartbeat(Some("{")).is_none());
    assert_eq!(ownership::live_foreign_spool_sweeper(beat(9, 100), 200, 5, true), Some(9));
    assert_eq!(ownership::live_foreign_spool_sweeper(beat(5, 100), 200, 5, true), None);
    assert_eq!(ownership::live_foreign_spool_sweeper(beat(9, 100), 120_100, 5, true), None);
}

#[test]
fn authority_follows_the_owner() {
    assert!(matches!(ownership::holds_heartbeat_authority(Some(5), 5), Authority::Held));
    assert!(!matches!(ownership::holds_heartbeat_authority(Some(9), 5), Authority::Held));
    assert!(!matches!(ownership::holds_heartbeat_authority(None, 5), Authority::Held));
    assert!(ownership::releases_ownership(Some(5), 5));
    assert!(!ownership::releases_ownership(Some(9), 5));
    assert_eq!(ownership::read_owner_pid(Some(" 12\n")), Some(12));
    assert_eq!(ownership::read_owner_pid(Some("x")), None);
}

#[test]
fn wasted_starts_slow_the_next_one_down() {
    let note = json::to_text(&ownership::record_wasted_daemon_start(0, 1000));
    let (ts, n) = ownership::read_wasted_daemon_start_backoff(Some(&note));
    assert_eq!((ts, n), (1000, 1));
    assert_eq!(ownership::wasted_daemon_start_backoff_remaining_ms(true, 1000, 1, 1000), 10_000);
    assert_eq!(ownership::wasted_daemon_start_backoff_remaining_ms(true, 1000, 2, 1000), 20_000);
    assert_eq!(ownership::wasted_daemon_start_backoff_remaining_ms(true, 1000, 30, 1000), 120_000);
    assert_eq!(ownership::wasted_daemon_start_backoff_remaining_ms(false, 1000, 30, 1000), 0);
    assert_eq!(ownership::wasted_daemon_start_backoff_remaining_ms(true, 1000, 1, 11_000), 0);
    assert_eq!(ownership::daemon_spawn_backoff_remaining_ms_if_active(true, 1000, 1, 11_000), None);
}

#[test]
fn waiting_for_a_daemon_ends() {
    assert!(matches!(ownership::ensure_daemon_running(true, 0), StartStep::Known { runs: true, .. }));
    assert!(matches!(ownership::ensure_daemon_running(false, 5), StartStep::Known { runs: false, .. }));
    assert!(matches!(ownership::ensure_daemon_running(false, 0), StartStep::TakeLock));
    assert!(matches!(ownership::lock_tried(true), StartStep::Spawn));
    let mut step = ownership::daemon_spawned();
    let mut looks = 0;
    while let StartStep::Wait { left, own_lock } = step {
        step = ownership::looked(left, own_lock, false);
        looks += 1;
        assert!(looks < 1000);
    }
    assert!(matches!(step, StartStep::Known { runs: false, unlock: true }));
}

#[test]
fn a_claim_names_its_task() {
    let claim = spool::claim_spool_request_in_place("/p/in/recall/s-1.txt", 5, None).unwrap();
    assert!(spool::is_claim_file(claim.rsplit('/').next().unwrap()));
    assert_eq!(spool::task_of_claim(claim.rsplit('/').next().unwrap()), "s-1");
    assert_eq!(claim, "/p/in/recall/s-1.txt.inflight");
    assert!(spool::claim_spool_request_in_place("/p/in/recall/s-1.txt", 0, None).is_none());
    assert!(spool::is_request_file("a.txt") && !spool::is_claim_file("a.txt"));
}

#[test]
fn a_request_is_taken_once_it_is_written() {
    assert!(!spool::spool_in_file_write_has_settled(0, Some(1000)));
    assert!(!spool::spool_in_file_write_has_settled(1, Some(199)));
    assert!(spool::spool_in_file_write_has_settled(1, Some(200)));
    assert!(spool::spool_in_file_write_has_settled(1, None));
    assert!(spool::puts_back(""));
    assert!(!spool::puts_back("x"));
}

#[test]
fn steps_are_counted() {
    let names = texts(&["a.txt", "b.txt", "c.txt.inflight", "d.json"]);
    assert_eq!(spool::spool_step_counts(&names), (2, 1));
    assert!(spool::spool_has_queued_work(&names));
    assert!(!spool::spool_has_queued_work(&texts(&["d.json"])));
}

#[test]
fn answers_are_written_beside_and_then_moved() {
    let f = spool::write_spool_out("/p/out", &spool::out_name("recall", "s-1"), 7);
    assert!(f.answer.starts_with("/p/out/") && f.temporary != f.answer);
    assert!(f.temporary.contains('7'));
}

#[test]
fn tasks_stay_in_their_session() {
    assert!(spool::session_id_task_mismatch_rejection("recall", "s1-5", r#"{"session_id":"s1"}"#).is_none());
    let refused = spool::session_id_task_mismatch_rejection("recall", "s1-5", r#"{"session_id":"s2"}"#);
    assert_eq!(refused.unwrap().bool_field("ok"), Some(false));
    assert!(matches!(spool::route_request("recall", "s1-5", r#"{"session_id":"s2"}"#), Routed::Refused(_)));
    assert_eq!(spool::extract_session_id(r#"{"session_id":"s2"}"#), Some("s2".to_string()));
}

#[test]
fn requests_are_routed_by_their_verb() {
    assert!(matches!(spool::route_request("recall", "1", "{}"), Routed::Dispatch));
    assert_eq!(spool::request_target("recall", "{}").plugin, "gm");
    assert_eq!(spool::request_target("recall", "{}").verb, "recall");
}

#[test]
fn an_end_of_a_dispatch_is_answered() {
    assert_eq!(spool::dispatch_answer(DispatchEnd::Answered("yes".to_string()), "v", true), "yes");
    let t = spool::dispatch_answer(DispatchEnd::Failed("bad".to_string()), "v", true);
    assert!(t.contains("bad") && t.contains("\"v\""));
    let t = spool::dispatch_answer(DispatchEnd::Panicked("oops".to_string()), "v", false);
    assert!(t.contains("oops"));
    assert_eq!(json::parse(&t).unwrap().bool_field("ok"), Some(false));
    assert!(spool::dispatch_error_text(Some("trap"), "e").contains("trap"));
    assert_eq!(spool::gm_load_failure(Some("why"), "v").bool_field("ok"), Some(false));
}

#[test]
fn a_dispatch_is_converted_once() {
    let mut running = InFlight::new();
    running.insert("/p", "recall", "1");
    assert!(running.project_has_in_flight_step("/p") && !running.project_has_in_flight_step("/q"));
    let (ran, reply) = claims::handle_background_convert(&mut running, "/p", "recall", "1", false);
    assert!(ran);
    assert_eq!(reply.bool_field("converted"), Some(true));
    let (ran, reply) = claims::handle_background_convert(&mut running, "/p", "recall", "1", true);
    assert!(!ran);
    assert_eq!(reply.str_field("error"), Some("already_completed"));
    let (_, reply) = claims::handle_background_convert(&mut running, "/p", "recall", "1", false);
    assert_eq!(reply.str_field("error"), Some("unknown_task"));
    assert!(running.is_empty());
}

#[test]
fn the_successor_inherits_what_was_noted() {
    let mut running = InFlight::new();
    running.insert("/p", "recall", "1");
    let list = running.snapshot_in_flight_claims();
    let note = json::to_text(&claims::write_handoff_inherited_claims("1.0", 7, 1000, &list).unwrap());
    let got = claims::read_handoff_inherited_claims(Some(&note), 2000);
    assert_eq!(got.len(), 1);
    assert!(claims::contains_claim(&got, "/p", "recall", "1"));
    assert!(claims::read_handoff_inherited_claims(Some(&note), 1000 + 900_001).is_empty());
    assert!(claims::write_handoff_inherited_claims("1.0", 7, 1000, &vec![]).is_none());
}

#[test]
fn abandoned_claims_are_swept() {
    let entry = |name: &str, age: Option<u64>, answered: bool| SpoolEntry {
        verb: "recall".to_string(),
        name: name.to_string(),
        age_ms: age,
        answered,
    };
    let none = Vec::new();
    let leave = |e: &SpoolEntry| matches!(claims::sweep_entry("/p", e, &none), SweepAction::Leave);
    assert!(leave(&entry("1.txt", Some(10_000_000), false)));
    assert!(leave(&entry("1.txt.inflight", Some(5), false)));
    assert!(!leave(&entry("1.txt.inflight", Some(10_000_000), false)));
    assert!(matches!(
        claims::sweep_entry("/p", &entry("1.txt.inflight", Some(10_000_000), true), &none),
        SweepAction::Remove
    ));
    let actions = claims::sweep_orphaned_claims("/p", &vec![entry("1.txt.inflight", Some(10_000_000), false)], &none, true);
    assert!(matches!(actions[0], SweepAction::Leave));
    let spools = vec![ProjectSpool { root: "/p".to_string(), entries: vec![], foreign_sweeper: false }];
    assert_eq!(claims::sweep_orphaned_claims_across_roots(&spools, &none).len(), 1);
    assert!(matches!(claims::requeue_claim(true), Requeue::RemoveClaim));
    assert!(matches!(claims::requeue_claim(false), Requeue::RenameClaim));
    assert_eq!(claims::orphan_reply("recall", "1", 7).bool_field("ok"), Some(false));
}

fn vitals() -> ProjectVitals {
    ProjectVitals {
        pid: 7,
        now_ms: 100,
        busy_until: None,
        queue: None,
        queued_steps: 0,
        claimed_steps: 0,
        capacity: 4,
        capacity_reason: "r".to_string(),
        recycle_limit_mb: 1600,
        queue_wait_ms: 0,
        staged_at_ms: None,
        failures: vec![],
    }
}

#[test]
fn a_status_keeps_what_others_told() {
    let s = status::write_project_heartbeat_with_queue_info(Some(r#"{"mine":1,"pid":3}"#), &vitals());
    assert_eq!(s.u64_field("mine"), Some(1));
    assert_eq!(s.u64_field("pid"), Some(7));
    assert_eq!(s.u64_field("ts"), Some(100));
    let s = status::write_project_heartbeat_with_queue_info(Some("not json"), &vitals());
    assert_eq!(s.u64_field("pid"), Some(7));
}

#[test]
fn a_project_is_busy_for_a_while() {
    assert_eq!(status::read_status_busy_until_if_future(Some(r#"{"busy_until":500}"#), 100), Some(500));
    assert_eq!(status::read_status_busy_until_if_future(Some(r#"{"busy_until":50}"#), 100), None);
    assert_eq!(status::busy_until_for_project_ticker(true, None, 100), Some(60_100));
    assert_eq!(status::busy_until_for_project_ticker(false, None, 100), None);
}

#[test]
fn a_cleared_status_names_no_watcher() {
    let before = json::to_text(&status::write_standalone_status(None, 7, 100));
    assert!(json::parse(&before).unwrap().get("runtime").is_some());
    let after = status::clear_standalone_status(Some(&before), 200).unwrap();
    assert!(after.get("runtime").is_none() && after.get("daemon").is_none() && after.get("shared_process").is_none());
    assert_eq!(after.u64_field("ts"), Some(200));
    assert!(status::clear_standalone_status(None, 200).is_none());
}

#[test]
fn pools_of_two_versions_are_told() {
    let loaded = |h: &str| SlotContentSnapshot::Loaded { content_hash: h.to_string() };
    assert!(status::is_mixed(&vec![loaded("a"), loaded("b")]));
    assert!(!status::is_mixed(&vec![loaded("a"), SlotContentSnapshot::Empty, loaded("a")]));
    let v = DaemonVitals {
        pid: 7,
        now_ms: 100,
        boot_ts: 50,
        projects: 1,
        modules: 2,
        last_plugin_poll_ts: 0,
        last_runner_poll_ts: 0,
        plugin_poll_error: Some("e".to_string()),
        runner_poll_error: None,
        compile_failures: vec![],
        loaded_hashes: vec![("gm".to_string(), "h".to_string())],
        pools: vec![("gm".to_string(), vec![loaded("a"), loaded("b")])],
        pending_swaps: vec![],
        staged_at_ms: None,
        handoff: None,
        last_swap: None,
    };
    let s = status::write_daemon_heartbeat(&v);
    assert_eq!(s.u64_field("pid"), Some(7));
    assert_eq!(s.u64_field("ts"), Some(100));
    assert_eq!(status::mixed_version_pools(&v.pools), vec!["gm"]);
    assert_eq!(ownership::read_heartbeat(Some(&json::to_text(&s))).unwrap().ts, Some(100));
}

#[test]
fn readiness_names_the_version() {
    let m = json::to_text(&handoff::ready_marker("1.0", 7, 100));
    assert!(handoff::is_ready(Some(&m), "1.0"));
    assert!(!handoff::is_ready(Some(&m), "1.1"));
    assert!(!handoff::is_ready(None, "1.0"));
    assert!(handoff::staged_binary_self_check(true, "agentplug-runner 1.0\n", handoff::printed_version("agentplug-runner 1.0\n")));
    assert!(!handoff::staged_binary_self_check(false, "agentplug-runner 1.0", "1.0"));
}

#[test]
fn a_handoff_ends() {
    assert!(matches!(handoff::begin_handoff(false, "1.0"), HandoffStep::Failed { .. }));
    assert!(matches!(handoff::begin_handoff(true, "1.0"), HandoffStep::Spawn));
    assert!(matches!(handoff::handoff_spawned(Some("e"), "1.0"), HandoffStep::Failed { .. }));
    let mut step = handoff::handoff_spawned(None, "1.0");
    let mut looks = 0;
    while let HandoffStep::Wait { left } = step {
        step = handoff::handoff_looked(left, false, "1.0");
        looks += 1;
        assert!(looks <= 100);
    }
    assert!(matches!(step, HandoffStep::Failed { .. }));
    assert!(matches!(handoff::handoff_looked(5, true, "1.0"), HandoffStep::Release));
}

#[test]
fn failures_are_counted_by_version() {
    let mut f = HandoffFailures::new();
    let _ = f.record_handoff_failure("1.0", "r", false, 1);
    let _ = f.record_handoff_failure("1.0", "r", false, 2);
    assert!(f.record_handoff_failure("1.0", "r", false, 3).is_some());
    assert!(f.record_handoff_failure("1.1", "r", false, 4).is_none());
    assert_eq!(f.count, 1);
    f.clear_handoff_escalation("1.1");
    assert_eq!(f.count, 0);
}

#[test]
fn an_update_is_not_starved() {
    assert!(matches!(handoff::should_hand_off(false, false, Some(0)), HandoffReason::Idle));
    assert!(matches!(handoff::should_hand_off(true, true, Some(1)), HandoffReason::NotYet));
    assert!(!matches!(handoff::should_hand_off(true, true, Some(700_000)), HandoffReason::NotYet));
}

#[test]
fn a_poll_is_seeded_from_what_was_noted() {
    assert_eq!(handoff::read_persisted_poll_ts(Some("17\n")), 17);
    assert_eq!(handoff::read_persisted_poll_ts(Some("x")), 0);
    assert_eq!(handoff::instant_backdated_by_ms_capped_to_process_epoch(100, 30), 70);
    assert_eq!(handoff::seed_poll_timer_from_persisted_ts(900, 1000, 5000), 4900);
    assert!(handoff::rotates_log(Some(handoff::DAEMON_LOG_MAX_BYTES + 1)));
    assert!(!handoff::rotates_log(None));
}

#[test]
fn a_refresh_is_asked_for() {
    let r = handoff::refresh_request(r#"{"plugin":"gm"}"#);
    assert_eq!(r.plugin, Some("gm".to_string()));
    assert_eq!(handoff::take_forced_plugin_refresh_request(Some(&handoff::refresh_marker(&r))), Some(Some("gm".to_string())));
    let all = handoff::refresh_request("{}");
    assert_eq!(handoff::take_forced_plugin_refresh_request(Some(&handoff::refresh_marker(&all))), Some(None));
    assert_eq!(handoff::take_forced_plugin_refresh_request(None), None);
}

#[test]
fn instructions_are_cloned_once() {
    let first = handoff::sync_instruction_source_if_configured(false, "r", "main", "/c", "/p");
    assert_eq!(first[0].args[0], "clone");
    let later = handoff::sync_instruction_source_if_configured(true, "r", "main", "/c", "/p");
    assert!(later.iter().all(|c| c.args[0] != "clone"));
}

#[test]
fn a_place_is_taken_over() {
    assert!(matches!(handoff::takeover_looked(5, true), TakeoverStep::Claim));
    assert!(matches!(handoff::takeover_looked(0, false), TakeoverStep::GiveUp));
    assert!(matches!(handoff::takeover_claimed(5, true), TakeoverStep::Serve));
    assert!(matches!(handoff::begin_promotion("/b/x", "/b/x", true), PromoteStep::Done { promoted: false }));
    assert!(matches!(handoff::begin_promotion("/b/n", "/b/x", true), PromoteStep::PutAside));
    assert!(matches!(handoff::begin_promotion("/b/n", "/b/x", false), PromoteStep::Copy));
    assert!(matches!(handoff::copied_to_place(false, true), PromoteStep::PutBack));
    assert!(matches!(handoff::copied_to_place(true, true), PromoteStep::Done { promoted: true }));
}

#[test]
fn work_is_due_after_its_interval() {
    assert!(daemon::due(0, 10, 10));
    assert!(!daemon::due(0, 10, 9));
    assert!(daemon::registry_due(None, 10, 0));
    assert!(!daemon::registry_due(Some(0), 10, 9_999));
    assert_eq!(daemon::new_roots(&texts(&["a"]), &texts(&["a", "b"])), vec!["b"]);
}

#[test]
fn sources_are_synced_one_at_a_time() {
    let mut last = StrMap::new();
    let mut syncing = StrMap::new();
    assert!(daemon::start_source_sync(&mut last, &mut syncing, "/p", 10, 100));
    assert!(!daemon::start_source_sync(&mut last, &mut syncing, "/p", 0, 200_000));
}

#[test]
fn a_module_is_compiled_when_its_content_changes() {
    let stat = |ns: u128| Some(FileStat { modified_ns: ns, len: 3 });
    let mut m = PluginModules::new();
    assert!(matches!(m.get_or_compile("gm", stat(1)), CompileStep::Hash));
    let plan = m.content_known("gm", stat(1), "h1");
    assert!(plan.compile && plan.outdated.is_none());
    m.compiled("gm", "h1");
    assert!(matches!(m.get_or_compile("gm", stat(1)), CompileStep::Ready));
    assert!(matches!(m.get_or_compile("gm", stat(2)), CompileStep::Hash));
    assert!(!m.content_known("gm", stat(2), "h1").compile);
    let plan = m.content_known("gm", stat(3), "h2");
    assert!(plan.compile);
    assert_eq!(plan.outdated, Some("h1".to_string()));
}

#[test]
fn a_failed_compilation_waits() {
    let mut f = CompileFailures::new();
    f.record_plugin_compile_failure("gm", "why".to_string(), 100);
    assert!(f.plugin_compile_in_backoff("gm", 60_099));
    assert!(!f.plugin_compile_in_backoff("gm", 60_100));
    assert_eq!(f.read_plugin_compile_failure("gm"), Some("why".to_string()));
    f.clear_plugin_compile_failure("gm");
    assert_eq!(f.read_plugin_compile_failure("gm"), None);
}

#[test]
fn projects_with_requests_are_served() {
    let idle = ProjectState { kept: false, pending: false, fresh: false };
    assert!(matches!(daemon::select_project(idle, false), Selection::Skip));
    let idle = ProjectState { kept: false, pending: false, fresh: false };
    assert!(matches!(daemon::select_project(idle, true), Selection::Look { .. }));
    let pending = ProjectState { kept: false, pending: true, fresh: false };
    assert!(matches!(daemon::select_project(pending, false), Selection::Look { active: true }));
}

#[test]
fn every_project_is_queued_once_and_work_comes_first() {
    let (order, cursor) = daemon::serving_order(&vec![false, true, false, true], 1, 2);
    let mut all = order.clone();
    all.sort();
    assert_eq!(all, vec![0, 1, 2, 3]);
    // The queue is served from its end.
    assert!(order[2..].contains(&1) && order[2..].contains(&3));
    assert_eq!(cursor, 1);
    assert_eq!(daemon::worker_count(8, 3), 3);
    assert_eq!(daemon::waiting_projects(&vec![true, false, true], 1), vec![0, 2]);
    assert!(daemon::waiting_projects(&vec![true, false, true], 2).is_empty());
}

#[test]
fn no_dispatch_blocks_the_daemon() {
    assert!(matches!(daemon::worker_step(false, false, 44_999), WorkerStep::Wait));
    assert!(matches!(daemon::worker_step(false, false, 45_000), WorkerStep::Detach));
    assert!(matches!(daemon::worker_step(true, false, 1), WorkerStep::Finish));
}

#[test]
fn plugins_are_polled_when_due_or_forced() {
    let mut polls = StrMap::new();
    assert!(daemon::start_plugin_poll(&mut polls, "gm", &None, 10, 100_000));
    assert!(!daemon::start_plugin_poll(&mut polls, "gm", &None, 10, 100_001));
    assert!(daemon::start_plugin_poll(&mut polls, "gm", &Some(Some("gm".to_string())), 10, 100_002));
    assert!(!daemon::start_plugin_poll(&mut polls, "gm", &Some(None), 10, 100_003));
    assert_eq!(daemon::poll_errors(&vec![]), None);
    assert!(daemon::poll_errors(&texts(&["a", "b"])).unwrap().contains('b'));
}

#[test]
fn the_standalone_way_is_taken_only_without_a_sweeper() {
    let mut step = SpoolStep::EnsureDaemon { again: false };
    for _ in 0..10 {
        step = match step {
            SpoolStep::Standalone | SpoolStep::Served | SpoolStep::BecomeDaemon => break,
            s => daemon::next_spool_step(s, false),
        };
    }
    assert!(matches!(step, SpoolStep::Standalone | SpoolStep::BecomeDaemon));
    assert!(matches!(daemon::next_spool_step(SpoolStep::LookForSweeper, false), SpoolStep::Standalone));
    assert!(!matches!(daemon::next_spool_step(SpoolStep::LookForSweeper, true), SpoolStep::Standalone));
}

#[test]
fn idle_stores_are_released() {
    assert!(matches!(daemon::idle_release(true, 0, 10, 100), ReleaseStep::Restart));
    assert!(matches!(daemon::idle_release(false, 0, 10, 100), ReleaseStep::Release));
    assert!(matches!(daemon::idle_release(false, 95, 10, 100), ReleaseStep::Keep));
    assert!(daemon::recycles(false, 0, false, 3_600_000));
    assert!(!daemon::recycles(false, 0, true, 3_600_000));
    assert!(daemon::is_idle_project(0, 10, 100));
    assert!(matches!(daemon::direct_load(true, true, true), DirectLoad::Ready));
    assert!(matches!(daemon::direct_load(false, false, false), DirectLoad::NotCompiled));
    assert!(daemon::waits_for_answer(29_999) && !daemon::waits_for_answer(30_000));
}

#[test]
fn a_dispatch_is_one_however_its_project_is_written() {
    let mut running = InFlight::new();
    running.insert("/p", "recall", "1");
    running.insert("/p/", "recall", "1");
    let list = running.snapshot_in_flight_claims();
    assert_eq!(list.len(), 1);
    assert_eq!(list[0].root, "/p");
    assert!(claims::contains_claim(&list, "/p/./", "recall", "1"));
    assert!(running.project_has_in_flight_step("/p//"));
    assert!(running.remove("/p/", "recall", "1"));
    assert!(!running.remove("/p", "recall", "1"));
    assert_eq!(daemon::new_roots(&texts(&["/a/"]), &texts(&["/a", "/b"])), vec!["/b"]);
}

#[test]
fn a_source_is_synced_once_however_its_project_is_written() {
    let mut last = StrMap::new();
    let mut syncing = StrMap::new();
    assert!(daemon::start_source_sync(&mut last, &mut syncing, "/p", 0, 100));
    assert!(!daemon::start_source_sync(&mut last, &mut syncing, "/p/", 0, 200));
    daemon::end_source_sync(&mut syncing, "/p/.");
    assert!(!daemon::start_source_sync(&mut last, &mut syncing, "/p/", 10, 200));
    assert!(daemon::start_source_sync(&mut last, &mut syncing, "/p/", 0, 200));
    assert!(matches!(handoff::begin_promotion("/b/x", "/b//x", true), PromoteStep::Done { promoted: false }));
}
