use agentplug::registry;
use agentplug::registry::{CallOutcome, DispatchAction, DispatchBy, DispatchEvent, GmFairnessGuard, PluginDispatchError, PluginFiberLifecycle, ProjectPlugins};
use agentplug::broker;
use agentplug::broker::{Brokers, LoadBalancePolicy};
use agentplug::exec_js;
use agentplug::exec_js::{ExecMode, Program};
use agentplug::json;
use agentplug::pool::SharedPlugins;
use agentplug::strmap::StrMap;

#[test]
fn seconds_are_ticks() {
    assert_eq!(registry::epoch_ticks_for_seconds(7), 7);
    assert_eq!(registry::epoch_ticks_for_seconds(0), 0);
}

#[test]
fn every_call_has_a_deadline() {
    let default = registry::deadline_secs_for_call("gm", "{}");
    assert!(default > 0);
    assert_eq!(default, registry::dispatch_call_deadline_secs("gm"));
    assert_eq!(registry::deadline_secs_for_call("gm", "not json"), default);
}

#[test]
fn a_plugin_lives_step_by_step() {
    let s = registry::advance_plugin_fiber(None, true, Some("h"));
    assert!(s.state == PluginFiberLifecycle::Active);
    assert_eq!(s.content_hash, Some("h".to_string()));
    assert!(registry::read_plugin_lifecycle(Some(s)) == PluginFiberLifecycle::Active);
    assert!(registry::read_plugin_lifecycle(None) == PluginFiberLifecycle::Inactive);
}

#[test]
fn what_a_call_returns_is_read_or_lost() {
    assert!(matches!(registry::call_outcome("p", "v", (2u64 << 32) | 64, None), CallOutcome::Read { ptr: 64, len: 2 }));
    assert!(matches!(registry::call_outcome("p", "v", 0, None), CallOutcome::Empty));
    match registry::call_outcome("p", "v", 0, Some("gone".to_string())) {
        CallOutcome::Lost { error } => assert!(error.contains("gone")),
        _ => panic!("not lost"),
    }
    assert!(registry::call_error("p", "v", 30, true, "trap").contains("30"));
    assert!(!registry::call_error("p", "v", 30, false, "trap").is_empty());
}

#[test]
fn a_name_is_routed_through_its_broker() {
    let mut b = Brokers::new();
    assert_eq!(registry::resolve_routed_plugin_name(&mut b, "x").0, "x");
    broker::register_provider(&mut b, "x", "y", LoadBalancePolicy::RoundRobin);
    // A single provider changes nothing.
    let (name, lease) = registry::resolve_routed_plugin_name(&mut b, "x");
    assert_eq!(name, "x");
    assert!(lease.is_none());
    broker::register_provider(&mut b, "x", "z", LoadBalancePolicy::RoundRobin);
    let (name, lease) = registry::resolve_routed_plugin_name(&mut b, "x");
    assert_eq!(name, "y");
    broker::release(&mut b, lease.unwrap());
    assert_eq!(registry::resolve_routed_plugin_name(&mut b, "x").0, "z");
}

#[test]
fn errors_of_a_dispatch_have_a_text() {
    let a = PluginDispatchError::NotRegistered { plugin_name: "p".to_string() }.message();
    let b = PluginDispatchError::EvictedOrPoisoned { plugin_name: "p".to_string() }.message();
    assert!(a.contains('p') && b.contains('p') && a != b);
}

#[test]
fn a_dispatch_ends_whatever_happens() {
    for pattern in 0u32..64 {
        let (mut state, mut action) = registry::begin_dispatch();
        let mut steps = 0;
        loop {
            let yes = pattern >> (steps % 6) & 1 == 1;
            let event = match &action {
                DispatchAction::LookUp { .. } => DispatchEvent::LookedUp { found: yes },
                DispatchAction::Load { .. } => DispatchEvent::Loaded { error: if yes { None } else { Some("e".to_string()) } },
                DispatchAction::TakeSlot | DispatchAction::CheckSlot => DispatchEvent::Slot { filled: yes },
                DispatchAction::Run | DispatchAction::FailNotRegistered | DispatchAction::FailEvicted { .. } => break,
            };
            let next = registry::step_dispatch(state, event, if pattern % 2 == 0 { DispatchBy::Handle } else { DispatchBy::Project });
            state = next.0;
            action = next.1;
            steps += 1;
            assert!(steps < 1000);
        }
        if pattern == 63 {
            assert!(matches!(action, DispatchAction::Run));
        }
    }
}

#[test]
fn a_project_knows_what_is_loaded() {
    let mut shared = SharedPlugins::new();
    let mut p = ProjectPlugins::new("/p", 1);
    assert!(!p.is_loaded(&shared, "own"));
    let mut pool = p.take_own("own");
    for i in 0..pool.size() {
        pool.fill_slot(i, Some("h".to_string()));
    }
    p.put_own("own", pool);
    assert!(p.is_loaded(&shared, "own"));
    assert!(p.is_loaded_current(&shared, "own", "h"));
    assert!(!p.is_loaded_current(&shared, "own", "other"));
    let mut gm = shared.take("gm");
    for i in 0..gm.size() {
        gm.fill_slot(i, Some("g".to_string()));
    }
    shared.put("gm", gm);
    p.note_shared("gm");
    assert!(p.is_loaded(&shared, "gm"));
}

#[test]
fn a_project_does_not_take_more_than_its_share() {
    let mut running: StrMap<usize> = StrMap::new();
    let a = GmFairnessGuard::acquire(&mut running, "/p", Some(1)).unwrap();
    assert!(GmFairnessGuard::acquire(&mut running, "/p", Some(1)).is_none());
    let b = GmFairnessGuard::acquire(&mut running, "/q", Some(1)).unwrap();
    a.release(&mut running);
    assert!(GmFairnessGuard::acquire(&mut running, "/p", Some(1)).is_some());
    b.release(&mut running);
}

#[test]
fn plugins_are_listed_one_to_a_line() {
    assert_eq!(registry::read_project_plugin_list(" a \n\n b\r\n"), vec!["a", "b"]);
}

#[test]
fn code_is_run_by_the_program_of_its_language() {
    let c = exec_js::build_command("python", "print(1)").unwrap();
    assert!(c.program == Program::Python);
    assert_eq!(c.args, vec!["-c", "print(1)"]);
    assert!(exec_js::build_command("cobol", "x").is_none());
    let c = exec_js::build_command("nodejs", "return 1").unwrap();
    assert!(c.program == Program::Node);
    assert!(c.args[1].contains("return 1"));
}

#[test]
fn failed_code_is_not_told_to_be_fine() {
    let r = exec_js::exec_reply(ExecMode::Default, false, None, "out", "err", 1, 5);
    assert_eq!(r.bool_field("ok"), Some(false));
    assert_eq!(r.str_field("stdout"), Some("out"));
    let r = exec_js::exec_reply(ExecMode::Default, false, None, "out", "", 0, 5);
    assert_eq!(r.bool_field("ok"), Some(true));
    let r = exec_js::exec_reply(ExecMode::Mem, true, None, "no result", "", 0, 5);
    assert_eq!(r.bool_field("ok"), Some(false));
}

#[test]
fn code_is_refused_without_a_time_limit_or_in_an_unknown_language() {
    let refusal = |opts: &json::Json| match exec_js::exec_plan("1", opts) {
        Err(j) => json::to_text(&j),
        Ok(_) => panic!("planned"),
    };
    assert_eq!(
        refusal(&json::object()),
        r#"{"error":"missing timeoutMs","ok":false,"required":"positive integer milliseconds"}"#
    );
    assert_eq!(
        refusal(&json::object1("timeoutMs", json::signed(99))),
        r#"{"error":"timeoutMs below floor","min":100,"ok":false,"received":99}"#
    );
    assert_eq!(
        refusal(&json::object2("timeoutMs", json::uint(100), "lang", json::str("cobol"))),
        r#"{"error":"unsupported lang: cobol","ok":false}"#
    );
    let plan = exec_js::exec_plan("1", &json::object1("timeoutMs", json::uint(100))).ok().unwrap();
    assert_eq!(plan.timeout_ms, 100);
    assert_eq!(plan.lang, "nodejs");
    assert!(plan.is_js && plan.mode == ExecMode::Default && plan.profile_skipped.is_none());
}

#[test]
fn the_shell_is_that_of_git_on_windows() {
    assert_eq!(exec_js::resolve_bash_cmd(true, true, true, None), "C:\\Program Files\\Git\\bin\\bash.exe");
    assert_eq!(exec_js::resolve_bash_cmd(true, false, true, None), "C:\\Program Files\\Git\\usr\\bin\\bash.exe");
    assert_eq!(exec_js::resolve_bash_cmd(false, true, true, Some("/bin/bash".to_string())), "/bin/bash");
    assert_eq!(exec_js::resolve_bash_cmd(false, true, true, None), "bash");
    assert_eq!(exec_js::resolve_node_cmd(None, Some("/b".to_string())), "/b");
    assert_eq!(exec_js::resolve_node_cmd(None, None), "node");
}

/// Runs a dispatch in which a pool is found as `found` says and every slot is
/// empty until `filled_at` of them were looked at. Nothing is ever loaded.
fn run_without_source(by: DispatchBy, found: bool, filled_at: usize) -> (DispatchAction, usize, usize) {
    let (mut state, mut action) = registry::begin_dispatch();
    let (mut lookups, mut looks) = (0, 0);
    loop {
        let event = match &action {
            DispatchAction::LookUp { .. } => {
                lookups += 1;
                DispatchEvent::LookedUp { found }
            }
            DispatchAction::Load { .. } => DispatchEvent::Loaded { error: None },
            DispatchAction::TakeSlot | DispatchAction::CheckSlot => {
                looks += 1;
                DispatchEvent::Slot { filled: looks > filled_at }
            }
            _ => return (action, lookups, looks),
        };
        let next = registry::step_dispatch(state, event, by);
        state = next.0;
        action = next.1;
    }
}

#[test]
fn a_handle_looks_again_and_a_project_does_not() {
    let (end, _, looks) = run_without_source(DispatchBy::Project, true, 9);
    assert!(matches!(end, DispatchAction::FailEvicted { detail } if detail.starts_with("slot already empty")));
    assert_eq!(looks, 1);
    let (end, _, looks) = run_without_source(DispatchBy::Handle, true, 9);
    let told = "reinstantiation failed after 3 attempts: reload produced no error but no slot was repopulated";
    assert!(matches!(end, DispatchAction::FailEvicted { detail } if detail == told));
    assert_eq!(looks, 4);
    assert!(matches!(run_without_source(DispatchBy::Handle, true, 2).0, DispatchAction::Run));
    let (end, lookups, _) = run_without_source(DispatchBy::Project, false, 0);
    assert!(matches!(end, DispatchAction::FailNotRegistered));
    assert_eq!(lookups, 3);
    let (end, lookups, _) = run_without_source(DispatchBy::Handle, false, 0);
    assert!(matches!(end, DispatchAction::FailNotRegistered));
    assert_eq!(lookups, 4);
}

#[test]
fn a_project_has_one_limit_however_it_is_written() {
    let mut running = StrMap::new();
    let a = GmFairnessGuard::acquire(&mut running, "/p", Some(1)).unwrap();
    assert!(GmFairnessGuard::acquire(&mut running, "/p/", Some(1)).is_none());
    a.release(&mut running);
    assert!(GmFairnessGuard::acquire(&mut running, "/p/", Some(1)).is_some());
}
