use agentplug::broker;
use agentplug::broker::{Brokers, LoadBalancePolicy};
use agentplug::pool;
use agentplug::pool::{DispatchCostClass, PoolFill, SharedPluginPool, SharedPlugins, SlotContentSnapshot};

fn weights(b: &Brokers) -> Vec<(String, u32)> {
    broker::status(b, "s").unwrap().providers.iter().map(|p| (p.provider_id.clone(), p.weight)).collect()
}

#[test]
fn round_robin_follows_the_weights() {
    let mut b = Brokers::new();
    broker::register_provider_with_weight(&mut b, "s", "a", LoadBalancePolicy::RoundRobin, 2);
    broker::register_provider_with_weight(&mut b, "s", "b", LoadBalancePolicy::RoundRobin, 1);
    let mut got = Vec::new();
    for _ in 0..6 {
        let lease = broker::route(&mut b, "s").unwrap();
        got.push(lease.provider_id.clone());
        broker::release(&mut b, lease);
    }
    assert_eq!(got.iter().filter(|p| *p == "a").count(), 4);
    assert_eq!(got.iter().filter(|p| *p == "b").count(), 2);
}

#[test]
fn least_loaded_takes_the_idle_provider() {
    let mut b = Brokers::new();
    broker::register_provider(&mut b, "s", "a", LoadBalancePolicy::LeastLoaded);
    broker::register_provider(&mut b, "s", "b", LoadBalancePolicy::LeastLoaded);
    let first = broker::route(&mut b, "s").unwrap();
    let second = broker::route(&mut b, "s").unwrap();
    assert_ne!(first.provider_id, second.provider_id);
    broker::release(&mut b, first);
    broker::release(&mut b, second);
    let s = broker::status(&b, "s").unwrap();
    assert!(s.providers.iter().all(|p| p.in_flight == 0 && p.total_dispatched == 1));
}

#[test]
fn an_unknown_service_routes_nowhere() {
    let mut b = Brokers::new();
    assert!(broker::route(&mut b, "none").is_none());
    assert!(broker::status(&b, "none").is_none());
    assert!(broker::unregister_provider(&mut b, "none", "x"));
    assert!(!broker::shift_traffic(&mut b, "none", "x", 10));
}

#[test]
fn a_complete_shift_routes_to_the_target_alone() {
    let mut b = Brokers::new();
    broker::register_provider_with_weight(&mut b, "s", "old", LoadBalancePolicy::RoundRobin, 100);
    broker::begin_rolling_update(&mut b, "s", "new");
    let mut rounds = 0;
    while !broker::shift_traffic(&mut b, "s", "new", 50) {
        rounds += 1;
        assert!(rounds < 100);
    }
    assert_eq!(weights(&b).iter().find(|w| w.0 == "old").map(|w| w.1).unwrap_or(0), 0);
    for _ in 0..5 {
        let lease = broker::route(&mut b, "s").unwrap();
        assert_eq!(lease.provider_id, "new");
        broker::release(&mut b, lease);
    }
}

#[test]
fn a_busy_provider_is_not_removed() {
    let mut b = Brokers::new();
    broker::register_provider(&mut b, "s", "a", LoadBalancePolicy::RoundRobin);
    let lease = broker::route(&mut b, "s").unwrap();
    assert!(!broker::unregister_provider(&mut b, "s", "a"));
    broker::release(&mut b, lease);
    assert!(broker::unregister_provider(&mut b, "s", "a"));
    assert!(broker::status(&b, "s").is_none());
}

#[test]
fn a_drained_provider_is_reaped_once_it_is_idle() {
    let mut b = Brokers::new();
    broker::register_provider_with_weight(&mut b, "s", "old", LoadBalancePolicy::RoundRobin, 100);
    let lease = broker::route(&mut b, "s").unwrap();
    broker::begin_rolling_update(&mut b, "s", "new");
    assert!(broker::shift_traffic(&mut b, "s", "new", 1000));
    assert!(broker::reap_drained(&mut b, "s").is_empty());
    broker::release(&mut b, lease);
    assert_eq!(broker::reap_drained(&mut b, "s"), vec!["old".to_string()]);
    assert_eq!(weights(&b).len(), 1);
}

#[test]
fn releasing_undoes_routing() {
    let mut b = Brokers::new();
    broker::register_provider(&mut b, "s", "a", LoadBalancePolicy::LeastLoaded);
    let lease = broker::route(&mut b, "s").unwrap();
    assert_eq!(broker::status(&b, "s").unwrap().providers[0].in_flight, 1);
    broker::release(&mut b, lease);
    assert_eq!(broker::status(&b, "s").unwrap().providers[0].in_flight, 0);
}

#[test]
fn the_policy_is_changed() {
    let mut b = Brokers::new();
    broker::register_provider(&mut b, "s", "a", LoadBalancePolicy::RoundRobin);
    broker::set_policy(&mut b, "s", LoadBalancePolicy::LeastLoaded);
    assert!(broker::status(&b, "s").unwrap().policy == LoadBalancePolicy::LeastLoaded);
}

#[test]
fn verbs_have_a_cost() {
    assert!(pool::cost_class_for_verb("code_index") == DispatchCostClass::Heavy);
    assert!(pool::cost_class_for_verb("recall") == DispatchCostClass::Heavy);
    assert!(pool::cost_class_for_verb("codesearch") == DispatchCostClass::Cheap);
    assert!(pool::cost_class_for_verb("instruction") == DispatchCostClass::Cheap);
}

#[test]
fn heavy_dispatches_leave_a_slot() {
    let mut p = SharedPluginPool::new("gm", 4);
    assert_eq!(p.heavy_admission_limit(), 3);
    let mut admissions = Vec::new();
    let mut slots = Vec::new();
    for _ in 0..3 {
        admissions.push(p.admit_dispatch(DispatchCostClass::Heavy).unwrap());
        let ticket = p.draw_ticket(DispatchCostClass::Heavy);
        slots.push(p.acquire_within_for_class(DispatchCostClass::Heavy, ticket).unwrap());
    }
    assert!(p.admit_dispatch(DispatchCostClass::Heavy).is_none());
    let ticket = p.draw_ticket(DispatchCostClass::Cheap);
    let free = p.acquire_within_for_class(DispatchCostClass::Cheap, ticket);
    assert!(free.is_some());
    assert!(!slots.contains(&free.unwrap()));
    p.end_dispatch(slots[0], true);
    p.end_admission(admissions.pop().unwrap());
    assert!(p.admit_dispatch(DispatchCostClass::Heavy).is_some());
}

#[test]
fn tickets_are_served_in_order() {
    let mut p = SharedPluginPool::new("x", 1);
    let first = p.draw_ticket(DispatchCostClass::Cheap);
    let second = p.draw_ticket(DispatchCostClass::Cheap);
    assert!(p.acquire_within_for_class(DispatchCostClass::Cheap, second).is_none());
    let slot = p.acquire_within_for_class(DispatchCostClass::Cheap, first).unwrap();
    assert!(p.acquire_within_for_class(DispatchCostClass::Cheap, second).is_none());
    p.end_dispatch(slot, true);
    assert!(p.acquire_within_for_class(DispatchCostClass::Cheap, second).is_some());
}

#[test]
fn swapped_content_leaves_the_pool() {
    let mut shared = SharedPlugins::new();
    assert!(pool::set_gm_pool_size(&mut shared, 2));
    let mut p = shared.take("gm");
    let mut fill = PoolFill::new();
    let mut at = 0;
    while let Some(i) = p.next_slot_to_fill(at, "hash-a") {
        p.slot_filled(&mut fill, i, "hash-a");
        at = i + 1;
    }
    assert!(p.all_instantiated());
    let n = p.size();
    shared.put("gm", p);
    assert_eq!(pool::get_active_provider(&shared, "gm"), Some("hash-a".to_string()));
    assert_eq!(pool::request_shared_store_swap(&mut shared, "gm", "hash-a"), (n, 0));
    assert!(pool::shared_plugin_slot_content_hashes(&shared, "gm").iter().all(|h| h.is_none()));
    pool::note_shared_plugin_bytes_current(&mut shared, "gm", "hash-b");
    assert_eq!(pool::request_shared_store_swap(&mut shared, "other", "hash-a"), (0, 0));
}

#[test]
fn a_busy_slot_is_emptied_when_its_dispatch_ends() {
    let mut p = SharedPluginPool::new("gm", 1);
    p.fill_slot(0, Some("old".to_string()));
    let ticket = p.draw_ticket(DispatchCostClass::Cheap);
    let i = p.acquire_within(ticket).unwrap();
    assert!(matches!(p.slot_snapshot_without_blocking()[0], SlotContentSnapshot::BusyWithDispatchInFlight));
    assert_eq!(p.request_store_swap("old"), (0, 1));
    assert_eq!(p.swap_pending_hashes(), vec!["old".to_string()]);
    p.evict_if_swap_pending(i);
    p.end_dispatch(i, true);
    assert!(matches!(p.slot_snapshot_without_blocking()[0], SlotContentSnapshot::Empty));
}

#[test]
fn a_successful_dispatch_keeps_the_slot() {
    let mut p = SharedPluginPool::new("gm", 1);
    p.fill_slot(0, Some("h".to_string()));
    for ok in [true, false] {
        let ticket = p.draw_ticket(DispatchCostClass::Cheap);
        let i = p.acquire_within(ticket).unwrap();
        p.end_dispatch(i, ok);
        assert_eq!(p.slot_content_hashes()[0].is_some(), ok);
    }
}

#[test]
fn a_failed_fill_is_taken_back() {
    let mut p = SharedPluginPool::new("gm", 2);
    p.fill_slot(0, Some("old".to_string()));
    let mut fill = PoolFill::new();
    let i = p.next_slot_to_fill(0, "new").unwrap();
    p.slot_filled(&mut fill, i, "new");
    p.revert_fill(fill);
    assert_eq!(p.slot_content_hashes(), vec![Some("old".to_string()), None]);
}

#[test]
fn releasing_empties_free_slots() {
    let mut shared = SharedPlugins::new();
    let mut p = shared.take("bert");
    p.fill_slot(0, Some("h".to_string()));
    shared.put("bert", p);
    assert!(pool::release_shared_plugin(&mut shared, "bert"));
    assert!(!pool::release_shared_plugin(&mut shared, "bert"));
    assert!(!pool::release_shared_plugin(&mut shared, "libsql"));
    assert_eq!(pool::releasable_shared_plugins(), vec!["bert", "treesitter", "gm"]);
}

#[test]
fn a_share_follows_the_weight_over_a_long_run() {
    let mut b = Brokers::new();
    for (id, weight) in [("a", 50), ("b", 30), ("c", 20)] {
        broker::register_provider_with_weight(&mut b, "s", id, LoadBalancePolicy::RoundRobin, weight);
    }
    for _ in 0..1000 {
        let lease = broker::route(&mut b, "s").unwrap();
        broker::release(&mut b, lease);
    }
    let counts: Vec<u64> = broker::status(&b, "s").unwrap().providers.iter().map(|p| p.total_dispatched).collect();
    assert_eq!(counts, vec![500, 300, 200]);
}

#[test]
fn contents_that_are_to_leave_are_told_once() {
    let mut p = SharedPluginPool::new("gm", 1);
    p.fill_slot(0, Some("h".to_string()));
    let ticket = p.draw_ticket(DispatchCostClass::Cheap);
    assert_eq!(p.acquire_within(ticket), Some(0));
    assert_eq!(p.request_store_swap("h"), (0, 1));
    assert_eq!(p.request_store_swap("h"), (0, 1));
    assert_eq!(p.swap_pending_hashes(), vec!["h"]);
    p.note_bytes_current("h");
    assert!(p.swap_pending_hashes().is_empty());
}

#[test]
fn every_block_of_calls_follows_the_weights_exactly() {
    let mut b = Brokers::new();
    for (id, weight) in [("a", 3), ("b", 0), ("c", 2), ("d", 1)] {
        broker::register_provider_with_weight(&mut b, "s", id, LoadBalancePolicy::RoundRobin, weight);
    }
    let mut leases = Vec::new();
    for _ in 0..5 {
        let block: Vec<String> = (0..6)
            .map(|_| {
                leases.push(broker::route(&mut b, "s").unwrap());
                leases[leases.len() - 1].provider_id.clone()
            })
            .collect();
        for (id, weight) in [("a", 3), ("b", 0), ("c", 2), ("d", 1)] {
            assert_eq!(block.iter().filter(|p| *p == id).count(), weight);
        }
    }
}

#[test]
fn the_load_is_the_number_of_leases() {
    let mut b = Brokers::new();
    broker::register_provider(&mut b, "s", "a", LoadBalancePolicy::RoundRobin);
    broker::register_provider(&mut b, "s", "b", LoadBalancePolicy::RoundRobin);
    let mut leases: Vec<broker::RouteLease> = (0..7).map(|_| broker::route(&mut b, "s").unwrap()).collect();
    while let Some(lease) = leases.pop() {
        let before = broker::status(&b, "s").unwrap();
        let gone = lease.provider_id.clone();
        broker::release(&mut b, lease);
        let after = broker::status(&b, "s").unwrap();
        for (p, q) in before.providers.iter().zip(after.providers.iter()) {
            let live = leases.iter().filter(|l| l.provider_id == q.provider_id).count() as u64;
            assert_eq!(q.in_flight, live);
            assert_eq!(p.in_flight - q.in_flight, (p.provider_id == gone) as u64);
            assert_eq!(p.total_dispatched, q.total_dispatched);
        }
    }
}

#[test]
fn an_incoming_provider_waits_for_a_shift() {
    let mut b = Brokers::new();
    broker::register_provider_with_weight(&mut b, "s", "old", LoadBalancePolicy::RoundRobin, 100);
    broker::begin_rolling_update(&mut b, "s", "new");
    broker::register_provider_with_weight(&mut b, "s", "more", LoadBalancePolicy::RoundRobin, 1);
    broker::set_policy(&mut b, "s", LoadBalancePolicy::LeastLoaded);
    for _ in 0..20 {
        assert_ne!(broker::route(&mut b, "s").unwrap().provider_id, "new");
    }
    broker::shift_traffic(&mut b, "s", "new", 10);
    let got: Vec<String> = (0..20).map(|_| broker::route(&mut b, "s").unwrap().provider_id).collect();
    assert!(got.iter().any(|p| p == "new"));
}

#[test]
fn callers_of_a_class_are_served_as_they_called() {
    let mut p = SharedPluginPool::new("x", 2);
    let heavy = p.draw_ticket(DispatchCostClass::Heavy);
    let first = p.draw_ticket(DispatchCostClass::Cheap);
    let second = p.draw_ticket(DispatchCostClass::Cheap);
    assert!(p.acquire_within_for_class(DispatchCostClass::Cheap, second).is_none());
    let slot = p.acquire_within_for_class(DispatchCostClass::Cheap, first).unwrap();
    let other = p.acquire_within_for_class(DispatchCostClass::Cheap, second).unwrap();
    assert_ne!(slot, other);
    assert!(p.acquire_within_for_class(DispatchCostClass::Heavy, heavy).is_none());
    p.end_dispatch(slot, true);
    assert_eq!(p.acquire_within_for_class(DispatchCostClass::Heavy, heavy), Some(slot));
}

#[test]
fn cheap_admissions_do_not_count() {
    let mut p = SharedPluginPool::new("gm", 2);
    let cheap: Vec<_> = (0..5).map(|_| p.admit_dispatch(DispatchCostClass::Cheap).unwrap()).collect();
    let heavy = p.admit_dispatch(DispatchCostClass::Heavy).unwrap();
    for a in cheap {
        p.end_admission(a);
        assert!(p.admit_dispatch(DispatchCostClass::Heavy).is_none());
    }
    p.end_admission(heavy);
    assert!(p.admit_dispatch(DispatchCostClass::Heavy).is_some());
    let mut alone = SharedPluginPool::new("x", 1);
    for _ in 0..3 {
        assert!(alone.admit_dispatch(DispatchCostClass::Heavy).is_some());
    }
}

#[test]
fn every_plugin_has_one_instance_unless_set_otherwise() {
    let mut shared = SharedPlugins::new();
    assert_eq!(shared.take("gm").size(), 1);
    assert_eq!(shared.take("bert").size(), 1);
    assert!(!pool::set_gm_pool_size(&mut shared, 3));
    let mut shared = SharedPlugins::new();
    assert!(pool::set_gm_pool_size(&mut shared, 3));
    assert_eq!(shared.take("gm").size(), 3);
}
