use betterstack::models::{CheckResult, WebsiteStatus};
use betterstack::probe::{probe_step, ProbeAction, ProbeConfig, ProbeEvent, ProbeState};
use betterstack::queue::{ClaimMode, TaskQueue, WebsiteEvent};
use betterstack::scheduler::pusher_tick;
use betterstack::store::Store;
use betterstack::worker::complete_cycle;

fn event(url: &str, id: &str) -> WebsiteEvent {
    WebsiteEvent { website: url.to_string(), id: id.to_string(), redis_id: String::new() }
}

#[test]
fn append_assigns_ordered_ids() {
    let mut q = TaskQueue::new();
    let ids = q.x_add_bulk(vec![event("a.com", "site_a"), event("b.com", "site_b")]);
    assert_eq!(ids, vec![0, 1]);
    let more = q.x_add_bulk(vec![event("c.com", "site_c")]);
    assert_eq!(more, vec![2]);
}

#[test]
fn new_claim_delivers_appended_entries_in_order() {
    let mut q = TaskQueue::new();
    q.x_add_bulk(vec![event("a.com", "site_a"), event("b.com", "site_b")]);
    let tasks = q.x_read_group("eu-1", "eu-1_worker_1", ClaimMode::NewMessages, 10);
    assert_eq!(tasks.len(), 2);
    assert_eq!(tasks[0].url, "a.com");
    assert_eq!(tasks[0].site_id, "site_a");
    assert_eq!(tasks[0].delivery_id, 0);
    assert_eq!(tasks[1].url, "b.com");
    assert_eq!(tasks[1].delivery_id, 1);
}

#[test]
fn at_least_once_pending_redelivers_unacknowledged() {
    // a worker claims two tasks and crashes before acknowledging: a
    // pending-mode read for the same member redelivers exactly those
    let mut q = TaskQueue::new();
    q.x_add_bulk(vec![event("a.com", "site_a"), event("b.com", "site_b")]);
    let claimed = q.x_read_group("eu-1", "w1", ClaimMode::NewMessages, 10);
    assert_eq!(claimed.len(), 2);
    let redelivered = q.x_read_group("eu-1", "w1", ClaimMode::Pending, 10);
    assert_eq!(redelivered.len(), 2);
    assert_eq!(redelivered[0].delivery_id, claimed[0].delivery_id);
    assert_eq!(redelivered[0].url, "a.com");
    assert_eq!(redelivered[1].delivery_id, claimed[1].delivery_id);
    assert_eq!(redelivered[1].url, "b.com");
}

#[test]
fn pending_is_per_member() {
    let mut q = TaskQueue::new();
    q.x_add_bulk(vec![event("a.com", "site_a")]);
    q.x_read_group("eu-1", "w1", ClaimMode::NewMessages, 10);
    let other = q.x_read_group("eu-1", "w2", ClaimMode::Pending, 10);
    assert!(other.is_empty());
    let own = q.x_read_group("eu-1", "w1", ClaimMode::Pending, 10);
    assert_eq!(own.len(), 1);
}

#[test]
fn ensure_group_is_idempotent_and_keeps_cursor() {
    let mut q = TaskQueue::new();
    q.ensure_group_exists("eu-1");
    q.x_add_bulk(vec![event("a.com", "site_a")]);
    let first = q.x_read_group("eu-1", "w1", ClaimMode::NewMessages, 10);
    assert_eq!(first.len(), 1);
    // creating the group again must not reset the cursor or pending set
    q.ensure_group_exists("eu-1");
    let renewed = q.x_read_group("eu-1", "w1", ClaimMode::NewMessages, 10);
    assert!(renewed.is_empty());
    let pending = q.x_read_group("eu-1", "w1", ClaimMode::Pending, 10);
    assert_eq!(pending.len(), 1);
}

#[test]
fn groups_track_independent_cursors() {
    let mut q = TaskQueue::new();
    q.x_add_bulk(vec![event("a.com", "site_a")]);
    let eu = q.x_read_group("eu-1", "w1", ClaimMode::NewMessages, 10);
    let us = q.x_read_group("us-1", "w1", ClaimMode::NewMessages, 10);
    assert_eq!(eu.len(), 1);
    assert_eq!(us.len(), 1);
}

#[test]
fn claim_respects_batch_size() {
    let mut q = TaskQueue::new();
    q.x_add_bulk(vec![event("a.com", "a"), event("b.com", "b"), event("c.com", "c")]);
    let first = q.x_read_group("eu-1", "w1", ClaimMode::NewMessages, 2);
    assert_eq!(first.len(), 2);
    let rest = q.x_read_group("eu-1", "w1", ClaimMode::NewMessages, 2);
    assert_eq!(rest.len(), 1);
    assert_eq!(rest[0].delivery_id, 2);
}

#[test]
fn ack_clears_pending_and_counts() {
    let mut q = TaskQueue::new();
    q.x_add_bulk(vec![event("a.com", "a"), event("b.com", "b")]);
    let tasks = q.x_read_group("eu-1", "w1", ClaimMode::NewMessages, 10);
    let ids: Vec<u64> = tasks.iter().map(|t| t.delivery_id).collect();
    let acked = q.x_ack_bulk("eu-1", &ids);
    assert_eq!(acked, 2);
    let pending = q.x_read_group("eu-1", "w1", ClaimMode::Pending, 10);
    assert!(pending.is_empty());
}

#[test]
fn partial_ack_keeps_the_rest_pending() {
    let mut q = TaskQueue::new();
    q.x_add_bulk(vec![event("a.com", "a"), event("b.com", "b"), event("c.com", "c")]);
    let tasks = q.x_read_group("eu-1", "w1", ClaimMode::NewMessages, 10);
    assert_eq!(tasks.len(), 3);
    let acked = q.x_ack_bulk("eu-1", &vec![tasks[0].delivery_id, tasks[2].delivery_id]);
    assert_eq!(acked, 2);
    let pending = q.x_read_group("eu-1", "w1", ClaimMode::Pending, 10);
    assert_eq!(pending.len(), 1);
    assert_eq!(pending[0].delivery_id, tasks[1].delivery_id);
    assert_eq!(pending[0].url, "b.com");
}

#[test]
fn ack_of_unknown_group_or_ids_is_a_noop() {
    let mut q = TaskQueue::new();
    assert_eq!(q.x_ack_bulk("nope", &vec![0, 1]), 0);
    q.x_add_bulk(vec![event("a.com", "a")]);
    q.x_read_group("eu-1", "w1", ClaimMode::NewMessages, 10);
    assert_eq!(q.x_ack_bulk("eu-1", &vec![]), 0);
    assert_eq!(q.x_ack_bulk("eu-1", &vec![99]), 0);
    assert_eq!(q.x_read_group("eu-1", "w1", ClaimMode::Pending, 10).len(), 1);
}

#[test]
fn pusher_tick_appends_one_task_per_site() {
    let mut store = Store::new();
    store.create_website("owner".to_string(), "a.com".to_string()).unwrap();
    store.create_website("owner".to_string(), "b.com".to_string()).unwrap();
    let mut q = TaskQueue::new();
    let n = pusher_tick(&mut store, &mut q);
    assert_eq!(n, 2);
    let tasks = q.x_read_group("eu-1", "w1", ClaimMode::NewMessages, 10);
    assert_eq!(tasks.len(), 2);
    assert_eq!(tasks[0].url, "a.com");
    assert_eq!(tasks[1].url, "b.com");
}

#[test]
fn pusher_tick_with_no_sites_appends_nothing() {
    let mut store = Store::new();
    let mut q = TaskQueue::new();
    assert_eq!(pusher_tick(&mut store, &mut q), 0);
    assert!(q.x_read_group("eu-1", "w1", ClaimMode::NewMessages, 10).is_empty());
}

#[test]
fn retry_bound_reaches_down_after_exactly_three_attempts() {
    let cfg = ProbeConfig::new_default();
    assert_eq!(cfg.max_attempts, 3);
    let mut st = ProbeState::start();
    let (st1, a1) = probe_step(&cfg, st, ProbeEvent::TransportError);
    assert_eq!(a1, ProbeAction::Retry { delay_ms: 500 });
    st = st1;
    let (st2, a2) = probe_step(&cfg, st, ProbeEvent::TransportError);
    assert_eq!(a2, ProbeAction::Retry { delay_ms: 500 });
    st = st2;
    let (st3, a3) = probe_step(&cfg, st, ProbeEvent::TransportError);
    assert_eq!(a3, ProbeAction::Finish { status: WebsiteStatus::Down });
    assert_eq!(st3.attempts_made, 3);
}

#[test]
fn http_response_finishes_the_probe_at_once() {
    let cfg = ProbeConfig::new_default();
    let st = ProbeState::start();
    let (st1, action) = probe_step(&cfg, st, ProbeEvent::Response { status_code: 200 });
    assert_eq!(action, ProbeAction::Finish { status: WebsiteStatus::Up });
    assert_eq!(st1.attempts_made, 1);
    let (_, down) = probe_step(&cfg, ProbeState::start(), ProbeEvent::Response {
        status_code: 503,
    });
    assert_eq!(down, ProbeAction::Finish { status: WebsiteStatus::Down });
}

fn run_probe(cfg: &ProbeConfig, events: &[ProbeEvent]) -> (WebsiteStatus, u32) {
    let mut st = ProbeState::start();
    for ev in events {
        let (next, action) = probe_step(cfg, st, *ev);
        st = next;
        match action {
            ProbeAction::Finish { status } => return (status, st.attempts_made),
            ProbeAction::Retry { .. } => {},
        }
    }
    panic!("probe did not finish");
}

#[test]
fn end_to_end_batch_cycle() {
    // three sites; two probes succeed, one exhausts its retries; all
    // three outcomes are persisted and the whole batch is acknowledged,
    // after which a pending-mode claim comes back empty
    let mut store = Store::new();
    store.create_website("owner".to_string(), "a.com".to_string()).unwrap();
    store.create_website("owner".to_string(), "b.com".to_string()).unwrap();
    store.create_website("owner".to_string(), "c.com".to_string()).unwrap();
    let mut q = TaskQueue::new();
    assert_eq!(pusher_tick(&mut store, &mut q), 3);

    let tasks = q.claim_batch("eu-1", "eu-1_worker_1", 10);
    assert_eq!(tasks.len(), 3);

    let cfg = ProbeConfig::new_default();
    let mut results: Vec<CheckResult> = Vec::new();
    for (i, task) in tasks.iter().enumerate() {
        let events = if i < 2 {
            vec![ProbeEvent::Response { status_code: 200 }]
        } else {
            vec![ProbeEvent::TransportError, ProbeEvent::TransportError, ProbeEvent::TransportError]
        };
        let (status, attempts) = run_probe(&cfg, &events);
        if i < 2 {
            assert_eq!(status, WebsiteStatus::Up);
        } else {
            assert_eq!(status, WebsiteStatus::Down);
            assert_eq!(attempts, 3);
        }
        results.push(CheckResult {
            site_id: task.site_id.clone(),
            region_id: "eu-1".to_string(),
            status,
            response_time_ms: 42,
        });
    }

    let acked = complete_cycle(&mut q, &mut store, "eu-1", &tasks, &results);
    assert_eq!(acked, 3);
    assert_eq!(store.ticks.len(), 3);
    assert_eq!(store.ticks[0].status, WebsiteStatus::Up);
    assert_eq!(store.ticks[1].status, WebsiteStatus::Up);
    assert_eq!(store.ticks[2].status, WebsiteStatus::Down);
    assert_eq!(store.ticks[2].region_id, "eu-1");

    let redelivered = q.x_read_group("eu-1", "eu-1_worker_1", ClaimMode::Pending, 10);
    assert!(redelivered.is_empty());
}

#[test]
fn worker_takes_pending_before_new() {
    let mut q = TaskQueue::new();
    q.x_add_bulk(vec![event("a.com", "a"), event("b.com", "b")]);
    // claim one, never acknowledge it
    let first = q.x_read_group("eu-1", "w1", ClaimMode::NewMessages, 1);
    assert_eq!(first.len(), 1);
    // the next batch redelivers the stuck task instead of taking new work
    let batch = q.claim_batch("eu-1", "w1", 10);
    assert_eq!(batch.len(), 1);
    assert_eq!(batch[0].delivery_id, first[0].delivery_id);
}
