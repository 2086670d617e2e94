use betterstack::analytics::{
    avg_response_in_window, bucket_width_secs, compute_buckets, current_streak_at,
    incidents_in_window, uptime_in_window,
};
use betterstack::models::{Streak, WebsiteBucket, WebsiteStatus, WebsiteTick};
use betterstack::store::Store;

fn tick(website_id: &str, region_id: &str, status: WebsiteStatus, rt: i32, at: i64) -> WebsiteTick {
    WebsiteTick {
        id: format!("tick-{}-{}", website_id, at),
        response_time: rt,
        status,
        region_id: region_id.to_string(),
        website_id: website_id.to_string(),
        created_at: at,
    }
}

fn bucket(start: i64, avg: i64, down: i64, total: i64) -> WebsiteBucket {
    WebsiteBucket { bucket: start, avg_response_time: avg, down_count: down, total_count: total }
}

#[test]
fn bucket_width_follows_the_window_span() {
    // a 12-hour window gets 2-minute buckets
    assert_eq!(bucket_width_secs(0, 12 * 3600), 120);
    assert_eq!(bucket_width_secs(0, 86_400), 120);
    // 2 to 7 days: 15-minute buckets
    assert_eq!(bucket_width_secs(0, 2 * 86_400), 900);
    assert_eq!(bucket_width_secs(0, 7 * 86_400), 900);
    // 8 to 30 days: 30-minute buckets
    assert_eq!(bucket_width_secs(0, 8 * 86_400), 1800);
    assert_eq!(bucket_width_secs(0, 30 * 86_400), 1800);
    // anything longer: 1-hour buckets
    assert_eq!(bucket_width_secs(0, 40 * 86_400), 3600);
}

#[test]
fn bucket_width_never_shrinks_as_the_window_widens() {
    let spans: Vec<i64> = vec![0, 3600, 86_400, 2 * 86_400, 7 * 86_400, 10 * 86_400, 60 * 86_400];
    let mut last = 0i64;
    for s in spans {
        let w = bucket_width_secs(0, s);
        assert!(w >= last);
        last = w;
    }
}

#[test]
fn buckets_aggregate_by_floored_timestamp() {
    let ticks = vec![
        tick("s1", "eu", WebsiteStatus::Up, 100, 10),
        tick("s1", "eu", WebsiteStatus::Down, 300, 60),
        tick("s1", "eu", WebsiteStatus::Up, 50, 130),
        tick("s2", "eu", WebsiteStatus::Down, 999, 20),
    ];
    let site = "s1".to_string();
    let out = compute_buckets(&ticks, &site, 0, 3600, None, 120);
    assert_eq!(out.len(), 2);
    assert_eq!(out[0].bucket, 0);
    assert_eq!(out[0].total_count, 2);
    assert_eq!(out[0].down_count, 1);
    assert_eq!(out[0].avg_response_time, 200);
    assert_eq!(out[1].bucket, 120);
    assert_eq!(out[1].total_count, 1);
    assert_eq!(out[1].down_count, 0);
    assert_eq!(out[1].avg_response_time, 50);
}

#[test]
fn buckets_respect_the_region_filter_and_window() {
    let ticks = vec![
        tick("s1", "eu", WebsiteStatus::Up, 100, 10),
        tick("s1", "us", WebsiteStatus::Down, 100, 20),
        tick("s1", "eu", WebsiteStatus::Up, 100, 9_999),
    ];
    let site = "s1".to_string();
    let region = "eu".to_string();
    let out = compute_buckets(&ticks, &site, 0, 3600, Some(&region), 120);
    assert_eq!(out.len(), 1);
    assert_eq!(out[0].total_count, 1);
    assert_eq!(out[0].down_count, 0);
}

#[test]
fn empty_buckets_are_omitted() {
    let ticks = vec![tick("s1", "eu", WebsiteStatus::Up, 100, 5000)];
    let site = "s1".to_string();
    let out = compute_buckets(&ticks, &site, 0, 86_400, None, 120);
    assert_eq!(out.len(), 1);
    assert_eq!(out[0].bucket, 4920);
}

#[test]
fn uptime_of_zero_ticks_is_full() {
    // no data counts as no incident: 100.00 percent over every lookback
    let buckets: Vec<WebsiteBucket> = Vec::new();
    assert_eq!(uptime_in_window(&buckets, 1_000_000, 24), None);
    let stats = betterstack::website::compute_stats(&buckets, 1_000_000);
    assert_eq!(stats.uptime_24h, 10000);
    assert_eq!(stats.uptime_7d, Some(10000));
    assert_eq!(stats.uptime_30d, Some(10000));
    assert_eq!(stats.incidents_24h, 0);
    assert_eq!(stats.avg_response_time_24h, 0);
}

#[test]
fn uptime_counts_only_buckets_in_the_lookback() {
    let now: i64 = 100_000;
    let buckets = vec![
        bucket(now - 100, 100, 1, 4),  // in window: 3 of 4 up
        bucket(now - 200, 100, 0, 4),  // in window: all up
        bucket(now - 24 * 3600 - 1, 100, 5, 5),  // outside the day
    ];
    let up = uptime_in_window(&buckets, now, 24).unwrap();
    // 7 of 8 checks up: 87.50 percent
    assert_eq!(up, 8750);
    assert_eq!(incidents_in_window(&buckets, now, 24), 1);
    assert_eq!(avg_response_in_window(&buckets, now, 24), 100);
}

#[test]
fn uptime_is_all_or_nothing_at_the_edges() {
    let now: i64 = 50_000;
    let all_down = vec![bucket(now - 10, 100, 2, 2)];
    assert_eq!(uptime_in_window(&all_down, now, 24), Some(0));
    let all_up = vec![bucket(now - 10, 100, 0, 2)];
    assert_eq!(uptime_in_window(&all_up, now, 24), Some(10000));
}

#[test]
fn streak_follows_the_last_status_change() {
    // ticks Up@t1, Up@t2, Down@t3, Down@t4: the current status is Down
    // and the streak is measured from the most recent tick with a
    // different status, Up@t2
    let (t1, t2, t3, t4) = (100, 200, 300, 400);
    let ticks = vec![
        tick("s1", "eu", WebsiteStatus::Up, 10, t1),
        tick("s1", "eu", WebsiteStatus::Up, 10, t2),
        tick("s1", "eu", WebsiteStatus::Down, 10, t3),
        tick("s1", "eu", WebsiteStatus::Down, 10, t4),
    ];
    let site = "s1".to_string();
    let now = 1000;
    let streak = current_streak_at(&ticks, &site, now).unwrap();
    assert_eq!(streak.direction, WebsiteStatus::Down);
    assert_eq!(streak, Streak { direction: WebsiteStatus::Down, since: t2, duration: now - t2 });
}

#[test]
fn streak_with_no_change_starts_at_the_first_tick() {
    let ticks = vec![
        tick("s1", "eu", WebsiteStatus::Up, 10, 500),
        tick("s1", "eu", WebsiteStatus::Up, 10, 700),
    ];
    let site = "s1".to_string();
    let streak = current_streak_at(&ticks, &site, 1000).unwrap();
    assert_eq!(streak, Streak { direction: WebsiteStatus::Up, since: 500, duration: 500 });
}

#[test]
fn streak_of_a_site_with_no_ticks_is_unknown() {
    let ticks = vec![tick("other", "eu", WebsiteStatus::Up, 10, 500)];
    let site = "s1".to_string();
    assert!(current_streak_at(&ticks, &site, 1000).is_none());
}

#[test]
fn streak_ignores_other_sites_and_spans_regions() {
    let ticks = vec![
        tick("s1", "eu", WebsiteStatus::Up, 10, 100),
        tick("other", "eu", WebsiteStatus::Down, 10, 150),
        tick("s1", "us", WebsiteStatus::Down, 10, 200),
    ];
    let site = "s1".to_string();
    let streak = current_streak_at(&ticks, &site, 300).unwrap();
    assert_eq!(streak.direction, WebsiteStatus::Down);
    assert_eq!(streak.since, 100);
}

#[test]
fn status_labels_round_trip() {
    assert_eq!(WebsiteStatus::Up.to_sql(), "UP");
    assert_eq!(WebsiteStatus::Down.to_sql(), "DOWN");
    assert_eq!(WebsiteStatus::from_sql("UP"), Some(WebsiteStatus::Up));
    assert_eq!(WebsiteStatus::from_sql("DOWN"), Some(WebsiteStatus::Down));
    assert_eq!(WebsiteStatus::from_sql("sideways"), None);
    assert_eq!(WebsiteStatus::from_sql("up"), None);
    assert_eq!(WebsiteStatus::Up.to_lowercase(), "up");
    assert_eq!(WebsiteStatus::Down.to_lowercase(), "down");
}

#[test]
fn store_reads_answer_not_found() {
    let mut s = Store::new();
    assert_eq!(
        s.get_user_by_username("ghost").unwrap_err(),
        betterstack::store::StoreError::NotFound
    );
    assert_eq!(
        s.get_user_by_id("ghost").unwrap_err(),
        betterstack::store::StoreError::NotFound
    );
    assert_eq!(
        s.get_website("ghost", "owner").unwrap_err(),
        betterstack::store::StoreError::NotFound
    );
}

#[test]
fn store_users_round_trip() {
    let mut s = Store::new();
    let id = s.sign_up("alice".to_string(), "hash1".to_string(), "a@x.com".to_string()).unwrap();
    assert_eq!(id.len(), 36);
    let (found_id, hash) = s.get_user_by_username("alice").unwrap();
    assert_eq!(found_id, id);
    assert_eq!(hash, "hash1");
    assert_eq!(s.get_user_by_id(&id).unwrap(), "a@x.com");
    assert!(s.get_user_by_username("bob").is_err());
    assert!(s.get_user_by_id("no-such-id").is_err());
}

#[test]
fn store_websites_round_trip() {
    let mut s = Store::new();
    let w = s.create_website("owner".to_string(), "a.com".to_string()).unwrap();
    assert_eq!(w.id.len(), 36);
    let got = s.get_website(&w.id, "owner").unwrap();
    assert_eq!(got.url, "a.com");
    assert!(s.get_website(&w.id, "intruder").is_err());
    let all = s.get_all_websites_global().unwrap();
    assert_eq!(all.len(), 1);
    let mine = s.get_user_websites("owner").unwrap();
    assert_eq!(mine.len(), 1);
    assert_eq!(s.delete_website(&w.id, "owner").unwrap(), 1);
    assert!(s.get_website(&w.id, "owner").is_err());
    assert_eq!(s.delete_website(&w.id, "owner").unwrap(), 0);
}

#[test]
fn store_ticks_come_back_newest_first_and_limited() {
    let mut s = Store::new();
    s.ticks = vec![
        tick("s1", "eu", WebsiteStatus::Up, 1, 300),
        tick("s1", "us", WebsiteStatus::Down, 2, 500),
        tick("s1", "eu", WebsiteStatus::Up, 3, 400),
        tick("other", "eu", WebsiteStatus::Up, 4, 999),
    ];
    let all = s.get_ticks("s1", None, 10).unwrap();
    let times: Vec<i64> = all.iter().map(|t| t.created_at).collect();
    assert_eq!(times, vec![500, 400, 300]);
    let eu = s.get_ticks("s1", Some("eu"), 10).unwrap();
    let eu_times: Vec<i64> = eu.iter().map(|t| t.created_at).collect();
    assert_eq!(eu_times, vec![400, 300]);
    let capped = s.get_ticks("s1", None, 2).unwrap();
    assert_eq!(capped.len(), 2);
    assert_eq!(capped[0].created_at, 500);
}

#[test]
fn store_analytics_graph_uses_the_adaptive_width() {
    let mut s = Store::new();
    s.ticks = vec![
        tick("s1", "eu", WebsiteStatus::Up, 100, 30),
        tick("s1", "eu", WebsiteStatus::Down, 200, 90),
        tick("s1", "eu", WebsiteStatus::Up, 100, 500),
    ];
    // a 12-hour window floors into 2-minute buckets
    let out = s.get_analytics_graph("s1", 0, 12 * 3600, None).unwrap();
    assert_eq!(out.len(), 2);
    assert_eq!(out[0].bucket, 0);
    assert_eq!(out[0].total_count, 2);
    assert_eq!(out[0].down_count, 1);
    assert_eq!(out[0].avg_response_time, 150);
    assert_eq!(out[1].bucket, 480);
}

#[test]
fn store_tick_insert_keeps_history_append_only() {
    let mut s = Store::new();
    let t = s
        .create_website_tick("s1".to_string(), "eu".to_string(), 42, WebsiteStatus::Up)
        .unwrap();
    assert_eq!(t.id.len(), 36);
    assert_eq!(s.ticks.len(), 1);
    assert_eq!(s.ticks[0].website_id, "s1");
    assert_eq!(s.ticks[0].response_time, 42);
    assert_eq!(s.ticks[0].status, WebsiteStatus::Up);
    let streak = s.get_current_streak("s1").unwrap();
    assert!(streak.is_some());
    assert!(s.get_current_streak("unknown-site").unwrap().is_none());
}
