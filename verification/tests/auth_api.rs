use betterstack::auth::{
    authorize, hash_password, parse_bearer, signin, signup, verify_password, AuthError,
};
use betterstack::models::{WebsiteStatus, WebsiteTick};
use betterstack::probe::{classify_status_code, normalize_url};
use betterstack::store::Store;
use betterstack::website::{create_website, get_website, get_websites, ApiError, WebsitesQuery};

fn tick(website_id: &str, region_id: &str, status: WebsiteStatus, rt: i32, at: i64) -> WebsiteTick {
    WebsiteTick {
        id: format!("tick-{}-{}", website_id, at),
        response_time: rt,
        status,
        region_id: region_id.to_string(),
        website_id: website_id.to_string(),
        created_at: at,
    }
}

fn now_secs() -> u64 {
    chrono::Utc::now().timestamp() as u64
}

#[test]
fn password_hash_round_trip() {
    let hash = hash_password("hunter2").unwrap();
    assert!(verify_password("hunter2", &hash));
    assert!(!verify_password("wrong", &hash));
    // a string that is no PHC hash verifies nothing
    assert!(!verify_password("hunter2", "hunter2"));
}

#[test]
fn signup_then_signin_issues_a_token() {
    let mut store = Store::new();
    let out = signup(
        &mut store,
        "alice".to_string(),
        "hunter2".to_string(),
        "a@x.com".to_string(),
    )
    .unwrap();
    assert_eq!(out.id.len(), 36);
    let signed = signin(&mut store, "alice", "hunter2", 12, now_secs(), "secret").unwrap();
    assert!(!signed.jwt.is_empty());
    assert_eq!(signed.jwt.matches('.').count(), 2);
}

#[test]
fn signin_refuses_bad_credentials() {
    let mut store = Store::new();
    signup(&mut store, "alice".to_string(), "hunter2".to_string(), "a@x.com".to_string()).unwrap();
    let wrong_pw = signin(&mut store, "alice", "wrong", 12, now_secs(), "secret");
    assert_eq!(wrong_pw.unwrap_err(), AuthError::Unauthorized);
    let wrong_user = signin(&mut store, "bob", "hunter2", 12, now_secs(), "secret");
    assert_eq!(wrong_user.unwrap_err(), AuthError::Unauthorized);
}

#[test]
fn token_authorizes_its_own_account() {
    let mut store = Store::new();
    let created = signup(
        &mut store,
        "alice".to_string(),
        "hunter2".to_string(),
        "a@x.com".to_string(),
    )
    .unwrap();
    let signed = signin(&mut store, "alice", "hunter2", 12, now_secs(), "secret").unwrap();
    let header = format!("Bearer {}", signed.jwt);
    let user = authorize(Some(&header), "secret").unwrap();
    assert_eq!(user.0, created.id);
    // the wrong secret must refuse the same token
    let refused = authorize(Some(&header), "other-secret");
    assert_eq!(refused.unwrap_err(), AuthError::TokenMalformed);
}

#[test]
fn authorize_checks_the_header_shape() {
    assert_eq!(authorize(None, "secret").unwrap_err(), AuthError::MissingToken);
    assert_eq!(
        authorize(Some("Token abc"), "secret").unwrap_err(),
        AuthError::InvalidTokenFormat
    );
    assert_eq!(
        authorize(Some("Bearer not-a-token"), "secret").unwrap_err(),
        AuthError::TokenMalformed
    );
}

#[test]
fn bearer_prefix_is_split_off() {
    assert_eq!(parse_bearer("Bearer abc.def.ghi").unwrap(), "abc.def.ghi");
    assert!(parse_bearer("bearer abc").is_none());
    assert!(parse_bearer("abc").is_none());
}

#[test]
fn status_codes_classify_as_up_or_down() {
    assert_eq!(classify_status_code(200), WebsiteStatus::Up);
    assert_eq!(classify_status_code(204), WebsiteStatus::Up);
    assert_eq!(classify_status_code(301), WebsiteStatus::Up);
    assert_eq!(classify_status_code(399), WebsiteStatus::Up);
    assert_eq!(classify_status_code(400), WebsiteStatus::Down);
    assert_eq!(classify_status_code(404), WebsiteStatus::Down);
    assert_eq!(classify_status_code(500), WebsiteStatus::Down);
    assert_eq!(classify_status_code(199), WebsiteStatus::Down);
}

#[test]
fn urls_are_normalized_before_probing() {
    assert_eq!(normalize_url("  Example.COM  "), "https://example.com");
    assert_eq!(normalize_url("https://example.com"), "https://example.com");
    assert_eq!(normalize_url("HTTP://example.com"), "http://example.com");
    assert_eq!(normalize_url("sub.domain.org/path"), "https://sub.domain.org/path");
}

#[test]
fn create_website_answers_with_the_fresh_id() {
    let mut store = Store::new();
    let out = create_website(&mut store, "owner".to_string(), "a.com".to_string()).unwrap();
    assert_eq!(out.id.len(), 36);
    assert_eq!(store.websites.len(), 1);
    assert_eq!(store.websites[0].url, "a.com");
    assert_eq!(store.websites[0].id, out.id);
}

#[test]
fn get_website_is_owner_only() {
    let mut store = Store::new();
    let out = create_website(&mut store, "owner".to_string(), "a.com".to_string()).unwrap();
    let refused = get_website(&mut store, &out.id, "intruder", 0, 3600, None, 10_000);
    assert_eq!(refused.unwrap_err(), ApiError::NotFound);
    let missing = get_website(&mut store, "no-such-site", "owner", 0, 3600, None, 10_000);
    assert_eq!(missing.unwrap_err(), ApiError::NotFound);
}

#[test]
fn get_website_assembles_the_details_view() {
    let mut store = Store::new();
    let out = create_website(&mut store, "owner".to_string(), "a.com".to_string()).unwrap();
    let site = out.id.clone();
    let now: i64 = 100_000;
    store.ticks = vec![
        tick(&site, "eu", WebsiteStatus::Up, 100, now - 200),
        tick(&site, "eu", WebsiteStatus::Down, 300, now - 100),
        tick("other", "eu", WebsiteStatus::Down, 999, now - 50),
    ];
    let view = get_website(&mut store, &site, "owner", now - 3600, now, None, now).unwrap();
    assert_eq!(view.url, "a.com");
    assert_eq!(view.id, site);
    assert_eq!(view.user_id, "owner");
    // newest first
    assert_eq!(view.recent_ticks.len(), 2);
    assert_eq!(view.recent_ticks[0].status, "down");
    assert_eq!(view.recent_ticks[0].created_at, now - 100);
    assert_eq!(view.recent_ticks[1].status, "up");
    // one up and one down in the last day: 50.00 percent
    assert_eq!(view.stats.uptime_24h, 5000);
    assert_eq!(view.stats.incidents_24h, 1);
    // the streak is measured from the last different-status tick
    assert_eq!(view.streak, Some(200));
    assert!(!view.graph_data.is_empty());
}

#[test]
fn get_websites_lists_each_site_with_its_latest_outcome() {
    let mut store = Store::new();
    let a = create_website(&mut store, "owner".to_string(), "a.com".to_string()).unwrap();
    create_website(&mut store, "other-owner".to_string(), "x.com".to_string()).unwrap();
    let b = create_website(&mut store, "owner".to_string(), "b.com".to_string()).unwrap();
    store.ticks = vec![
        tick(&a.id, "eu", WebsiteStatus::Up, 70, 900),
        tick(&a.id, "eu", WebsiteStatus::Down, 80, 1000),
    ];
    let query = WebsitesQuery { region: Some("all".to_string()) };
    let listing = get_websites(&mut store, "owner", &query, 1500);
    assert_eq!(listing.websites.len(), 2);
    let first = &listing.websites[0];
    assert_eq!(first.url, "a.com");
    assert_eq!(first.status, "down");
    assert_eq!(first.last_check, Some(1000));
    assert_eq!(first.response_time, Some(80));
    assert_eq!(first.region_id.as_deref(), Some("eu"));
    assert_eq!(first.streak, Some(1500 - 900));
    let second = &listing.websites[1];
    assert_eq!(second.url, "b.com");
    assert_eq!(second.status, "unknown");
    assert_eq!(second.last_check, None);
    assert_eq!(second.streak, None);
    assert_eq!(b.id, second.id);
}

#[test]
fn get_websites_honors_the_region_filter() {
    let mut store = Store::new();
    let a = create_website(&mut store, "owner".to_string(), "a.com".to_string()).unwrap();
    store.ticks = vec![
        tick(&a.id, "eu", WebsiteStatus::Up, 70, 900),
        tick(&a.id, "us", WebsiteStatus::Down, 80, 1000),
    ];
    let query = WebsitesQuery { region: Some("eu".to_string()) };
    let listing = get_websites(&mut store, "owner", &query, 1500);
    assert_eq!(listing.websites[0].status, "up");
    assert_eq!(listing.websites[0].last_check, Some(900));
}
