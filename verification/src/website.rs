//! The site-facing read and write paths: registering a site, listing an
//! account's sites with their latest outcome, and the site-details view
//! with recent ticks, rolling statistics, graph data and streak.

use crate::analytics::{
    div_trunc, is_bucket_list, sat_sub_i64, site_ticks, spec_bucket_width, spec_streak_start,
    spec_uptime_hundredths, sum_avg, sum_down, sum_total, window_buckets,
};
use crate::models::{spec_status_label, TickModel};
use crate::request_output::{
    CreateWebsiteOutput, GetWebsiteOutput, GetWebsitesOutput, TickInfo, TickInfoModel,
    WebsiteBucket, WebsiteInfo, WebsiteInfoModel, WebsiteStats,
};
use crate::store::{sites_of, sites_with_id, sort_desc, ticks_matching, Store};
use vstd::math::max;
use vstd::prelude::*;

verus! {

/// The optional region constraint of a sites query; asking for every
/// region is spelled `all` and constrains nothing.
pub struct WebsitesQuery {
    pub region: Option<String>,
}

/// Why a site request was refused.
#[derive(Clone, Copy, Debug, PartialEq, Eq, Structural)]
pub enum ApiError {
    NotFound,
}

/// The region filter a query stands for: `all` and absence both mean no
/// filter.
pub open spec fn spec_region_filter(region: Option<Seq<char>>) -> Option<Seq<char>> {
    match region {
        Some(r) => if r == "all"@ {
            None
        } else {
            Some(r)
        },
        None => None,
    }
}

/// A stored bucket as the graph presents it.
pub open spec fn api_bucket_of(b: crate::models::WebsiteBucket) -> WebsiteBucket {
    WebsiteBucket {
        bucket: b.bucket,
        avg_response_time: b.avg_response_time,
        down_count: b.down_count,
    }
}

/// A stored tick as the activity table presents it.
pub open spec fn tick_info_of(t: TickModel) -> TickInfoModel {
    TickInfoModel {
        status: spec_status_label(t.status),
        response_time: t.response_time,
        created_at: t.created_at,
        region_id: t.region_id,
    }
}

/// The statistics a bucket list shows at time `now`: uptime over one
/// day, seven days and thirty days (hundredths of a percent), incidents
/// and mean response time over the last day. A lookback with no data
/// counts as full uptime — no data is no incident, not unknown.
pub open spec fn spec_stats(sb: Seq<crate::models::WebsiteBucket>, now: int) -> WebsiteStats {
    let w24 = window_buckets(sb, now, 24);
    let w7 = window_buckets(sb, now, 168);
    let w30 = window_buckets(sb, now, 720);
    WebsiteStats {
        uptime_24h: if w24.len() == 0 {
            10000 as u64
        } else {
            spec_uptime_hundredths(sum_total(w24), sum_down(w24)) as u64
        },
        uptime_7d: if w7.len() == 0 {
            Some(10000 as u64)
        } else {
            Some(spec_uptime_hundredths(sum_total(w7), sum_down(w7)) as u64)
        },
        uptime_30d: if w30.len() == 0 {
            Some(10000 as u64)
        } else {
            Some(spec_uptime_hundredths(sum_total(w30), sum_down(w30)) as u64)
        },
        incidents_24h: sum_down(w24) as i64,
        avg_response_time_24h: if w24.len() == 0 {
            0
        } else {
            div_trunc(sum_avg(w24), w24.len() as int) as i64
        },
    }
}

/// Computes [`spec_stats`] over a bucket list.
pub fn compute_stats(buckets: &Vec<crate::models::WebsiteBucket>, now: i64) -> (r: WebsiteStats)
    requires
        0 <= now,
        buckets@.len() <= 0x7fff_ffff,
        forall|i: int|
            0 <= i < buckets@.len() ==> (#[trigger] buckets@[i]).wf() && buckets@[i].total_count
                <= 0x7fff_ffff && -0x8000_0000 <= buckets@[i].avg_response_time <= 0x7fff_ffff,
    ensures
        r == spec_stats(buckets@, now as int),
{
    let uptime_24h = match crate::analytics::uptime_in_window(buckets, now, 24) {
        Some(u) => u,
        None => 10000,
    };
    let uptime_7d = match crate::analytics::uptime_in_window(buckets, now, 168) {
        Some(u) => Some(u),
        None => Some(10000),
    };
    let uptime_30d = match crate::analytics::uptime_in_window(buckets, now, 720) {
        Some(u) => Some(u),
        None => Some(10000),
    };
    let incidents_24h = crate::analytics::incidents_in_window(buckets, now, 24);
    let avg_response_time_24h = crate::analytics::avg_response_in_window(buckets, now, 24);
    WebsiteStats { uptime_24h, uptime_7d, uptime_30d, incidents_24h, avg_response_time_24h }
}

/// Registers a site for the account and answers with its fresh id.
pub fn create_website(store: &mut Store, user_id: String, url: String) -> (r: Result<
    CreateWebsiteOutput,
    ApiError,
>)
    ensures
        r is Ok,
        r matches Ok(out) ==> {
            &&& out.id@.len() == 36
            &&& final(store).websites.deep_view().len() == old(store).websites.deep_view().len()
                + 1
            &&& final(store).websites.deep_view().last().url == url@
            &&& final(store).websites.deep_view().last().user_id == user_id@
            &&& final(store).websites.deep_view().last().id == out.id@
        },
        forall|j: int|
            0 <= j < old(store).websites.deep_view().len() ==> final(store).websites.deep_view()[j]
                == old(store).websites.deep_view()[j],
        final(store).users == old(store).users,
        final(store).ticks == old(store).ticks,
{
    match store.create_website(user_id, url) {
        Ok(w) => Ok(CreateWebsiteOutput { id: w.id }),
        Err(_) => {
            proof {
                assert(false);
            }
            Err(ApiError::NotFound)
        },
    }
}

/// What the site-details view shows, given the stored sites and ticks:
/// the site's own row; its current streak as of `now`; its 50 most
/// recent ticks under the region filter, newest first; graph data over
/// the requested window; and rolling statistics over the last thirty
/// days (clamped at the epoch).
pub open spec fn spec_get_website_ok(
    out: GetWebsiteOutput,
    websites: Seq<crate::models::WebsiteModel>,
    ticks: Seq<TickModel>,
    id: Seq<char>,
    user_id: Seq<char>,
    req_start: int,
    req_end: int,
    region: Option<Seq<char>>,
    now: int,
) -> bool {
    let site = sites_with_id(websites, id, user_id)[0];
    let st = site_ticks(ticks, id);
    let stats_start: int = max(now - 2_592_000, 0);
    &&& out.url@ == site.url
    &&& out.id@ == site.id
    &&& out.user_id@ == site.user_id
    &&& out.created_at == site.time_added
    &&& (out.streak is Some <==> st.len() > 0)
    &&& st.len() > 0 ==> out.streak == Some(sat_sub_i64(now, spec_streak_start(st)) as i64)
    &&& out.recent_ticks.deep_view() == ({
        let m = ticks_matching(ticks, id, region);
        sort_desc(m).take(
            if 50 <= m.len() {
                50
            } else {
                m.len() as int
            },
        ).map_values(|t: TickModel| tick_info_of(t))
    })
    &&& exists|gb: Seq<crate::models::WebsiteBucket>|
        #[trigger] is_bucket_list(
            gb,
            ticks,
            id,
            req_start,
            req_end,
            region,
            spec_bucket_width(req_end - req_start),
        ) && out.graph_data@ == gb.map_values(|b: crate::models::WebsiteBucket| api_bucket_of(b))
    &&& exists|sb: Seq<crate::models::WebsiteBucket>|
        #[trigger] is_bucket_list(
            sb,
            ticks,
            id,
            stats_start,
            now,
            region,
            spec_bucket_width(now - stats_start),
        ) && out.stats == spec_stats(sb, now)
}

/// Assembles [`spec_get_website_ok`] from its parts.
proof fn lemma_get_website_ok(
    out: GetWebsiteOutput,
    websites: Seq<crate::models::WebsiteModel>,
    ticks: Seq<TickModel>,
    id: Seq<char>,
    user_id: Seq<char>,
    req_start: int,
    req_end: int,
    region: Option<Seq<char>>,
    now: int,
    stats_start: int,
)
    requires
        stats_start == max(now - 2_592_000, 0),
        out.url@ == sites_with_id(websites, id, user_id)[0].url,
        out.id@ == sites_with_id(websites, id, user_id)[0].id,
        out.user_id@ == sites_with_id(websites, id, user_id)[0].user_id,
        out.created_at == sites_with_id(websites, id, user_id)[0].time_added,
        out.streak is Some <==> site_ticks(ticks, id).len() > 0,
        site_ticks(ticks, id).len() > 0 ==> out.streak == Some(
            sat_sub_i64(now, spec_streak_start(site_ticks(ticks, id))) as i64,
        ),
        out.recent_ticks.deep_view() == ({
            let m = ticks_matching(ticks, id, region);
            sort_desc(m).take(
                if 50 <= m.len() {
                    50
                } else {
                    m.len() as int
                },
            ).map_values(|t: TickModel| tick_info_of(t))
        }),
        exists|gb: Seq<crate::models::WebsiteBucket>|
            #[trigger] is_bucket_list(
                gb,
                ticks,
                id,
                req_start,
                req_end,
                region,
                spec_bucket_width(req_end - req_start),
            ) && out.graph_data@ == gb.map_values(
                |b: crate::models::WebsiteBucket| api_bucket_of(b),
            ),
        exists|sb: Seq<crate::models::WebsiteBucket>|
            #[trigger] is_bucket_list(
                sb,
                ticks,
                id,
                stats_start,
                now,
                region,
                spec_bucket_width(now - stats_start),
            ) && out.stats == spec_stats(sb, now),
    ensures
        spec_get_website_ok(out, websites, ticks, id, user_id, req_start, req_end, region, now),
{
    let ss2: int = max(now - 2_592_000, 0);
    let sb0 = choose|sb: Seq<crate::models::WebsiteBucket>|
        #[trigger] is_bucket_list(
            sb,
            ticks,
            id,
            stats_start,
            now,
            region,
            spec_bucket_width(now - stats_start),
        ) && out.stats == spec_stats(sb, now);
    assert(is_bucket_list(sb0, ticks, id, ss2, now, region, spec_bucket_width(now - ss2))
        && out.stats == spec_stats(sb0, now));
    assert(exists|sb: Seq<crate::models::WebsiteBucket>|
        #[trigger] is_bucket_list(sb, ticks, id, ss2, now, region, spec_bucket_width(now - ss2))
            && out.stats == spec_stats(sb, now));
}

/// The site-details view: the site's row (only for its owner), its 50
/// most recent ticks, rolling statistics over the last thirty days,
/// graph data over the requested window, and the current streak, all as
/// of `now`.
#[verifier::rlimit(100)]
pub fn get_website(
    store: &mut Store,
    id: &str,
    user_id: &str,
    req_start: i64,
    req_end: i64,
    region: Option<&str>,
    now: i64,
) -> (r: Result<GetWebsiteOutput, ApiError>)
    requires
        0 <= req_start <= req_end,
        0 <= now,
        old(store).ticks.deep_view().len() <= 0x7fff_ffff,
    ensures
        *final(store) == *old(store),
        r is Err <==> sites_with_id(old(store).websites.deep_view(), id@, user_id@).len() == 0,
        r is Err ==> r == Err::<GetWebsiteOutput, ApiError>(ApiError::NotFound),
        r matches Ok(out) ==> spec_get_website_ok(
            out,
            old(store).websites.deep_view(),
            old(store).ticks.deep_view(),
            id@,
            user_id@,
            req_start as int,
            req_end as int,
            region.deep_view(),
            now as int,
        ),
{
    let website = match store.get_website(id, user_id) {
        Ok(w) => w,
        Err(_) => {
            return Err(ApiError::NotFound);
        },
    };
    let req_buckets = match store.get_analytics_graph(id, req_start, req_end, region) {
        Ok(bs) => bs,
        Err(_) => {
            proof {
                assert(false);
            }
            Vec::new()
        },
    };
    let stats_start: i64 = if now >= 2_592_000 {
        now - 2_592_000
    } else {
        0
    };
    let stats_buckets = match store.get_analytics_graph(id, stats_start, now, region) {
        Ok(bs) => bs,
        Err(_) => {
            proof {
                assert(false);
            }
            Vec::new()
        },
    };
    let stats = compute_stats(&stats_buckets, now);
    let recent = match store.get_ticks(id, region, 50) {
        Ok(ts) => ts,
        Err(_) => {
            proof {
                assert(false);
            }
            Vec::new()
        },
    };
    let mut recent_ticks: Vec<TickInfo> = Vec::new();
    let rn = recent.len();
    for j in 0..rn
        invariant
            rn == recent.deep_view().len(),
            recent_ticks.deep_view() == recent.deep_view().take(j as int).map_values(
                |t: TickModel| tick_info_of(t),
            ),
    {
        let ghost pre = recent_ticks.deep_view();
        let info = TickInfo {
            status: recent[j].status.to_lowercase(),
            response_time: recent[j].response_time,
            created_at: recent[j].created_at,
            region_id: recent[j].region_id.clone(),
        };
        proof {
            assert(info@ =~~= tick_info_of(recent.deep_view()[j as int]));
        }
        recent_ticks.push(info);
        proof {
            assert(recent.deep_view().take(j + 1) =~= recent.deep_view().take(j as int).push(
                recent.deep_view()[j as int],
            ));
            assert(recent_ticks.deep_view() =~~= pre.push(tick_info_of(recent.deep_view()[j as int])));
            assert(recent_ticks.deep_view() =~~= recent.deep_view().take(j + 1).map_values(
                |t: TickModel| tick_info_of(t),
            ));
        }
    }
    proof {
        assert(recent.deep_view().take(rn as int) =~= recent.deep_view());
    }
    let mut graph_data: Vec<WebsiteBucket> = Vec::new();
    let gn = req_buckets.len();
    for j in 0..gn
        invariant
            gn == req_buckets@.len(),
            graph_data@ == req_buckets@.take(j as int).map_values(
                |b: crate::models::WebsiteBucket| api_bucket_of(b),
            ),
    {
        let b = req_buckets[j];
        graph_data.push(
            WebsiteBucket {
                bucket: b.bucket,
                avg_response_time: b.avg_response_time,
                down_count: b.down_count,
            },
        );
        proof {
            assert(req_buckets@.take(j + 1) =~= req_buckets@.take(j as int).push(
                req_buckets@[j as int],
            ));
            assert(graph_data@ =~= req_buckets@.take(j + 1).map_values(
                |b: crate::models::WebsiteBucket| api_bucket_of(b),
            ));
        }
    }
    proof {
        assert(req_buckets@.take(gn as int) =~= req_buckets@);
    }
    let site_owned: String = id.to_owned();
    let streak = match crate::analytics::current_streak_at(&store.ticks, &site_owned, now) {
        Some(s) => Some(s.duration),
        None => None,
    };
    let out = GetWebsiteOutput {
        url: website.url,
        id: website.id,
        user_id: website.user_id,
        recent_ticks,
        stats,
        graph_data,
        streak,
        created_at: website.time_added,
    };
    proof {
        let ticks = old(store).ticks.deep_view();
        let site = sites_with_id(old(store).websites.deep_view(), id@, user_id@)[0];
        let st = site_ticks(ticks, id@);
        assert(out.url@ == site.url);
        assert(out.id@ == site.id);
        assert(out.user_id@ == site.user_id);
        assert(out.created_at == site.time_added);
        assert(out.streak is Some <==> st.len() > 0);
        if st.len() > 0 {
            assert(out.streak == Some(sat_sub_i64(now as int, spec_streak_start(st)) as i64));
        }
        assert(out.recent_ticks.deep_view() == ({
            let m = ticks_matching(ticks, id@, region.deep_view());
            sort_desc(m).take(
                if 50 <= m.len() {
                    50
                } else {
                    m.len() as int
                },
            ).map_values(|t: TickModel| tick_info_of(t))
        }));
        assert(exists|gb: Seq<crate::models::WebsiteBucket>|
            #[trigger] is_bucket_list(
                gb,
                ticks,
                id@,
                req_start as int,
                req_end as int,
                region.deep_view(),
                spec_bucket_width(req_end - req_start),
            ) && out.graph_data@ == gb.map_values(
                |b: crate::models::WebsiteBucket| api_bucket_of(b),
            )) by {
            assert(is_bucket_list(
                req_buckets@,
                ticks,
                id@,
                req_start as int,
                req_end as int,
                region.deep_view(),
                spec_bucket_width(req_end - req_start),
            ) && out.graph_data@ == req_buckets@.map_values(
                |b: crate::models::WebsiteBucket| api_bucket_of(b),
            ));
        }
        let ss: int = max(now as int - 2_592_000, 0);
        assert(stats_start as int == ss);
        assert(is_bucket_list(
            stats_buckets@,
            ticks,
            id@,
            ss,
            now as int,
            region.deep_view(),
            spec_bucket_width(now - ss),
        ));
        assert(exists|sb: Seq<crate::models::WebsiteBucket>|
            #[trigger] is_bucket_list(
                sb,
                ticks,
                id@,
                ss,
                now as int,
                region.deep_view(),
                spec_bucket_width(now - ss),
            ) && out.stats == spec_stats(sb, now as int)) by {
            assert(is_bucket_list(
                stats_buckets@,
                ticks,
                id@,
                ss,
                now as int,
                region.deep_view(),
                spec_bucket_width(now - ss),
            ) && out.stats == spec_stats(stats_buckets@, now as int));
        }
        lemma_get_website_ok(
            out,
            old(store).websites.deep_view(),
            ticks,
            id@,
            user_id@,
            req_start as int,
            req_end as int,
            region.deep_view(),
            now as int,
            ss,
        );
    }
    Ok(out)
}

/// The site-list view: every site of the account, each with its latest
/// probe outcome under the query's region filter and its current streak
/// as of `now`.
pub fn get_websites(store: &mut Store, user_id: &str, query: &WebsitesQuery, now: i64) -> (r:
    GetWebsitesOutput)
    ensures
        *final(store) == *old(store),
        ({
            let ticks = old(store).ticks.deep_view();
            let rf = spec_region_filter(
                match query.region {
                    Some(ref s) => Some(s@),
                    None => None,
                },
            );
            r.websites.deep_view() == sites_of(
                old(store).websites.deep_view(),
                user_id@,
            ).map_values(|w: crate::models::WebsiteModel| spec_website_info(w, ticks, rf, now as int))
        }),
{
    proof {
        reveal_strlit("all");
    }
    let region_filter: Option<String> = match &query.region {
        Some(r) => {
            let all: String = "all".to_owned();
            if *r == all {
                None
            } else {
                Some(r.clone())
            }
        },
        None => None,
    };
    let ghost rf = spec_region_filter(
        match query.region {
            Some(ref s) => Some(s@),
            None => None,
        },
    );
    proof {
        assert(match region_filter {
            Some(ref s) => rf == Some(s@),
            None => rf is None,
        });
    }
    let websites = match store.get_user_websites(user_id) {
        Ok(ws) => ws,
        Err(_) => {
            proof {
                assert(false);
            }
            Vec::new()
        },
    };
    let ghost ticks = store.ticks.deep_view();
    let mut infos: Vec<WebsiteInfo> = Vec::new();
    let wn = websites.len();
    for i in 0..wn
        invariant
            wn == websites.deep_view().len(),
            *store == *old(store),
            ticks == store.ticks.deep_view(),
            (match region_filter {
                Some(ref s) => rf == Some(s@),
                None => rf is None,
            }),
            infos.deep_view() == websites.deep_view().take(i as int).map_values(
                |w: crate::models::WebsiteModel| spec_website_info(w, ticks, rf, now as int),
            ),
    {
        let site_id: String = websites[i].id.clone();
        let region_ref: Option<&str> = match &region_filter {
            Some(s) => Some(s.as_str()),
            None => None,
        };
        proof {
            assert(region_ref.deep_view() == rf);
        }
        let latest = match store.get_ticks(site_id.as_str(), region_ref, 1) {
            Ok(ts) => ts,
            Err(_) => {
                proof {
                    assert(false);
                }
                Vec::new()
            },
        };
        let streak = match crate::analytics::current_streak_at(&store.ticks, &site_id, now) {
            Some(s) => Some(s.duration),
            None => None,
        };
        let ghost w = websites.deep_view()[i as int];
        let info = if latest.len() > 0 {
            let t = &latest[0];
            WebsiteInfo {
                id: websites[i].id.clone(),
                url: websites[i].url.clone(),
                status: t.status.to_lowercase(),
                last_check: Some(t.created_at),
                response_time: Some(t.response_time),
                region_id: Some(t.region_id.clone()),
                streak,
            }
        } else {
            WebsiteInfo {
                id: websites[i].id.clone(),
                url: websites[i].url.clone(),
                status: "unknown".to_owned(),
                last_check: None,
                response_time: None,
                region_id: None,
                streak,
            }
        };
        let ghost pre = infos.deep_view();
        proof {
            let m = ticks_matching(ticks, w.id, rf);
            crate::store::lemma_sort_desc_sorted(m);
            let target = spec_website_info(w, ticks, rf, now as int);
            if m.len() > 0 {
                assert(latest.deep_view().len() > 0);
                assert(latest.deep_view()[0] == sort_desc(m)[0]);
            } else {
                assert(latest.deep_view().len() == 0);
            }
            assert(info@.id == target.id);
            assert(info@.url == target.url);
            assert(info@.status == target.status);
            assert(info@.last_check == target.last_check);
            assert(info@.response_time == target.response_time);
            assert(info@.region_id == target.region_id);
            assert(info@.streak == target.streak);
            assert(info@ =~~= target);
        }
        infos.push(info);
        proof {
            assert(websites.deep_view().take(i + 1) =~= websites.deep_view().take(i as int).push(
                w,
            ));
            assert(infos.deep_view() =~~= pre.push(spec_website_info(w, ticks, rf, now as int)));
            assert(infos.deep_view() =~~= websites.deep_view().take(i + 1).map_values(
                |w: crate::models::WebsiteModel| spec_website_info(w, ticks, rf, now as int),
            ));
        }
    }
    proof {
        assert(websites.deep_view().take(wn as int) =~= websites.deep_view());
    }
    GetWebsitesOutput { websites: infos }
}

/// One line of the site-list view: the site, its latest tick under the
/// region filter (or `unknown` with no tick), and its streak at `now`.
pub open spec fn spec_website_info(
    w: crate::models::WebsiteModel,
    ticks: Seq<TickModel>,
    rf: Option<Seq<char>>,
    now: int,
) -> WebsiteInfoModel {
    let m = ticks_matching(ticks, w.id, rf);
    let st = site_ticks(ticks, w.id);
    let streak = if st.len() > 0 {
        Some(sat_sub_i64(now, spec_streak_start(st)) as i64)
    } else {
        Option::<i64>::None
    };
    if m.len() == 0 {
        WebsiteInfoModel {
            id: w.id,
            url: w.url,
            status: "unknown"@,
            last_check: None,
            response_time: None,
            region_id: None,
            streak,
        }
    } else {
        let t = sort_desc(m)[0];
        WebsiteInfoModel {
            id: w.id,
            url: w.url,
            status: spec_status_label(t.status),
            last_check: Some(t.created_at),
            response_time: Some(t.response_time),
            region_id: Some(t.region_id),
            streak,
        }
    }
}

} // verus!
