//! Read-time aggregation over the immutable tick history: adaptive
//! time buckets, rolling uptime percentages, and continuity streaks.
//!
//! Nothing here mutates stored data; every value is recomputed from the
//! ticks it is handed.

use crate::models::{Streak, TickModel, WebsiteBucket, WebsiteStatus, WebsiteTick};
use vstd::math::{max, min};
use crate::seq_util::{lemma_filter_empty, lemma_filter_push};
use vstd::arithmetic::div_mod::{
    lemma_div_by_multiple, lemma_div_is_ordered, lemma_div_pos_is_pos, lemma_fundamental_div_mod,
    lemma_mod_bound,
};
use vstd::prelude::*;

verus! {

broadcast use vstd::seq_lib::group_seq_lib_default;

/// Seconds in one day.
pub const DAY_SECS: i64 = 86_400;

/// Bucket width in seconds chosen for a window of the given span:
/// up to one day, two-minute buckets; two to seven days, fifteen-minute;
/// eight to thirty days, thirty-minute; anything longer, one-hour.
pub open spec fn spec_bucket_width(window_secs: int) -> int {
    let days = window_secs / (86_400 as int);
    if days <= 1 {
        120
    } else if days <= 7 {
        900
    } else if days <= 30 {
        1800
    } else {
        3600
    }
}

/// Selects the bucket width for the window `[start, end]`.
pub fn bucket_width_secs(start: i64, end: i64) -> (w: i64)
    requires
        start <= end,
        end - start <= i64::MAX,
    ensures
        w == spec_bucket_width(end - start),
        120 <= w <= 3600,
{
    let days = (end - start) / DAY_SECS;
    if days <= 1 {
        120
    } else if days <= 7 {
        900
    } else if days <= 30 {
        1800
    } else {
        3600
    }
}

/// Widening the window never decreases the bucket width.
pub proof fn lemma_bucket_width_monotonic(w1: int, w2: int)
    requires
        0 <= w1 <= w2,
    ensures
        spec_bucket_width(w1) <= spec_bucket_width(w2),
{
    lemma_div_is_ordered(w1, w2, 86_400);
}

/// Whether a tick passes the optional region filter.
pub open spec fn region_matches(t: TickModel, region: Option<Seq<char>>) -> bool {
    match region {
        Some(r) => t.region_id == r,
        None => true,
    }
}

/// Whether a tick belongs to the site and falls in the window, under the
/// optional region filter.
pub open spec fn tick_selected(
    t: TickModel,
    website_id: Seq<char>,
    start: int,
    end: int,
    region: Option<Seq<char>>,
) -> bool {
    &&& t.website_id == website_id
    &&& start <= t.created_at <= end
    &&& region_matches(t, region)
}

/// The start of the bucket a timestamp floors into.
pub open spec fn bucket_start_of(ts: int, width: int) -> int
    recommends
        width > 0,
{
    (ts / width) * width
}

/// The selected ticks that floor into the bucket starting at `b`.
pub open spec fn bucket_ticks(
    ticks: Seq<TickModel>,
    website_id: Seq<char>,
    start: int,
    end: int,
    region: Option<Seq<char>>,
    width: int,
    b: int,
) -> Seq<TickModel> {
    ticks.filter(
        |t: TickModel|
            tick_selected(t, website_id, start, end, region) && bucket_start_of(
                t.created_at as int,
                width,
            ) == b,
    )
}

/// The down ticks among a sequence of ticks.
pub open spec fn down_ticks(s: Seq<TickModel>) -> Seq<TickModel> {
    s.filter(|t: TickModel| t.status == WebsiteStatus::Down)
}

/// Sum of the response times of a sequence of ticks.
pub open spec fn sum_response(s: Seq<TickModel>) -> int
    decreases s.len(),
{
    if s.len() == 0 {
        0
    } else {
        sum_response(s.drop_last()) + s.last().response_time
    }
}

/// Integer division truncating toward zero, as the executable `/` does.
pub open spec fn div_trunc(a: int, b: int) -> int
    recommends
        b > 0,
{
    if a >= 0 {
        a / b
    } else {
        -((-a) / b)
    }
}

/// The aggregate bucket starting at `b`: how many selected ticks floor
/// into it, how many of those are down, and their truncated mean response
/// time.
pub open spec fn bucket_for(
    ticks: Seq<TickModel>,
    website_id: Seq<char>,
    start: int,
    end: int,
    region: Option<Seq<char>>,
    width: int,
    b: int,
) -> WebsiteBucket {
    let bt = bucket_ticks(ticks, website_id, start, end, region, width, b);
    WebsiteBucket {
        bucket: b as i64,
        avg_response_time: div_trunc(sum_response(bt), bt.len() as int) as i64,
        down_count: down_ticks(bt).len() as i64,
        total_count: bt.len() as i64,
    }
}

/// The buckets whose start lies in the lookback window `(now - hours, now]`.
pub open spec fn window_buckets(
    bs: Seq<WebsiteBucket>,
    now: int,
    lookback_hours: int,
) -> Seq<WebsiteBucket> {
    bs.filter(|b: WebsiteBucket| now - lookback_hours * 3600 < b.bucket <= now)
}

/// Sum of the total tick counts of a sequence of buckets.
pub open spec fn sum_total(s: Seq<WebsiteBucket>) -> int
    decreases s.len(),
{
    if s.len() == 0 {
        0
    } else {
        sum_total(s.drop_last()) + s.last().total_count
    }
}

/// Sum of the down tick counts of a sequence of buckets.
pub open spec fn sum_down(s: Seq<WebsiteBucket>) -> int
    decreases s.len(),
{
    if s.len() == 0 {
        0
    } else {
        sum_down(s.drop_last()) + s.last().down_count
    }
}

/// Sum of the average response times of a sequence of buckets.
pub open spec fn sum_avg(s: Seq<WebsiteBucket>) -> int
    decreases s.len(),
{
    if s.len() == 0 {
        0
    } else {
        sum_avg(s.drop_last()) + s.last().avg_response_time
    }
}

/// Uptime in hundredths of a percent given how many checks ran and how
/// many failed; no data counts as full uptime, a design choice that
/// treats missing history as no incident rather than as unknown.
pub open spec fn spec_uptime_hundredths(total: int, down: int) -> int {
    if total > 0 {
        (total - down) * 10000 / total
    } else {
        10000
    }
}

/// Uptime over the lookback window, in hundredths of a percent; `None`
/// when no bucket falls in the window, as the caller may want to tell
/// "no data" apart from "all up".
pub fn uptime_in_window(buckets: &Vec<WebsiteBucket>, now: i64, lookback_hours: i64) -> (r: Option<
    u64,
>)
    requires
        0 <= lookback_hours,
        lookback_hours * 3600 <= i64::MAX,
        i64::MIN <= now - lookback_hours * 3600,
        buckets@.len() <= 0x7fff_ffff,
        forall|i: int|
            0 <= i < buckets@.len() ==> (#[trigger] buckets@[i]).wf() && buckets@[i].total_count
                <= 0x7fff_ffff,
    ensures
        r is Some <==> window_buckets(buckets@, now as int, lookback_hours as int).len() > 0,
        r is Some ==> r->0 as int == spec_uptime_hundredths(
            sum_total(window_buckets(buckets@, now as int, lookback_hours as int)),
            sum_down(window_buckets(buckets@, now as int, lookback_hours as int)),
        ),
        r is Some ==> r->0 <= 10000,
{
    let ghost bs = buckets@;
    let ghost win_pred = |b: WebsiteBucket|
        (now as int) - (lookback_hours as int) * 3600 < b.bucket <= now as int;
    let cutoff = now - lookback_hours * 3600;
    let mut total: i64 = 0;
    let mut down: i64 = 0;
    let mut in_win: usize = 0;
    let n = buckets.len();
    proof {
        assert(bs.take(0) =~= Seq::<WebsiteBucket>::empty());
        lemma_filter_empty(win_pred);
    }
    for j in 0..n
        invariant
            n == bs.len(),
            bs == buckets@,
            bs.len() <= 0x7fff_ffff,
            forall|i: int|
                0 <= i < bs.len() ==> (#[trigger] bs[i]).wf() && bs[i].total_count <= 0x7fff_ffff,
            win_pred == (|b: WebsiteBucket|
                (now as int) - (lookback_hours as int) * 3600 < b.bucket <= now as int),
            cutoff as int == now - lookback_hours * 3600,
            in_win == bs.take(j as int).filter(win_pred).len(),
            total == sum_total(bs.take(j as int).filter(win_pred)),
            down == sum_down(bs.take(j as int).filter(win_pred)),
            0 <= down <= total <= in_win * 0x7fff_ffff,
    {
        let ghost prefix = bs.take(j as int).filter(win_pred);
        proof {
            assert(bs.take(j + 1) =~= bs.take(j as int).push(bs[j as int]));
            lemma_filter_push(bs.take(j as int), bs[j as int], win_pred);
        }
        let b = buckets[j];
        if cutoff < b.bucket && b.bucket <= now {
            proof {
                assert(win_pred(bs[j as int]));
                assert(prefix.push(bs[j as int]).drop_last() =~= prefix);
            }
            total = total + b.total_count;
            down = down + b.down_count;
            in_win = in_win + 1;
        } else {
            proof {
                assert(!win_pred(bs[j as int]));
            }
        }
    }
    proof {
        assert(bs.take(n as int) =~= bs);
        assert(window_buckets(bs, now as int, lookback_hours as int) == bs.filter(win_pred));
    }
    if in_win == 0 {
        return None;
    }
    if total > 0 {
        let pct = (((total - down) as u128) * 10000) / (total as u128);
        proof {
            let t = total as int;
            let d = down as int;
            assert((t - d) * 10000 <= t * 10000) by (nonlinear_arith)
                requires
                    0 <= d,
                    0 <= t,
            ;
            lemma_div_is_ordered((t - d) * 10000, t * 10000, t);
            lemma_div_by_multiple(10000, t);
            assert(10000 * t == t * 10000) by (nonlinear_arith);
            assert((t - d) * 10000 / t <= 10000);
            lemma_div_pos_is_pos((t - d) * 10000, t);
        }
        Some(pct as u64)
    } else {
        Some(10000)
    }
}

/// Number of down ticks among the buckets in the lookback window.
pub fn incidents_in_window(buckets: &Vec<WebsiteBucket>, now: i64, lookback_hours: i64) -> (r: i64)
    requires
        0 <= lookback_hours,
        lookback_hours * 3600 <= i64::MAX,
        i64::MIN <= now - lookback_hours * 3600,
        buckets@.len() <= 0x7fff_ffff,
        forall|i: int|
            0 <= i < buckets@.len() ==> (#[trigger] buckets@[i]).wf() && buckets@[i].total_count
                <= 0x7fff_ffff,
    ensures
        r == sum_down(window_buckets(buckets@, now as int, lookback_hours as int)),
        0 <= r,
{
    let ghost bs = buckets@;
    let ghost win_pred = |b: WebsiteBucket|
        (now as int) - (lookback_hours as int) * 3600 < b.bucket <= now as int;
    let cutoff = now - lookback_hours * 3600;
    let mut down: i64 = 0;
    let mut in_win: usize = 0;
    let n = buckets.len();
    proof {
        assert(bs.take(0) =~= Seq::<WebsiteBucket>::empty());
        lemma_filter_empty(win_pred);
    }
    for j in 0..n
        invariant
            n == bs.len(),
            bs == buckets@,
            bs.len() <= 0x7fff_ffff,
            forall|i: int|
                0 <= i < bs.len() ==> (#[trigger] bs[i]).wf() && bs[i].total_count <= 0x7fff_ffff,
            win_pred == (|b: WebsiteBucket|
                (now as int) - (lookback_hours as int) * 3600 < b.bucket <= now as int),
            cutoff as int == now - lookback_hours * 3600,
            in_win == bs.take(j as int).filter(win_pred).len(),
            down == sum_down(bs.take(j as int).filter(win_pred)),
            0 <= down <= in_win * 0x7fff_ffff,
    {
        let ghost prefix = bs.take(j as int).filter(win_pred);
        proof {
            assert(bs.take(j + 1) =~= bs.take(j as int).push(bs[j as int]));
            lemma_filter_push(bs.take(j as int), bs[j as int], win_pred);
        }
        let b = buckets[j];
        if cutoff < b.bucket && b.bucket <= now {
            proof {
                assert(win_pred(bs[j as int]));
                assert(prefix.push(bs[j as int]).drop_last() =~= prefix);
            }
            down = down + b.down_count;
            in_win = in_win + 1;
        } else {
            proof {
                assert(!win_pred(bs[j as int]));
            }
        }
    }
    proof {
        assert(bs.take(n as int) =~= bs);
    }
    down
}

/// Truncated mean of the buckets' average response times over the
/// lookback window; zero when no bucket falls in the window.
pub fn avg_response_in_window(buckets: &Vec<WebsiteBucket>, now: i64, lookback_hours: i64) -> (r:
    i64)
    requires
        0 <= lookback_hours,
        lookback_hours * 3600 <= i64::MAX,
        i64::MIN <= now - lookback_hours * 3600,
        buckets@.len() <= 0x7fff_ffff,
        forall|i: int|
            0 <= i < buckets@.len() ==> -0x8000_0000 <= (#[trigger] buckets@[i]).avg_response_time
                <= 0x7fff_ffff,
    ensures
        ({
            let win = window_buckets(buckets@, now as int, lookback_hours as int);
            if win.len() == 0 {
                r == 0
            } else {
                r == div_trunc(sum_avg(win), win.len() as int)
            }
        }),
{
    let ghost bs = buckets@;
    let ghost win_pred = |b: WebsiteBucket|
        (now as int) - (lookback_hours as int) * 3600 < b.bucket <= now as int;
    let cutoff = now - lookback_hours * 3600;
    let mut sum: i64 = 0;
    let mut in_win: i64 = 0;
    let n = buckets.len();
    proof {
        assert(bs.take(0) =~= Seq::<WebsiteBucket>::empty());
        lemma_filter_empty(win_pred);
    }
    for j in 0..n
        invariant
            n == bs.len(),
            bs == buckets@,
            bs.len() <= 0x7fff_ffff,
            forall|i: int|
                0 <= i < bs.len() ==> -0x8000_0000 <= (#[trigger] bs[i]).avg_response_time
                    <= 0x7fff_ffff,
            win_pred == (|b: WebsiteBucket|
                (now as int) - (lookback_hours as int) * 3600 < b.bucket <= now as int),
            cutoff as int == now - lookback_hours * 3600,
            in_win == bs.take(j as int).filter(win_pred).len(),
            sum == sum_avg(bs.take(j as int).filter(win_pred)),
            in_win * (-0x8000_0000) <= sum <= in_win * 0x7fff_ffff,
            0 <= in_win <= j,
    {
        let ghost prefix = bs.take(j as int).filter(win_pred);
        proof {
            assert(bs.take(j + 1) =~= bs.take(j as int).push(bs[j as int]));
            lemma_filter_push(bs.take(j as int), bs[j as int], win_pred);
        }
        let b = buckets[j];
        if cutoff < b.bucket && b.bucket <= now {
            proof {
                assert(win_pred(bs[j as int]));
                assert(prefix.push(bs[j as int]).drop_last() =~= prefix);
            }
            sum = sum + b.avg_response_time;
            in_win = in_win + 1;
        } else {
            proof {
                assert(!win_pred(bs[j as int]));
            }
        }
    }
    proof {
        assert(bs.take(n as int) =~= bs);
    }
    if in_win == 0 {
        return 0;
    }
    proof {
        lemma_div_trunc_bound(sum as int, in_win as int, -0x8000_0000, 0x7fff_ffff);
    }
    if sum >= 0 {
        (((sum as u64) / (in_win as u64)) as i64)
    } else {
        -((((-sum) as u64) / (in_win as u64)) as i64)
    }
}

/// Completeness of a bucket list: every selected tick's bucket start
/// appears among the buckets.
pub open spec fn buckets_complete(
    out: Seq<WebsiteBucket>,
    ticks: Seq<TickModel>,
    website_id: Seq<char>,
    start: int,
    end: int,
    region: Option<Seq<char>>,
    width: int,
) -> bool {
    forall|k: int|
        0 <= k < ticks.len() && tick_selected(#[trigger] ticks[k], website_id, start, end, region)
            ==> exists|i: int|
            0 <= i < out.len() && out[i].bucket == bucket_start_of(
                ticks[k].created_at as int,
                width,
            )
}

/// Everything the bucket computation guarantees of its result, as one
/// predicate: ascending distinct buckets, each aggregating exactly its
/// own ticks, every selected tick's bucket present, and no empty
/// buckets.
pub open spec fn is_bucket_list(
    out: Seq<WebsiteBucket>,
    ticks: Seq<TickModel>,
    website_id: Seq<char>,
    start: int,
    end: int,
    region: Option<Seq<char>>,
    width: int,
) -> bool {
    &&& forall|i: int, j: int| 0 <= i < j < out.len() ==> out[i].bucket < out[j].bucket
    &&& forall|i: int|
        0 <= i < out.len() ==> (#[trigger] out[i]) == bucket_for(
            ticks,
            website_id,
            start,
            end,
            region,
            width,
            out[i].bucket as int,
        )
    &&& forall|i: int| 0 <= i < out.len() ==> (#[trigger] out[i]).wf()
    &&& buckets_complete(out, ticks, website_id, start, end, region, width)
    &&& out.len() <= ticks.len()
}

/// Executable check of [`tick_selected`].
fn tick_is_selected(
    t: &WebsiteTick,
    website_id: &String,
    start: i64,
    end: i64,
    region: Option<&String>,
) -> (r: bool)
    ensures
        r == tick_selected(t@, website_id@, start as int, end as int, region.deep_view()),
{
    let site_ok = t.website_id == *website_id;
    let time_ok = start <= t.created_at && t.created_at <= end;
    let region_ok = match region {
        Some(r) => t.region_id == *r,
        None => true,
    };
    site_ok && time_ok && region_ok
}

/// Start of the bucket `ts` floors into; `ts` must not lie before the
/// epoch.
fn bucket_start(ts: i64, width: i64) -> (b: i64)
    requires
        0 <= ts,
        0 < width,
    ensures
        b == bucket_start_of(ts as int, width as int),
        0 <= b <= ts,
{
    let tsu = ts as u64;
    let wu = width as u64;
    let q = tsu / wu;
    proof {
        lemma_fundamental_div_mod(ts as int, width as int);
        lemma_mod_bound(ts as int, width as int);
        assert(q as int == (ts as int) / (width as int));
        assert((q as int) * (width as int) == (width as int) * (q as int)) by (nonlinear_arith);
        assert(0 <= (q as int) * (width as int) <= ts as int);
    }
    (q * wu) as i64
}

/// For a positive divisor, a truncated quotient of a sum lying between
/// `total * lo` and `total * hi` stays between `lo` and `hi`.
proof fn lemma_div_trunc_bound(sum: int, total: int, lo: int, hi: int)
    requires
        0 < total,
        lo <= 0 <= hi,
        total * lo <= sum <= total * hi,
    ensures
        lo <= div_trunc(sum, total) <= hi,
{
    if sum >= 0 {
        assert(hi * total == total * hi) by (nonlinear_arith);
        lemma_div_by_multiple(hi, total);
        lemma_div_is_ordered(sum, hi * total, total);
        lemma_div_pos_is_pos(sum, total);
    } else {
        assert((-lo) * total == -(total * lo)) by (nonlinear_arith);
        lemma_div_by_multiple(-lo, total);
        lemma_div_is_ordered(-sum, (-lo) * total, total);
        lemma_div_pos_is_pos(-sum, total);
    }
}

/// Aggregates the one bucket starting at `b` over the whole history.
fn bucket_stats(
    ticks: &Vec<WebsiteTick>,
    website_id: &String,
    start: i64,
    end: i64,
    region: Option<&String>,
    width: i64,
    b: i64,
) -> (r: WebsiteBucket)
    requires
        0 <= start,
        0 < width,
        ticks.deep_view().len() <= 0x7fff_ffff,
        bucket_ticks(
            ticks.deep_view(),
            website_id@,
            start as int,
            end as int,
            region.deep_view(),
            width as int,
            b as int,
        ).len() > 0,
    ensures
        r == bucket_for(
            ticks.deep_view(),
            website_id@,
            start as int,
            end as int,
            region.deep_view(),
            width as int,
            b as int,
        ),
        r.wf(),
        r.total_count <= ticks.deep_view().len(),
        -0x8000_0000 <= r.avg_response_time <= 0x7fff_ffff,
{
    let ghost all = ticks.deep_view();
    let ghost rv = region.deep_view();
    let ghost pred = |t: TickModel|
        tick_selected(t, website_id@, start as int, end as int, rv) && bucket_start_of(
            t.created_at as int,
            width as int,
        ) == b as int;
    let mut total: i64 = 0;
    let mut down: i64 = 0;
    let mut sum: i64 = 0;
    let n = ticks.len();
    proof {
        assert(all.take(0) =~= Seq::<TickModel>::empty());
        lemma_filter_empty(pred);
        lemma_filter_empty(|t: TickModel| t.status == WebsiteStatus::Down);
    }
    for j in 0..n
        invariant
            n == all.len(),
            n == ticks@.len(),
            all.len() <= 0x7fff_ffff,
            0 <= start,
            0 < width,
            pred == (|t: TickModel|
                tick_selected(t, website_id@, start as int, end as int, rv) && bucket_start_of(
                    t.created_at as int,
                    width as int,
                ) == b as int),
            all == ticks.deep_view(),
            rv == region.deep_view(),
            total == all.take(j as int).filter(pred).len(),
            down == down_ticks(all.take(j as int).filter(pred)).len(),
            sum == sum_response(all.take(j as int).filter(pred)),
            total <= j,
            down <= total,
            total * (-0x8000_0000) <= sum <= total * 0x7fff_ffff,
    {
        let ghost prefix = all.take(j as int).filter(pred);
        let selected = tick_is_selected(&ticks[j], website_id, start, end, region);
        proof {
            assert(all.take(j + 1) =~= all.take(j as int).push(all[j as int]));
            lemma_filter_push(all.take(j as int), all[j as int], pred);
        }
        if selected {
            let tb = bucket_start(ticks[j].created_at, width);
            if tb == b {
                total = total + 1;
                if matches!(ticks[j].status, WebsiteStatus::Down) {
                    down = down + 1;
                }
                sum = sum + ticks[j].response_time as i64;
                proof {
                    let t = all[j as int];
                    assert(pred(t));
                    assert(all.take(j + 1).filter(pred) == prefix.push(t));
                    lemma_filter_push(prefix, t, |t: TickModel| t.status == WebsiteStatus::Down);
                    assert(prefix.push(t).drop_last() =~= prefix);
                    assert(sum_response(prefix.push(t)) == sum_response(prefix)
                        + t.response_time);
                }
            } else {
                proof {
                    assert(!pred(all[j as int]));
                }
            }
        } else {
            proof {
                assert(!pred(all[j as int]));
            }
        }
    }
    proof {
        assert(all.take(n as int) =~= all);
        assert(total > 0);
        lemma_div_trunc_bound(sum as int, total as int, -0x8000_0000, 0x7fff_ffff);
    }
    let avg: i64 = if sum >= 0 {
        ((sum as u64) / (total as u64)) as i64
    } else {
        -((((-sum) as u64) / (total as u64)) as i64)
    };
    proof {
        let bt = all.filter(pred);
        assert(avg == div_trunc(sum_response(bt), bt.len() as int));
    }
    WebsiteBucket { bucket: b, avg_response_time: avg, down_count: down, total_count: total }
}

/// Inserts `b` into an ascending list of distinct values, keeping it
/// ascending and distinct; a value already present is left alone.
fn insert_sorted_unique(starts: &mut Vec<i64>, b: i64)
    requires
        forall|i: int, j: int|
            0 <= i < j < old(starts)@.len() ==> old(starts)@[i] < old(starts)@[j],
    ensures
        forall|i: int, j: int|
            0 <= i < j < final(starts)@.len() ==> final(starts)@[i] < final(starts)@[j],
        forall|x: i64| final(starts)@.contains(x) <==> old(starts)@.contains(x) || x == b,
        final(starts)@.len() <= old(starts)@.len() + 1,
{
    let n = starts.len();
    let mut pos: usize = 0;
    while pos < n && starts[pos] < b
        invariant
            pos <= n,
            n == starts@.len(),
            starts@ == old(starts)@,
            forall|i: int, j: int| 0 <= i < j < starts@.len() ==> starts@[i] < starts@[j],
            forall|i: int| 0 <= i < pos ==> starts@[i] < b,
        decreases n - pos,
    {
        pos = pos + 1;
    }
    if pos < n && starts[pos] == b {
        proof {
            assert(old(starts)@.contains(b));
        }
        return ;
    }
    let ghost pre = starts@;
    starts.insert(pos, b);
    proof {
        assert forall|i: int, j: int| 0 <= i < j < starts@.len() implies starts@[i]
            < starts@[j] by {
            if j < pos {
                assert(pre[i] < pre[j]);
            } else if i > pos {
                assert(pre[i - 1] < pre[j - 1]);
            } else if i == pos && j > pos {
                if pos < pre.len() {
                    assert(pre[pos as int] != b);
                    assert(b < pre[pos as int]);
                    if j > pos + 1 {
                        assert(pre[pos as int] < pre[j - 1]);
                    }
                }
            } else if j == pos && i < pos {
                assert(pre[i] < b);
            } else if i < pos && j > pos {
                assert(pre[i] < b);
                if j > pos + 1 {
                    assert(b < pre[pos as int]);
                    assert(pre[pos as int] <= pre[j - 1]);
                }
            }
        }
        assert(starts@[pos as int] == b);
        assert(starts@.contains(b));
        assert forall|x: i64| starts@.contains(x) implies pre.contains(x) || x == b by {
            let w = choose|w: int| 0 <= w < starts@.len() && starts@[w] == x;
            if w < pos {
                assert(pre[w] == x);
            } else if w > pos {
                assert(pre[w - 1] == x);
            }
        }
        assert forall|x: i64| pre.contains(x) implies starts@.contains(x) by {
            let w = choose|w: int| 0 <= w < pre.len() && pre[w] == x;
            if w < pos {
                assert(starts@[w] == x);
            } else {
                assert(starts@[w + 1] == x);
            }
        }
    }
}

/// Computes the adaptive time buckets for one site over `[start, end]`,
/// under the optional region filter: one aggregate per bucket that holds
/// at least one selected tick, in ascending bucket order; empty buckets
/// are omitted, not zero-filled.
pub fn compute_buckets(
    ticks: &Vec<WebsiteTick>,
    website_id: &String,
    start: i64,
    end: i64,
    region: Option<&String>,
    width: i64,
) -> (r: Vec<WebsiteBucket>)
    requires
        0 <= start,
        0 < width,
        ticks.deep_view().len() <= 0x7fff_ffff,
    ensures
        is_bucket_list(
            r@,
            ticks.deep_view(),
            website_id@,
            start as int,
            end as int,
            region.deep_view(),
            width as int,
        ),
        forall|i: int|
            0 <= i < r@.len() ==> (#[trigger] r@[i]).total_count <= ticks.deep_view().len()
                && -0x8000_0000 <= r@[i].avg_response_time <= 0x7fff_ffff,
{
    let ghost all = ticks.deep_view();
    let ghost rv = region.deep_view();
    let n = ticks.len();
    let mut starts: Vec<i64> = Vec::new();
    for j in 0..n
        invariant
            n == all.len(),
            n == ticks@.len(),
            all == ticks.deep_view(),
            rv == region.deep_view(),
            0 <= start,
            0 < width,
            forall|i: int, jj: int| 0 <= i < jj < starts@.len() ==> starts@[i] < starts@[jj],
            starts@.len() <= j,
            forall|x: i64|
                starts@.contains(x) ==> exists|k: int|
                    0 <= k < j && tick_selected(
                        #[trigger] all[k],
                        website_id@,
                        start as int,
                        end as int,
                        rv,
                    ) && bucket_start_of(all[k].created_at as int, width as int) == x,
            forall|k: int|
                0 <= k < j && tick_selected(
                    #[trigger] all[k],
                    website_id@,
                    start as int,
                    end as int,
                    rv,
                ) ==> starts@.contains(
                    bucket_start_of(all[k].created_at as int, width as int) as i64,
                ),
    {
        let selected = tick_is_selected(&ticks[j], website_id, start, end, region);
        if selected {
            let b = bucket_start(ticks[j].created_at, width);
            let ghost st0 = starts@;
            insert_sorted_unique(&mut starts, b);
            proof {
                assert forall|x: i64| starts@.contains(x) implies exists|k: int|
                    0 <= k < j + 1 && tick_selected(
                        #[trigger] all[k],
                        website_id@,
                        start as int,
                        end as int,
                        rv,
                    ) && bucket_start_of(all[k].created_at as int, width as int) == x by {
                    if st0.contains(x) {
                        let k = choose|k: int|
                            0 <= k < j && tick_selected(
                                #[trigger] all[k],
                                website_id@,
                                start as int,
                                end as int,
                                rv,
                            ) && bucket_start_of(all[k].created_at as int, width as int) == x;
                        assert(0 <= k < j + 1 && tick_selected(
                            all[k],
                            website_id@,
                            start as int,
                            end as int,
                            rv,
                        ) && bucket_start_of(all[k].created_at as int, width as int) == x);
                    } else {
                        assert(x == b);
                        assert(tick_selected(
                            all[j as int],
                            website_id@,
                            start as int,
                            end as int,
                            rv,
                        ) && bucket_start_of(all[j as int].created_at as int, width as int)
                            == x);
                    }
                }
                assert forall|k: int|
                    0 <= k < j + 1 && tick_selected(
                        #[trigger] all[k],
                        website_id@,
                        start as int,
                        end as int,
                        rv,
                    ) implies starts@.contains(
                    bucket_start_of(all[k].created_at as int, width as int) as i64,
                ) by {
                    if k < j {
                        assert(st0.contains(
                            bucket_start_of(all[k].created_at as int, width as int) as i64,
                        ));
                    } else {
                        assert(bucket_start_of(all[k].created_at as int, width as int) as i64
                            == b);
                    }
                }
            }
        }
    }
    let mut out: Vec<WebsiteBucket> = Vec::new();
    let m = starts.len();
    for i in 0..m
        invariant
            m == starts@.len(),
            all == ticks.deep_view(),
            rv == region.deep_view(),
            0 <= start,
            0 < width,
            all.len() <= 0x7fff_ffff,
            forall|a: int, bb: int| 0 <= a < bb < starts@.len() ==> starts@[a] < starts@[bb],
            forall|x: i64|
                starts@.contains(x) ==> exists|k: int|
                    0 <= k < all.len() && tick_selected(
                        #[trigger] all[k],
                        website_id@,
                        start as int,
                        end as int,
                        rv,
                    ) && bucket_start_of(all[k].created_at as int, width as int) == x,
            out@.len() == i,
            forall|a: int|
                0 <= a < i ==> (#[trigger] out@[a]) == bucket_for(
                    all,
                    website_id@,
                    start as int,
                    end as int,
                    rv,
                    width as int,
                    starts@[a] as int,
                ),
            forall|a: int| 0 <= a < i ==> (#[trigger] out@[a]).bucket == starts@[a],
            forall|a: int|
                0 <= a < i ==> (#[trigger] out@[a]).wf() && out@[a].total_count <= all.len()
                    && -0x8000_0000 <= out@[a].avg_response_time <= 0x7fff_ffff,
    {
        proof {
            let b = starts@[i as int];
            assert(starts@.contains(b));
            let k = choose|k: int|
                0 <= k < all.len() && tick_selected(
                    all[k],
                    website_id@,
                    start as int,
                    end as int,
                    rv,
                ) && bucket_start_of(all[k].created_at as int, width as int) == b;
            let pred = |t: TickModel|
                tick_selected(t, website_id@, start as int, end as int, rv) && bucket_start_of(
                    t.created_at as int,
                    width as int,
                ) == b as int;
            assert(pred(all[k]));
            assert(all.filter(pred).contains(all[k]));
            assert(bucket_ticks(all, website_id@, start as int, end as int, rv, width as int, b as int).len() > 0);
        }
        let wb = bucket_stats(ticks, website_id, start, end, region, width, starts[i]);
        out.push(wb);
    }
    proof {
        assert forall|k: int|
            0 <= k < all.len() && tick_selected(
                #[trigger] all[k],
                website_id@,
                start as int,
                end as int,
                rv,
            ) implies exists|i: int|
            0 <= i < out@.len() && out@[i].bucket == bucket_start_of(
                all[k].created_at as int,
                width as int,
            ) by {
            let ca = all[k].created_at as int;
            lemma_fundamental_div_mod(ca, width as int);
            lemma_mod_bound(ca, width as int);
            assert((ca / (width as int)) * (width as int) == (width as int) * (ca / (
            width as int))) by (nonlinear_arith);
            assert(0 <= bucket_start_of(ca, width as int) <= ca);
            let b = bucket_start_of(ca, width as int) as i64;
            assert(starts@.contains(b));
            let w = choose|w: int| 0 <= w < starts@.len() && starts@[w] == b;
            assert(out@[w].bucket == bucket_start_of(all[k].created_at as int, width as int));
        }
    }
    out
}

/// The ticks of one site, in stored order.
pub open spec fn site_ticks(ticks: Seq<TickModel>, website_id: Seq<char>) -> Seq<TickModel> {
    ticks.filter(|t: TickModel| t.website_id == website_id)
}

/// Index of the most recent tick: the first index holding the maximal
/// timestamp.
pub open spec fn latest_idx(s: Seq<TickModel>) -> int
    recommends
        s.len() > 0,
    decreases s.len(),
{
    if s.len() <= 1 {
        0
    } else {
        let r = latest_idx(s.drop_last());
        if s.last().created_at > s[r].created_at {
            s.len() - 1
        } else {
            r
        }
    }
}

/// Whether any tick's status differs from `st`.
pub open spec fn has_status_change(s: Seq<TickModel>, st: WebsiteStatus) -> bool {
    exists|i: int| 0 <= i < s.len() && s[i].status != st
}

/// The latest timestamp among the ticks whose status differs from `st`.
pub open spec fn latest_change_at(s: Seq<TickModel>, st: WebsiteStatus) -> int
    recommends
        has_status_change(s, st),
    decreases s.len(),
{
    if s.len() == 0 {
        0
    } else {
        let dl = s.drop_last();
        if s.last().status != st {
            if has_status_change(dl, st) {
                max(latest_change_at(dl, st), s.last().created_at as int)
            } else {
                s.last().created_at as int
            }
        } else {
            latest_change_at(dl, st)
        }
    }
}

/// The earliest timestamp among the ticks.
pub open spec fn first_tick_at(s: Seq<TickModel>) -> int
    recommends
        s.len() > 0,
    decreases s.len(),
{
    if s.len() <= 1 {
        s[0].created_at as int
    } else {
        min(first_tick_at(s.drop_last()), s.last().created_at as int)
    }
}

/// When the current streak began: the timestamp of the most recent tick
/// whose status differs from the current one, or of the very first tick
/// when no status change ever occurred.
pub open spec fn spec_streak_start(s: Seq<TickModel>) -> int
    recommends
        s.len() > 0,
{
    let cur = s[latest_idx(s)].status;
    if has_status_change(s, cur) {
        latest_change_at(s, cur)
    } else {
        first_tick_at(s)
    }
}

/// `a - b` clamped into the `i64` range.
pub open spec fn sat_sub_i64(a: int, b: int) -> int {
    if a - b > i64::MAX {
        i64::MAX as int
    } else if a - b < i64::MIN {
        i64::MIN as int
    } else {
        a - b
    }
}

/// The streak a nonempty tick history shows at time `now`.
pub open spec fn spec_streak(s: Seq<TickModel>, now: int) -> Streak
    recommends
        s.len() > 0,
{
    let cur = s[latest_idx(s)].status;
    let since = spec_streak_start(s);
    Streak { direction: cur, since: since as i64, duration: sat_sub_i64(now, since) as i64 }
}

/// Computes the site's current streak as of `now`: the direction of the
/// most recent tick, when that status began to hold uninterrupted, and
/// for how many seconds it has held. A site with no ticks has no streak.
pub fn current_streak_at(ticks: &Vec<WebsiteTick>, website_id: &String, now: i64) -> (r: Option<
    Streak,
>)
    ensures
        r is Some <==> site_ticks(ticks.deep_view(), website_id@).len() > 0,
        r is Some ==> r->0 == spec_streak(site_ticks(ticks.deep_view(), website_id@), now as int),
{
    let ghost all = ticks.deep_view();
    let ghost pred = |t: TickModel| t.website_id == website_id@;
    let n = ticks.len();
    let mut best: Option<(WebsiteStatus, i64)> = None;
    proof {
        assert(all.take(0) =~= Seq::<TickModel>::empty());
        lemma_filter_empty(pred);
    }
    for j in 0..n
        invariant
            n == all.len(),
            all == ticks.deep_view(),
            pred == (|t: TickModel| t.website_id == website_id@),
            ({
                let f = all.take(j as int).filter(pred);
                match best {
                    None => f.len() == 0,
                    Some((st, ca)) => f.len() > 0 && 0 <= latest_idx(f) < f.len() && st
                        == f[latest_idx(f)].status && ca == f[latest_idx(f)].created_at,
                }
            }),
    {
        let ghost f = all.take(j as int).filter(pred);
        proof {
            assert(all.take(j + 1) =~= all.take(j as int).push(all[j as int]));
            lemma_filter_push(all.take(j as int), all[j as int], pred);
        }
        let matches_site = ticks[j].website_id == *website_id;
        if matches_site {
            let ghost g = f.push(all[j as int]);
            proof {
                assert(g.drop_last() =~= f);
            }
            let st = ticks[j].status;
            let ca = ticks[j].created_at;
            best = match best {
                None => Some((st, ca)),
                Some((bst, bca)) => {
                    if ca > bca {
                        Some((st, ca))
                    } else {
                        Some((bst, bca))
                    }
                },
            };
        } else {
            proof {
                assert(!pred(all[j as int]));
            }
        }
    }
    proof {
        assert(all.take(n as int) =~= all);
    }
    let (cur, _latest_ca) = match best {
        None => {
            return None;
        },
        Some(b) => b,
    };
    let ghost site = all.filter(pred);
    // second pass: latest different-status timestamp and earliest timestamp
    let mut change: Option<i64> = None;
    let mut first: Option<i64> = None;
    proof {
        assert(all.take(0) =~= Seq::<TickModel>::empty());
        lemma_filter_empty(pred);
    }
    for j in 0..n
        invariant
            n == all.len(),
            all == ticks.deep_view(),
            pred == (|t: TickModel| t.website_id == website_id@),
            ({
                let f = all.take(j as int).filter(pred);
                &&& (match change {
                    None => !has_status_change(f, cur),
                    Some(c) => has_status_change(f, cur) && c == latest_change_at(f, cur),
                })
                &&& (match first {
                    None => f.len() == 0,
                    Some(m) => f.len() > 0 && m == first_tick_at(f),
                })
            }),
    {
        let ghost f = all.take(j as int).filter(pred);
        proof {
            assert(all.take(j + 1) =~= all.take(j as int).push(all[j as int]));
            lemma_filter_push(all.take(j as int), all[j as int], pred);
        }
        let matches_site = ticks[j].website_id == *website_id;
        if matches_site {
            let ghost g = f.push(all[j as int]);
            proof {
                assert(g.drop_last() =~= f);
                assert forall|i: int| 0 <= i < f.len() implies g[i] == f[i] by {}
                if has_status_change(f, cur) {
                    let w = choose|i: int| 0 <= i < f.len() && f[i].status != cur;
                    assert(g[w].status != cur);
                }
            }
            let ca = ticks[j].created_at;
            if !status_eq(ticks[j].status, cur) {
                proof {
                    assert(g[g.len() - 1].status != cur);
                    assert(has_status_change(g, cur));
                }
                change = match change {
                    None => Some(ca),
                    Some(c) => {
                        if ca > c {
                            Some(ca)
                        } else {
                            Some(c)
                        }
                    },
                };
            } else {
                proof {
                    if has_status_change(g, cur) {
                        let w = choose|i: int| 0 <= i < g.len() && g[i].status != cur;
                        assert(w < f.len());
                        assert(f[w].status != cur);
                    }
                }
            }
            first = match first {
                None => Some(ca),
                Some(m) => {
                    if ca < m {
                        Some(ca)
                    } else {
                        Some(m)
                    }
                },
            };
        } else {
            proof {
                assert(!pred(all[j as int]));
            }
        }
    }
    proof {
        assert(all.take(n as int) =~= all);
    }
    let since = match change {
        Some(c) => c,
        None => match first {
            Some(m) => m,
            None => {
                proof {
                    assert(false);
                }
                0
            },
        },
    };
    let duration = match now.checked_sub(since) {
        Some(d) => d,
        None => {
            if since < 0 {
                i64::MAX
            } else {
                i64::MIN
            }
        },
    };
    Some(Streak { direction: cur, since, duration })
}

/// Executable equality of two statuses.
fn status_eq(a: WebsiteStatus, b: WebsiteStatus) -> (r: bool)
    ensures
        r == (a == b),
{
    match (a, b) {
        (WebsiteStatus::Up, WebsiteStatus::Up) => true,
        (WebsiteStatus::Down, WebsiteStatus::Down) => true,
        _ => false,
    }
}

} // verus!
