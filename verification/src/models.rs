//! The rows the result store holds and the values that flow between the
//! pipeline's components.
//!
//! Timestamps are seconds since the Unix epoch, response times are
//! milliseconds.

use vstd::prelude::*;

verus! {

/// Outcome of one probe: the site answered (`Up`) or it did not (`Down`).
#[derive(Clone, Copy, Debug, PartialEq, Eq, Structural)]
pub enum WebsiteStatus {
    Up,
    Down,
}

impl WebsiteStatus {
    /// The label under which the status is stored, as the store's schema
    /// spells it.
    pub fn to_sql(&self) -> (r: &'static str)
        ensures
            *self == WebsiteStatus::Up ==> r@ == "UP"@,
            *self == WebsiteStatus::Down ==> r@ == "DOWN"@,
    {
        match *self {
            WebsiteStatus::Up => "UP",
            WebsiteStatus::Down => "DOWN",
        }
    }

    /// The lowercase label under which the status is presented.
    pub fn to_lowercase(&self) -> (r: String)
        ensures
            *self == WebsiteStatus::Up ==> r@ == "up"@,
            *self == WebsiteStatus::Down ==> r@ == "down"@,
    {
        match *self {
            WebsiteStatus::Up => "up".to_owned(),
            WebsiteStatus::Down => "down".to_owned(),
        }
    }

    /// Reads a status back from its stored label; any other label is
    /// rejected.
    pub fn from_sql(label: &str) -> (r: Option<WebsiteStatus>)
        ensures
            label@ == "UP"@ ==> r == Some(WebsiteStatus::Up),
            label@ == "DOWN"@ ==> r == Some(WebsiteStatus::Down),
            label@ != "UP"@ && label@ != "DOWN"@ ==> r is None,
    {
        proof {
            reveal_strlit("UP");
            reveal_strlit("DOWN");
            assert("UP"@.len() == 2);
            assert("DOWN"@.len() == 4);
        }
        let up: String = "UP".to_owned();
        let down: String = "DOWN".to_owned();
        let owned: String = label.to_owned();
        if owned == up {
            Some(WebsiteStatus::Up)
        } else if owned == down {
            Some(WebsiteStatus::Down)
        } else {
            None
        }
    }
}

/// The lowercase label of a status, as presented to callers.
pub open spec fn spec_status_label(s: WebsiteStatus) -> Seq<char> {
    if s == WebsiteStatus::Up {
        "up"@
    } else {
        "down"@
    }
}

/// A monitored site: the source of truth for what the scheduler enqueues.
#[derive(Debug)]
pub struct Website {
    pub id: String,
    pub url: String,
    pub time_added: i64,
    pub user_id: String,
}

/// Mathematical value of a [`Website`].
#[verifier::ext_equal]
pub struct WebsiteModel {
    pub id: Seq<char>,
    pub url: Seq<char>,
    pub time_added: i64,
    pub user_id: Seq<char>,
}

impl View for Website {
    type V = WebsiteModel;

    open spec fn view(&self) -> WebsiteModel {
        WebsiteModel {
            id: self.id@,
            url: self.url@,
            time_added: self.time_added,
            user_id: self.user_id@,
        }
    }
}

impl DeepView for Website {
    type V = WebsiteModel;

    open spec fn deep_view(&self) -> WebsiteModel {
        self.view()
    }
}

/// One persisted outcome of a single probe of one site from one region:
/// immutable, append-only history and the sole input to analytics.
#[derive(Debug)]
pub struct WebsiteTick {
    pub id: String,
    pub response_time: i32,
    pub status: WebsiteStatus,
    pub region_id: String,
    pub website_id: String,
    pub created_at: i64,
}

/// Mathematical value of a [`WebsiteTick`].
#[verifier::ext_equal]
pub struct TickModel {
    pub id: Seq<char>,
    pub response_time: i32,
    pub status: WebsiteStatus,
    pub region_id: Seq<char>,
    pub website_id: Seq<char>,
    pub created_at: i64,
}

impl View for WebsiteTick {
    type V = TickModel;

    open spec fn view(&self) -> TickModel {
        TickModel {
            id: self.id@,
            response_time: self.response_time,
            status: self.status,
            region_id: self.region_id@,
            website_id: self.website_id@,
            created_at: self.created_at,
        }
    }
}

impl DeepView for WebsiteTick {
    type V = TickModel;

    open spec fn deep_view(&self) -> TickModel {
        self.view()
    }
}

/// The uninterrupted duration of a site's current status: its direction,
/// when it began, and how long it has held as of the asking time.
#[derive(Clone, Copy, Debug, PartialEq, Eq, Structural)]
pub struct Streak {
    pub direction: WebsiteStatus,
    pub since: i64,
    pub duration: i64,
}

/// A worker's in-flight probe outcome, before it is persisted as a tick.
#[derive(Debug)]
pub struct CheckResult {
    pub site_id: String,
    pub region_id: String,
    pub status: WebsiteStatus,
    pub response_time_ms: i32,
}

/// Mathematical value of a [`CheckResult`].
#[verifier::ext_equal]
pub struct CheckResultModel {
    pub site_id: Seq<char>,
    pub region_id: Seq<char>,
    pub status: WebsiteStatus,
    pub response_time_ms: i32,
}

impl View for CheckResult {
    type V = CheckResultModel;

    open spec fn view(&self) -> CheckResultModel {
        CheckResultModel {
            site_id: self.site_id@,
            region_id: self.region_id@,
            status: self.status,
            response_time_ms: self.response_time_ms,
        }
    }
}

impl DeepView for CheckResult {
    type V = CheckResultModel;

    open spec fn deep_view(&self) -> CheckResultModel {
        self.view()
    }
}

/// One time bucket of aggregated ticks, recomputed on every analytics
/// read and never persisted. `avg_response_time` is the truncated integer
/// mean over the bucket's ticks.
#[derive(Clone, Copy, Debug, PartialEq, Eq, Structural)]
pub struct WebsiteBucket {
    pub bucket: i64,
    pub avg_response_time: i64,
    pub down_count: i64,
    pub total_count: i64,
}

impl WebsiteBucket {
    /// Every bucket the analytics layer hands out aggregates at least one
    /// tick, and counts down ticks among all of its ticks.
    pub open spec fn wf(self) -> bool {
        0 < self.total_count && 0 <= self.down_count <= self.total_count
    }
}

} // verus!
