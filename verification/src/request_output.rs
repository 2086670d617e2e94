//! Bodies of the responses the core hands back to the presentation
//! layer. Percentages are integers in hundredths of a percent and
//! timestamps are seconds since the Unix epoch; the layer that renders
//! them formats as it pleases.

use vstd::prelude::*;

verus! {

/// Response to a site registration: the fresh site id.
#[derive(Debug)]
pub struct CreateWebsiteOutput {
    pub id: String,
}

/// Response to an account creation: the fresh user id.
#[derive(Debug)]
pub struct CreateUserOutput {
    pub id: String,
}

/// Response to a signin: the session token.
#[derive(Debug)]
pub struct SignInOutput {
    pub jwt: String,
}

/// One recent probe outcome, as shown in a site's activity table.
#[derive(Debug)]
pub struct TickInfo {
    pub status: String,
    pub response_time: i32,
    pub created_at: i64,
    pub region_id: String,
}

/// Mathematical value of a [`TickInfo`].
#[verifier::ext_equal]
pub struct TickInfoModel {
    pub status: Seq<char>,
    pub response_time: i32,
    pub created_at: i64,
    pub region_id: Seq<char>,
}

impl View for TickInfo {
    type V = TickInfoModel;

    open spec fn view(&self) -> TickInfoModel {
        TickInfoModel {
            status: self.status@,
            response_time: self.response_time,
            created_at: self.created_at,
            region_id: self.region_id@,
        }
    }
}

impl DeepView for TickInfo {
    type V = TickInfoModel;

    open spec fn deep_view(&self) -> TickInfoModel {
        self.view()
    }
}

/// A site's rolling statistics. Uptimes are hundredths of a percent,
/// and a lookback with no data reports full uptime: no data is treated
/// as no incident, not as unknown.
#[derive(Clone, Copy, Debug, PartialEq, Eq, Structural)]
pub struct WebsiteStats {
    pub uptime_24h: u64,
    pub uptime_7d: Option<u64>,
    pub uptime_30d: Option<u64>,
    pub incidents_24h: i64,
    pub avg_response_time_24h: i64,
}

/// One point of a site's response-time graph.
#[derive(Clone, Copy, Debug, PartialEq, Eq, Structural)]
pub struct WebsiteBucket {
    pub bucket: i64,
    pub avg_response_time: i64,
    pub down_count: i64,
}

/// Response to a site-details request: the site's row, its recent
/// ticks, rolling statistics, graph data over the requested window, and
/// current streak in seconds.
#[derive(Debug)]
pub struct GetWebsiteOutput {
    pub url: String,
    pub id: String,
    pub user_id: String,
    pub recent_ticks: Vec<TickInfo>,
    pub stats: WebsiteStats,
    pub graph_data: Vec<WebsiteBucket>,
    pub streak: Option<i64>,
    pub created_at: i64,
}

/// One site of a site-list response, with its latest probe outcome.
#[derive(Debug)]
pub struct WebsiteInfo {
    pub id: String,
    pub url: String,
    pub status: String,
    pub last_check: Option<i64>,
    pub response_time: Option<i32>,
    pub region_id: Option<String>,
    pub streak: Option<i64>,
}

/// Mathematical value of a [`WebsiteInfo`].
#[verifier::ext_equal]
pub struct WebsiteInfoModel {
    pub id: Seq<char>,
    pub url: Seq<char>,
    pub status: Seq<char>,
    pub last_check: Option<i64>,
    pub response_time: Option<i32>,
    pub region_id: Option<Seq<char>>,
    pub streak: Option<i64>,
}

impl View for WebsiteInfo {
    type V = WebsiteInfoModel;

    open spec fn view(&self) -> WebsiteInfoModel {
        WebsiteInfoModel {
            id: self.id@,
            url: self.url@,
            status: self.status@,
            last_check: self.last_check,
            response_time: self.response_time,
            region_id: match self.region_id {
                Some(r) => Some(r@),
                None => None,
            },
            streak: self.streak,
        }
    }
}

impl DeepView for WebsiteInfo {
    type V = WebsiteInfoModel;

    open spec fn deep_view(&self) -> WebsiteInfoModel {
        self.view()
    }
}

/// Response to a site-list request.
#[derive(Debug)]
pub struct GetWebsitesOutput {
    pub websites: Vec<WebsiteInfo>,
}

} // verus!
