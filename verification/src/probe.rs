//! The probe protocol a worker runs against one site: normalize the url,
//! issue HTTP GET attempts with a fixed per-attempt timeout, classify the
//! response, and retry transport-level failures a bounded number of times
//! before reporting the site down.
//!
//! The HTTP attempts themselves are I/O and live outside the library; the
//! decisions between attempts are the state machine below.

use crate::models::WebsiteStatus;
use vstd::prelude::*;

verus! {

use vstd::string::StrSliceExecFns;
use vstd::string::StringExecFns;

/// How a worker probes: how many attempts in all, the per-attempt
/// timeout, and the delay between attempts.
#[derive(Clone, Copy, Debug, PartialEq, Eq, Structural)]
pub struct ProbeConfig {
    pub max_attempts: u32,
    pub timeout_secs: u64,
    pub retry_delay_ms: u64,
}

impl ProbeConfig {
    pub open spec fn wf(self) -> bool {
        self.max_attempts >= 1
    }

    /// The production defaults: three attempts in all, a ten-second
    /// per-attempt timeout, half a second between attempts.
    pub fn new_default() -> (c: ProbeConfig)
        ensures
            c == (ProbeConfig { max_attempts: 3u32, timeout_secs: 10u64, retry_delay_ms: 500u64 }),
            c.wf(),
    {
        ProbeConfig { max_attempts: 3, timeout_secs: 10, retry_delay_ms: 500 }
    }
}

/// What one HTTP attempt produced: a response with its status code, or a
/// transport-level error (no HTTP response at all).
#[derive(Clone, Copy, Debug, PartialEq, Eq, Structural)]
pub enum ProbeEvent {
    Response { status_code: u16 },
    TransportError,
}

/// What the worker does after an attempt: wait and try again, or finish
/// with a classification.
#[derive(Clone, Copy, Debug, PartialEq, Eq, Structural)]
pub enum ProbeAction {
    Retry { delay_ms: u64 },
    Finish { status: WebsiteStatus },
}

/// The probe's progress: how many attempts have completed.
#[derive(Clone, Copy, Debug, PartialEq, Eq, Structural)]
pub struct ProbeState {
    pub attempts_made: u32,
}

impl ProbeState {
    /// Before the first attempt.
    pub fn start() -> (s: ProbeState)
        ensures
            s.attempts_made == 0,
    {
        ProbeState { attempts_made: 0 }
    }
}

/// Success is any 2xx or 3xx status; every other status is a failure.
pub open spec fn spec_classify(status_code: u16) -> WebsiteStatus {
    if 200 <= status_code < 400 {
        WebsiteStatus::Up
    } else {
        WebsiteStatus::Down
    }
}

/// Classifies an HTTP status code.
pub fn classify_status_code(status_code: u16) -> (s: WebsiteStatus)
    ensures
        s == spec_classify(status_code),
{
    if 200 <= status_code && status_code < 400 {
        WebsiteStatus::Up
    } else {
        WebsiteStatus::Down
    }
}

/// The decision after one attempt: any HTTP response ends the probe with
/// its classification; a transport error asks for a retry until the
/// configured number of attempts is exhausted, and only then reports the
/// site down.
pub open spec fn spec_probe_step(cfg: ProbeConfig, st: ProbeState, ev: ProbeEvent) -> (
    ProbeState,
    ProbeAction,
) {
    match ev {
        ProbeEvent::Response { status_code } => (
            ProbeState { attempts_made: (st.attempts_made + 1) as u32 },
            ProbeAction::Finish { status: spec_classify(status_code) },
        ),
        ProbeEvent::TransportError => {
            let made = ProbeState { attempts_made: (st.attempts_made + 1) as u32 };
            if st.attempts_made + 1 < cfg.max_attempts {
                (made, ProbeAction::Retry { delay_ms: cfg.retry_delay_ms })
            } else {
                (made, ProbeAction::Finish { status: WebsiteStatus::Down })
            }
        },
    }
}

/// Advances the probe by one attempt's outcome.
pub fn probe_step(cfg: &ProbeConfig, st: ProbeState, ev: ProbeEvent) -> (r: (ProbeState, ProbeAction))
    requires
        st.attempts_made < cfg.max_attempts,
    ensures
        r == spec_probe_step(*cfg, st, ev),
{
    let next = ProbeState { attempts_made: st.attempts_made + 1 };
    match ev {
        ProbeEvent::Response { status_code } => (
            next,
            ProbeAction::Finish { status: classify_status_code(status_code) },
        ),
        ProbeEvent::TransportError => {
            if next.attempts_made < cfg.max_attempts {
                (next, ProbeAction::Retry { delay_ms: cfg.retry_delay_ms })
            } else {
                (next, ProbeAction::Finish { status: WebsiteStatus::Down })
            }
        },
    }
}

/// Against a host that never answers, the probe reaches the `Down`
/// classification after exactly the configured number of attempts: the
/// first `max_attempts - 1` transport errors each ask for a retry, never
/// finishing, and the `max_attempts`-th finishes with `Down`.
pub proof fn lemma_retry_bound(cfg: ProbeConfig, k: int)
    requires
        cfg.wf(),
        0 <= k < cfg.max_attempts,
    ensures
        ({
            let (st2, act) = spec_probe_step(
                cfg,
                ProbeState { attempts_made: k as u32 },
                ProbeEvent::TransportError,
            );
            &&& st2.attempts_made == k + 1
            &&& k + 1 < cfg.max_attempts ==> act == (ProbeAction::Retry {
                delay_ms: cfg.retry_delay_ms,
            })
            &&& k + 1 == cfg.max_attempts ==> act == (ProbeAction::Finish {
                status: WebsiteStatus::Down,
            })
            &&& k + 1 < cfg.max_attempts ==> !(act is Finish)
        }),
{
}

/// The name stands for what `str::trim` returns: the characters with
/// leading and trailing whitespace removed.
pub uninterp spec fn trim_of(s: Seq<char>) -> Seq<char>;

/// Relies on str::trim: removes leading and trailing whitespace; the
/// result depends on the characters alone.
#[verifier::external_body]
fn trim_str(s: &str) -> (r: &str)
    ensures
        r@ == trim_of(s@),
{
    s.trim()
}

/// The name stands for what `str::to_lowercase` returns.
pub uninterp spec fn lower_of(s: Seq<char>) -> Seq<char>;

/// Relies on str::to_lowercase: the result depends on the characters
/// alone.
#[verifier::external_body]
fn lowercase(s: &str) -> (r: String)
    ensures
        r@ == lower_of(s@),
{
    s.to_lowercase()
}

/// Whether `p` is a prefix of `s`.
pub open spec fn spec_has_prefix(s: Seq<char>, p: Seq<char>) -> bool {
    p.len() <= s.len() && s.subrange(0, p.len() as int) == p
}

/// Executable prefix test.
pub fn has_prefix(s: &str, p: &str) -> (r: bool)
    ensures
        r == spec_has_prefix(s@, p@),
{
    let sn = s.unicode_len();
    let pn = p.unicode_len();
    if pn > sn {
        return false;
    }
    for i in 0..pn
        invariant
            pn == p@.len(),
            pn <= sn == s@.len(),
            forall|k: int| 0 <= k < i ==> s@[k] == p@[k],
    {
        if s.get_char(i) != p.get_char(i) {
            proof {
                assert(s@.subrange(0, p@.len() as int)[i as int] != p@[i as int]);
            }
            return false;
        }
    }
    proof {
        assert(s@.subrange(0, p@.len() as int) =~= p@);
    }
    true
}

/// A url as the worker probes it: trimmed, lower-cased, and prefixed
/// with `https://` when no scheme is given.
pub open spec fn spec_normalized_url(s: Seq<char>) -> Seq<char> {
    let t = lower_of(trim_of(s));
    if spec_has_prefix(t, "http://"@) || spec_has_prefix(t, "https://"@) {
        t
    } else {
        "https://"@ + t
    }
}

/// Normalizes a url before probing it.
pub fn normalize_url(url: &str) -> (r: String)
    ensures
        r@ == spec_normalized_url(url@),
{
    let trimmed = trim_str(url);
    let lowered = lowercase(trimmed);
    if has_prefix(lowered.as_str(), "http://") || has_prefix(lowered.as_str(), "https://") {
        lowered
    } else {
        let mut out: String = "https://".to_owned();
        out.append(lowered.as_str());
        out
    }
}

} // verus!
