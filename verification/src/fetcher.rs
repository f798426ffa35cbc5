//! How pages are fetched: the request headers, and what each attempt's outcome
//! leads to -- read the body, wait and retry, or give up with which error.
//!
//! The HTTP client that sends the requests, and the loop that sleeps between
//! attempts, run outside this library and follow these decisions.
use vstd::prelude::*;
use rand::Rng;
use vstd::utf8::encode_utf8;

use crate::error::{Error, ErrorView};
use crate::text::{blank, concat_texts, is_blank, parse_u64, parsed_u64};

verus! {

/// Identifies this crawler, with somewhere to complain to.
///
/// It used to rotate spoofed desktop and mobile browser strings. That is not a
/// neutral default: planephd.com/robots.txt refuses a list of named agents and
/// allows `User-agent: *` on the specification detail pages this crawler reads.
/// Claiming to be a browser takes that choice away from the operator and evades
/// a policy that, read honestly, permits the fetch. An identifying agent keeps
/// the permission and gives them a way to withdraw it.
///
/// Override with `SCRAPER_USER_AGENT` and put a real contact address in it.
pub const DEFAULT_USER_AGENT: &'static str = "plane-phd-scraper/0.1 (+https://github.com/rsstdd/plane-scraper)";

/// The `Accept` header every request carries.
pub const ACCEPT_VALUE: &'static str = "text/html,application/xhtml+xml,application/xml;q=0.9,*/*;q=0.8";

/// The `Accept-Language` header every request carries.
pub const ACCEPT_LANGUAGE_VALUE: &'static str = "en-US,en;q=0.9";

/// The `Connection` header every request carries.
pub const CONNECTION_VALUE: &'static str = "keep-alive";

/// Settings of the fetcher. Durations are whole seconds.
pub struct FetcherConfig {
    pub user_agent: String,
    pub timeout_secs: u64,
    pub bearer_token: Option<String>,
    pub max_retries: usize,
    pub base_retry_delay_secs: u64,
    pub max_retry_delay_secs: u64,
}

/// How many attempts a configuration allows: one more than its retries.
pub open spec fn max_attempts_of(max_retries: usize) -> usize {
    if max_retries == usize::MAX {
        usize::MAX
    } else {
        (max_retries + 1) as usize
    }
}

/// Two to the power `e`.
pub open spec fn two_to(e: nat) -> nat
    decreases e,
{
    if e == 0 {
        1
    } else {
        2 * two_to((e - 1) as nat)
    }
}

proof fn lemma_two_to_small(k: nat)
    requires
        k <= 5,
    ensures
        two_to(k) <= 32,
{
    reveal_with_fuel(two_to, 6);
}

/// The backoff before the retry that follows attempt `attempt` (counting from
/// one), jitter excluded: the base delay doubled once per earlier attempt, at
/// most six times, saturating, and capped at the maximum delay.
pub open spec fn backoff_secs(base: u64, max: u64, attempt: usize) -> u64 {
    let exponent: nat = if attempt <= 1 {
        0
    } else if attempt - 1 > 6 {
        6
    } else {
        (attempt - 1) as nat
    };
    let scaled = base * two_to(exponent);
    let saturated: u64 = if scaled > u64::MAX {
        u64::MAX
    } else {
        scaled as u64
    };
    if saturated < max {
        saturated
    } else {
        max
    }
}

/// The bytes a header value may hold: visible ASCII, any byte from 128 up, and
/// the tab.
pub open spec fn header_byte_ok(b: u8) -> bool {
    (b >= 32 && b != 127) || b == 9
}

/// Every byte of the UTF-8 encoding of `value` may stand in a header value.
pub open spec fn header_value_ok(value: Seq<char>) -> bool {
    forall|i: int|
        0 <= i < encode_utf8(value).len() ==> header_byte_ok(#[trigger] encode_utf8(value)[i])
}

/// `reqwest::header::HeaderValue::from_str`: it accepts `value` exactly when
/// every byte is at least 32 and not 127, or is a tab, and its error displays
/// as "failed to parse header value". The header value it builds is not kept.
#[verifier::external_body]
fn header_value_error(value: &str) -> (r: Option<String>)
    ensures
        r is None <==> header_value_ok(value@),
        r matches Some(m) ==> m@ == "failed to parse header value"@,
{
    match reqwest::header::HeaderValue::from_str(value) {
        Ok(_) => None,
        Err(err) => Some(err.to_string()),
    }
}

/// `rand::Rng::random_range(0..=1)` on the thread's generator: a random whole
/// number of seconds, zero or one.
#[verifier::external_body]
fn random_jitter() -> (r: u64)
    ensures
        r <= 1,
{
    rand::rng().random_range(0..=1)
}

/// What follows one attempt at a fetch.
#[derive(Debug)]
pub enum FetchStep {
    /// The response is good: read its body.
    ReadBody,
    /// Wait this many seconds, then try again.
    Retry { delay_secs: u64 },
    /// Give up with this error.
    Fail(Error),
}

/// A [`FetchStep`] with its error viewed.
pub enum FetchStepView {
    ReadBody,
    Retry { delay_secs: u64 },
    Fail(ErrorView),
}

impl View for FetchStep {
    type V = FetchStepView;

    open spec fn view(&self) -> FetchStepView {
        match self {
            FetchStep::ReadBody => FetchStepView::ReadBody,
            FetchStep::Retry { delay_secs } => FetchStepView::Retry { delay_secs: *delay_secs },
            FetchStep::Fail(e) => FetchStepView::Fail(e@),
        }
    }
}

/// The headers every request carries, as `(name, value)` pairs.
pub open spec fn default_header_pairs(config: FetcherConfig) -> Seq<(Seq<char>, Seq<char>)> {
    let base = seq![
        ("user-agent"@, config.user_agent@),
        ("accept"@, ACCEPT_VALUE@),
        ("accept-language"@, ACCEPT_LANGUAGE_VALUE@),
        ("connection"@, CONNECTION_VALUE@),
    ];
    match config.bearer_token {
        Some(token) => base.push(("authorization"@, "Bearer "@ + token@)),
        None => base,
    }
}

/// The view of an optional text.
pub open spec fn optional_text(value: Option<&str>) -> Option<Seq<char>> {
    match value {
        Some(v) => Some(v@),
        None => None,
    }
}

/// The views of `(name, value)` string pairs.
pub open spec fn pair_views(pairs: Seq<(String, String)>) -> Seq<(Seq<char>, Seq<char>)> {
    pairs.map_values(|p: (String, String)| (p.0@, p.1@))
}

impl FetcherConfig {
    /// After a failed send at `attempt`, the fetch waits a backoff and tries
    /// again: the failure is transient and attempts remain.
    pub open spec fn retries_after_send(self, attempt: usize, retryable: bool) -> bool {
        attempt < max_attempts_of(self.max_retries) && retryable
    }

    /// After a response with `status` at `attempt`, the fetch waits a backoff
    /// and tries again: attempts remain, and the status is a 5xx, or a 429
    /// whose `Retry-After` (if any) is not a whole number of seconds.
    pub open spec fn waits_backoff_after_status(
        self,
        attempt: usize,
        status: u16,
        retry_after: Option<Seq<char>>,
    ) -> bool {
        &&& attempt < max_attempts_of(self.max_retries)
        &&& (500 <= status < 600 || (status == 429 && match retry_after {
            Some(v) => parsed_u64(v) is None,
            None => true,
        }))
    }

    /// The step after the request itself failed, before any status came back.
    pub open spec fn send_failure_step(
        self,
        attempt: usize,
        retryable: bool,
        message: Seq<char>,
        jitter: u64,
    ) -> FetchStepView {
        if attempt >= max_attempts_of(self.max_retries) || !retryable {
            FetchStepView::Fail(ErrorView::Reqwest(message))
        } else {
            FetchStepView::Retry {
                delay_secs: (backoff_secs(
                    self.base_retry_delay_secs,
                    self.max_retry_delay_secs,
                    attempt,
                ) + jitter) as u64,
            }
        }
    }

    /// The step after a response came back with `status`, and with
    /// `retry_after` as its `Retry-After` header when it had a readable one.
    pub open spec fn status_step(
        self,
        url: Seq<char>,
        attempt: usize,
        status: u16,
        retry_after: Option<Seq<char>>,
        jitter: u64,
    ) -> FetchStepView {
        let max = max_attempts_of(self.max_retries);
        let backoff = (backoff_secs(self.base_retry_delay_secs, self.max_retry_delay_secs, attempt)
            + jitter) as u64;
        if status == 200 {
            FetchStepView::ReadBody
        } else if status == 429 {
            if attempt >= max {
                FetchStepView::Fail(ErrorView::RateLimited { url, attempts: attempt })
            } else {
                let asked = match retry_after {
                    Some(v) => parsed_u64(v),
                    None => None,
                };
                let delay = match asked {
                    Some(secs) => secs,
                    None => backoff,
                };
                FetchStepView::Retry {
                    delay_secs: if delay < self.max_retry_delay_secs {
                        delay
                    } else {
                        self.max_retry_delay_secs
                    },
                }
            }
        } else if 500 <= status < 600 {
            if attempt >= max {
                FetchStepView::Fail(ErrorView::HttpStatus { url, status })
            } else {
                FetchStepView::Retry { delay_secs: backoff }
            }
        } else if status == 404 {
            FetchStepView::Fail(ErrorView::AircraftNotFound { url })
        } else {
            FetchStepView::Fail(ErrorView::HttpStatus { url, status })
        }
    }

    /// The settings read from the environment: `user_agent` from
    /// `SCRAPER_USER_AGENT` and `bearer_token` from `ACCESS_TOKEN`, each `None`
    /// when unset; a 15 s timeout; three retries waiting 2 s doubling to 30 s.
    pub fn from_settings(user_agent: Option<String>, bearer_token: Option<String>) -> (r: Self)
        ensures
            r.user_agent@ == (match user_agent {
                Some(ua) => ua@,
                None => DEFAULT_USER_AGENT@,
            }),
            r.bearer_token == bearer_token,
            r.timeout_secs == 15,
            r.max_retries == 3,
            r.base_retry_delay_secs == 2,
            r.max_retry_delay_secs == 30,
    {
        let user_agent = match user_agent {
            Some(ua) => ua,
            None => DEFAULT_USER_AGENT.to_owned(),
        };
        FetcherConfig {
            user_agent,
            timeout_secs: 15,
            bearer_token,
            max_retries: 3,
            base_retry_delay_secs: 2,
            max_retry_delay_secs: 30,
        }
    }

    /// The number of attempts a fetch may make.
    pub fn max_attempts(&self) -> (r: usize)
        ensures
            r == max_attempts_of(self.max_retries),
    {
        if self.max_retries == usize::MAX {
            usize::MAX
        } else {
            self.max_retries + 1
        }
    }

    /// The headers every request carries, as `(name, value)` pairs, or the
    /// error of the first value that cannot stand in a header.
    pub fn default_headers(&self) -> (r: Result<Vec<(String, String)>, Error>)
        ensures
            match r {
                Ok(pairs) => {
                    &&& header_value_ok(self.user_agent@)
                    &&& (self.bearer_token matches Some(t) ==> header_value_ok("Bearer "@ + t@))
                    &&& pair_views(pairs@) == default_header_pairs(*self)
                },
                Err(e) => if !header_value_ok(self.user_agent@) {
                    e@ == ErrorView::Internal(
                        "invalid user-agent header: "@ + "failed to parse header value"@,
                    )
                } else {
                    &&& self.bearer_token matches Some(t)
                    &&& !header_value_ok("Bearer "@ + t@)
                    &&& e@ == ErrorView::Internal(
                        "invalid authorization header: "@ + "failed to parse header value"@,
                    )
                },
            },
    {
        if let Some(reason) = header_value_error(self.user_agent.as_str()) {
            return Err(Error::Internal(concat_texts("invalid user-agent header: ", reason.as_str())));
        }
        let mut pairs: Vec<(String, String)> = Vec::new();
        pairs.push(("user-agent".to_owned(), self.user_agent.clone()));
        pairs.push(("accept".to_owned(), ACCEPT_VALUE.to_owned()));
        pairs.push(("accept-language".to_owned(), ACCEPT_LANGUAGE_VALUE.to_owned()));
        pairs.push(("connection".to_owned(), CONNECTION_VALUE.to_owned()));
        let ghost base = pair_views(pairs@);
        assert(base =~= seq![
            ("user-agent"@, self.user_agent@),
            ("accept"@, ACCEPT_VALUE@),
            ("accept-language"@, ACCEPT_LANGUAGE_VALUE@),
            ("connection"@, CONNECTION_VALUE@),
        ]);
        if let Some(token) = &self.bearer_token {
            let value = concat_texts("Bearer ", token.as_str());
            if let Some(reason) = header_value_error(value.as_str()) {
                return Err(
                    Error::Internal(concat_texts("invalid authorization header: ", reason.as_str())),
                );
            }
            pairs.push(("authorization".to_owned(), value));
            assert(pair_views(pairs@) =~= base.push(("authorization"@, "Bearer "@ + token@)));
        }
        Ok(pairs)
    }

    /// The backoff after attempt `attempt`, jitter excluded.
    pub fn backoff_without_jitter(&self, attempt: usize) -> (r: u64)
        ensures
            r == backoff_secs(self.base_retry_delay_secs, self.max_retry_delay_secs, attempt),
    {
        let exponent: usize = if attempt <= 1 {
            0
        } else if attempt - 1 > 6 {
            6
        } else {
            attempt - 1
        };
        let mut multiplier: u64 = 1;
        let mut k: usize = 0;
        while k < exponent
            invariant
                0 <= k <= exponent <= 6,
                multiplier == two_to(k as nat),
                multiplier <= 64,
            decreases exponent - k,
        {
            proof {
                lemma_two_to_small(k as nat);
            }
            multiplier = multiplier * 2;
            k = k + 1;
        }
        let saturated = match self.base_retry_delay_secs.checked_mul(multiplier) {
            Some(v) => v,
            None => u64::MAX,
        };
        if saturated < self.max_retry_delay_secs {
            saturated
        } else {
            self.max_retry_delay_secs
        }
    }

    /// Whether a failed send at `attempt` is followed by a backoff.
    pub fn backoff_follows_send_failure(&self, attempt: usize, retryable: bool) -> (r: bool)
        ensures
            r == self.retries_after_send(attempt, retryable),
    {
        attempt < self.max_attempts() && retryable
    }

    /// Whether a response with `status` at `attempt` is followed by a backoff.
    pub fn backoff_follows_status(&self, attempt: usize, status: u16, retry_after: Option<&str>) -> (r:
        bool)
        ensures
            r == self.waits_backoff_after_status(attempt, status, optional_text(retry_after)),
    {
        let asked_for = match retry_after {
            Some(v) => parse_u64(v).is_some(),
            None => false,
        };
        attempt < self.max_attempts() && ((500 <= status && status < 600) || (status == 429
            && !asked_for))
    }

    /// Whether the backoff after attempt `attempt` leaves room for a second of
    /// jitter.
    pub fn backoff_fits(&self, attempt: usize) -> (r: bool)
        ensures
            r == (backoff_secs(self.base_retry_delay_secs, self.max_retry_delay_secs, attempt)
                < u64::MAX),
    {
        self.backoff_without_jitter(attempt) < u64::MAX
    }

    /// The backoff after attempt `attempt` with `jitter` extra seconds.
    pub fn backoff_with_jitter(&self, attempt: usize, jitter: u64) -> (r: u64)
        requires
            jitter <= 1,
            backoff_secs(self.base_retry_delay_secs, self.max_retry_delay_secs, attempt) + jitter <= u64::MAX,
        ensures
            r == backoff_secs(self.base_retry_delay_secs, self.max_retry_delay_secs, attempt)
                + jitter,
    {
        self.backoff_without_jitter(attempt) + jitter
    }

    /// The backoff after attempt `attempt`, with a random extra second or not.
    pub fn exponential_backoff_with_jitter(&self, attempt: usize) -> (r: u64)
        requires
            backoff_secs(self.base_retry_delay_secs, self.max_retry_delay_secs, attempt) < u64::MAX,
        ensures
            backoff_secs(self.base_retry_delay_secs, self.max_retry_delay_secs, attempt) <= r,
            r <= backoff_secs(self.base_retry_delay_secs, self.max_retry_delay_secs, attempt) + 1,
    {
        let jitter = random_jitter();
        self.backoff_with_jitter(attempt, jitter)
    }

    /// `delay_secs`, but no longer than the maximum retry delay.
    pub fn cap_retry_delay(&self, delay_secs: u64) -> (r: u64)
        ensures
            r == (if delay_secs < self.max_retry_delay_secs {
                delay_secs
            } else {
                self.max_retry_delay_secs
            }),
    {
        if delay_secs < self.max_retry_delay_secs {
            delay_secs
        } else {
            self.max_retry_delay_secs
        }
    }

    /// What follows attempt `attempt` when the request failed before any
    /// status came back: retry after a backoff if the failure was transient
    /// and attempts remain, else give up with the client's error.
    pub fn after_send_failure_with_jitter(
        &self,
        attempt: usize,
        retryable: bool,
        message: String,
        jitter: u64,
    ) -> (r: FetchStep)
        requires
            jitter <= 1,
            self.retries_after_send(attempt, retryable) ==> backoff_secs(
                self.base_retry_delay_secs,
                self.max_retry_delay_secs,
                attempt,
            ) + jitter <= u64::MAX,
        ensures
            r@ == self.send_failure_step(attempt, retryable, message@, jitter),
    {
        if attempt >= self.max_attempts() || !retryable {
            FetchStep::Fail(Error::Reqwest(message))
        } else {
            FetchStep::Retry { delay_secs: self.backoff_with_jitter(attempt, jitter) }
        }
    }

    /// [`FetcherConfig::after_send_failure_with_jitter`] with a random jitter
    /// of zero or one second.
    pub fn after_send_failure(&self, attempt: usize, retryable: bool, message: String) -> (r:
        FetchStep)
        requires
            self.retries_after_send(attempt, retryable) ==> backoff_secs(
                self.base_retry_delay_secs,
                self.max_retry_delay_secs,
                attempt,
            ) < u64::MAX,
        ensures
            exists|jitter: u64|
                jitter <= 1 && r@ == self.send_failure_step(attempt, retryable, message@, jitter),
    {
        let jitter = random_jitter();
        self.after_send_failure_with_jitter(attempt, retryable, message, jitter)
    }

    /// What follows attempt `attempt` at `url` when the response came back
    /// with `status`: read a 200's body; after a 429 wait what `Retry-After`
    /// asks, or the backoff, capped; after a 5xx wait the backoff; give up
    /// once the attempts are spent, on a 404, and on any other status.
    pub fn after_status_with_jitter(
        &self,
        url: &str,
        attempt: usize,
        status: u16,
        retry_after: Option<&str>,
        jitter: u64,
    ) -> (r: FetchStep)
        requires
            jitter <= 1,
            self.waits_backoff_after_status(attempt, status, optional_text(retry_after)) ==> backoff_secs(
                self.base_retry_delay_secs,
                self.max_retry_delay_secs,
                attempt,
            ) + jitter <= u64::MAX,
        ensures
            r@ == self.status_step(
                url@,
                attempt,
                status,
                optional_text(retry_after),
                jitter,
            ),
    {
        let max = self.max_attempts();
        if status == 200 {
            FetchStep::ReadBody
        } else if status == 429 {
            if attempt >= max {
                return FetchStep::Fail(Error::RateLimited { url: url.to_owned(), attempts: attempt });
            }
            let asked = match retry_after {
                Some(v) => parse_u64(v),
                None => None,
            };
            let delay = match asked {
                Some(secs) => secs,
                None => self.backoff_with_jitter(attempt, jitter),
            };
            FetchStep::Retry { delay_secs: self.cap_retry_delay(delay) }
        } else if 500 <= status && status < 600 {
            if attempt >= max {
                FetchStep::Fail(Error::HttpStatus { url: url.to_owned(), status })
            } else {
                FetchStep::Retry { delay_secs: self.backoff_with_jitter(attempt, jitter) }
            }
        } else if status == 404 {
            FetchStep::Fail(Error::AircraftNotFound { url: url.to_owned() })
        } else {
            FetchStep::Fail(Error::HttpStatus { url: url.to_owned(), status })
        }
    }

    /// [`FetcherConfig::after_status_with_jitter`] with a random jitter of
    /// zero or one second.
    pub fn after_status(&self, url: &str, attempt: usize, status: u16, retry_after: Option<&str>) -> (r:
        FetchStep)
        requires
            self.waits_backoff_after_status(attempt, status, optional_text(retry_after)) ==> backoff_secs(
                self.base_retry_delay_secs,
                self.max_retry_delay_secs,
                attempt,
            ) < u64::MAX,
        ensures
            exists|jitter: u64|
                jitter <= 1 && r@ == #[trigger] self.status_step(
                    url@,
                    attempt,
                    status,
                    optional_text(retry_after),
                    jitter,
                ),
    {
        let jitter = random_jitter();
        self.after_status_with_jitter(url, attempt, status, retry_after, jitter)
    }
}

/// The outcome of reading a 200 response's body: the client's error if the
/// read failed, an error if the body is only whitespace, else the body.
pub fn after_body(url: &str, body: Result<String, String>) -> (r: Result<String, Error>)
    ensures
        match body {
            Err(m) => r matches Err(e) && e@ == ErrorView::Reqwest(m@),
            Ok(b) => if blank(b@) {
                r matches Err(e) && e@ == ErrorView::Internal("empty response body for "@ + url@)
            } else {
                r matches Ok(t) && t@ == b@
            },
        },
{
    match body {
        Err(m) => Err(Error::Reqwest(m)),
        Ok(b) => {
            if is_blank(b.as_str()) {
                Err(Error::Internal(concat_texts("empty response body for ", url)))
            } else {
                Ok(b)
            }
        },
    }
}

/// The seconds a `Retry-After` header asks to wait, when it is a whole number.
pub fn retry_delay_from_header(value: Option<&str>) -> (r: Option<u64>)
    ensures
        r == (match value {
            Some(v) => parsed_u64(v@),
            None => None,
        }),
{
    match value {
        Some(v) => parse_u64(v),
        None => None,
    }
}

/// A fetch never retries once its attempts are spent: at or past the last
/// attempt, every outcome is a read or a failure.
pub proof fn lemma_retries_stop_at_the_limit(
    config: FetcherConfig,
    url: Seq<char>,
    attempt: usize,
    status: u16,
    retry_after: Option<Seq<char>>,
    retryable: bool,
    message: Seq<char>,
    jitter: u64,
)
    requires
        attempt >= max_attempts_of(config.max_retries),
    ensures
        !(config.status_step(url, attempt, status, retry_after, jitter) is Retry),
        !(config.send_failure_step(attempt, retryable, message, jitter) is Retry),
{
}

/// Every wait is bounded: a rate-limited wait by the maximum delay, any other
/// by the maximum delay and one second of jitter.
pub proof fn lemma_waits_are_bounded(
    config: FetcherConfig,
    url: Seq<char>,
    attempt: usize,
    status: u16,
    retry_after: Option<Seq<char>>,
    retryable: bool,
    message: Seq<char>,
    jitter: u64,
)
    requires
        jitter <= 1,
        backoff_secs(config.base_retry_delay_secs, config.max_retry_delay_secs, attempt) + jitter <= u64::MAX,
    ensures
        config.status_step(url, attempt, status, retry_after, jitter) matches FetchStepView::Retry {
            delay_secs,
        } ==> delay_secs <= config.max_retry_delay_secs + (if status == 429 {
            0int
        } else {
            1int
        }),
        config.send_failure_step(attempt, retryable, message, jitter) matches FetchStepView::Retry {
            delay_secs,
        } ==> delay_secs <= config.max_retry_delay_secs + 1,
{
}

} // verus!
