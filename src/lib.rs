//! Cluster coordination and sync scheduling for a fleet of Notion / Google Calendar sync
//! workers: lease-bound membership, deterministic partition sharding, compare-and-swap
//! partition locks, lease refresh timing, retry backoff and the node lifecycle.
use vstd::prelude::*;

pub mod aws;
pub mod cluster_management;
pub mod etcd;
pub mod ownership;
pub mod settings;
pub mod supervisor;

use crate::aws::UserRecord;

verus! {

/// The parameters of a retry loop with capped exponential backoff.
#[derive(Debug, Clone, Copy)]
pub struct RetryConfig {
    /// The wait, in milliseconds, stops doubling once it reaches this.
    pub maximum_backoff_ms: u64,
    /// Give up after this many failed attempts; `None`: never give up.
    pub maximum_n_tries: Option<u32>,
    /// The wait, in milliseconds, after the first failure.
    pub initial_duration_ms: u64,
}

impl Default for RetryConfig {
    /// A 5 ms initial wait, capped at 30 s, with no limit on attempts.
    fn default() -> (config: Self)
        ensures
            config.maximum_backoff_ms == 30_000,
            config.maximum_n_tries is None,
            config.initial_duration_ms == 5,
    {
        RetryConfig { maximum_backoff_ms: 30_000, maximum_n_tries: None, initial_duration_ms: 5 }
    }
}

impl RetryConfig {
    /// Connecting to the coordination store: from 1 s, capped at 300 s, never giving up.
    pub fn store_connect() -> (config: Self)
        ensures
            config.initial_duration_ms == 1_000,
            config.maximum_backoff_ms == 300_000,
            config.maximum_n_tries is None,
    {
        RetryConfig { maximum_backoff_ms: 300_000, maximum_n_tries: None, initial_duration_ms: 1_000 }
    }

    /// One partition's query for due sync jobs: from 5 ms, capped at 10 s, at most 10 attempts.
    pub fn partition_query() -> (config: Self)
        ensures
            config.initial_duration_ms == 5,
            config.maximum_backoff_ms == 10_000,
            config.maximum_n_tries == Some(10u32),
    {
        RetryConfig { maximum_backoff_ms: 10_000, maximum_n_tries: Some(10), initial_duration_ms: 5 }
    }

    /// Loading the settings: from 5 ms, capped at 300 s, never giving up.
    pub fn settings_load() -> (config: Self)
        ensures
            config.initial_duration_ms == 5,
            config.maximum_backoff_ms == 300_000,
            config.maximum_n_tries is None,
    {
        RetryConfig { maximum_backoff_ms: 300_000, maximum_n_tries: None, initial_duration_ms: 5 }
    }
}

/// Seconds the sync pipeline sleeps between ticks.
pub const PIPELINE_TICK_SECONDS: u64 = 20;

/// Milliseconds between the start of successive partition queries within a tick.
pub const PARTITION_QUERY_STAGGER_MS: u64 = 20;

/// `wait` held to the cap `maximum`: `min(wait, maximum)`.
pub open spec fn capped(wait: int, maximum: int) -> int {
    if wait <= maximum {
        wait
    } else {
        maximum
    }
}

/// The wait that follows `wait` in a backoff capped at `maximum`: `min(2 * wait, maximum)`.
pub open spec fn next_backoff(wait: int, maximum: int) -> int {
    capped(2 * wait, maximum)
}

/// What a retry loop does after a failed attempt.
#[derive(Debug, Clone, Copy, PartialEq, Eq, Structural)]
pub enum RetryDecision {
    /// Wait this many milliseconds, then try again.
    RetryAfter(u64),
    /// Stop and hand back the last error.
    GiveUp,
}

/// The progress of one retry loop: failed attempts so far and the wait before the next one.
#[derive(Debug, Clone, Copy)]
pub struct RetryState {
    pub n_tries: u32,
    pub wait_ms: u64,
}

impl RetryState {
    /// The state before the first attempt: the first wait is the initial one, held to the cap.
    pub fn new(config: &RetryConfig) -> (state: Self)
        ensures
            state.n_tries == 0,
            state.wait_ms == capped(
                config.initial_duration_ms as int,
                config.maximum_backoff_ms as int,
            ),
    {
        let wait_ms = if config.initial_duration_ms <= config.maximum_backoff_ms {
            config.initial_duration_ms
        } else {
            config.maximum_backoff_ms
        };
        RetryState { n_tries: 0, wait_ms }
    }

    /// Count one failed attempt and decide: give up once `maximum_n_tries` attempts have
    /// failed, otherwise wait the current backoff, held to the cap, and double it, up to the
    /// cap. No wait ever exceeds `maximum_backoff_ms`.
    pub fn record_failure(&mut self, config: &RetryConfig) -> (decision: RetryDecision)
        ensures
            final(self).n_tries == (if old(self).n_tries < u32::MAX {
                old(self).n_tries + 1
            } else {
                old(self).n_tries as int
            }),
            match config.maximum_n_tries {
                Some(max) => (decision == RetryDecision::GiveUp) <==> final(self).n_tries >= max,
                None => decision != RetryDecision::GiveUp,
            },
            decision != RetryDecision::GiveUp ==> decision == RetryDecision::RetryAfter(
                capped(old(self).wait_ms as int, config.maximum_backoff_ms as int) as u64,
            ) && final(self).wait_ms == next_backoff(
                capped(old(self).wait_ms as int, config.maximum_backoff_ms as int),
                config.maximum_backoff_ms as int,
            ),
            decision == RetryDecision::GiveUp ==> final(self).wait_ms == capped(
                old(self).wait_ms as int,
                config.maximum_backoff_ms as int,
            ),
            final(self).wait_ms <= config.maximum_backoff_ms,
    {
        let maximum = config.maximum_backoff_ms;
        let wait = if self.wait_ms <= maximum {
            self.wait_ms
        } else {
            maximum
        };
        self.wait_ms = wait;
        if self.n_tries < u32::MAX {
            self.n_tries = self.n_tries + 1;
        }
        if let Some(max) = config.maximum_n_tries {
            if self.n_tries >= max {
                return RetryDecision::GiveUp;
            }
        }
        if wait <= maximum / 2 {
            self.wait_ms = wait * 2;
        } else {
            self.wait_ms = maximum;
        }
        RetryDecision::RetryAfter(wait)
    }
}

/// An OAuth access token for Google and the moment it expires.
#[derive(Debug)]
pub struct GoogleAccessToken {
    pub access_token: String,
    /// Seconds since the Unix epoch.
    pub expiry_time: u64,
}

/// A user's Google refresh token and the access token last obtained with it.
#[derive(Debug)]
pub struct GoogleToken {
    pub refresh_token: String,
    pub access_token: Option<GoogleAccessToken>,
}

impl GoogleToken {
    pub fn new(refresh_token: &str) -> (token: Self)
        ensures
            token.refresh_token@ == refresh_token@,
            token.access_token is None,
    {
        GoogleToken { refresh_token: refresh_token.to_owned(), access_token: None }
    }

    /// Whether a new access token must be fetched at `now` (seconds since the Unix epoch):
    /// there is none yet, or it expired at or before `now`.
    pub fn is_expired(&self, now: u64) -> (expired: bool)
        ensures
            expired == match self.access_token {
                None => true,
                Some(t) => t.expiry_time <= now,
            },
    {
        match &self.access_token {
            None => true,
            Some(t) => t.expiry_time <= now,
        }
    }

    /// Keep a freshly granted access token that is valid for `expires_in` seconds from `now`.
    pub fn set_access_token(&mut self, access_token: String, expires_in: u64, now: u64)
        requires
            now + expires_in <= u64::MAX,
        ensures
            final(self).refresh_token == old(self).refresh_token,
            final(self).access_token == Some(
                GoogleAccessToken { access_token, expiry_time: (now + expires_in) as u64 },
            ),
    {
        self.access_token = Some(GoogleAccessToken { access_token, expiry_time: now + expires_in });
    }

    /// The access token currently held, if any.
    pub fn current_access_token(&self) -> (token: Option<&String>)
        ensures
            match self.access_token {
                None => token is None,
                Some(t) => token == Some(&t.access_token),
            },
    {
        match &self.access_token {
            None => None,
            Some(t) => Some(&t.access_token),
        }
    }
}

/// The user id that `filter_data_by_hardcoded_user_id` looks for.
pub const HARDCODED_USER_ID: &'static str = "e2TPa0rcNbgDSmPXDA8CtHlOjUN2";

/// The first user record whose id is `HARDCODED_USER_ID`, if any.
pub fn filter_data_by_hardcoded_user_id(users: &[UserRecord]) -> (r: Option<&UserRecord>)
    ensures
        match r {
            Some(u) => exists|i: int|
                0 <= i < users@.len() && users@[i] == *u && u.user_id@ == HARDCODED_USER_ID@ && (
                forall|j: int| 0 <= j < i ==> #[trigger] users@[j].user_id@ != HARDCODED_USER_ID@),
            None => forall|j: int|
                0 <= j < users@.len() ==> #[trigger] users@[j].user_id@ != HARDCODED_USER_ID@,
        },
{
    let user_id_to_use = HARDCODED_USER_ID.to_owned();
    let mut i: usize = 0;
    while i < users.len()
        invariant
            i <= users@.len(),
            user_id_to_use@ == HARDCODED_USER_ID@,
            forall|j: int| 0 <= j < i ==> #[trigger] users@[j].user_id@ != HARDCODED_USER_ID@,
        decreases users@.len() - i,
    {
        if users[i].user_id == user_id_to_use {
            return Some(&users[i]);
        }
        i = i + 1;
    }
    None
}

} // verus!
