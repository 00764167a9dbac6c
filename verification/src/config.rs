//! What a proxy is started with.

use crate::admission::RateLimiter;
use crate::upstream::UpstreamPool;
use vstd::prelude::*;

verus! {

/// Seconds between two resets of the request counts.
pub const COUNTER_WINDOW_SECS: u64 = 60;

/// The settings of one proxy.
pub struct ProxyConfig {
    /// Address to listen on.
    pub bind: String,
    /// Upstream servers to forward to.
    pub upstream: Vec<String>,
    /// Seconds between two health-check passes.
    pub active_health_check_interval: usize,
    /// Path that a health probe asks for.
    pub active_health_check_path: String,
    /// Requests that one client may make per window; 0 for no limit.
    pub max_requests_per_minute: usize,
}

/// Why a proxy cannot be started.
#[derive(Debug, Clone, Copy, PartialEq, Eq, Structural)]
pub enum ConfigError {
    /// No upstream server was given.
    NoUpstream,
}

impl ProxyConfig {
    /// Whether the settings name at least one upstream.
    pub open spec fn valid(self) -> bool {
        self.upstream@.len() >= 1
    }

    /// Accepts settings that name at least one upstream and refuses all
    /// others.
    pub fn validate(&self) -> (r: Result<(), ConfigError>)
        ensures
            r.is_ok() <==> self.valid(),
            r.is_err() ==> r == Err::<(), ConfigError>(ConfigError::NoUpstream),
    {
        if self.upstream.len() < 1 {
            Err(ConfigError::NoUpstream)
        } else {
            Ok(())
        }
    }

    /// Seconds between two health-check passes.
    pub fn health_check_interval_secs(&self) -> (secs: u64)
        ensures
            secs == self.active_health_check_interval,
    {
        self.active_health_check_interval as u64
    }

    /// Whether requests are counted at all, so that the counts have to be
    /// reset as time passes.
    pub fn limits_requests(&self) -> (on: bool)
        ensures
            on == (self.max_requests_per_minute > 0),
    {
        self.max_requests_per_minute > 0
    }

    /// The shared state that a proxy starts with: every configured upstream
    /// alive, none dead, and no request counted. Settings without an
    /// upstream are refused.
    pub fn initial_state(self) -> (r: Result<(UpstreamPool, RateLimiter), ConfigError>)
        ensures
            r.is_ok() <==> self.valid(),
            r matches Err(e) ==> e == ConfigError::NoUpstream,
            r matches Ok((pool, limiter)) ==> {
                &&& pool@.alive == crate::seqs::first_occurrences(self.upstream.deep_view())
                &&& pool@.dead.len() == 0
                &&& pool@.wf()
                &&& pool@.addresses() == self.upstream.deep_view().to_set()
                &&& pool@.alive.len() >= 1
                &&& limiter@.limit == self.max_requests_per_minute
                &&& limiter@.counts == Map::<Seq<char>, usize>::empty()
            },
    {
        if self.upstream.len() < 1 {
            return Err(ConfigError::NoUpstream);
        }
        proof {
            let given = self.upstream.deep_view();
            crate::seqs::lemma_first_occurrences(given);
            assert(given.contains(given[0]));
            let kept = crate::seqs::first_occurrences(given);
            assert(kept.contains(given[0]));
        }
        let limiter = RateLimiter::new(self.max_requests_per_minute);
        let pool = UpstreamPool::new(self.upstream);
        Ok((pool, limiter))
    }
}

} // verus!
