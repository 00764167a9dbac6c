//! Admission control: a request quota per client and window.

use vstd::hash_map::StringHashMap;
use vstd::prelude::*;

verus! {

/// The mathematical content of a [`RateLimiter`].
pub struct LimiterView {
    /// Requests that one client may make in one window; 0 switches the
    /// limiter off.
    pub limit: nat,
    /// Requests counted in the current window, for the clients seen in it.
    pub counts: Map<Seq<char>, usize>,
}

impl LimiterView {
    /// Requests counted for `client` in the current window.
    pub open spec fn seen(self, client: Seq<char>) -> nat {
        if self.counts.contains_key(client) {
            self.counts[client] as nat
        } else {
            0
        }
    }

    /// Whether the next request of `client` is within the quota: the limiter
    /// is off, or the request, counted in, does not exceed the limit.
    pub open spec fn admits(self, client: Seq<char>) -> bool {
        self.limit == 0 || self.seen(client) + 1 <= self.limit
    }

    /// The limiter after one more request of `client` has been counted. A
    /// limiter that is off counts nothing. A count stays at `usize::MAX` once
    /// it is there.
    pub open spec fn record(self, client: Seq<char>) -> LimiterView {
        if self.limit == 0 {
            self
        } else {
            let now: usize = if self.seen(client) < usize::MAX {
                (self.seen(client) + 1) as usize
            } else {
                usize::MAX
            };
            LimiterView { limit: self.limit, counts: self.counts.insert(client, now) }
        }
    }

    /// The limiter at the start of a new window.
    pub open spec fn reset(self) -> LimiterView {
        LimiterView { limit: self.limit, counts: Map::empty() }
    }

    /// The limiter after `k` more requests of `client`.
    pub open spec fn record_many(self, client: Seq<char>, k: nat) -> LimiterView
        decreases k,
    {
        if k == 0 {
            self
        } else {
            self.record_many(client, (k - 1) as nat).record(client)
        }
    }
}

/// Counts the requests of each client in the current window and says which
/// of them are within the quota.
pub struct RateLimiter {
    limit: usize,
    counts: StringHashMap<usize>,
}

impl View for RateLimiter {
    type V = LimiterView;

    closed spec fn view(&self) -> LimiterView {
        LimiterView { limit: self.limit as nat, counts: self.counts@ }
    }
}

impl RateLimiter {
    /// A limiter that has counted nothing yet. A `limit` of 0 switches it off.
    pub fn new(limit: usize) -> (limiter: RateLimiter)
        ensures
            limiter@.limit == limit,
            limiter@.counts == Map::<Seq<char>, usize>::empty(),
    {
        RateLimiter { limit, counts: StringHashMap::new() }
    }

    /// The limit per client and window; 0 if the limiter is off.
    pub fn limit(&self) -> (n: usize)
        ensures
            n == self@.limit,
    {
        self.limit
    }

    /// Whether the limiter is on.
    pub fn is_enabled(&self) -> (on: bool)
        ensures
            on == (self@.limit > 0),
    {
        self.limit > 0
    }

    /// Requests counted for `client` in the current window.
    pub fn seen(&self, client: &str) -> (n: usize)
        ensures
            n == self@.seen(client@),
    {
        match self.counts.get(client) {
            Some(count) => *count,
            None => 0,
        }
    }

    /// Counts one request of `client` and says whether it is admitted. A
    /// limiter that is off admits every request and counts none.
    pub fn count_request(&mut self, client: &str) -> (admitted: bool)
        ensures
            admitted == old(self)@.admits(client@),
            final(self)@ == old(self)@.record(client@),
    {
        if self.limit == 0 {
            return true;
        }
        let seen: usize = self.seen(client);
        let now: usize = if seen < usize::MAX {
            seen + 1
        } else {
            seen
        };
        self.counts.insert(client.to_owned(), now);
        seen < self.limit
    }

    /// Starts a new window: forgets every count.
    pub fn reset(&mut self)
        ensures
            final(self)@ == old(self)@.reset(),
    {
        self.counts.clear();
    }
}

/// Counting a request of one client leaves the count of every other client
/// as it was, and never changes the limit.
pub proof fn lemma_record_is_per_client(v: LimiterView, client: Seq<char>, other: Seq<char>)
    requires
        other != client,
    ensures
        v.record(client).seen(other) == v.seen(other),
        v.record(client).admits(other) == v.admits(other),
        v.record(client).limit == v.limit,
{
}

/// With a limit of `n > 0`, a client whose count is 0 has its next `n`
/// requests admitted and the one after them rejected: after `k` requests its
/// count is `k`, and the request that follows is admitted exactly if
/// `k < n`.
pub proof fn lemma_quota(v: LimiterView, client: Seq<char>, k: nat)
    requires
        v.limit > 0,
        v.seen(client) == 0,
        k <= usize::MAX,
    ensures
        v.record_many(client, k).limit == v.limit,
        v.record_many(client, k).seen(client) == k,
        v.record_many(client, k).admits(client) <==> k < v.limit,
    decreases k,
{
    if k > 0 {
        lemma_quota(v, client, (k - 1) as nat);
    }
}

/// After a reset every count is 0, so with a limit of at least 1 the next
/// request of any client is admitted, whatever was counted before.
pub proof fn lemma_reset_reopens(v: LimiterView, client: Seq<char>)
    ensures
        v.reset().seen(client) == 0,
        v.reset().limit == v.limit,
        v.limit >= 1 ==> v.reset().admits(client),
{
}

/// A limiter with limit 0 admits every request, however many came before,
/// and keeps no count.
pub proof fn lemma_unlimited(v: LimiterView, client: Seq<char>, k: nat)
    requires
        v.limit == 0,
    ensures
        v.record_many(client, k) == v,
        v.record_many(client, k).admits(client),
    decreases k,
{
    if k > 0 {
        lemma_unlimited(v, client, (k - 1) as nat);
    }
}

} // verus!
