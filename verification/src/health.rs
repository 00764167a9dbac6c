//! Active health checking: how a probe is judged, and how a pass of probes
//! sorts the upstream pool anew.

use crate::session::OK;
use crate::upstream::{lemma_republish, passed, PoolView, UpstreamPool};
use vstd::prelude::*;

verus! {

/// The method of a health probe.
pub const PROBE_METHOD: &'static str = "GET";

/// The request that probes one upstream: `PROBE_METHOD` for `path`, with
/// the upstream's address as `Host`, and no body.
pub struct HealthProbe {
    pub path: String,
    pub host: String,
}

/// The probe of the upstream at `addr`, for the configured path.
pub fn health_probe(path: &str, addr: &str) -> (probe: HealthProbe)
    ensures
        probe.path@ == path@,
        probe.host@ == addr@,
{
    HealthProbe { path: path.to_owned(), host: addr.to_owned() }
}

/// How one probe of an upstream ended.
#[derive(Debug, Clone, Copy, PartialEq, Eq, Structural)]
pub enum ProbeOutcome {
    /// No connection could be opened.
    ConnectFailed,
    /// The probe request could not be sent.
    SendFailed,
    /// No well-formed response came back.
    ResponseFailed,
    /// A well-formed response with this status came back.
    Status(u16),
}

impl ProbeOutcome {
    /// An upstream is alive exactly if it answered the probe with status 200.
    pub open spec fn alive(self) -> bool {
        self == ProbeOutcome::Status(OK)
    }

    /// Whether the probed upstream is alive.
    pub fn is_alive(&self) -> (b: bool)
        ensures
            b == self.alive(),
    {
        match self {
            ProbeOutcome::Status(code) => *code == OK,
            _ => false,
        }
    }
}

/// The verdict that each outcome stands for.
pub open spec fn verdicts(outcomes: Seq<ProbeOutcome>) -> Seq<bool> {
    Seq::new(outcomes.len(), |i: int| outcomes[i].alive())
}

/// Ends a health-check pass over `pool`. The `i`-th outcome belongs to the
/// `i`-th address of `pool.probe_targets()`. Afterwards the alive addresses
/// are those whose probe was answered with status 200, and all others are
/// dead; both sides change at once.
pub fn filter_alive(pool: &mut UpstreamPool, outcomes: &Vec<ProbeOutcome>)
    ensures
        final(pool)@ == old(pool)@.republish(verdicts(outcomes@)),
        final(pool)@.wf(),
        final(pool)@.addresses() == old(pool)@.addresses(),
{
    let mut flags: Vec<bool> = Vec::new();
    let mut i: usize = 0;
    while i < outcomes.len()
        invariant
            i <= outcomes@.len(),
            flags@.len() == i,
            forall|j: int| 0 <= j < i ==> flags@[j] == outcomes@[j].alive(),
        decreases outcomes@.len() - i,
    {
        flags.push(outcomes[i].is_alive());
        i += 1;
    }
    assert(flags@ =~= verdicts(outcomes@));
    pool.republish(&flags);
}

/// The pool after a run of health-check passes, one list of verdicts each.
pub open spec fn after_passes(v: PoolView, rounds: Seq<Seq<bool>>) -> PoolView
    decreases rounds.len(),
{
    if rounds.len() == 0 {
        v
    } else {
        after_passes(v, rounds.drop_last()).republish(rounds.last())
    }
}

/// Whether the probe of address `a` failed in every pass of `rounds`, one
/// pass after the other from pool `v`.
pub open spec fn fails_every_pass(v: PoolView, rounds: Seq<Seq<bool>>, a: Seq<char>) -> bool
    decreases rounds.len(),
{
    if rounds.len() == 0 {
        true
    } else {
        let before = after_passes(v, rounds.drop_last());
        &&& fails_every_pass(v, rounds.drop_last(), a)
        &&& !passed(rounds.last(), before.probe_order().index_of(a))
    }
}

/// One pass decides anew: an address that the pool knows is alive after the
/// pass if its probe passed, and dead if it did not, wherever it was before.
/// So a dead upstream that answers again is alive after the next pass, and
/// an alive one that fails is dead after it.
pub proof fn lemma_pass_decides(v: PoolView, verdicts: Seq<bool>, a: Seq<char>)
    requires
        v.wf(),
        v.addresses().contains(a),
    ensures
        v.probe_order().contains(a),
        passed(verdicts, v.probe_order().index_of(a)) ==> v.republish(verdicts).alive.contains(a)
            && !v.republish(verdicts).dead.contains(a),
        !passed(verdicts, v.probe_order().index_of(a)) ==> v.republish(verdicts).dead.contains(a)
            && !v.republish(verdicts).alive.contains(a),
{
    crate::upstream::lemma_probe_order(v);
    lemma_republish(v, verdicts);
    let all = v.probe_order();
    assert(all.contains(a));
    let i = all.index_of(a);
    assert(0 <= i < all.len() && all[i] == a);
}

/// An address whose probe fails in every pass is dead after each of them:
/// once there has been one pass, it is in `dead` and not in `alive`, however
/// many passes follow.
pub proof fn lemma_failing_stays_dead(v: PoolView, rounds: Seq<Seq<bool>>, a: Seq<char>)
    requires
        v.wf(),
        v.addresses().contains(a),
        fails_every_pass(v, rounds, a),
    ensures
        after_passes(v, rounds).wf(),
        after_passes(v, rounds).addresses() == v.addresses(),
        rounds.len() > 0 ==> after_passes(v, rounds).dead.contains(a) && !after_passes(
            v,
            rounds,
        ).alive.contains(a),
    decreases rounds.len(),
{
    lemma_passes_keep_addresses(v, rounds);
    if rounds.len() > 0 {
        let before = after_passes(v, rounds.drop_last());
        lemma_passes_keep_addresses(v, rounds.drop_last());
        lemma_pass_decides(before, rounds.last(), a);
    }
}

/// Health-check passes never add or lose an address.
pub proof fn lemma_passes_keep_addresses(v: PoolView, rounds: Seq<Seq<bool>>)
    requires
        v.wf(),
    ensures
        after_passes(v, rounds).wf(),
        after_passes(v, rounds).addresses() == v.addresses(),
    decreases rounds.len(),
{
    if rounds.len() > 0 {
        lemma_passes_keep_addresses(v, rounds.drop_last());
        lemma_republish(after_passes(v, rounds.drop_last()), rounds.last());
    }
}

} // verus!
