//! The pool of upstream servers: which of them may be chosen, which are
//! excluded, and how addresses move between the two sides.

use crate::random::{draw_below, entropy_rng};
use crate::seqs::{
    first_occurrences, lemma_first_occurrences, lemma_first_occurrences_fixed, lemma_push_contains,
    lemma_push_no_duplicates,
};
use vstd::prelude::*;

verus! {

/// The mathematical content of an [`UpstreamPool`]: the addresses that may be
/// chosen, in order, and the addresses that may not.
pub struct PoolView {
    pub alive: Seq<Seq<char>>,
    pub dead: Seq<Seq<char>>,
}

/// Whether the probe of the `i`-th address passed. An address without a
/// verdict did not pass.
pub open spec fn passed(verdicts: Seq<bool>, i: int) -> bool {
    0 <= i < verdicts.len() && verdicts[i]
}

/// The addresses of `all` whose verdict is `want`, in the order of `all`.
pub open spec fn kept(all: Seq<Seq<char>>, verdicts: Seq<bool>, want: bool) -> Seq<Seq<char>>
    decreases all.len(),
{
    if all.len() == 0 {
        Seq::empty()
    } else {
        let rest = kept(all.drop_last(), verdicts, want);
        if passed(verdicts, all.len() - 1) == want {
            rest.push(all.last())
        } else {
            rest
        }
    }
}

impl PoolView {
    /// No address is listed twice, on either side or across them.
    pub open spec fn wf(self) -> bool {
        &&& self.alive.no_duplicates()
        &&& self.dead.no_duplicates()
        &&& forall|a: Seq<char>| !(self.alive.contains(a) && self.dead.contains(a))
    }

    /// Every address the pool knows, alive or dead.
    pub open spec fn addresses(self) -> Set<Seq<char>> {
        self.alive.to_set().union(self.dead.to_set())
    }

    /// The order in which a health-check pass probes: the alive addresses,
    /// then the dead ones.
    pub open spec fn probe_order(self) -> Seq<Seq<char>> {
        self.alive + self.dead
    }

    /// The pool after the alive address at `idx` has been declared dead. The
    /// last alive address takes the freed place. An index out of range leaves
    /// the pool as it is.
    pub open spec fn mark_dead(self, idx: int) -> PoolView {
        if 0 <= idx < self.alive.len() {
            PoolView {
                alive: self.alive.update(idx, self.alive.last()).drop_last(),
                dead: self.dead.push(self.alive[idx]),
            }
        } else {
            self
        }
    }

    /// The pool after a health-check pass whose `i`-th verdict belongs to the
    /// `i`-th address of `probe_order`.
    pub open spec fn republish(self, verdicts: Seq<bool>) -> PoolView {
        PoolView {
            alive: kept(self.probe_order(), verdicts, true),
            dead: kept(self.probe_order(), verdicts, false),
        }
    }
}

/// What `kept` keeps: exactly the addresses at the indices whose verdict is
/// `want`, and no duplicates where `all` has none.
pub proof fn lemma_kept(all: Seq<Seq<char>>, verdicts: Seq<bool>, want: bool)
    ensures
        forall|i: int|
            0 <= i < all.len() && passed(verdicts, i) == want ==> kept(
                all,
                verdicts,
                want,
            ).contains(#[trigger] all[i]),
        forall|a: Seq<char>| #[trigger]
            kept(all, verdicts, want).contains(a) ==> exists|i: int|
                0 <= i < all.len() && #[trigger] all[i] == a && passed(verdicts, i) == want,
        all.no_duplicates() ==> kept(all, verdicts, want).no_duplicates(),
        kept(all, verdicts, want).len() <= all.len(),
    decreases all.len(),
{
    if all.len() > 0 {
        let init = all.drop_last();
        let rest = kept(init, verdicts, want);
        let last = all.last();
        let now = kept(all, verdicts, want);
        lemma_kept(init, verdicts, want);
        assert forall|i: int| 0 <= i < all.len() && passed(verdicts, i) == want implies now.contains(
            #[trigger] all[i],
        ) by {
            lemma_push_contains(rest, last, all[i]);
            if i < init.len() {
                assert(init[i] == all[i]);
            }
        }
        assert forall|a: Seq<char>| #[trigger] now.contains(a) implies exists|i: int|
            0 <= i < all.len() && #[trigger] all[i] == a && passed(verdicts, i) == want by {
            lemma_push_contains(rest, last, a);
            if rest.contains(a) {
                let i = choose|i: int|
                    0 <= i < init.len() && #[trigger] init[i] == a && passed(verdicts, i) == want;
                assert(all[i] == a);
            } else {
                assert(all[all.len() - 1] == a);
            }
        }
        if all.no_duplicates() && passed(verdicts, all.len() - 1) == want {
            if rest.contains(last) {
                let i = choose|i: int|
                    0 <= i < init.len() && #[trigger] init[i] == last && passed(verdicts, i)
                        == want;
                assert(all[i] == all[all.len() - 1]);
            }
            lemma_push_no_duplicates(rest, last);
        }
    }
}

/// The probe order of a well-formed pool lists no address twice.
pub proof fn lemma_probe_order(v: PoolView)
    requires
        v.wf(),
    ensures
        v.probe_order().no_duplicates(),
        forall|a: Seq<char>| v.probe_order().contains(a) <==> v.addresses().contains(a),
{
    let all = v.probe_order();
    assert forall|i: int, j: int| 0 <= i < all.len() && 0 <= j < all.len() && i != j implies all[i]
        != all[j] by {
        if i < v.alive.len() && j >= v.alive.len() {
            assert(v.alive.contains(v.alive[i]));
            assert(v.dead.contains(v.dead[j - v.alive.len()]));
        }
        if j < v.alive.len() && i >= v.alive.len() {
            assert(v.alive.contains(v.alive[j]));
            assert(v.dead.contains(v.dead[i - v.alive.len()]));
        }
    }
    assert forall|a: Seq<char>| all.contains(a) <==> v.addresses().contains(a) by {
        if v.alive.contains(a) {
            let i = choose|i: int| 0 <= i < v.alive.len() && v.alive[i] == a;
            assert(all[i] == a);
        }
        if v.dead.contains(a) {
            let i = choose|i: int| 0 <= i < v.dead.len() && v.dead[i] == a;
            assert(all[v.alive.len() + i] == a);
        }
        if all.contains(a) {
            let i = choose|i: int| 0 <= i < all.len() && all[i] == a;
            if i < v.alive.len() {
                assert(v.alive[i] == a);
            } else {
                assert(v.dead[i - v.alive.len()] == a);
            }
        }
    }
}

/// Declaring an alive address dead keeps the pool well formed and keeps the
/// set of known addresses; the address leaves `alive`, which shrinks by one,
/// and joins `dead`.
pub proof fn lemma_mark_dead(v: PoolView, idx: int)
    requires
        v.wf(),
    ensures
        v.mark_dead(idx).wf(),
        v.mark_dead(idx).addresses() == v.addresses(),
        0 <= idx < v.alive.len() ==> {
            &&& v.mark_dead(idx).alive.len() == v.alive.len() - 1
            &&& !v.mark_dead(idx).alive.contains(v.alive[idx])
            &&& v.mark_dead(idx).dead.contains(v.alive[idx])
        },
{
    if 0 <= idx < v.alive.len() {
        let w = v.mark_dead(idx);
        let gone = v.alive[idx];
        assert(v.alive.contains(gone));
        assert forall|a: Seq<char>| w.alive.contains(a) <==> (v.alive.contains(a) && a != gone) by {
            if w.alive.contains(a) {
                let j = choose|j: int| 0 <= j < w.alive.len() && w.alive[j] == a;
                if j == idx {
                    assert(v.alive[v.alive.len() - 1] == a);
                } else {
                    assert(v.alive[j] == a);
                }
            }
            if v.alive.contains(a) && a != gone {
                let j = choose|j: int| 0 <= j < v.alive.len() && v.alive[j] == a;
                if j == v.alive.len() - 1 {
                    assert(w.alive[idx] == a);
                } else {
                    assert(w.alive[j] == a);
                }
            }
        }
        assert forall|i: int, j: int|
            0 <= i < w.alive.len() && 0 <= j < w.alive.len() && i != j implies w.alive[i]
            != w.alive[j] by {
            let last = v.alive.len() - 1;
            let ii = if i == idx { last } else { i };
            let jj = if j == idx { last } else { j };
            assert(w.alive[i] == v.alive[ii]);
            assert(w.alive[j] == v.alive[jj]);
        }
        lemma_push_no_duplicates(v.dead, gone);
        assert forall|a: Seq<char>| !(w.alive.contains(a) && w.dead.contains(a)) by {
            lemma_push_contains(v.dead, gone, a);
        }
        assert forall|a: Seq<char>| w.addresses().contains(a) <==> v.addresses().contains(a) by {
            lemma_push_contains(v.dead, gone, a);
        }
        assert(w.addresses() =~= v.addresses());
        lemma_push_contains(v.dead, gone, gone);
    }
}

/// A health-check pass keeps the pool well formed and keeps the set of known
/// addresses. Afterwards an address is alive exactly if its probe passed.
pub proof fn lemma_republish(v: PoolView, verdicts: Seq<bool>)
    requires
        v.wf(),
    ensures
        v.republish(verdicts).wf(),
        v.republish(verdicts).addresses() == v.addresses(),
        forall|i: int|
            0 <= i < v.probe_order().len() ==> (passed(verdicts, i) <==> v.republish(
                verdicts,
            ).alive.contains(#[trigger] v.probe_order()[i])),
        forall|i: int|
            0 <= i < v.probe_order().len() ==> (!passed(verdicts, i) <==> v.republish(
                verdicts,
            ).dead.contains(#[trigger] v.probe_order()[i])),
{
    let all = v.probe_order();
    let w = v.republish(verdicts);
    lemma_probe_order(v);
    lemma_kept(all, verdicts, true);
    lemma_kept(all, verdicts, false);
    assert forall|a: Seq<char>| !(w.alive.contains(a) && w.dead.contains(a)) by {
        if w.alive.contains(a) && w.dead.contains(a) {
            let i = choose|i: int|
                0 <= i < all.len() && #[trigger] all[i] == a && passed(verdicts, i) == true;
            let j = choose|j: int|
                0 <= j < all.len() && #[trigger] all[j] == a && passed(verdicts, j) == false;
            assert(i != j);
        }
    }
    assert forall|a: Seq<char>| w.addresses().contains(a) <==> v.addresses().contains(a) by {
        if all.contains(a) {
            let i = choose|i: int| 0 <= i < all.len() && all[i] == a;
            if passed(verdicts, i) {
                assert(w.alive.contains(all[i]));
            } else {
                assert(w.dead.contains(all[i]));
            }
        }
        if w.alive.contains(a) {
            let i = choose|i: int|
                0 <= i < all.len() && #[trigger] all[i] == a && passed(verdicts, i) == true;
            assert(all.contains(a));
        }
        if w.dead.contains(a) {
            let i = choose|i: int|
                0 <= i < all.len() && #[trigger] all[i] == a && passed(verdicts, i) == false;
            assert(all.contains(a));
        }
    }
    assert(w.addresses() =~= v.addresses());
    assert forall|i: int| 0 <= i < all.len() implies (passed(verdicts, i) <==> w.alive.contains(
        #[trigger] all[i],
    )) by {
        if w.alive.contains(all[i]) {
            let k = choose|k: int|
                0 <= k < all.len() && #[trigger] all[k] == all[i] && passed(verdicts, k) == true;
            assert(k == i);
        }
    }
    assert forall|i: int| 0 <= i < all.len() implies (!passed(verdicts, i) <==> w.dead.contains(
        #[trigger] all[i],
    )) by {
        if w.dead.contains(all[i]) {
            let k = choose|k: int|
                0 <= k < all.len() && #[trigger] all[k] == all[i] && passed(verdicts, k) == false;
            assert(k == i);
        }
    }
}


/// One change to the pool.
pub enum PoolOp {
    /// Failover declares the alive address at this index dead.
    MarkDead(int),
    /// A health-check pass ends with these verdicts.
    Republish(Seq<bool>),
}

impl PoolView {
    /// The pool after one change.
    pub open spec fn apply(self, op: PoolOp) -> PoolView {
        match op {
            PoolOp::MarkDead(idx) => self.mark_dead(idx),
            PoolOp::Republish(verdicts) => self.republish(verdicts),
        }
    }

    /// The pool after a run of changes, in order.
    pub open spec fn run(self, ops: Seq<PoolOp>) -> PoolView
        decreases ops.len(),
    {
        if ops.len() == 0 {
            self
        } else {
            self.run(ops.drop_last()).apply(ops.last())
        }
    }

    /// The pool after a run of failed connection attempts, given by the
    /// indices of the addresses that were tried.
    pub open spec fn after_failures(self, tried: Seq<int>) -> PoolView
        decreases tried.len(),
    {
        if tried.len() == 0 {
            self
        } else {
            self.after_failures(tried.drop_last()).mark_dead(tried.last())
        }
    }

    /// Whether each index of `tried` was that of an alive address at the
    /// time of its attempt.
    pub open spec fn tried_alive(self, tried: Seq<int>) -> bool
        decreases tried.len(),
    {
        if tried.len() == 0 {
            true
        } else {
            &&& self.tried_alive(tried.drop_last())
            &&& 0 <= tried.last() < self.after_failures(tried.drop_last()).alive.len()
        }
    }
}

/// Whatever failovers and health-check passes happen, and in whatever
/// order, `alive` and `dead` stay disjoint and together hold exactly the
/// addresses that the pool started with.
pub proof fn lemma_partition_always(v: PoolView, ops: Seq<PoolOp>)
    requires
        v.wf(),
    ensures
        v.run(ops).wf(),
        v.run(ops).addresses() == v.addresses(),
    decreases ops.len(),
{
    if ops.len() > 0 {
        let before = v.run(ops.drop_last());
        lemma_partition_always(v, ops.drop_last());
        match ops.last() {
            PoolOp::MarkDead(idx) => lemma_mark_dead(before, idx),
            PoolOp::Republish(verdicts) => lemma_republish(before, verdicts),
        }
    }
}

/// Failover cannot go on for ever: every failed attempt leaves one alive
/// address fewer, so there are never more failed attempts in a row than
/// there were alive addresses, and after that many none is alive.
pub proof fn lemma_failover_is_bounded(v: PoolView, tried: Seq<int>)
    requires
        v.wf(),
        v.tried_alive(tried),
    ensures
        v.after_failures(tried).wf(),
        v.after_failures(tried).alive.len() == v.alive.len() - tried.len(),
        tried.len() <= v.alive.len(),
    decreases tried.len(),
{
    if tried.len() > 0 {
        lemma_failover_is_bounded(v, tried.drop_last());
        lemma_mark_dead(v.after_failures(tried.drop_last()), tried.last());
    }
}

/// The upstream servers of one proxy, split into those that may be chosen
/// and those that may not.
pub struct UpstreamPool {
    alive: Vec<String>,
    dead: Vec<String>,
}

impl View for UpstreamPool {
    type V = PoolView;

    closed spec fn view(&self) -> PoolView {
        PoolView { alive: self.alive.deep_view(), dead: self.dead.deep_view() }
    }
}

/// Whether `addr` is one of `list`.
fn holds(list: &Vec<String>, addr: &String) -> (found: bool)
    ensures
        found == list.deep_view().contains(addr@),
{
    let mut i: usize = 0;
    while i < list.len()
        invariant
            i <= list@.len(),
            forall|j: int| 0 <= j < i ==> list.deep_view()[j] != addr@,
        decreases list@.len() - i,
    {
        if list[i] == *addr {
            assert(list.deep_view()[i as int] == addr@);
            return true;
        }
        i += 1;
    }
    false
}

/// A copy of `list`.
fn copy_of(list: &Vec<String>) -> (out: Vec<String>)
    ensures
        out.deep_view() == list.deep_view(),
{
    let mut out: Vec<String> = Vec::new();
    let mut i: usize = 0;
    while i < list.len()
        invariant
            i <= list@.len(),
            out@.len() == i,
            forall|j: int| 0 <= j < i ==> out@[j]@ == list@[j]@,
        decreases list@.len() - i,
    {
        out.push(list[i].clone());
        i += 1;
    }
    assert(out.deep_view() =~= list.deep_view());
    out
}

impl UpstreamPool {
    #[verifier::type_invariant]
    spec fn inv(&self) -> bool {
        self@.wf()
    }

    /// A pool in which every configured address is alive. An address that is
    /// configured more than once counts once, at its first place.
    pub fn new(upstreams: Vec<String>) -> (pool: UpstreamPool)
        ensures
            pool@.alive == first_occurrences(upstreams.deep_view()),
            upstreams.deep_view().no_duplicates() ==> pool@.alive == upstreams.deep_view(),
            pool@.dead.len() == 0,
            pool@.wf(),
            pool@.addresses() == upstreams.deep_view().to_set(),
    {
        let ghost given = upstreams.deep_view();
        proof {
            if given.no_duplicates() {
                lemma_first_occurrences_fixed(given);
            }
        }
        let mut alive: Vec<String> = Vec::new();
        let mut i: usize = 0;
        assert(given.take(0) =~= Seq::<Seq<char>>::empty());
        assert(alive.deep_view() =~= Seq::<Seq<char>>::empty());
        while i < upstreams.len()
            invariant
                i <= upstreams@.len(),
                given == upstreams.deep_view(),
                alive.deep_view() == first_occurrences(given.take(i as int)),
            decreases upstreams@.len() - i,
        {
            proof {
                assert(given.take(i + 1).drop_last() =~= given.take(i as int));
                assert(given.take(i + 1).last() == upstreams@[i as int]@);
            }
            if !holds(&alive, &upstreams[i]) {
                let ghost before = alive.deep_view();
                alive.push(upstreams[i].clone());
                assert(alive.deep_view() =~= before.push(upstreams@[i as int]@));
            }
            i += 1;
        }
        let dead: Vec<String> = Vec::new();
        proof {
            assert(given.take(given.len() as int) =~= given);
            assert(dead.deep_view() =~= Seq::<Seq<char>>::empty());
            lemma_first_occurrences(given);
            let v = PoolView { alive: alive.deep_view(), dead: dead.deep_view() };
            assert(v.addresses() =~= given.to_set());
        }
        UpstreamPool { alive, dead }
    }

    /// How many addresses may be chosen.
    pub fn alive_count(&self) -> (n: usize)
        ensures
            n == self@.alive.len(),
    {
        self.alive.len()
    }

    /// How many addresses are excluded.
    pub fn dead_count(&self) -> (n: usize)
        ensures
            n == self@.dead.len(),
    {
        self.dead.len()
    }

    /// The addresses that may be chosen, in order.
    pub fn alive(&self) -> (out: Vec<String>)
        ensures
            out.deep_view() == self@.alive,
    {
        copy_of(&self.alive)
    }

    /// The addresses that are excluded, in the order in which they were
    /// found dead.
    pub fn dead(&self) -> (out: Vec<String>)
        ensures
            out.deep_view() == self@.dead,
    {
        copy_of(&self.dead)
    }

    /// Whether `addr` is currently excluded.
    pub fn is_dead(&self, addr: &String) -> (b: bool)
        ensures
            b == self@.dead.contains(addr@),
    {
        holds(&self.dead, addr)
    }

    /// Picks one alive address at random and returns it with its index in
    /// `alive`: `None` exactly if no address is alive. The address returned
    /// is never a dead one.
    pub fn select(&self) -> (choice: Option<(usize, String)>)
        ensures
            choice.is_none() <==> self@.alive.len() == 0,
            choice matches Some((idx, addr)) ==> {
                &&& idx < self@.alive.len()
                &&& addr@ == self@.alive[idx as int]
                &&& !self@.dead.contains(addr@)
            },
            self@.wf(),
    {
        proof {
            use_type_invariant(self);
        }
        let n = self.alive.len();
        if n > 0 {
            let mut rng = entropy_rng();
            let idx = draw_below(&mut rng, n);
            let addr = self.alive[idx].clone();
            proof {
                assert(self@.alive[idx as int] == addr@);
                assert(self@.alive.contains(addr@));
            }
            Some((idx, addr))
        } else {
            None
        }
    }

    /// Declares the alive address at `idx` dead, as failover does after a
    /// connection attempt to it has failed. The index is checked anew: one
    /// that is out of range by now changes nothing. Every call with an index
    /// in range leaves one alive address fewer.
    pub fn mark_dead(&mut self, idx: usize)
        ensures
            final(self)@ == old(self)@.mark_dead(idx as int),
            final(self)@.wf(),
            final(self)@.addresses() == old(self)@.addresses(),
            idx < old(self)@.alive.len() ==> final(self)@.alive.len() == old(self)@.alive.len() - 1,
    {
        proof {
            use_type_invariant(&*self);
            lemma_mark_dead(self@, idx as int);
        }
        if idx < self.alive.len() {
            let ghost before = self@;
            let mut taken = UpstreamPool { alive: Vec::new(), dead: Vec::new() };
            std::mem::swap(self, &mut taken);
            let UpstreamPool { mut alive, mut dead } = taken;
            let addr = alive.swap_remove(idx);
            dead.push(addr);
            proof {
                assert(alive.deep_view() =~= before.mark_dead(idx as int).alive);
                assert(dead.deep_view() =~= before.mark_dead(idx as int).dead);
            }
            *self = UpstreamPool { alive, dead };
        }
    }

    /// The addresses that a health-check pass probes, in probe order.
    pub fn probe_targets(&self) -> (targets: Vec<String>)
        ensures
            targets.deep_view() == self@.probe_order(),
    {
        let mut targets = copy_of(&self.alive);
        let mut j: usize = 0;
        while j < self.dead.len()
            invariant
                j <= self.dead@.len(),
                targets.deep_view() == self.alive.deep_view() + self.dead.deep_view().take(
                    j as int,
                ),
            decreases self.dead@.len() - j,
        {
            let ghost before = targets.deep_view();
            targets.push(self.dead[j].clone());
            proof {
                assert(targets.deep_view() =~= before.push(self.dead@[j as int]@));
                assert(self.dead.deep_view().take(j + 1) =~= self.dead.deep_view().take(
                    j as int,
                ).push(self.dead@[j as int]@));
            }
            j += 1;
        }
        proof {
            assert(self.dead.deep_view().take(self.dead@.len() as int) =~= self.dead.deep_view());
        }
        targets
    }

    /// Ends a health-check pass: replaces both sides at once. The `i`-th
    /// verdict belongs to the `i`-th address of `probe_targets`; an address
    /// is alive afterwards exactly if its verdict is `true`. An address
    /// without a verdict counts as failed, and a verdict without an address
    /// is not read.
    pub fn republish(&mut self, verdicts: &Vec<bool>)
        ensures
            final(self)@ == old(self)@.republish(verdicts@),
            final(self)@.wf(),
            final(self)@.addresses() == old(self)@.addresses(),
    {
        proof {
            use_type_invariant(&*self);
            lemma_republish(self@, verdicts@);
        }
        let ghost all = self@.probe_order();
        let targets = self.probe_targets();
        let mut alive: Vec<String> = Vec::new();
        let mut dead: Vec<String> = Vec::new();
        let mut i: usize = 0;
        proof {
            assert(all.take(0) =~= Seq::<Seq<char>>::empty());
            assert(alive.deep_view() =~= Seq::<Seq<char>>::empty());
            assert(dead.deep_view() =~= Seq::<Seq<char>>::empty());
        }
        while i < targets.len()
            invariant
                i <= targets@.len(),
                targets.deep_view() == all,
                alive.deep_view() == kept(all.take(i as int), verdicts@, true),
                dead.deep_view() == kept(all.take(i as int), verdicts@, false),
            decreases targets@.len() - i,
        {
            proof {
                assert(all.take(i + 1).drop_last() =~= all.take(i as int));
                assert(all.take(i + 1).last() == targets@[i as int]@);
            }
            if i < verdicts.len() && verdicts[i] {
                let ghost before = alive.deep_view();
                alive.push(targets[i].clone());
                assert(alive.deep_view() =~= before.push(targets@[i as int]@));
            } else {
                let ghost before = dead.deep_view();
                dead.push(targets[i].clone());
                assert(dead.deep_view() =~= before.push(targets@[i as int]@));
            }
            i += 1;
        }
        proof {
            assert(all.take(all.len() as int) =~= all);
        }
        *self = UpstreamPool { alive, dead };
    }
}

} // verus!
