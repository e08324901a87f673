//! FIFO scheduling: agents run in the order they became ready.
//!
//! Blocked or terminated agents are dropped from the ready set at once and
//! from the queue lazily: `next_to_run` skips queue entries that are no
//! longer ready.

use vstd::prelude::*;
use std::collections::{HashSet, VecDeque};
use crate::{AgentId, BlockReason, TerminationReason};
use crate::record::SchedulingContext;
use super::{Scheduler, SchedulingEvent};

verus! {

broadcast use vstd::std_specs::hash::group_hash_axioms;

/// FIFO scheduler.
#[derive(Debug)]
pub struct FifoScheduler {
    /// Agents in the order they became ready; may hold stale entries.
    queue: VecDeque<AgentId>,
    /// The ready agents, by identifier value.
    active: HashSet<u128>,
}

/// Position of the first entry of `q` that is in `ready` (or `q.len()`).
pub open spec fn first_ready(q: Seq<AgentId>, ready: Set<AgentId>) -> int
    decreases q.len(),
{
    if q.len() == 0 {
        0
    } else if ready.contains(q[0]) {
        0
    } else {
        1 + first_ready(q.drop_first(), ready)
    }
}

proof fn lemma_first_ready(q: Seq<AgentId>, ready: Set<AgentId>)
    ensures
        0 <= first_ready(q, ready) <= q.len(),
        first_ready(q, ready) < q.len() ==> ready.contains(q[first_ready(q, ready)]),
        forall|j: int| 0 <= j < first_ready(q, ready) ==> !ready.contains(#[trigger] q[j]),
    decreases q.len(),
{
    if q.len() > 0 && !ready.contains(q[0]) {
        lemma_first_ready(q.drop_first(), ready);
        assert forall|j: int| 0 <= j < first_ready(q, ready) implies !ready.contains(#[trigger] q[j]) by {
            if j > 0 {
                assert(q[j] == q.drop_first()[j - 1]);
            }
        }
    }
}

/// Whether an entry is another agent than `a`.
pub open spec fn other_agent(a: AgentId) -> spec_fn(AgentId) -> bool {
    |x: AgentId| x != a
}

/// Agents whose identifier value is in `act`.
pub open spec fn agents_of(act: Set<u128>) -> Set<AgentId> {
    Set::new(|a: AgentId| act.contains(a.0))
}

proof fn lemma_agents_of_len(act: Set<u128>)
    requires
        act.finite(),
    ensures
        agents_of(act).finite(),
        agents_of(act).len() == act.len(),
{
    let f = |k: u128| AgentId(k);
    assert(act.map(f) =~= agents_of(act)) by {
        assert forall|a: AgentId| agents_of(act).contains(a) implies act.map(f).contains(a) by {
            assert(act.contains(a.0) && a == f(a.0));
        }
    }
    vstd::set_lib::lemma_map_size(act, agents_of(act), f);
}

impl FifoScheduler {
    /// The queue, oldest first; it may hold agents that are no longer ready.
    pub closed spec fn queue_view(&self) -> Seq<AgentId> {
        self.queue@
    }

    /// Create a FIFO scheduler with an empty queue.
    pub fn new() -> (s: Self)
        ensures
            s.inv(),
            s.queue_view().len() == 0,
            s.ready_set() == Set::<AgentId>::empty(),
    {
        let s = FifoScheduler { queue: VecDeque::new(), active: HashSet::new() };
        assert(s.ready_set() =~= Set::<AgentId>::empty());
        s
    }

    /// Every state the scheduler reaches keeps each ready agent in its
    /// queue, with finitely many ready agents, so `lemma_fifo_drains` holds
    /// of its queue and ready set.
    pub proof fn lemma_ready_queued(&self)
        requires
            self.inv(),
        ensures
            self.ready_set().finite(),
            forall|a: AgentId| #[trigger] self.ready_set().contains(a) ==> self.queue_view().contains(a),
    {
        lemma_agents_of_len(self.active@);
    }

    /// The number of queue entries, stale ones included.
    pub fn queue_len(&self) -> (r: usize)
        ensures
            r == self.queue_view().len(),
    {
        self.queue.len()
    }

    /// Whether the agent is ready.
    pub fn is_ready(&self, agent_id: AgentId) -> (r: bool)
        ensures
            r == self.ready_set().contains(agent_id),
    {
        self.active.contains(&agent_id.0)
    }

    fn mark_ready(&mut self, agent_id: AgentId)
        requires
            old(self).inv(),
        ensures
            final(self).inv(),
            final(self).ready_set() == old(self).ready_set().insert(agent_id),
            old(self).ready_set().contains(agent_id) ==> final(self).queue_view() == old(self).queue_view(),
            !old(self).ready_set().contains(agent_id) ==> final(self).queue_view() == old(
                self,
            ).queue_view().filter(other_agent(agent_id)).push(agent_id),
    {
        let ghost q0 = self.queue@;
        if self.active.insert(agent_id.0) {
            let n = self.queue.len();
            let mut kept: VecDeque<AgentId> = VecDeque::new();
            let mut j: usize = 0;
            proof {
                reveal(Seq::filter);
                assert(q0.take(0) =~= Seq::<AgentId>::empty());
            }
            while j < n
                invariant
                    n == q0.len(),
                    self.queue@ == q0,
                    j <= n,
                    kept@ == q0.take(j as int).filter(other_agent(agent_id)),
                decreases n - j,
            {
                let x = self.queue[j];
                proof {
                    assert(q0.take(j + 1) =~= q0.take(j as int).push(x));
                    q0.take(j as int).lemma_filter_push(x, other_agent(agent_id));
                }
                if x != agent_id {
                    kept.push_back(x);
                }
                j = j + 1;
            }
            proof {
                assert(q0.take(n as int) =~= q0);
            }
            self.queue = kept;
            self.queue.push_back(agent_id);
            proof {
                let f = q0.filter(other_agent(agent_id));
                assert(self.queue@ == f.push(agent_id));
                assert(self.queue@[self.queue@.len() - 1] == agent_id);
                assert forall|a: AgentId| self.active@.contains(a.0) implies self.queue@.contains(a) by {
                    if a != agent_id {
                        assert(old(self).active@.contains(a.0));
                        assert(q0.contains(a));
                        let k = choose|k: int| 0 <= k < q0.len() && q0[k] == a;
                        q0.lemma_filter_contains(other_agent(agent_id), k);
                        let m = choose|m: int| 0 <= m < f.len() && f[m] == a;
                        assert(self.queue@[m] == a);
                    } else {
                        assert(self.queue@[self.queue@.len() - 1] == a);
                    }
                }
            }
        }
        assert(self.ready_set() =~= old(self).ready_set().insert(agent_id));
    }

    fn mark_not_ready(&mut self, agent_id: AgentId)
        requires
            old(self).inv(),
        ensures
            final(self).inv(),
            final(self).ready_set() == old(self).ready_set().remove(agent_id),
            final(self).queue_view() == old(self).queue_view(),
    {
        self.active.remove(&agent_id.0);
        assert(self.ready_set() =~= old(self).ready_set().remove(agent_id));
    }
}

impl Default for FifoScheduler {
    fn default() -> (s: Self)
        ensures
            s.inv(),
            s.queue_view().len() == 0,
            s.ready_set() == Set::<AgentId>::empty(),
    {
        FifoScheduler::new()
    }
}

impl Scheduler for FifoScheduler {
    /// Every ready agent has an entry in the queue.
    closed spec fn inv(&self) -> bool {
        &&& self.active@.finite()
        &&& forall|a: AgentId| self.active@.contains(a.0) ==> self.queue@.contains(a)
    }

    closed spec fn ready_set(&self) -> Set<AgentId> {
        agents_of(self.active@)
    }

    /// Pops queue entries, skipping those no longer ready, and returns the
    /// first ready one.
    fn next_to_run(&mut self) -> (r: Option<AgentId>)
        ensures
            ({
                let i = first_ready(old(self).queue_view(), old(self).ready_set());
                &&& i < old(self).queue_view().len() ==> r == Some(old(self).queue_view()[i])
                    && final(self).queue_view() == old(self).queue_view().skip(i + 1)
                &&& i == old(self).queue_view().len() ==> r is None && final(self).queue_view().len() == 0
            }),
            popped(old(self).queue_view(), old(self).ready_set(), final(self).queue_view(), final(self).ready_set(), r),
    {
        let ghost q0 = self.queue@;
        let ghost act0 = self.active@;
        let ghost r0 = agents_of(act0);
        proof {
            lemma_first_ready(q0, r0);
        }
        let len: usize = self.queue.len();
        let mut skipped: usize = 0;
        loop
            invariant
                len == q0.len(),
                q0 == old(self).queue@,
                act0 == old(self).active@,
                self.active@ == act0,
                self.active@.finite(),
                skipped <= q0.len(),
                self.queue@ == q0.skip(skipped as int),
                r0 == agents_of(act0),
                forall|j: int| 0 <= j < skipped ==> !r0.contains(#[trigger] q0[j]),
                0 <= first_ready(q0, r0) <= q0.len(),
                first_ready(q0, r0) < q0.len() ==> r0.contains(q0[first_ready(q0, r0)]),
                forall|j: int| 0 <= j < first_ready(q0, r0) ==> !r0.contains(#[trigger] q0[j]),
                forall|a: AgentId| act0.contains(a.0) ==> q0.contains(a),
            decreases self.queue@.len(),
        {
            match self.queue.pop_front() {
                Some(agent_id) => {
                    proof {
                        assert(agent_id == q0[skipped as int]);
                        assert(q0.skip(skipped as int).drop_first() =~= q0.skip(skipped + 1));
                    }
                    if self.active.contains(&agent_id.0) {
                        self.active.remove(&agent_id.0);
                        proof {
                            assert(r0.contains(agent_id));
                            assert(first_ready(q0, r0) == skipped) by {
                                if first_ready(q0, r0) < skipped {
                                    assert(!r0.contains(q0[first_ready(q0, r0)]));
                                }
                            }
                            assert(self.ready_set() =~= agents_of(act0).remove(agent_id));
                            assert forall|a: AgentId| self.active@.contains(a.0) implies self.queue@.contains(a) by {
                                assert(act0.contains(a.0));
                                assert(q0.contains(a));
                                let j = choose|j: int| 0 <= j < q0.len() && q0[j] == a;
                                assert(r0.contains(q0[j]));
                                assert(j >= skipped);
                                assert(j != skipped);
                                assert(self.queue@[j - skipped - 1] == a);
                            }
                            assert forall|n: nat|
                                picks(q0, r0, n + 1) == seq![agent_id] + #[trigger] picks(
                                    self.queue@,
                                    self.ready_set(),
                                    n,
                                ) by {
                                assert(q0[skipped as int] == agent_id);
                            }
                        }
                        return Some(agent_id);
                    }
                    assert(!r0.contains(q0[skipped as int]));
                    skipped = skipped + 1;
                },
                None => {
                    proof {
                        assert(skipped == q0.len());
                        assert(first_ready(q0, r0) == q0.len()) by {
                            if first_ready(q0, r0) < q0.len() {
                                assert(!r0.contains(q0[first_ready(q0, r0)]));
                            }
                        }
                        assert(act0 =~= Set::<u128>::empty()) by {
                            assert forall|k: u128| !act0.contains(k) by {
                                if act0.contains(k) {
                                    let a = AgentId(k);
                                    assert(act0.contains(a.0));
                                    assert(q0.contains(a));
                                    let j = choose|j: int| 0 <= j < q0.len() && q0[j] == a;
                                    assert(r0.contains(q0[j]));
                                    assert(!r0.contains(q0[j]));
                                }
                            }
                        }
                        assert(agents_of(act0) =~= Set::<AgentId>::empty());
                        assert forall|n: nat| #[trigger] picks(q0, r0, n) == Seq::<AgentId>::empty() by {
                            if n > 0 {
                                assert(first_ready(q0, r0) == q0.len());
                            }
                        }
                    }
                    return None;
                },
            }
        }
    }

    /// Re-adds the agent at the back (once: an agent already ready keeps
    /// its place).
    fn on_yield(&mut self, agent_id: AgentId)
        ensures
            old(self).ready_set().contains(agent_id) ==> final(self).queue_view() == old(self).queue_view(),
            !old(self).ready_set().contains(agent_id) ==> final(self).queue_view() == old(
                self,
            ).queue_view().filter(other_agent(agent_id)).push(agent_id),
    {
        self.mark_ready(agent_id);
    }

    fn on_block(&mut self, agent_id: AgentId, _reason: BlockReason)
        ensures
            final(self).queue_view() == old(self).queue_view(),
    {
        self.mark_not_ready(agent_id);
    }

    /// Adds the agent at the back of the queue unless it is already ready.
    fn on_ready(&mut self, agent_id: AgentId)
        ensures
            old(self).ready_set().contains(agent_id) ==> final(self).queue_view() == old(self).queue_view(),
            !old(self).ready_set().contains(agent_id) ==> final(self).queue_view() == old(
                self,
            ).queue_view().filter(other_agent(agent_id)).push(agent_id),
    {
        self.mark_ready(agent_id);
    }

    fn on_terminate(&mut self, agent_id: AgentId, _reason: TerminationReason)
        ensures
            final(self).queue_view() == old(self).queue_view(),
    {
        self.mark_not_ready(agent_id);
    }

    /// FIFO ignores events.
    fn on_event(&mut self, _event: SchedulingEvent)
        ensures
            *final(self) == *old(self),
    {
    }

    /// FIFO ignores context changes.
    fn update_agent_context(&mut self, _agent_id: AgentId, _context: &SchedulingContext)
        ensures
            *final(self) == *old(self),
    {
    }

    fn ready_count(&self) -> (r: usize) {
        proof {
            lemma_agents_of_len(self.active@);
        }
        self.active.len()
    }
}

/// What one call of `next_to_run` did, from queue `q0` and ready set `r0`
/// to `q1` and `r1`, answering `r`: an agent handed out was ready, leaves
/// the ready set and heads what the following calls would hand out; with
/// none handed out, no later call hands out anything either.
pub open spec fn popped(
    q0: Seq<AgentId>,
    r0: Set<AgentId>,
    q1: Seq<AgentId>,
    r1: Set<AgentId>,
    r: Option<AgentId>,
) -> bool {
    &&& r matches Some(a) ==> {
        &&& r0.contains(a)
        &&& r1 == r0.remove(a)
        &&& forall|n: nat| picks(q0, r0, n + 1) == seq![a] + #[trigger] picks(q1, r1, n)
    }
    &&& r is None ==> r1 == r0 && forall|n: nat| #[trigger] picks(q0, r0, n) == Seq::<AgentId>::empty()
}

/// The queue and ready set after the agents of `s` become ready, in order
/// (the effect of `on_ready`, one agent after another).
pub open spec fn after_ready(q: Seq<AgentId>, ready: Set<AgentId>, s: Seq<AgentId>) -> (Seq<AgentId>, Set<AgentId>)
    decreases s.len(),
{
    if s.len() == 0 {
        (q, ready)
    } else {
        let (q1, r1) = after_ready(q, ready, s.drop_last());
        let a = s.last();
        (if r1.contains(a) { q1 } else { q1.filter(other_agent(a)).push(a) }, r1.insert(a))
    }
}

/// The agents that `n` calls of `next_to_run` hand out from queue `q` with
/// ready set `ready`, in order (fewer when the ready set runs dry).
pub open spec fn picks(q: Seq<AgentId>, ready: Set<AgentId>, n: nat) -> Seq<AgentId>
    decreases n,
{
    if n == 0 {
        Seq::empty()
    } else {
        let i = first_ready(q, ready);
        if i < q.len() {
            seq![q[i]] + picks(q.skip(i + 1), ready.remove(q[i]), (n - 1) as nat)
        } else {
            Seq::empty()
        }
    }
}

proof fn lemma_filter_keeps_all(s: Seq<AgentId>, a: AgentId)
    requires
        !s.contains(a),
    ensures
        s.filter(other_agent(a)) == s,
    decreases s.len(),
{
    reveal(Seq::filter);
    if s.len() > 0 {
        assert(!s.drop_last().contains(a)) by {
            if s.drop_last().contains(a) {
                let j = choose|j: int| 0 <= j < s.drop_last().len() && s.drop_last()[j] == a;
                assert(s[j] == a);
            }
        }
        lemma_filter_keeps_all(s.drop_last(), a);
        assert(s.last() != a) by {
            assert(s[s.len() - 1] == s.last());
        }
        assert(s.drop_last().push(s.last()) =~= s);
    }
}

/// The queue after distinct agents become ready with none ready before:
/// entries of other agents (stale ones), then the agents in order.
proof fn lemma_after_ready_fresh(q: Seq<AgentId>, s: Seq<AgentId>) -> (pre: Seq<AgentId>)
    requires
        s.no_duplicates(),
    ensures
        after_ready(q, Set::empty(), s) == (pre + s, s.to_set()),
        forall|j: int| 0 <= j < pre.len() ==> !s.contains(#[trigger] pre[j]),
    decreases s.len(),
{
    if s.len() == 0 {
        assert(q + s =~= q);
        q
    } else {
        let init = s.drop_last();
        let a = s.last();
        assert(init.no_duplicates()) by {
            assert forall|i: int, j: int| 0 <= i < j < init.len() implies init[i] != init[j] by {
                assert(s[i] != s[j]);
            }
        }
        let p = lemma_after_ready_fresh(q, init);
        assert(!init.contains(a)) by {
            if init.contains(a) {
                let j = choose|j: int| 0 <= j < init.len() && init[j] == a;
                assert(s[j] == s[s.len() - 1]);
            }
        }
        assert(!init.to_set().contains(a));
        Seq::filter_distributes_over_add(p, init, other_agent(a));
        lemma_filter_keeps_all(init, a);
        let p2 = p.filter(other_agent(a));
        assert((p + init).filter(other_agent(a)) == p2 + init);
        assert((p2 + init).push(a) =~= p2 + s);
        assert forall|j: int| 0 <= j < p2.len() implies !s.contains(#[trigger] p2[j]) by {
            p.lemma_filter_pred(other_agent(a), j);
            assert(p.filter(other_agent(a)).contains(p2[j]));
            p.lemma_filter_contains_rev(other_agent(a), p2[j]);
            let k = choose|k: int| 0 <= k < p.len() && p[k] == p2[j];
            assert(!init.contains(p[k]));
            if s.contains(p2[j]) {
                let m = choose|m: int| 0 <= m < s.len() && s[m] == p2[j];
                if m < s.len() - 1 {
                    assert(init[m] == p2[j]);
                }
            }
        }
        assert(init.to_set().insert(a) =~= s.to_set()) by {
            assert forall|x: AgentId| s.to_set().contains(x) implies init.to_set().insert(a).contains(x) by {
                let j = choose|j: int| 0 <= j < s.len() && s[j] == x;
                if j < s.len() - 1 {
                    assert(init[j] == x);
                }
            }
            assert forall|x: AgentId| init.to_set().insert(a).contains(x) implies s.to_set().contains(x) by {
                if x != a {
                    let j = choose|j: int| 0 <= j < init.len() && init[j] == x;
                    assert(s[j] == x);
                }
            }
        }
        p2
    }
}

proof fn lemma_first_ready_past_stale(q: Seq<AgentId>, t: Seq<AgentId>, ready: Set<AgentId>)
    requires
        forall|j: int| 0 <= j < q.len() ==> !ready.contains(#[trigger] q[j]),
        t.len() > 0,
        ready.contains(t[0]),
    ensures
        first_ready(q + t, ready) == q.len(),
    decreases q.len(),
{
    if q.len() == 0 {
        assert((q + t)[0] == t[0]);
    } else {
        assert((q + t)[0] == q[0]);
        assert((q + t).drop_first() =~= q.drop_first() + t);
        assert forall|j: int| 0 <= j < q.drop_first().len() implies !ready.contains(#[trigger] q.drop_first()[j]) by {
            assert(q.drop_first()[j] == q[j + 1]);
        }
        lemma_first_ready_past_stale(q.drop_first(), t, ready);
    }
}

proof fn lemma_picks_in_order(q: Seq<AgentId>, s: Seq<AgentId>)
    requires
        s.no_duplicates(),
        forall|j: int| 0 <= j < q.len() ==> !s.contains(#[trigger] q[j]),
    ensures
        picks(q + s, s.to_set(), s.len()) == s,
    decreases s.len(),
{
    if s.len() > 0 {
        let rest = s.drop_first();
        assert(s.to_set().contains(s[0]));
        assert forall|j: int| 0 <= j < q.len() implies !s.to_set().contains(#[trigger] q[j]) by {
            assert(!s.contains(q[j]));
        }
        lemma_first_ready_past_stale(q, s, s.to_set());
        assert((q + s)[q.len() as int] == s[0]);
        assert((q + s).skip(q.len() as int + 1) =~= Seq::<AgentId>::empty() + rest);
        assert(s.to_set().remove(s[0]) =~= rest.to_set()) by {
            assert forall|a: AgentId| s.to_set().remove(s[0]).contains(a) implies rest.to_set().contains(a) by {
                let j = choose|j: int| 0 <= j < s.len() && s[j] == a;
                assert(j != 0);
                assert(rest[j - 1] == a);
            }
            assert forall|a: AgentId| rest.to_set().contains(a) implies s.to_set().remove(s[0]).contains(a) by {
                let j = choose|j: int| 0 <= j < rest.len() && rest[j] == a;
                assert(s[j + 1] == a);
            }
        }
        assert(rest.no_duplicates()) by {
            assert forall|i: int, j: int| 0 <= i < j < rest.len() implies rest[i] != rest[j] by {
                assert(s[i + 1] != s[j + 1]);
            }
        }
        lemma_picks_in_order(Seq::empty(), rest);
        assert(picks(q + s, s.to_set(), s.len()) =~= seq![s[0]] + rest);
        assert(seq![s[0]] + rest =~= s);
    }
}

/// `first_ready` is the one slot that holds a ready agent with none before
/// it (or the length, when no slot does).
proof fn lemma_first_ready_unique(q: Seq<AgentId>, ready: Set<AgentId>, i: int)
    requires
        0 <= i <= q.len(),
        i < q.len() ==> ready.contains(q[i]),
        forall|j: int| 0 <= j < i ==> !ready.contains(#[trigger] q[j]),
    ensures
        first_ready(q, ready) == i,
{
    lemma_first_ready(q, ready);
    let k = first_ready(q, ready);
    if k < i {
        assert(!ready.contains(q[k]));
    } else if i < k {
        assert(!ready.contains(q[i]));
    }
}

/// With `a` in no entry of `t` and not ready, and every ready agent in
/// `t`: once `a` is queued behind `t` and ready, the ready agents come out
/// as from `t`, then `a`.
proof fn lemma_picks_then_last(t: Seq<AgentId>, ready: Set<AgentId>, a: AgentId)
    requires
        ready.finite(),
        !ready.contains(a),
        !t.contains(a),
        forall|x: AgentId| #[trigger] ready.contains(x) ==> t.contains(x),
    ensures
        picks(t.push(a), ready.insert(a), ready.len() + 1) == picks(t, ready, ready.len()).push(a),
    decreases ready.len(),
{
    let r1 = ready.insert(a);
    let u = t.push(a);
    lemma_first_ready(t, ready);
    let i = first_ready(t, ready);
    if ready.len() == 0 {
        assert(ready =~= Set::<AgentId>::empty()) by {
            if exists|x: AgentId| ready.contains(x) {
                let x = choose|x: AgentId| ready.contains(x);
                assert(ready.remove(x).len() == ready.len() - 1);
            }
        }
        assert forall|j: int| 0 <= j < t.len() implies !r1.contains(#[trigger] u[j]) by {
            assert(u[j] == t[j]);
            assert(t.contains(t[j]));
        }
        lemma_first_ready_unique(u, r1, t.len() as int);
        assert(u.skip(t.len() as int + 1) =~= Seq::<AgentId>::empty());
        assert(r1.remove(a) =~= Set::<AgentId>::empty());
        assert(u[t.len() as int] == a);
        assert(picks(u.skip(t.len() as int + 1), r1.remove(a), 0) =~= Seq::<AgentId>::empty());
        assert(picks(u, r1, 1) =~= seq![a]);
        assert(picks(t, ready, 0) =~= Seq::<AgentId>::empty());
    } else {
        let x0 = ready.choose();
        assert(ready.contains(x0));
        let k0 = choose|k: int| 0 <= k < t.len() && t[k] == x0;
        assert(i <= k0) by {
            if i > k0 {
                assert(!ready.contains(t[k0]));
            }
        }
        let x = t[i];
        assert(x != a);
        assert forall|j: int| 0 <= j < i implies !r1.contains(#[trigger] u[j]) by {
            assert(u[j] == t[j]);
            assert(t.contains(t[j]));
        }
        assert(u[i] == x);
        lemma_first_ready_unique(u, r1, i);
        let t2 = t.skip(i + 1);
        let r2 = ready.remove(x);
        assert(u.skip(i + 1) =~= t2.push(a));
        assert(r1.remove(x) =~= r2.insert(a));
        assert(!t2.contains(a)) by {
            if t2.contains(a) {
                let k = choose|k: int| 0 <= k < t2.len() && t2[k] == a;
                assert(t[k + i + 1] == a);
            }
        }
        assert forall|y: AgentId| #[trigger] r2.contains(y) implies t2.contains(y) by {
            let k = choose|k: int| 0 <= k < t.len() && t[k] == y;
            assert(k != i);
            assert(k > i) by {
                if k < i {
                    assert(!ready.contains(t[k]));
                }
            }
            assert(t2[k - i - 1] == y);
        }
        lemma_picks_then_last(t2, r2, a);
        assert(r2.len() + 1 == ready.len());
        assert(picks(u, r1, ready.len() + 1) == seq![x] + picks(t2.push(a), r2.insert(a), ready.len()));
        assert(picks(t, ready, ready.len()) == seq![x] + picks(t2, r2, r2.len()));
        assert(seq![x] + picks(t2, r2, r2.len()).push(a) =~= (seq![x] + picks(t2, r2, r2.len())).push(a));
    }
}

/// An agent that becomes ready runs after every agent already ready: with
/// each ready agent queued and `a` not ready, `on_ready(a)` leaves a queue
/// from which the next calls of `next_to_run` hand out the agents that were
/// ready, in their queue order with `a`'s earlier entries gone, and then
/// `a`.
pub proof fn lemma_ready_runs_last(q: Seq<AgentId>, ready: Set<AgentId>, a: AgentId)
    requires
        ready.finite(),
        !ready.contains(a),
        forall|x: AgentId| #[trigger] ready.contains(x) ==> q.contains(x),
    ensures
        ({
            let t = q.filter(other_agent(a));
            picks(t.push(a), ready.insert(a), ready.len() + 1) == picks(t, ready, ready.len()).push(a)
        }),
{
    let t = q.filter(other_agent(a));
    assert(!t.contains(a)) by {
        if t.contains(a) {
            let k = choose|k: int| 0 <= k < t.len() && t[k] == a;
            q.lemma_filter_pred(other_agent(a), k);
        }
    }
    assert forall|x: AgentId| #[trigger] ready.contains(x) implies t.contains(x) by {
        let k = choose|k: int| 0 <= k < q.len() && q[k] == x;
        q.lemma_filter_contains(other_agent(a), k);
    }
    lemma_picks_then_last(t, ready, a);
}

/// Agents run in the order they became ready: with no agent ready, when
/// distinct agents become ready one after another, as many calls of
/// `next_to_run` hand them out in that same order, whatever stale entries
/// the queue held before.
pub proof fn lemma_fifo_runs_in_ready_order(q: Seq<AgentId>, s: Seq<AgentId>)
    requires
        s.no_duplicates(),
    ensures
        ({
            let (q1, r1) = after_ready(q, Set::empty(), s);
            picks(q1, r1, s.len()) == s
        }),
{
    let pre = lemma_after_ready_fresh(q, s);
    lemma_picks_in_order(pre, s);
}

/// The ready agents drain: when every ready agent has a queue entry (as
/// the scheduler keeps it), as many calls of `next_to_run` as there are
/// ready agents hand out each of them once, and any further call finds
/// none.
pub proof fn lemma_fifo_drains(q: Seq<AgentId>, ready: Set<AgentId>, n: nat)
    requires
        ready.finite(),
        forall|a: AgentId| #[trigger] ready.contains(a) ==> q.contains(a),
        n >= ready.len(),
    ensures
        picks(q, ready, n).len() == ready.len(),
        picks(q, ready, n).no_duplicates(),
        forall|j: int| 0 <= j < picks(q, ready, n).len() ==> ready.contains(#[trigger] picks(q, ready, n)[j]),
    decreases ready.len(),
{
    lemma_first_ready(q, ready);
    let i = first_ready(q, ready);
    if ready.len() == 0 {
        assert(ready =~= Set::<AgentId>::empty()) by {
            if exists|a: AgentId| ready.contains(a) {
                let a = choose|a: AgentId| ready.contains(a);
                assert(ready.remove(a).len() == ready.len() - 1);
            }
        }
        if n > 0 {
            if i < q.len() {
                assert(ready.contains(q[i]));
            }
        }
    } else {
        let a0 = ready.choose();
        assert(ready.contains(a0));
        assert(q.contains(a0));
        let k0 = choose|k: int| 0 <= k < q.len() && q[k] == a0;
        assert(i <= k0) by {
            if i > k0 {
                assert(!ready.contains(q[k0]));
            }
        }
        let x = q[i];
        let q2 = q.skip(i + 1);
        let r2 = ready.remove(x);
        assert forall|a: AgentId| #[trigger] r2.contains(a) implies q2.contains(a) by {
            let k = choose|k: int| 0 <= k < q.len() && q[k] == a;
            assert(k != i);
            assert(k > i) by {
                if k < i {
                    assert(!ready.contains(q[k]));
                }
            }
            assert(q2[k - i - 1] == a);
        }
        lemma_fifo_drains(q2, r2, (n - 1) as nat);
        let rest = picks(q2, r2, (n - 1) as nat);
        assert(picks(q, ready, n) == seq![x] + rest);
        let all = seq![x] + rest;
        assert forall|j: int| 0 <= j < all.len() implies ready.contains(#[trigger] all[j]) by {
            if j > 0 {
                assert(all[j] == rest[j - 1]);
                assert(r2.contains(rest[j - 1]));
            }
        }
        assert forall|a: int, b: int| 0 <= a < b < all.len() implies all[a] != all[b] by {
            assert(all[b] == rest[b - 1]);
            assert(r2.contains(rest[b - 1]));
            if a > 0 {
                assert(all[a] == rest[a - 1]);
            }
        }
    }
}

/// The agents in `out`, each `Some` unwrapped.
pub open spec fn handed_out(out: Seq<Option<AgentId>>) -> Seq<AgentId> {
    out.map_values(|o: Option<AgentId>| o->Some_0)
}

/// Consecutive calls, each described by `popped`, from state 0 to state
/// `out.len()` of `qs` and `rs`.
pub open spec fn popped_chain(qs: Seq<Seq<AgentId>>, rs: Seq<Set<AgentId>>, out: Seq<Option<AgentId>>) -> bool {
    &&& qs.len() == out.len() + 1
    &&& rs.len() == out.len() + 1
    &&& forall|i: int| 0 <= i < out.len() ==> #[trigger] popped(qs[i], rs[i], qs[i + 1], rs[i + 1], out[i])
}

/// After `i` calls that each handed out an agent, what the first call
/// would start handing out is those agents, then what the next call would.
proof fn lemma_chain_prefix(qs: Seq<Seq<AgentId>>, rs: Seq<Set<AgentId>>, out: Seq<Option<AgentId>>, i: int, n: nat)
    requires
        popped_chain(qs, rs, out),
        0 <= i <= out.len(),
        forall|j: int| 0 <= j < i ==> (#[trigger] out[j]) is Some,
        n >= i,
    ensures
        picks(qs[0], rs[0], n) == handed_out(out.take(i)) + picks(qs[i], rs[i], (n - i) as nat),
        forall|j: int| 0 <= j < i ==> rs[j].contains(#[trigger] out[j]->Some_0) && rs[j + 1] == rs[j].remove(
            out[j]->Some_0,
        ),
    decreases i,
{
    if i == 0 {
        assert(handed_out(out.take(0)) =~= Seq::<AgentId>::empty());
        assert(Seq::<AgentId>::empty() + picks(qs[0], rs[0], n) =~= picks(qs[0], rs[0], n));
    } else {
        lemma_chain_prefix(qs, rs, out, i - 1, n);
        let a = out[i - 1]->Some_0;
        let p = i - 1;
        assert(popped(qs[p], rs[p], qs[p + 1], rs[p + 1], out[p]));
        let m = (n - i) as nat;
        assert(picks(qs[i - 1], rs[i - 1], m + 1) == seq![a] + picks(qs[i], rs[i], m));
        assert((n - (i - 1)) as nat == m + 1);
        assert(handed_out(out.take(i)) =~= handed_out(out.take(i - 1)).push(a));
        assert(handed_out(out.take(i - 1)) + (seq![a] + picks(qs[i], rs[i], m)) =~= handed_out(out.take(i))
            + picks(qs[i], rs[i], m));
    }
}

/// The first `m` calls of a chain that starts with `k` ready agents, all
/// queued, each hand out an agent (for `m` up to `k`).
proof fn lemma_chain_some(qs: Seq<Seq<AgentId>>, rs: Seq<Set<AgentId>>, out: Seq<Option<AgentId>>, m: int)
    requires
        popped_chain(qs, rs, out),
        out.len() == rs[0].len() + 1,
        picks(qs[0], rs[0], rs[0].len()).len() == rs[0].len(),
        0 <= m <= rs[0].len(),
    ensures
        forall|j: int| 0 <= j < m ==> (#[trigger] out[j]) is Some,
    decreases m,
{
    if m > 0 {
        let k = rs[0].len() as int;
        lemma_chain_some(qs, rs, out, m - 1);
        lemma_chain_prefix(qs, rs, out, m - 1, k as nat);
        if out[m - 1] is None {
            let p = m - 1;
            assert(popped(qs[p], rs[p], qs[p + 1], rs[p + 1], out[p]));
            assert(picks(qs[m - 1], rs[m - 1], (k - (m - 1)) as nat) == Seq::<AgentId>::empty());
            assert(handed_out(out.take(m - 1)).len() == m - 1);
        }
    }
}

/// Along a chain of `k` calls that each handed out a ready agent, the ready
/// count drops by one per call.
proof fn lemma_chain_counts(qs: Seq<Seq<AgentId>>, rs: Seq<Set<AgentId>>, out: Seq<Option<AgentId>>, i: int)
    requires
        rs[0].finite(),
        0 <= i <= rs[0].len(),
        rs.len() > rs[0].len(),
        forall|j: int| 0 <= j < rs[0].len() ==> rs[j].contains(#[trigger] out[j]->Some_0) && rs[j + 1] == rs[j].remove(
            out[j]->Some_0,
        ),
    ensures
        forall|j: int| 0 <= j <= i ==> (#[trigger] rs[j]).len() == rs[0].len() - j && rs[j].finite(),
    decreases i,
{
    if i > 0 {
        lemma_chain_counts(qs, rs, out, i - 1);
        assert(rs[i - 1].contains(out[i - 1]->Some_0));
        assert(rs[i] == rs[i - 1].remove(out[i - 1]->Some_0));
    }
}

/// The ready agents drain through the calls themselves: from a state the
/// scheduler reaches (each ready agent queued), as many consecutive calls
/// of `next_to_run` as there are ready agents each hand out an agent,
/// distinct ready ones, the ready count dropping by one each time, and
/// the call after them hands out none.
pub proof fn lemma_calls_drain(qs: Seq<Seq<AgentId>>, rs: Seq<Set<AgentId>>, out: Seq<Option<AgentId>>)
    requires
        popped_chain(qs, rs, out),
        rs[0].finite(),
        forall|a: AgentId| #[trigger] rs[0].contains(a) ==> qs[0].contains(a),
        out.len() == rs[0].len() + 1,
    ensures
        forall|j: int| 0 <= j < rs[0].len() ==> (#[trigger] out[j]) is Some,
        handed_out(out.take(rs[0].len() as int)).no_duplicates(),
        forall|j: int| 0 <= j < rs[0].len() ==> rs[0].contains(#[trigger] out[j]->Some_0),
        forall|j: int| 0 <= j <= rs[0].len() ==> (#[trigger] rs[j]).len() == rs[0].len() - j,
        out[rs[0].len() as int] is None,
{
    let k = rs[0].len() as int;
    lemma_fifo_drains(qs[0], rs[0], k as nat);
    lemma_fifo_drains(qs[0], rs[0], (k + 1) as nat);
    lemma_chain_some(qs, rs, out, k);
    lemma_chain_prefix(qs, rs, out, k, k as nat);
    lemma_chain_prefix(qs, rs, out, k, (k + 1) as nat);
    assert(picks(qs[k], rs[k], 0) == Seq::<AgentId>::empty());
    assert(handed_out(out.take(k)) + Seq::<AgentId>::empty() =~= handed_out(out.take(k)));
    let got = handed_out(out.take(k));
    assert(got == picks(qs[0], rs[0], k as nat));
    assert forall|j: int| 0 <= j < k implies rs[0].contains(#[trigger] out[j]->Some_0) by {
        assert(got[j] == out[j]->Some_0);
    }
    if out[k] is Some {
        assert(popped(qs[k], rs[k], qs[k + 1], rs[k + 1], out[k]));
        assert(picks(qs[k], rs[k], 0 + 1) == seq![out[k]->Some_0] + picks(qs[k + 1], rs[k + 1], 0));
        assert(picks(qs[0], rs[0], (k + 1) as nat).len() == k + 1);
    }
    lemma_chain_counts(qs, rs, out, k);
}

} // verus!
