//! Collects the collaboration events of finished negotiations until they
//! are settled into global trust.

use vstd::prelude::*;
use crate::AgentId;
use super::types::CollaborationEvent;

verus! {

/// The events of `agent` among `s`, in order.
pub open spec fn events_for(s: Seq<(AgentId, CollaborationEvent)>, agent: AgentId) -> Seq<CollaborationEvent>
    decreases s.len(),
{
    if s.len() == 0 {
        Seq::empty()
    } else {
        let rest = events_for(s.drop_last(), agent);
        if s.last().0 == agent {
            rest.push(s.last().1)
        } else {
            rest
        }
    }
}

/// The agents of `s`, each once, in order of first appearance.
pub open spec fn agents_in(s: Seq<(AgentId, CollaborationEvent)>) -> Seq<AgentId>
    decreases s.len(),
{
    if s.len() == 0 {
        Seq::empty()
    } else {
        let rest = agents_in(s.drop_last());
        if rest.contains(s.last().0) {
            rest
        } else {
            rest.push(s.last().0)
        }
    }
}

/// Pending collaboration events, by agent.
#[derive(Debug)]
pub struct CollaborationCollector {
    pending: Vec<(AgentId, CollaborationEvent)>,
}

impl CollaborationCollector {
    /// The pending events with their agents, in the order they were added.
    pub closed spec fn pending_view(&self) -> Seq<(AgentId, CollaborationEvent)> {
        self.pending@
    }

    /// A collector with no pending events.
    pub fn new() -> (c: Self)
        ensures
            c.pending_view() == Seq::<(AgentId, CollaborationEvent)>::empty(),
    {
        let c = CollaborationCollector { pending: Vec::new() };
        assert(c.pending_view() =~= Seq::<(AgentId, CollaborationEvent)>::empty());
        c
    }

    /// Add an event of an agent.
    pub fn add_event(&mut self, agent_id: AgentId, event: CollaborationEvent)
        ensures
            final(self).pending_view() == old(self).pending_view().push((agent_id, event)),
    {
        self.pending.push((agent_id, event));
    }

    /// The number of pending events.
    pub fn pending_count(&self) -> (r: usize)
        ensures
            r == self.pending_view().len(),
    {
        self.pending.len()
    }

    /// Take all pending events, grouped by agent: each agent once, in order
    /// of its first event, with its events in order. Nothing stays pending.
    pub fn take_pending(&mut self) -> (r: Vec<(AgentId, Vec<CollaborationEvent>)>)
        ensures
            final(self).pending_view().len() == 0,
            r@.len() == agents_in(old(self).pending_view()).len(),
            forall|j: int|
                0 <= j < r@.len() ==> (#[trigger] r@[j]).0 == agents_in(old(self).pending_view())[j] && r@[j].1@
                    == events_for(old(self).pending_view(), r@[j].0),
    {
        let ghost p = self.pending@;
        let mut agents: Vec<AgentId> = Vec::new();
        let mut lists: Vec<Vec<CollaborationEvent>> = Vec::new();
        let mut i: usize = 0;
        assert(p.take(0) =~= Seq::<(AgentId, CollaborationEvent)>::empty());
        assert(agents@ =~= agents_in(p.take(0)));
        while i < self.pending.len()
            invariant
                p == self.pending@,
                i <= p.len(),
                agents@ == agents_in(p.take(i as int)),
                lists@.len() == agents@.len(),
                forall|j: int| 0 <= j < lists@.len() ==> (#[trigger] lists@[j])@ == events_for(p.take(i as int), agents@[j]),
                forall|a: AgentId| !agents@.contains(a) ==> events_for(p.take(i as int), a) == Seq::<CollaborationEvent>::empty(),
                agents@.no_duplicates(),
            decreases p.len() - i,
        {
            let (a, e) = self.pending[i];
            let ghost t = p.take(i + 1);
            proof {
                assert(t.drop_last() =~= p.take(i as int));
                assert(t.last() == p[i as int]);
            }
            let mut j: usize = 0;
            while j < agents.len()
                invariant
                    j <= agents@.len(),
                    forall|k: int| 0 <= k < j ==> agents@[k] != a,
                ensures
                    j <= agents@.len(),
                    forall|k: int| 0 <= k < j ==> agents@[k] != a,
                    j < agents@.len() ==> agents@[j as int] == a,
                decreases agents@.len() - j,
            {
                if agents[j] == a {
                    break;
                }
                j = j + 1;
            }
            let ghost l0 = lists@;
            let ghost ag0 = agents@;
            if j < agents.len() {
                lists[j].push(e);
                proof {
                    assert(ag0.contains(a));
                    assert forall|k: int| 0 <= k < lists@.len() implies (#[trigger] lists@[k])@ == events_for(t, agents@[k]) by {
                        if k != j {
                            assert(lists@[k] == l0[k]);
                            assert(agents@[k] != a) by {
                                if agents@[k] == a {
                                    assert(ag0[k] == ag0[j as int]);
                                }
                            }
                        }
                    }
                }
            } else {
                let mut one: Vec<CollaborationEvent> = Vec::new();
                one.push(e);
                agents.push(a);
                lists.push(one);
                proof {
                    assert(!ag0.contains(a)) by {
                        if ag0.contains(a) {
                            let k = choose|k: int| 0 <= k < ag0.len() && ag0[k] == a;
                            assert(ag0[k] != a);
                        }
                    }
                    assert(events_for(p.take(i as int), a) == Seq::<CollaborationEvent>::empty());
                    assert(one@ =~= Seq::<CollaborationEvent>::empty().push(e));
                    assert forall|k: int| 0 <= k < lists@.len() implies (#[trigger] lists@[k])@ == events_for(t, agents@[k]) by {
                        if k < l0.len() {
                            assert(lists@[k] == l0[k]);
                            assert(agents@[k] == ag0[k]);
                        }
                    }
                    assert forall|x: int, y: int| 0 <= x < y < agents@.len() implies agents@[x] != agents@[y] by {
                        if y == ag0.len() {
                            assert(ag0.contains(agents@[x]));
                        }
                    }
                }
            }
            proof {
                assert forall|b: AgentId| !agents@.contains(b) implies events_for(t, b) == Seq::<CollaborationEvent>::empty() by {
                    if b == a {
                        assert(agents@.contains(a)) by {
                            if j < ag0.len() {
                                assert(agents@[j as int] == a);
                            } else {
                                assert(agents@[ag0.len() as int] == a);
                            }
                        }
                    } else {
                        if ag0.contains(b) {
                            let k = choose|k: int| 0 <= k < ag0.len() && ag0[k] == b;
                            assert(agents@[k] == b);
                        }
                    }
                }
            }
            i = i + 1;
        }
        proof {
            assert(p.take(p.len() as int) =~= p);
        }
        let mut groups: Vec<(AgentId, Vec<CollaborationEvent>)> = Vec::new();
        let ghost lists_v = lists@;
        let ghost agents_v = agents@;
        let n = agents.len();
        let mut k: usize = 0;
        while k < n
            invariant
                n == agents_v.len(),
                agents@ == agents_v,
                lists@.len() == n - k,
                forall|x: int| 0 <= x < lists@.len() ==> lists@[x] == lists_v[x + k],
                lists_v.len() == n,
                k <= n,
                groups@.len() == k,
                forall|x: int| 0 <= x < k ==> (#[trigger] groups@[x]).0 == agents_v[x] && groups@[x].1 == lists_v[x],
            decreases n - k,
        {
            let ghost l0 = lists@;
            let list = lists.remove(0);
            groups.push((agents[k], list));
            proof {
                assert forall|x: int| 0 <= x < lists@.len() implies lists@[x] == lists_v[x + k + 1] by {
                    assert(lists@[x] == l0[x + 1]);
                }
            }
            k = k + 1;
        }
        self.pending = Vec::new();
        proof {
            assert(self.pending@.len() == 0);
        }
        groups
    }
}

impl Default for CollaborationCollector {
    fn default() -> (c: Self)
        ensures
            c.pending_view() == Seq::<(AgentId, CollaborationEvent)>::empty(),
    {
        CollaborationCollector::new()
    }
}

} // verus!
