//! Priority queue of packets waiting to be sent.
use vstd::prelude::*;

use crate::packet::Reliability;

verus! {

/// A packet waiting in the scheduler.
#[derive(Debug, Clone)]
pub struct ScheduledPacket {
    pub priority: u8,
    pub seq: u32,
    pub reliability: Reliability,
    pub encoded: Vec<u8>,
    pub payload_preview: String,
}

/// `a` is sent before `b`: higher priority first, and for equal priority the
/// lower sequence number first.
pub open spec fn goes_before(a: ScheduledPacket, b: ScheduledPacket) -> bool {
    a.priority > b.priority || (a.priority == b.priority && a.seq < b.seq)
}

/// `idx` is the packet the scheduler sends next from `q`: nothing in `q` goes
/// before it, and no earlier entry has the same priority and sequence number.
pub open spec fn is_next_index(q: Seq<ScheduledPacket>, idx: int) -> bool {
    &&& 0 <= idx < q.len()
    &&& forall|j: int| 0 <= j < q.len() ==> !goes_before(#[trigger] q[j], q[idx])
    &&& forall|j: int|
        0 <= j < idx ==> !(#[trigger] q[j].priority == q[idx].priority && q[j].seq == q[idx].seq)
}

pub struct PriorityScheduler {
    queue: Vec<ScheduledPacket>,
}

impl View for PriorityScheduler {
    type V = Seq<ScheduledPacket>;

    /// The waiting packets in arrival order.
    closed spec fn view(&self) -> Seq<ScheduledPacket> {
        self.queue@
    }
}

impl PriorityScheduler {
    pub fn new() -> (s: Self)
        ensures
            s@ == Seq::<ScheduledPacket>::empty(),
    {
        Self { queue: Vec::new() }
    }

    pub fn enqueue(&mut self, packet: ScheduledPacket)
        ensures
            final(self)@ == old(self)@.push(packet),
    {
        self.queue.push(packet);
    }

    pub fn len(&self) -> (n: usize)
        ensures
            n == self@.len(),
    {
        self.queue.len()
    }

    pub fn is_empty(&self) -> (b: bool)
        ensures
            b == (self@.len() == 0),
    {
        self.queue.len() == 0
    }

    /// Removes and returns the packet to send next: the highest priority,
    /// and among equal priorities the lowest sequence number.
    pub fn pop_next(&mut self) -> (r: Option<ScheduledPacket>)
        ensures
            old(self)@.len() == 0 ==> r is None && final(self)@ == old(self)@,
            old(self)@.len() > 0 ==> r is Some && pop_step(old(self)@, r->0, final(self)@),
    {
        if self.queue.len() == 0 {
            return None;
        }
        let n = self.queue.len();
        let mut best_index: usize = 0;
        let mut i: usize = 1;
        while i < n
            invariant
                n == self.queue@.len(),
                self.queue@ == old(self)@,
                1 <= i <= n,
                best_index < i,
                forall|j: int| 0 <= j < i ==> !goes_before(#[trigger] self.queue@[j], self.queue@[best_index as int]),
                forall|j: int|
                    0 <= j < best_index ==> !(#[trigger] self.queue@[j].priority
                        == self.queue@[best_index as int].priority && self.queue@[j].seq
                        == self.queue@[best_index as int].seq),
            decreases n - i,
        {
            let best_priority = self.queue[best_index].priority;
            let best_seq = self.queue[best_index].seq;
            let current_priority = self.queue[i].priority;
            let current_seq = self.queue[i].seq;
            if current_priority > best_priority || (current_priority == best_priority
                && current_seq < best_seq) {
                best_index = i;
            }
            i = i + 1;
        }
        let ghost idx = best_index as int;
        assert(is_next_index(old(self)@, idx));
        Some(self.queue.remove(best_index))
    }
}

impl PriorityScheduler {
    /// Pops every packet, one `pop_next` at a time, until the queue is empty;
    /// the packets come out in drain order.
    pub fn drain_in_order(&mut self) -> (out: Vec<ScheduledPacket>)
        ensures
            out@ == drained(old(self)@),
            final(self)@.len() == 0,
    {
        let mut out: Vec<ScheduledPacket> = Vec::new();
        let ghost start = self@;
        assert(out@ + drained(self@) =~= drained(start));
        while !self.is_empty()
            invariant
                out@ + drained(self@) == drained(start),
            decreases self@.len(),
        {
            let ghost before = self@;
            let ghost before_out = out@;
            match self.pop_next() {
                Some(p) => {
                    proof {
                        let idx = choose|idx: int|
                            #![trigger is_next_index(before, idx)]
                            {
                                &&& is_next_index(before, idx)
                                &&& Some(p) == Some(before[idx])
                                &&& self@ == before.remove(idx)
                            };
                        lemma_pop_follows_drain(before, idx);
                    }
                    out.push(p);
                    assert(out@ + drained(self@) =~= before_out + drained(before));
                },
                None => {},
            }
        }
        assert(drained(self@) =~= Seq::<ScheduledPacket>::empty());
        assert(out@ =~= drained(start));
        out
    }
}

/// Packets leave the scheduler in order: a packet popped after another never
/// goes before it.
pub proof fn lemma_pops_in_order(q: Seq<ScheduledPacket>, first: int, second: int)
    requires
        is_next_index(q, first),
        is_next_index(q.remove(first), second),
    ensures
        !goes_before(q.remove(first)[second], q[first]),
{
    let rest = q.remove(first);
    let k = if second < first {
        second
    } else {
        second + 1
    };
    assert(rest[second] == q[k]);
}


/// The index `pop_next` takes from a non-empty queue.
pub open spec fn next_index(q: Seq<ScheduledPacket>) -> int {
    choose|i: int| is_next_index(q, i)
}

/// What popping `q` until it is empty gives, in order.
pub open spec fn drained(q: Seq<ScheduledPacket>) -> Seq<ScheduledPacket>
    decreases q.len(),
{
    if q.len() == 0 {
        seq![]
    } else {
        let i = next_index(q);
        if 0 <= i < q.len() {
            seq![q[i]] + drained(q.remove(i))
        } else {
            seq![]
        }
    }
}

proof fn lemma_next_index_exists(q: Seq<ScheduledPacket>)
    requires
        q.len() > 0,
    ensures
        exists|i: int| is_next_index(q, i),
    decreases q.len(),
{
    if q.len() == 1 {
        assert(is_next_index(q, 0));
    } else {
        let p = q.drop_last();
        lemma_next_index_exists(p);
        let k = choose|i: int| is_next_index(p, i);
        let n = q.len() - 1;
        let x = q[n];
        if goes_before(x, q[k]) {
            assert forall|j: int| 0 <= j < q.len() implies !goes_before(#[trigger] q[j], q[n]) by {
                if j < n {
                    assert(q[j] == p[j]);
                    assert(!goes_before(p[j], p[k]));
                }
            }
            assert forall|j: int| 0 <= j < n implies !(#[trigger] q[j].priority == q[n].priority
                && q[j].seq == q[n].seq) by {
                assert(q[j] == p[j]);
                assert(!goes_before(p[j], p[k]));
            }
            assert(is_next_index(q, n));
        } else {
            assert forall|j: int| 0 <= j < q.len() implies !goes_before(#[trigger] q[j], q[k]) by {
                if j < n {
                    assert(q[j] == p[j]);
                }
            }
            assert forall|j: int| 0 <= j < k implies !(#[trigger] q[j].priority == q[k].priority
                && q[j].seq == q[k].seq) by {
                assert(q[j] == p[j]);
            }
            assert(is_next_index(q, k));
        }
    }
}

/// Only one packet of a queue can be the next to send.
pub proof fn lemma_next_index_unique(q: Seq<ScheduledPacket>, i: int, j: int)
    requires
        is_next_index(q, i),
        is_next_index(q, j),
    ensures
        i == j,
{
    assert(!goes_before(q[i], q[j]));
    assert(!goes_before(q[j], q[i]));
    if i < j {
        assert(q[i].priority == q[j].priority && q[i].seq == q[j].seq);
    } else if j < i {
        assert(q[j].priority == q[i].priority && q[j].seq == q[i].seq);
    }
}

/// Each `pop_next` takes the head of the drain order and leaves the drain
/// order of the rest: successive pops give `drained(q)`.
pub proof fn lemma_pop_follows_drain(q: Seq<ScheduledPacket>, idx: int)
    requires
        is_next_index(q, idx),
    ensures
        drained(q) == seq![q[idx]] + drained(q.remove(idx)),
{
    lemma_next_index_unique(q, idx, next_index(q));
}

/// Popping a queue until it is empty gives every packet exactly once, sorted:
/// no packet is popped after one it goes before.
pub proof fn lemma_drained_sorted(q: Seq<ScheduledPacket>)
    ensures
        drained(q).len() == q.len(),
        drained(q).to_multiset() == q.to_multiset(),
        forall|a: int, b: int|
            0 <= a < b < q.len() ==> !goes_before(#[trigger] drained(q)[b], #[trigger] drained(q)[a]),
    decreases q.len(),
{
    if q.len() == 0 {
        assert(q =~= Seq::<ScheduledPacket>::empty());
    } else {
        lemma_next_index_exists(q);
        let i = next_index(q);
        let rest = q.remove(i);
        lemma_drained_sorted(rest);
        let r = drained(rest);
        let d = drained(q);
        assert(d == seq![q[i]] + r);
        assert(seq![q[i]] + r =~= r.insert(0, q[i]));
        vstd::seq_lib::to_multiset_insert(r, 0, q[i]);
        assert(rest.insert(i, q[i]) =~= q);
        vstd::seq_lib::to_multiset_insert(rest, i, q[i]);
        assert forall|a: int, b: int| 0 <= a < b < q.len() implies !goes_before(
            #[trigger] d[b],
            #[trigger] d[a],
        ) by {
            if a == 0 {
                let x = d[b];
                assert(x == r[b - 1]);
                assert(r.contains(x));
                vstd::seq_lib::to_multiset_contains(r, x);
                vstd::seq_lib::to_multiset_contains(q, x);
                assert(q.to_multiset().count(x) > 0);
                let j = choose|j: int| 0 <= j < q.len() && q[j] == x;
                assert(!goes_before(q[j], q[i]));
            } else {
                assert(d[a] == r[a - 1] && d[b] == r[b - 1]);
            }
        }
    }
}

/// The positions in `q` of the packets `drained(q)` gives, in order.
pub open spec fn drained_positions(q: Seq<ScheduledPacket>) -> Seq<int>
    decreases q.len(),
{
    if q.len() == 0 {
        seq![]
    } else {
        let i = next_index(q);
        if 0 <= i < q.len() {
            seq![i] + drained_positions(q.remove(i)).map_values(
                |j: int|
                    if j < i {
                        j
                    } else {
                        j + 1
                    },
            )
        } else {
            seq![]
        }
    }
}

/// Draining takes each position of the queue once, and packets with the
/// same priority and sequence number leave in the order they were enqueued.
pub proof fn lemma_drain_is_stable(q: Seq<ScheduledPacket>)
    ensures
        drained_positions(q).len() == q.len(),
        drained(q).len() == q.len(),
        forall|k: int|
            0 <= k < q.len() ==> 0 <= #[trigger] drained_positions(q)[k] < q.len()
                && drained(q)[k] == q[drained_positions(q)[k]],
        forall|a: int, b: int|
            0 <= a < b < q.len() ==> #[trigger] drained_positions(q)[a]
                != #[trigger] drained_positions(q)[b],
        forall|a: int, b: int|
            0 <= a < b < q.len() && (#[trigger] drained(q)[a]).priority == (#[trigger] drained(
                q,
            )[b]).priority && drained(q)[a].seq == drained(q)[b].seq ==> drained_positions(q)[a]
                < drained_positions(q)[b],
    decreases q.len(),
{
    lemma_drained_sorted(q);
    if q.len() > 0 {
        lemma_next_index_exists(q);
        let i = next_index(q);
        let rest = q.remove(i);
        lemma_drain_is_stable(rest);
        let pr = drained_positions(rest);
        let p = drained_positions(q);
        let d = drained(q);
        let r = drained(rest);
        let shift = |j: int|
            if j < i {
                j
            } else {
                j + 1
            };
        assert(p == seq![i] + pr.map_values(shift));
        assert(d == seq![q[i]] + r);
        assert forall|k: int| 1 <= k < q.len() implies p[k] == shift(pr[k - 1]) && d[k] == r[k
            - 1] by {}
        assert forall|k: int| 0 <= k < q.len() implies 0 <= #[trigger] p[k] < q.len() && d[k]
            == q[p[k]] by {
            if k > 0 {
                assert(r[k - 1] == rest[pr[k - 1]]);
            }
        }
        assert forall|a: int, b: int| 0 <= a < b < q.len() implies #[trigger] p[a] != #[trigger] p[b] by {
            if a > 0 {
                assert(pr[a - 1] != pr[b - 1]);
            }
        }
        assert forall|a: int, b: int|
            0 <= a < b < q.len() && (#[trigger] d[a]).priority == (#[trigger] d[b]).priority
                && d[a].seq == d[b].seq implies p[a] < p[b] by {
            if a == 0 {
                assert(d[b] == q[p[b]]);
                if p[b] < i {
                    assert(!(q[p[b]].priority == q[i].priority && q[p[b]].seq == q[i].seq));
                }
            } else {
                assert(pr[a - 1] < pr[b - 1]);
            }
        }
    }
}

/// One `pop_next` on a non-empty queue: it returns `out` and leaves `after`.
pub open spec fn pop_step(
    before: Seq<ScheduledPacket>,
    out: ScheduledPacket,
    after: Seq<ScheduledPacket>,
) -> bool {
    exists|idx: int|
        #![trigger is_next_index(before, idx)]
        is_next_index(before, idx) && out == before[idx] && after == before.remove(idx)
}

/// Successive pops from `q`, with nothing enqueued between them, return the
/// head of `drained(q)` in order and leave the rest of it; after `q.len()`
/// pops the queue is empty, so the next pop returns `None`.
pub proof fn lemma_successive_pops(
    q: Seq<ScheduledPacket>,
    states: Seq<Seq<ScheduledPacket>>,
    outs: Seq<ScheduledPacket>,
)
    requires
        states.len() == outs.len() + 1,
        states[0] == q,
        forall|k: int| 0 <= k < outs.len() ==> pop_step(states[k], #[trigger] outs[k], states[k + 1]),
    ensures
        outs.len() <= q.len(),
        outs == drained(q).take(outs.len() as int),
        states.last().len() == q.len() - outs.len(),
        drained(states.last()) == drained(q).skip(outs.len() as int),
        outs.len() == q.len() ==> states.last().len() == 0,
    decreases outs.len(),
{
    lemma_drained_sorted(q);
    if outs.len() == 0 {
        assert(drained(q).take(0) =~= outs);
        assert(drained(q).skip(0) =~= drained(q));
    } else {
        let m = outs.len() - 1;
        let s2 = states.drop_last();
        let o2 = outs.drop_last();
        assert forall|k: int| 0 <= k < o2.len() implies pop_step(s2[k], #[trigger] o2[k], s2[k + 1]) by {
            assert(pop_step(states[k], outs[k], states[k + 1]));
        }
        lemma_successive_pops(q, s2, o2);
        assert(pop_step(states[m], outs[m], states[m + 1]));
        let idx = choose|idx: int|
            #![trigger is_next_index(states[m], idx)]
            is_next_index(states[m], idx) && outs[m] == states[m][idx] && states[m + 1]
                == states[m].remove(idx);
        lemma_pop_follows_drain(states[m], idx);
        let dq = drained(q);
        assert(s2.last() == states[m]);
        assert(dq.skip(m) == seq![outs[m]] + drained(states[m + 1]));
        assert(dq[m] == dq.skip(m)[0]);
        assert(dq.skip(m + 1) =~= dq.skip(m).drop_first());
        assert(outs =~= dq.take(outs.len() as int));
    }
}

/// Popping a queue `q` once per packet, with nothing enqueued between the
/// pops, hands out every packet of `q` exactly once, by priority from high to
/// low and then by sequence number from low to high, packets with the same
/// priority and sequence number in the order they were enqueued; the queue is
/// then empty, so the next pop returns `None`.
pub proof fn lemma_pops_drain_queue(
    q: Seq<ScheduledPacket>,
    states: Seq<Seq<ScheduledPacket>>,
    outs: Seq<ScheduledPacket>,
)
    requires
        outs.len() == q.len(),
        states.len() == outs.len() + 1,
        states[0] == q,
        forall|k: int| 0 <= k < outs.len() ==> pop_step(states[k], #[trigger] outs[k], states[k + 1]),
    ensures
        outs == drained(q),
        outs.to_multiset() == q.to_multiset(),
        forall|a: int, b: int|
            0 <= a < b < outs.len() ==> !goes_before(#[trigger] outs[b], #[trigger] outs[a]),
        forall|k: int|
            0 <= k < outs.len() ==> 0 <= #[trigger] drained_positions(q)[k] < q.len()
                && outs[k] == q[drained_positions(q)[k]],
        forall|a: int, b: int|
            0 <= a < b < outs.len() ==> #[trigger] drained_positions(q)[a]
                != #[trigger] drained_positions(q)[b],
        forall|a: int, b: int|
            0 <= a < b < outs.len() && (#[trigger] outs[a]).priority == (#[trigger] outs[b]).priority
                && outs[a].seq == outs[b].seq ==> drained_positions(q)[a] < drained_positions(q)[b],
        states.last() == Seq::<ScheduledPacket>::empty(),
{
    lemma_successive_pops(q, states, outs);
    lemma_drained_sorted(q);
    lemma_drain_is_stable(q);
    assert(drained(q).take(outs.len() as int) =~= drained(q));
    assert(states.last() =~= Seq::<ScheduledPacket>::empty());
}
} // verus!
