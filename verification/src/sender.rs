//! The sender's bookkeeping of reliable packets awaiting an ACK: attempt
//! limits, retransmission timeouts, ACK matching and timer expiry.  Sending,
//! receiving and path choice are the caller's.
use vstd::prelude::*;

use crate::connection::sat_add_u64;
use crate::metrics::{ack_recorded, Metrics};
use crate::metrics::send_recorded;
use crate::packet::Reliability;
use crate::scheduler::{drained, PriorityScheduler, ScheduledPacket};

use std::collections::VecDeque;
use vstd::multiset::Multiset;

verus! {

/// How many transmissions a packet of each class gets in all: the first send
/// plus up to 3 retransmissions for important packets and up to 8 for
/// guaranteed ones; best-effort packets are never retransmitted.
pub open spec fn max_attempts_spec(r: Reliability) -> u32 {
    match r {
        Reliability::Important => 4,
        Reliability::Guaranteed => 9,
        Reliability::BestEffort => 1,
    }
}

pub fn max_attempts(reliability: Reliability) -> (n: u32)
    ensures
        n == max_attempts_spec(reliability),
{
    match reliability {
        Reliability::Important => 4,
        Reliability::Guaranteed => 9,
        Reliability::BestEffort => 1,
    }
}

/// The base retransmission timeout in milliseconds.
pub const BASE_TIMEOUT_MS: u64 = 400;

/// The retransmission timeout for a path: 400 ms plus twice the path's
/// largest delay, held at `u64::MAX`.
pub open spec fn timeout_ms_spec(path_delay_ms: u64) -> u64 {
    let twice: int = if path_delay_ms * 2 > u64::MAX {
        u64::MAX as int
    } else {
        path_delay_ms * 2
    };
    if BASE_TIMEOUT_MS + twice > u64::MAX {
        u64::MAX
    } else {
        (BASE_TIMEOUT_MS + twice) as u64
    }
}

pub fn timeout_ms(path_delay_ms: u64) -> (t: u64)
    ensures
        t == timeout_ms_spec(path_delay_ms),
{
    let twice = match path_delay_ms.checked_mul(2) {
        Some(v) => v,
        None => u64::MAX,
    };
    BASE_TIMEOUT_MS.saturating_add(twice)
}

/// A reliable packet that has been sent and not yet acknowledged.  Times are
/// nanoseconds on the caller's monotonic clock.
pub struct UnackedPacket {
    pub item: ScheduledPacket,
    pub packet_len: usize,
    pub attempts: u32,
    pub max_attempts: u32,
    pub first_send_ns: u64,
    pub last_send_ns: u64,
    pub path_id: u8,
    pub timeout_ms: u64,
}

/// The packet's timer has run out at `now_ns`.
pub open spec fn timed_out(u: UnackedPacket, now_ns: u64) -> bool {
    now_ns >= u.last_send_ns && now_ns - u.last_send_ns >= u.timeout_ms * 1_000_000
}

/// What one timeout does to a tracked packet: while it has attempts left it
/// is retransmitted, one attempt more; otherwise it is given up (`None`).
pub open spec fn timeout_step(u: UnackedPacket) -> Option<UnackedPacket> {
    if u.attempts >= u.max_attempts {
        None
    } else {
        Some(UnackedPacket { attempts: (u.attempts + 1) as u32, ..u })
    }
}

/// The packet after `k` timeouts in a row; `None` once it has been given up.
pub open spec fn after_timeouts(u: UnackedPacket, k: nat) -> Option<UnackedPacket>
    decreases k,
{
    if k == 0 {
        Some(u)
    } else {
        match after_timeouts(u, (k - 1) as nat) {
            Some(v) => timeout_step(v),
            None => None,
        }
    }
}

/// What a timeout leads to.
pub enum TimeoutAction {
    /// Every attempt has been used: the packet is given up.
    GiveUp(UnackedPacket),
    /// The packet is to be sent again; it stays in the list.
    Retransmit,
}

/// The reliable packets awaiting an ACK, in the order they were first sent.
pub struct UnackedList {
    pub packets: Vec<UnackedPacket>,
}

/// The first packet in `s` with sequence number `seq`.
pub open spec fn first_with_seq(s: Seq<UnackedPacket>, seq: u32, idx: int) -> bool {
    &&& 0 <= idx < s.len()
    &&& s[idx].item.seq == seq
    &&& forall|j: int| 0 <= j < idx ==> #[trigger] s[j].item.seq != seq
}

/// Nanoseconds from `from` to `to`, 0 if `to` is earlier.
pub open spec fn elapsed_ns(from: u64, to: u64) -> u64 {
    if to >= from {
        (to - from) as u64
    } else {
        0
    }
}

impl UnackedList {
    pub fn new() -> (l: Self)
        ensures
            l.packets@.len() == 0,
    {
        Self { packets: Vec::new() }
    }

    pub fn len(&self) -> (n: usize)
        ensures
            n == self.packets@.len(),
    {
        self.packets.len()
    }

    pub fn is_empty(&self) -> (b: bool)
        ensures
            b == (self.packets@.len() == 0),
    {
        self.packets.len() == 0
    }

    /// Records the first transmission of a reliable packet at `now_ns`.
    pub fn track(
        &mut self,
        item: ScheduledPacket,
        packet_len: usize,
        path_id: u8,
        path_delay_ms: u64,
        now_ns: u64,
    )
        ensures
            final(self).packets@.len() == old(self).packets@.len() + 1,
            final(self).packets@.drop_last() == old(self).packets@,
            ({
                let u = final(self).packets@.last();
                &&& u.item == item
                &&& u.packet_len == packet_len
                &&& u.attempts == 1
                &&& u.max_attempts == max_attempts_spec(item.reliability)
                &&& u.first_send_ns == now_ns
                &&& u.last_send_ns == now_ns
                &&& u.path_id == path_id
                &&& u.timeout_ms == timeout_ms_spec(path_delay_ms)
            }),
    {
        let max = max_attempts(item.reliability);
        let timeout = timeout_ms(path_delay_ms);
        self.packets.push(
            UnackedPacket {
                item,
                packet_len,
                attempts: 1,
                max_attempts: max,
                first_send_ns: now_ns,
                last_send_ns: now_ns,
                path_id,
                timeout_ms: timeout,
            },
        );
        assert(self.packets@.drop_last() =~= old(self).packets@);
    }

    /// Takes out the first packet an ACK for `seq` answers, if any.
    pub fn acknowledge(&mut self, seq: u32) -> (r: Option<UnackedPacket>)
        ensures
            match r {
                Some(u) => exists|idx: int|
                    #![trigger first_with_seq(old(self).packets@, seq, idx)]
                    first_with_seq(old(self).packets@, seq, idx) && u == old(self).packets@[idx]
                        && final(self).packets@ == old(self).packets@.remove(idx),
                None => {
                    &&& forall|j: int|
                        0 <= j < old(self).packets@.len() ==> #[trigger] old(
                            self,
                        ).packets@[j].item.seq != seq
                    &&& final(self).packets@ == old(self).packets@
                },
            },
    {
        let n = self.packets.len();
        let mut i: usize = 0;
        while i < n
            invariant
                n == self.packets@.len(),
                self.packets@ == old(self).packets@,
                i <= n,
                forall|j: int| 0 <= j < i ==> #[trigger] self.packets@[j].item.seq != seq,
            decreases n - i,
        {
            if self.packets[i].item.seq == seq {
                let ghost idx = i as int;
                assert(first_with_seq(old(self).packets@, seq, idx));
                return Some(self.packets.remove(i));
            }
            i = i + 1;
        }
        None
    }

    /// The first packet at or after `start` whose timer has run out at `now_ns`.
    pub fn find_expired(&self, start: usize, now_ns: u64) -> (r: Option<usize>)
        ensures
            match r {
                Some(i) => start <= i < self.packets@.len() && timed_out(
                    self.packets@[i as int],
                    now_ns,
                ) && forall|j: int|
                    start <= j < i ==> !timed_out(#[trigger] self.packets@[j], now_ns),
                None => forall|j: int|
                    start <= j < self.packets@.len() ==> !timed_out(
                        #[trigger] self.packets@[j],
                        now_ns,
                    ),
            },
    {
        let n = self.packets.len();
        let mut i = start;
        while i < n
            invariant
                n == self.packets@.len(),
                start <= i || i == start,
                forall|j: int| start <= j < i ==> !timed_out(#[trigger] self.packets@[j], now_ns),
            decreases n - i,
        {
            let u = &self.packets[i];
            let limit: u128 = u.timeout_ms as u128 * 1_000_000;
            if now_ns >= u.last_send_ns && ((now_ns - u.last_send_ns) as u128) >= limit {
                return Some(i);
            }
            i = i + 1;
        }
        None
    }

    /// Handles the timeout of packet `i`: a packet that has used all its
    /// attempts is taken out and given up; any other counts one more attempt.
    pub fn on_timeout(&mut self, i: usize) -> (r: TimeoutAction)
        requires
            i < old(self).packets@.len(),
        ensures
            ({
                let u = old(self).packets@[i as int];
                match timeout_step(u) {
                    None => r matches TimeoutAction::GiveUp(p) && p == u && final(self).packets@
                        == old(self).packets@.remove(i as int),
                    Some(v) => r is Retransmit && final(self).packets@ == old(
                        self,
                    ).packets@.update(i as int, v),
                }
            }),
    {
        if self.packets[i].attempts >= self.packets[i].max_attempts {
            let p = self.packets.remove(i);
            TimeoutAction::GiveUp(p)
        } else {
            let mut u = self.packets.remove(i);
            u.attempts = u.attempts + 1;
            let ghost updated = u;
            self.packets.insert(i, u);
            assert(self.packets@ =~= old(self).packets@.update(i as int, updated));
            TimeoutAction::Retransmit
        }
    }

    /// Re-arms packet `i` after a retransmission on `path_id` at `now_ns`.
    pub fn rearm(&mut self, i: usize, path_id: u8, path_delay_ms: u64, now_ns: u64)
        requires
            i < old(self).packets@.len(),
        ensures
            final(self).packets@ == old(self).packets@.update(
                i as int,
                UnackedPacket {
                    path_id,
                    timeout_ms: timeout_ms_spec(path_delay_ms),
                    last_send_ns: now_ns,
                    ..old(self).packets@[i as int]
                },
            ),
    {
        let timeout = timeout_ms(path_delay_ms);
        let mut u = self.packets.remove(i);
        u.path_id = path_id;
        u.timeout_ms = timeout;
        u.last_send_ns = now_ns;
        let ghost updated = u;
        self.packets.insert(i, u);
        assert(self.packets@ =~= old(self).packets@.update(i as int, updated));
    }
}

/// The round trip of an acknowledged packet in microseconds: from its first
/// transmission to the ACK.
pub fn rtt_us(first_send_ns: u64, now_ns: u64) -> (r: u128)
    ensures
        r == elapsed_ns(first_send_ns, now_ns) / 1000,
{
    if now_ns >= first_send_ns {
        ((now_ns - first_send_ns) / 1000) as u128
    } else {
        0
    }
}

/// What the sender does with the packet at the head of its queue.
#[derive(Debug, Clone, Copy, PartialEq, Eq, Structural)]
pub enum Admission {
    /// The congestion window is full: the packet waits.
    Wait,
    /// A best-effort packet: sent once, bypassing the window, never tracked.
    SendUntracked,
    /// A reliable packet the window admits: counted in flight and tracked
    /// until it is acknowledged or given up.
    SendTracked,
}

/// Best-effort packets always go and are never tracked; reliable packets go
/// when the congestion window admits them.
pub open spec fn admission_spec(reliability: Reliability, window_allows: bool) -> Admission {
    if reliability == Reliability::BestEffort {
        Admission::SendUntracked
    } else if window_allows {
        Admission::SendTracked
    } else {
        Admission::Wait
    }
}

/// Decides whether the head packet goes now and whether it is tracked;
/// `window_allows` is the congestion controller's answer for its size.
pub fn admission(reliability: Reliability, window_allows: bool) -> (a: Admission)
    ensures
        a == admission_spec(reliability, window_allows),
{
    if reliability == Reliability::BestEffort {
        Admission::SendUntracked
    } else if window_allows {
        Admission::SendTracked
    } else {
        Admission::Wait
    }
}

/// The congestion window holds back reliable packets and nothing else: a
/// packet of either reliable class waits exactly when the window is full and
/// is otherwise sent and tracked; a best-effort packet is sent untracked
/// whatever the window says.
pub proof fn lemma_admission_by_window(reliability: Reliability, window_allows: bool)
    ensures
        reliability != Reliability::BestEffort && !window_allows ==> admission_spec(
            reliability,
            window_allows,
        ) == Admission::Wait,
        reliability != Reliability::BestEffort && window_allows ==> admission_spec(
            reliability,
            window_allows,
        ) == Admission::SendTracked,
        reliability == Reliability::BestEffort ==> admission_spec(reliability, window_allows)
            == Admission::SendUntracked,
        (admission_spec(reliability, window_allows) == Admission::Wait) <==> (reliability
            != Reliability::BestEffort && !window_allows),
        (admission_spec(reliability, window_allows) == Admission::SendTracked) ==> window_allows,
        admission_spec(reliability, false) != Admission::SendTracked,
{
}

/// Handles an ACK for `seq` received at `now_ns`: the first tracked packet
/// with that sequence number leaves the list and the ACK and its round trip
/// are counted; the packet and the round trip are returned for the
/// congestion controller and the path.  An ACK matching nothing changes
/// nothing.
pub fn settle_ack(list: &mut UnackedList, metrics: &mut Metrics, seq: u32, now_ns: u64) -> (r:
    Option<(UnackedPacket, u128)>)
    ensures
        match r {
            Some((u, rtt)) => {
                &&& exists|idx: int|
                    #![trigger first_with_seq(old(list).packets@, seq, idx)]
                    first_with_seq(old(list).packets@, seq, idx) && u == old(list).packets@[idx]
                        && final(list).packets@ == old(list).packets@.remove(idx)
                &&& rtt == elapsed_ns(u.first_send_ns, now_ns) / 1000
                &&& ack_recorded(*old(metrics), *final(metrics), rtt)
            },
            None => {
                &&& forall|j: int|
                    0 <= j < old(list).packets@.len() ==> #[trigger] old(
                        list,
                    ).packets@[j].item.seq != seq
                &&& final(list).packets@ == old(list).packets@
                &&& *final(metrics) == *old(metrics)
            },
        },
{
    match list.acknowledge(seq) {
        Some(u) => {
            let rtt = rtt_us(u.first_send_ns, now_ns);
            metrics.record_ack(rtt);
            Some((u, rtt))
        },
        None => None,
    }
}

/// Handles the expiry of the timer of the packet at `i`: a packet with
/// attempts left is kept for retransmission and the retransmission counted;
/// otherwise it is given up and the loss counted.
pub fn settle_timeout(list: &mut UnackedList, metrics: &mut Metrics, i: usize) -> (r: TimeoutAction)
    requires
        i < old(list).packets@.len(),
    ensures
        ({
            let u = old(list).packets@[i as int];
            match timeout_step(u) {
                None => {
                    &&& r matches TimeoutAction::GiveUp(p) && p == u
                    &&& final(list).packets@ == old(list).packets@.remove(i as int)
                    &&& *final(metrics) == (Metrics {
                        losses: sat_add_u64(old(metrics).losses, 1),
                        ..*old(metrics)
                    })
                },
                Some(v) => {
                    &&& r is Retransmit
                    &&& final(list).packets@ == old(list).packets@.update(i as int, v)
                    &&& *final(metrics) == (Metrics {
                        retransmits: sat_add_u64(old(metrics).retransmits, 1),
                        ..*old(metrics)
                    })
                },
            }
        }),
{
    let action = list.on_timeout(i);
    match action {
        TimeoutAction::GiveUp(_) => metrics.record_loss(),
        TimeoutAction::Retransmit => metrics.record_retransmit(),
    }
    action
}

/// What sending from the head of a transfer's queue did.
pub enum SendStep {
    /// Nothing left the queue: it is empty, or the window is full.
    Waiting,
    /// A best-effort packet left the queue; it is sent once and not tracked.
    SentUntracked(ScheduledPacket),
    /// A reliable packet left the queue and is now the last tracked packet.
    SentTracked,
}

/// A packet the transfer tracks until it is acknowledged or given up.
pub open spec fn is_reliable(p: ScheduledPacket) -> bool {
    p.reliability != Reliability::BestEffort
}

/// The reliable packets among `s`, counted with multiplicity.
pub open spec fn reliable_among(s: Seq<ScheduledPacket>) -> Multiset<ScheduledPacket>
    decreases s.len(),
{
    if s.len() == 0 {
        Multiset::empty()
    } else if is_reliable(s.last()) {
        reliable_among(s.drop_last()).insert(s.last())
    } else {
        reliable_among(s.drop_last())
    }
}

/// The packets the entries of a retransmission list stand for.
pub open spec fn tracked_items(s: Seq<UnackedPacket>) -> Multiset<ScheduledPacket> {
    s.map_values(|u: UnackedPacket| u.item).to_multiset()
}

/// What a transfer holds: the batch it was given, in send order; the packets
/// that have left the queue, in the order they left, and those still to send;
/// the reliable packets awaiting an ACK; and the reliable packets sent,
/// acknowledged and given up.
pub struct TransferView {
    pub batch: Seq<ScheduledPacket>,
    pub released: Seq<ScheduledPacket>,
    pub pending: Seq<ScheduledPacket>,
    pub unacked: Seq<UnackedPacket>,
    pub sent: Multiset<ScheduledPacket>,
    pub acked: Multiset<ScheduledPacket>,
    pub lost: Multiset<ScheduledPacket>,
}

/// Packets leave the queue in the batch's order, each once; every reliable
/// packet that left was sent and tracked; and every packet sent is settled
/// exactly once, by an ACK or by being given up, or is still awaiting its ACK.
pub open spec fn accounted(v: TransferView) -> bool {
    &&& v.released + v.pending == v.batch
    &&& v.sent == reliable_among(v.released)
    &&& v.sent == v.acked.add(v.lost).add(tracked_items(v.unacked))
}

proof fn lemma_reliable_push(s: Seq<ScheduledPacket>, p: ScheduledPacket)
    ensures
        reliable_among(s.push(p)) == if is_reliable(p) {
            reliable_among(s).insert(p)
        } else {
            reliable_among(s)
        },
{
    assert(s.push(p).drop_last() =~= s);
}

proof fn lemma_tracked_empty(s: Seq<UnackedPacket>)
    requires
        s.len() == 0,
    ensures
        tracked_items(s) == Multiset::<ScheduledPacket>::empty(),
{
    let m = s.map_values(|u: UnackedPacket| u.item);
    m.to_multiset_ensures();
    vstd::multiset::lemma_multiset_empty_len(m.to_multiset());
}

proof fn lemma_tracked_push(s: Seq<UnackedPacket>, u: UnackedPacket)
    ensures
        tracked_items(s.push(u)) == tracked_items(s).insert(u.item),
{
    let f = |u: UnackedPacket| u.item;
    assert(s.push(u).map_values(f) =~= s.map_values(f).push(u.item));
    vstd::seq_lib::to_multiset_build(s.map_values(f), u.item);
}

proof fn lemma_tracked_remove(s: Seq<UnackedPacket>, i: int)
    requires
        0 <= i < s.len(),
    ensures
        tracked_items(s) == tracked_items(s.remove(i)).insert(s[i].item),
{
    let f = |u: UnackedPacket| u.item;
    let m = s.map_values(f);
    assert(s.remove(i).map_values(f) =~= m.remove(i));
    vstd::seq_lib::to_multiset_remove(m, i);
    assert(m.to_multiset().count(m[i]) > 0) by {
        assert(m.contains(m[i]));
        vstd::seq_lib::to_multiset_contains(m, m[i]);
    }
    assert(tracked_items(s) =~= tracked_items(s.remove(i)).insert(s[i].item));
}

proof fn lemma_tracked_update(s: Seq<UnackedPacket>, i: int, v: UnackedPacket)
    requires
        0 <= i < s.len(),
        v.item == s[i].item,
    ensures
        tracked_items(s.update(i, v)) == tracked_items(s),
{
    let f = |u: UnackedPacket| u.item;
    assert(s.update(i, v).map_values(f) =~= s.map_values(f));
}

/// One send of a batch: the queue it drains, the retransmission list and
/// what became of each packet.
pub struct Transfer {
    queue: VecDeque<ScheduledPacket>,
    unacked: UnackedList,
    batch: Ghost<Seq<ScheduledPacket>>,
    released: Ghost<Seq<ScheduledPacket>>,
    sent: Ghost<Multiset<ScheduledPacket>>,
    acked: Ghost<Multiset<ScheduledPacket>>,
    lost: Ghost<Multiset<ScheduledPacket>>,
}

impl View for Transfer {
    type V = TransferView;

    closed spec fn view(&self) -> TransferView {
        TransferView {
            batch: self.batch@,
            released: self.released@,
            pending: self.queue@,
            unacked: self.unacked.packets@,
            sent: self.sent@,
            acked: self.acked@,
            lost: self.lost@,
        }
    }
}

impl Transfer {
    #[verifier::type_invariant]
    closed spec fn inv(&self) -> bool {
        accounted(self@)
    }

    /// A transfer of everything the scheduler holds, in the order it pops
    /// them; the scheduler is left empty.
    pub fn from_scheduler(scheduler: &mut PriorityScheduler) -> (t: Self)
        ensures
            t@.batch == drained(old(scheduler)@),
            t@.pending == t@.batch,
            t@.released.len() == 0,
            t@.unacked.len() == 0,
            t@.sent.len() == 0 && t@.acked.len() == 0 && t@.lost.len() == 0,
            accounted(t@),
            final(scheduler)@.len() == 0,
    {
        let mut rest = scheduler.drain_in_order();
        let mut queue: VecDeque<ScheduledPacket> = VecDeque::new();
        let ghost all = rest@;
        let mut reversed: Vec<ScheduledPacket> = Vec::new();
        while rest.len() > 0
            invariant
                reversed@.len() + rest@.len() == all.len(),
                rest@ == all.take(rest@.len() as int),
                forall|k: int| 0 <= k < reversed@.len() ==> #[trigger] reversed@[k] == all[all.len() - 1 - k],
            decreases rest@.len(),
        {
            let p = rest.pop().unwrap();
            assert(rest@ =~= all.take(rest@.len() as int));
            reversed.push(p);
        }
        while reversed.len() > 0
            invariant
                queue@.len() + reversed@.len() == all.len(),
                queue@ == all.take(queue@.len() as int),
                forall|k: int| 0 <= k < reversed@.len() ==> #[trigger] reversed@[k] == all[all.len() - 1 - k],
            decreases reversed@.len(),
        {
            let p = reversed.pop().unwrap();
            queue.push_back(p);
            assert(queue@ =~= all.take(queue@.len() as int));
        }
        assert(all.take(all.len() as int) =~= all);
        let ghost none = Seq::<ScheduledPacket>::empty();
        assert(none + all =~= all);
        let unacked = UnackedList::new();
        proof {
            lemma_tracked_empty(unacked.packets@);
            assert(reliable_among(none) == Multiset::<ScheduledPacket>::empty());
        }
        assert(Multiset::<ScheduledPacket>::empty().add(Multiset::empty()).add(Multiset::empty())
            =~= Multiset::empty());
        Transfer {
            queue,
            unacked,
            batch: Ghost(all),
            released: Ghost(none),
            sent: Ghost(Multiset::empty()),
            acked: Ghost(Multiset::empty()),
            lost: Ghost(Multiset::empty()),
        }
    }

    fn empty() -> (t: Self)
        ensures
            t@.pending.len() == 0,
            t@.unacked.len() == 0,
    {
        let ghost none = Seq::<ScheduledPacket>::empty();
        assert(none + none =~= none);
        let unacked = UnackedList::new();
        proof {
            lemma_tracked_empty(unacked.packets@);
            assert(reliable_among(none) == Multiset::<ScheduledPacket>::empty());
        }
        assert(Multiset::<ScheduledPacket>::empty().add(Multiset::empty()).add(Multiset::empty())
            =~= Multiset::empty());
        Transfer {
            queue: VecDeque::new(),
            unacked,
            batch: Ghost(none),
            released: Ghost(none),
            sent: Ghost(Multiset::empty()),
            acked: Ghost(Multiset::empty()),
            lost: Ghost(Multiset::empty()),
        }
    }

    /// The packet at the head of the queue, if any.
    pub fn front(&self) -> (r: Option<&ScheduledPacket>)
        ensures
            r is None <==> self@.pending.len() == 0,
            r matches Some(p) ==> *p == self@.pending[0],
    {
        if self.queue.len() == 0 {
            None
        } else {
            Some(&self.queue[0])
        }
    }

    /// The reliable packets awaiting an ACK.
    pub fn outstanding(&self) -> (l: &UnackedList)
        ensures
            l.packets@ == self@.unacked,
            accounted(self@),
    {
        proof {
            use_type_invariant(self);
        }
        &self.unacked
    }

    /// Sends from the head of the queue: a best-effort packet always leaves
    /// untracked; a reliable one leaves when `window_allows` and is tracked on
    /// `path_id`; every packet that leaves is counted as sent.
    pub fn send_next(
        &mut self,
        metrics: &mut Metrics,
        window_allows: bool,
        path_id: u8,
        path_delay_ms: u64,
        now_ns: u64,
    ) -> (r: SendStep)
        ensures
            accounted(final(self)@),
            old(self)@.pending.len() == 0 ==> r is Waiting && final(self)@ == old(self)@
                && *final(metrics) == *old(metrics),
            old(self)@.pending.len() > 0 ==> ({
                let p = old(self)@.pending[0];
                match admission_spec(p.reliability, window_allows) {
                    Admission::Wait => r is Waiting && final(self)@ == old(self)@
                        && *final(metrics) == *old(metrics),
                    Admission::SendUntracked => {
                        &&& r matches SendStep::SentUntracked(q) && q == p
                        &&& final(self)@ == (TransferView {
                            pending: old(self)@.pending.drop_first(),
                            released: old(self)@.released.push(p),
                            ..old(self)@
                        })
                        &&& send_recorded(*old(metrics), *final(metrics), p.reliability, p.priority)
                    },
                    Admission::SendTracked => {
                        &&& r is SentTracked
                        &&& final(self)@.batch == old(self)@.batch
                        &&& final(self)@.pending == old(self)@.pending.drop_first()
                        &&& final(self)@.released == old(self)@.released.push(p)
                        &&& final(self)@.unacked.drop_last() == old(self)@.unacked
                        &&& final(self)@.unacked.len() == old(self)@.unacked.len() + 1
                        &&& ({
                            let u = final(self)@.unacked.last();
                            &&& u.item == p
                            &&& u.packet_len == p.encoded@.len()
                            &&& u.attempts == 1
                            &&& u.max_attempts == max_attempts_spec(p.reliability)
                            &&& u.first_send_ns == now_ns
                            &&& u.last_send_ns == now_ns
                            &&& u.path_id == path_id
                            &&& u.timeout_ms == timeout_ms_spec(path_delay_ms)
                        })
                        &&& final(self)@.sent == old(self)@.sent.insert(p)
                        &&& final(self)@.acked == old(self)@.acked
                        &&& final(self)@.lost == old(self)@.lost
                        &&& send_recorded(*old(metrics), *final(metrics), p.reliability, p.priority)
                    },
                }
            }),
    {
        proof {
            use_type_invariant(&*self);
        }
        if self.queue.len() == 0 {
            return SendStep::Waiting;
        }
        let reliability = self.queue[0].reliability;
        let decision = admission(reliability, window_allows);
        if decision == Admission::Wait {
            return SendStep::Waiting;
        }
        let mut t = Transfer::empty();
        std::mem::swap(&mut t, self);
        proof {
            use_type_invariant(&t);
        }
        let Transfer { mut queue, mut unacked, batch, released, sent, acked, lost } = t;
        let ghost old_queue = queue@;
        let ghost old_unacked = unacked.packets@;
        let p = queue.pop_front().unwrap();
        let ghost gp = p;
        let ghost now_released = released@.push(gp);
        proof {
            lemma_reliable_push(released@, gp);
            assert(now_released + queue@ =~= released@ + old_queue);
        }
        metrics.record_send(p.reliability, p.priority);
        if decision == Admission::SendUntracked {
            *self = Transfer { queue, unacked, batch, released: Ghost(now_released), sent, acked, lost };
            SendStep::SentUntracked(p)
        } else {
            let packet_len = p.encoded.len();
            unacked.track(p, packet_len, path_id, path_delay_ms, now_ns);
            proof {
                assert(unacked.packets@ =~= old_unacked.push(unacked.packets@.last()));
                lemma_tracked_push(old_unacked, unacked.packets@.last());
                assert(sent@.insert(gp) =~= acked@.add(lost@).add(tracked_items(unacked.packets@)));
            }
            *self = Transfer {
                queue,
                unacked,
                batch,
                released: Ghost(now_released),
                sent: Ghost(sent@.insert(gp)),
                acked,
                lost,
            };
            SendStep::SentTracked
        }
    }

    /// Handles an ACK for `seq`: the first tracked packet with that sequence
    /// number is settled as acknowledged (see `settle_ack`).
    pub fn on_ack(&mut self, metrics: &mut Metrics, seq: u32, now_ns: u64) -> (r: Option<(UnackedPacket, u128)>)
        ensures
            accounted(final(self)@),
            final(self)@.batch == old(self)@.batch,
            final(self)@.released == old(self)@.released,
            final(self)@.pending == old(self)@.pending,
            final(self)@.sent == old(self)@.sent,
            final(self)@.lost == old(self)@.lost,
            match r {
                Some((u, rtt)) => {
                    &&& exists|idx: int|
                        #![trigger first_with_seq(old(self)@.unacked, seq, idx)]
                        first_with_seq(old(self)@.unacked, seq, idx) && u == old(self)@.unacked[idx]
                            && final(self)@.unacked == old(self)@.unacked.remove(idx)
                    &&& rtt == elapsed_ns(u.first_send_ns, now_ns) / 1000
                    &&& ack_recorded(*old(metrics), *final(metrics), rtt)
                    &&& final(self)@.acked == old(self)@.acked.insert(u.item)
                },
                None => {
                    &&& forall|j: int|
                        0 <= j < old(self)@.unacked.len() ==> #[trigger] old(self)@.unacked[j].item.seq
                            != seq
                    &&& final(self)@ == old(self)@
                    &&& *final(metrics) == *old(metrics)
                },
            },
    {
        let mut t = Transfer::empty();
        std::mem::swap(&mut t, self);
        proof {
            use_type_invariant(&t);
        }
        let Transfer { queue, mut unacked, batch, released, sent, acked, lost } = t;
        let ghost before = unacked.packets@;
        let r = settle_ack(&mut unacked, metrics, seq, now_ns);
        let acked = match &r {
            Some((u, _)) => {
                proof {
                    let idx = choose|idx: int|
                        #![trigger first_with_seq(before, seq, idx)]
                        first_with_seq(before, seq, idx) && *u == before[idx]
                            && unacked.packets@ == before.remove(idx);
                    lemma_tracked_remove(before, idx);
                    assert(sent@ =~= acked@.insert(u.item).add(lost@).add(
                        tracked_items(unacked.packets@),
                    ));
                }
                Ghost(acked@.insert(u.item))
            },
            None => acked,
        };
        *self = Transfer { queue, unacked, batch, released, sent, acked, lost };
        r
    }

    /// Handles the expiry of the timer of the tracked packet at `i` (see
    /// `settle_timeout`); a packet given up is settled as lost.
    pub fn on_timeout(&mut self, metrics: &mut Metrics, i: usize) -> (r: TimeoutAction)
        requires
            i < old(self)@.unacked.len(),
        ensures
            accounted(final(self)@),
            final(self)@.batch == old(self)@.batch,
            final(self)@.released == old(self)@.released,
            final(self)@.pending == old(self)@.pending,
            final(self)@.sent == old(self)@.sent,
            final(self)@.acked == old(self)@.acked,
            ({
                let u = old(self)@.unacked[i as int];
                match timeout_step(u) {
                    None => {
                        &&& r matches TimeoutAction::GiveUp(p) && p == u
                        &&& final(self)@.unacked == old(self)@.unacked.remove(i as int)
                        &&& final(self)@.lost == old(self)@.lost.insert(u.item)
                        &&& *final(metrics) == (Metrics {
                            losses: sat_add_u64(old(metrics).losses, 1),
                            ..*old(metrics)
                        })
                    },
                    Some(v) => {
                        &&& r is Retransmit
                        &&& final(self)@.unacked == old(self)@.unacked.update(i as int, v)
                        &&& final(self)@.lost == old(self)@.lost
                        &&& *final(metrics) == (Metrics {
                            retransmits: sat_add_u64(old(metrics).retransmits, 1),
                            ..*old(metrics)
                        })
                    },
                }
            }),
    {
        let mut t = Transfer::empty();
        std::mem::swap(&mut t, self);
        proof {
            use_type_invariant(&t);
        }
        let Transfer { queue, mut unacked, batch, released, sent, acked, lost } = t;
        let ghost before = unacked.packets@;
        let r = settle_timeout(&mut unacked, metrics, i);
        let lost = match r {
            TimeoutAction::GiveUp(_) => {
                proof {
                    lemma_tracked_remove(before, i as int);
                    assert(sent@ =~= acked@.add(lost@.insert(before[i as int].item)).add(
                        tracked_items(unacked.packets@),
                    ));
                }
                Ghost(lost@.insert(before[i as int].item))
            },
            TimeoutAction::Retransmit => {
                proof {
                    lemma_tracked_update(before, i as int, unacked.packets@[i as int]);
                }
                lost
            },
        };
        *self = Transfer { queue, unacked, batch, released, sent, acked, lost };
        r
    }

    /// Restarts the timer of the tracked packet at `i` after a retransmission
    /// on `path_id`.
    pub fn rearm(&mut self, i: usize, path_id: u8, path_delay_ms: u64, now_ns: u64)
        requires
            i < old(self)@.unacked.len(),
        ensures
            accounted(final(self)@),
            final(self)@ == (TransferView {
                unacked: old(self)@.unacked.update(
                    i as int,
                    UnackedPacket {
                        path_id,
                        timeout_ms: timeout_ms_spec(path_delay_ms),
                        last_send_ns: now_ns,
                        ..old(self)@.unacked[i as int]
                    },
                ),
                ..old(self)@
            }),
    {
        let mut t = Transfer::empty();
        std::mem::swap(&mut t, self);
        proof {
            use_type_invariant(&t);
        }
        let Transfer { queue, mut unacked, batch, released, sent, acked, lost } = t;
        let ghost before = unacked.packets@;
        unacked.rearm(i, path_id, path_delay_ms, now_ns);
        proof {
            lemma_tracked_update(before, i as int, unacked.packets@[i as int]);
        }
        *self = Transfer { queue, unacked, batch, released, sent, acked, lost };
    }

    /// Whether the transfer is over: nothing left to send and nothing
    /// awaiting an ACK.  Then the whole batch has left the queue in order, and
    /// every reliable packet of it was settled exactly once, acknowledged or
    /// given up.
    pub fn is_done(&self) -> (done: bool)
        ensures
            done == (self@.pending.len() == 0 && self@.unacked.len() == 0),
            done ==> self@.released == self@.batch,
            done ==> reliable_among(self@.batch) == self@.acked.add(self@.lost),
            accounted(self@),
    {
        proof {
            use_type_invariant(self);
            if self@.pending.len() == 0 && self@.unacked.len() == 0 {
                assert(self@.released + self@.pending =~= self@.released);
                lemma_tracked_empty(self@.unacked);
                assert(self@.acked.add(self@.lost).add(Multiset::empty()) =~= self@.acked.add(
                    self@.lost,
                ));
            }
        }
        self.queue.len() == 0 && self.unacked.len() == 0
    }
}

/// A packet tracked after its first transmission survives exactly
/// `max_attempts - 1` timeouts, each of which retransmits it, so it goes out
/// `max_attempts` times in all; the timeout after that gives it up.
pub proof fn lemma_attempts_bounded(u: UnackedPacket, k: nat)
    requires
        u.attempts == 1,
        u.max_attempts >= 1,
    ensures
        k < u.max_attempts ==> after_timeouts(u, k) == Some(
            UnackedPacket { attempts: (1 + k) as u32, ..u },
        ),
        k >= u.max_attempts ==> after_timeouts(u, k) is None,
    decreases k,
{
    if k > 0 {
        lemma_attempts_bounded(u, (k - 1) as nat);
    }
}

/// Every retransmission timeout is at least the 400 ms base.
pub proof fn lemma_timeout_at_least_base(path_delay_ms: u64)
    ensures
        timeout_ms_spec(path_delay_ms) >= BASE_TIMEOUT_MS,
{
}

} // verus!
