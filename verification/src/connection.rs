//! A client connection and the streams it carries, with per-stream counters.
use vstd::prelude::*;
use vstd::std_specs::hash::group_hash_axioms;

use std::collections::HashMap;

use crate::packet::{Reliability, reliability_name};
use crate::text::{decimal, push_char, push_decimal, push_str};

verus! {

broadcast use group_hash_axioms;

#[derive(Debug, Clone, Copy, PartialEq, Eq, Structural)]
pub enum ConnectionState {
    Disconnected,
    Connecting,
    Connected,
    Closing,
}

pub open spec fn connection_state_name(s: ConnectionState) -> Seq<char> {
    match s {
        ConnectionState::Disconnected => "Disconnected"@,
        ConnectionState::Connecting => "Connecting"@,
        ConnectionState::Connected => "Connected"@,
        ConnectionState::Closing => "Closing"@,
    }
}

impl ConnectionState {
    /// The name the state is shown by in status lines.
    pub fn name(self) -> (r: &'static str)
        ensures
            r@ == connection_state_name(self),
    {
        match self {
            ConnectionState::Disconnected => "Disconnected",
            ConnectionState::Connecting => "Connecting",
            ConnectionState::Connected => "Connected",
            ConnectionState::Closing => "Closing",
        }
    }
}

/// `a + b`, held at `u64::MAX`.
pub open spec fn sat_add_u64(a: u64, b: u64) -> u64 {
    if a + b > u64::MAX {
        u64::MAX
    } else {
        (a + b) as u64
    }
}

/// `a - b`, held at 0.
pub open spec fn sat_sub_u64(a: u64, b: u64) -> u64 {
    if a < b {
        0
    } else {
        (a - b) as u64
    }
}

/// `a + b`, held at `u128::MAX`.
pub open spec fn sat_add_u128(a: u128, b: u128) -> u128 {
    if a + b > u128::MAX {
        u128::MAX
    } else {
        (a + b) as u128
    }
}

/// Counters of one stream.
#[derive(Debug, Clone, Copy)]
pub struct StreamStats {
    pub sent: u64,
    pub acked: u64,
    pub lost: u64,
    pub retransmits: u64,
    pub in_flight: u64,
    pub rtt_samples: u64,
    pub rtt_sum_us: u128,
}

pub open spec fn zero_stats() -> StreamStats {
    StreamStats {
        sent: 0,
        acked: 0,
        lost: 0,
        retransmits: 0,
        in_flight: 0,
        rtt_samples: 0,
        rtt_sum_us: 0,
    }
}

impl Default for StreamStats {
    fn default() -> (s: Self)
        ensures
            s == zero_stats(),
    {
        StreamStats {
            sent: 0,
            acked: 0,
            lost: 0,
            retransmits: 0,
            in_flight: 0,
            rtt_samples: 0,
            rtt_sum_us: 0,
        }
    }
}

#[derive(Debug, Clone, Copy)]
pub struct StreamInfo {
    pub id: u32,
    pub reliability: Reliability,
    pub priority: u8,
    pub stats: StreamStats,
}

/// The stream after one more send; reliable sends also count as in flight.
pub open spec fn after_send(s: StreamInfo, reliability: Reliability) -> StreamInfo {
    StreamInfo {
        stats: StreamStats {
            sent: sat_add_u64(s.stats.sent, 1),
            in_flight: if reliability != Reliability::BestEffort {
                sat_add_u64(s.stats.in_flight, 1)
            } else {
                s.stats.in_flight
            },
            ..s.stats
        },
        ..s
    }
}

/// The stream after an ACK that took `rtt_us` microseconds.
pub open spec fn after_ack(s: StreamInfo, rtt_us: u128) -> StreamInfo {
    StreamInfo {
        stats: StreamStats {
            acked: sat_add_u64(s.stats.acked, 1),
            in_flight: sat_sub_u64(s.stats.in_flight, 1),
            rtt_samples: sat_add_u64(s.stats.rtt_samples, 1),
            rtt_sum_us: sat_add_u128(s.stats.rtt_sum_us, rtt_us),
            ..s.stats
        },
        ..s
    }
}

/// The stream after a packet of it was given up.
pub open spec fn after_loss(s: StreamInfo) -> StreamInfo {
    StreamInfo {
        stats: StreamStats {
            lost: sat_add_u64(s.stats.lost, 1),
            in_flight: sat_sub_u64(s.stats.in_flight, 1),
            ..s.stats
        },
        ..s
    }
}

/// The stream after one more retransmission.
pub open spec fn after_retransmit(s: StreamInfo) -> StreamInfo {
    StreamInfo { stats: StreamStats { retransmits: sat_add_u64(s.stats.retransmits, 1), ..s.stats }, ..s }
}

/// How many reliable packets a stream may have in flight.
pub const MAX_STREAM_IN_FLIGHT: u64 = 4;

/// `ids` lists the members of `d` in strictly ascending order.
pub open spec fn ascending_listing(ids: Seq<u32>, d: Set<u32>) -> bool {
    &&& forall|i: int, j: int| 0 <= i < j < ids.len() ==> ids[i] < ids[j]
    &&& forall|i: int| 0 <= i < ids.len() ==> d.contains(#[trigger] ids[i])
    &&& forall|k: u32| d.contains(k) ==> ids.contains(k)
}

/// The average round trip of a stream, 0 before any sample.
pub open spec fn average_rtt_us(s: StreamStats) -> u128 {
    if s.rtt_samples > 0 {
        s.rtt_sum_us / (s.rtt_samples as u128)
    } else {
        0
    }
}

/// The statistics line of one stream.
pub open spec fn stream_line(s: StreamInfo) -> Seq<char> {
    stream_line_head(s) + stream_line_counts(s.stats)
}

/// The identifying part of a stream's statistics line.
pub open spec fn stream_line_head(s: StreamInfo) -> Seq<char> {
    "stream="@ + decimal(s.id as nat) + " rel="@ + reliability_name(s.reliability) + " prio="@
        + decimal(s.priority as nat)
}

/// The counting part of a stream's statistics line.
pub open spec fn stream_line_counts(s: StreamStats) -> Seq<char> {
    " sent="@ + decimal(s.sent as nat) + " acked="@ + decimal(s.acked as nat) + " lost="@
        + decimal(s.lost as nat) + " retx="@ + decimal(s.retransmits as nat) + " inflight="@
        + decimal(s.in_flight as nat) + " avg_rtt_us="@ + decimal(average_rtt_us(s) as nat)
}

/// The lines of the listed streams, joined by line breaks.
pub open spec fn stream_lines(ids: Seq<u32>, m: Map<u32, StreamInfo>) -> Seq<char>
    decreases ids.len(),
{
    if ids.len() == 0 {
        seq![]
    } else if ids.len() == 1 {
        stream_line(m[ids[0]])
    } else {
        stream_lines(ids.drop_last(), m).push('\n') + stream_line(m[ids.last()])
    }
}

/// The status line of a connection.
pub open spec fn status_line(
    connection_id: u32,
    state: ConnectionState,
    current_stream: u32,
    streams: nat,
) -> Seq<char> {
    "conn_id="@ + decimal(connection_id as nat) + " state="@ + connection_state_name(state)
        + " current_stream="@ + decimal(current_stream as nat) + " streams="@ + decimal(streams)
}

pub struct ConnectionManager {
    pub connection_id: u32,
    pub state: ConnectionState,
    pub current_stream: u32,
    pub streams: HashMap<u32, StreamInfo>,
    /// The id the next created stream gets.
    pub next_stream_id: u32,
}

/// What a connection manager holds: its id and state, the selected stream,
/// the streams by id, and the id the next created stream gets.
pub struct ConnectionView {
    pub connection_id: u32,
    pub state: ConnectionState,
    pub current_stream: u32,
    pub streams: Map<u32, StreamInfo>,
    pub next_id: u32,
}

/// Every stream id lies below the id the next created stream gets, so a
/// created stream never replaces an existing one (until the ids wrap).
pub open spec fn ids_below_next(v: ConnectionView) -> bool {
    forall|k: u32| #[trigger] v.streams.contains_key(k) ==> k < v.next_id
}

impl View for ConnectionManager {
    type V = ConnectionView;

    open spec fn view(&self) -> ConnectionView {
        ConnectionView {
            connection_id: self.connection_id,
            state: self.state,
            current_stream: self.current_stream,
            streams: self.streams@,
            next_id: self.next_stream_id,
        }
    }
}

impl ConnectionManager {

    /// A connection that is not yet open, with the guaranteed stream 1 selected.
    pub fn new(connection_id: u32) -> (c: Self)
        ensures
            c@.connection_id == connection_id,
            c@.state == ConnectionState::Disconnected,
            c@.current_stream == 1,
            c@.next_id == 2,
            ids_below_next(c@),
            c@.streams == Map::<u32, StreamInfo>::empty().insert(
                1,
                StreamInfo {
                    id: 1,
                    reliability: Reliability::Guaranteed,
                    priority: 0,
                    stats: zero_stats(),
                },
            ),
    {
        let mut streams = HashMap::new();
        streams.insert(
            1,
            StreamInfo {
                id: 1,
                reliability: Reliability::Guaranteed,
                priority: 0,
                stats: StreamStats::default(),
            },
        );
        Self {
            connection_id,
            state: ConnectionState::Disconnected,
            current_stream: 1,
            streams,
            next_stream_id: 2,
        }
    }

    /// Opens a stream under the next id (ids wrap around), selects it and
    /// returns its id.
    pub fn create_stream(&mut self, reliability: Reliability, priority: u8) -> (id: u32)
        ensures
            id == old(self)@.next_id,
            final(self)@.next_id == (if id == u32::MAX {
                0
            } else {
                (id + 1) as u32
            }),
            final(self)@.streams == old(self)@.streams.insert(
                id,
                StreamInfo { id, reliability, priority, stats: zero_stats() },
            ),
            final(self)@.current_stream == id,
            final(self)@.connection_id == old(self)@.connection_id,
            final(self)@.state == old(self)@.state,
            ids_below_next(old(self)@) && id < u32::MAX ==> !old(self)@.streams.contains_key(id)
                && ids_below_next(final(self)@),
    {
        let id = self.next_stream_id;
        self.next_stream_id = self.next_stream_id.wrapping_add(1);
        self.streams.insert(
            id,
            StreamInfo { id, reliability, priority, stats: StreamStats::default() },
        );
        self.current_stream = id;
        id
    }

    /// Selects a stream if it exists.
    pub fn use_stream(&mut self, id: u32) -> (found: bool)
        ensures
            found == old(self)@.streams.contains_key(id),
            final(self)@.current_stream == (if found {
                id
            } else {
                old(self)@.current_stream
            }),
            final(self)@.streams == old(self)@.streams,
            final(self)@.next_id == old(self)@.next_id,
            ids_below_next(old(self)@) ==> ids_below_next(final(self)@),
            final(self)@.connection_id == old(self)@.connection_id,
            final(self)@.state == old(self)@.state,
    {
        if self.streams.contains_key(&id) {
            self.current_stream = id;
            true
        } else {
            false
        }
    }

    /// The ids of all streams in ascending order.
    pub fn stream_ids(&self) -> (ids: Vec<u32>)
        ensures
            ascending_listing(ids@, self@.streams.dom()),
    {
        let mut ids: Vec<u32> = Vec::new();
        let ghost dom = self@.streams.dom();
        let ghost mut seen: Seq<u32> = Seq::empty();
        for k in it: self.streams.keys()
            invariant
                dom == self@.streams.dom(),
                it.seq().unref().to_set() == dom,
                it.seq().unref().no_duplicates(),
                seen == it.seq().unref().take(it.index() as int),
                forall|i: int, j: int| 0 <= i < j < ids@.len() ==> ids@[i] < ids@[j],
                forall|x: u32| #[trigger] ids@.contains(x) <==> seen.contains(x),
            ensures
                seen =~= it.seq().unref(),
        {
            let ghost all = it.seq().unref();
            let ghost i = it.index() as int;
            assert(*k == all[i]);
            assert(!seen.contains(*k)) by {
                if seen.contains(*k) {
                    let j = choose|j: int| 0 <= j < seen.len() && seen[j] == *k;
                    assert(all[j] == all[i]);
                }
            }
            insert_sorted(&mut ids, *k);
            proof {
                let next = all.take(i + 1);
                assert(next =~= seen.push(*k));
                seen = seen.push(*k);
                assert forall|x: u32| #[trigger] ids@.contains(x) <==> seen.contains(x) by {
                    if seen.contains(x) && x != *k {
                        let j = choose|j: int| 0 <= j < seen.len() && seen[j] == x;
                        assert(seen.drop_last()[j] == x);
                    }
                    if x == *k {
                        assert(seen[seen.len() - 1] == x);
                    }
                }
            }
        }
        proof {
            assert forall|x: u32| dom.contains(x) implies ids@.contains(x) by {
                assert(seen.to_set().contains(x));
            }
            assert forall|i: int| 0 <= i < ids@.len() implies dom.contains(#[trigger] ids@[i]) by {
                assert(ids@.contains(ids@[i]));
                assert(seen.contains(ids@[i]));
                assert(seen.to_set().contains(ids@[i]));
            }
        }
        ids
    }

    /// The connection's status line.
    pub fn status(&self) -> (s: String)
        ensures
            s@ == status_line(
                self@.connection_id,
                self@.state,
                self@.current_stream,
                self@.streams.dom().len(),
            ),
    {
        let mut s = String::new();
        push_str(&mut s, "conn_id=");
        push_decimal(&mut s, self.connection_id as u128);
        push_str(&mut s, " state=");
        push_str(&mut s, self.state.name());
        push_str(&mut s, " current_stream=");
        push_decimal(&mut s, self.current_stream as u128);
        push_str(&mut s, " streams=");
        push_decimal(&mut s, self.streams.len() as u128);
        assert(s@ =~= status_line(
            self.connection_id,
            self.state,
            self.current_stream,
            self@.streams.dom().len(),
        ));
        s
    }

    /// Whether a packet of the given class may go out on the stream now:
    /// best-effort packets always may, reliable ones while the stream has
    /// fewer than four in flight (or the stream is unknown).
    pub fn can_send_stream(&self, stream_id: u32, reliability: Reliability) -> (ok: bool)
        ensures
            ok == (reliability == Reliability::BestEffort || !self@.streams.contains_key(stream_id)
                || self@.streams[stream_id].stats.in_flight < MAX_STREAM_IN_FLIGHT),
    {
        if reliability == Reliability::BestEffort {
            return true;
        }
        match self.streams.get(&stream_id) {
            Some(stream) => stream.stats.in_flight < MAX_STREAM_IN_FLIGHT,
            None => true,
        }
    }

    /// Counts a send on the stream, if it exists.
    pub fn record_send(&mut self, stream_id: u32, reliability: Reliability)
        ensures
            final(self)@.streams == (if old(self)@.streams.contains_key(stream_id) {
                old(self)@.streams.insert(
                    stream_id,
                    after_send(old(self)@.streams[stream_id], reliability),
                )
            } else {
                old(self)@.streams
            }),
            final(self)@.current_stream == old(self)@.current_stream,
            final(self)@.next_id == old(self)@.next_id,
            ids_below_next(old(self)@) ==> ids_below_next(final(self)@),
            final(self)@.connection_id == old(self)@.connection_id,
            final(self)@.state == old(self)@.state,
    {
        if let Some(stream) = self.streams.get(&stream_id) {
            let mut s = *stream;
            s.stats.sent = s.stats.sent.saturating_add(1);
            if reliability != Reliability::BestEffort {
                s.stats.in_flight = s.stats.in_flight.saturating_add(1);
            }
            self.streams.insert(stream_id, s);
        }
    }

    /// Counts an ACK on the stream, if it exists.
    pub fn record_ack(&mut self, stream_id: u32, rtt_us: u128)
        ensures
            final(self)@.streams == (if old(self)@.streams.contains_key(stream_id) {
                old(self)@.streams.insert(stream_id, after_ack(old(self)@.streams[stream_id], rtt_us))
            } else {
                old(self)@.streams
            }),
            final(self)@.current_stream == old(self)@.current_stream,
            final(self)@.next_id == old(self)@.next_id,
            ids_below_next(old(self)@) ==> ids_below_next(final(self)@),
            final(self)@.connection_id == old(self)@.connection_id,
            final(self)@.state == old(self)@.state,
    {
        if let Some(stream) = self.streams.get(&stream_id) {
            let mut s = *stream;
            s.stats.acked = s.stats.acked.saturating_add(1);
            s.stats.in_flight = s.stats.in_flight.saturating_sub(1);
            s.stats.rtt_samples = s.stats.rtt_samples.saturating_add(1);
            s.stats.rtt_sum_us = s.stats.rtt_sum_us.saturating_add(rtt_us);
            self.streams.insert(stream_id, s);
        }
    }

    /// Counts a loss on the stream, if it exists.
    pub fn record_loss(&mut self, stream_id: u32)
        ensures
            final(self)@.streams == (if old(self)@.streams.contains_key(stream_id) {
                old(self)@.streams.insert(stream_id, after_loss(old(self)@.streams[stream_id]))
            } else {
                old(self)@.streams
            }),
            final(self)@.current_stream == old(self)@.current_stream,
            final(self)@.next_id == old(self)@.next_id,
            ids_below_next(old(self)@) ==> ids_below_next(final(self)@),
            final(self)@.connection_id == old(self)@.connection_id,
            final(self)@.state == old(self)@.state,
    {
        if let Some(stream) = self.streams.get(&stream_id) {
            let mut s = *stream;
            s.stats.lost = s.stats.lost.saturating_add(1);
            s.stats.in_flight = s.stats.in_flight.saturating_sub(1);
            self.streams.insert(stream_id, s);
        }
    }

    /// Counts a retransmission on the stream, if it exists.
    pub fn record_retransmit(&mut self, stream_id: u32)
        ensures
            final(self)@.streams == (if old(self)@.streams.contains_key(stream_id) {
                old(self)@.streams.insert(
                    stream_id,
                    after_retransmit(old(self)@.streams[stream_id]),
                )
            } else {
                old(self)@.streams
            }),
            final(self)@.current_stream == old(self)@.current_stream,
            final(self)@.next_id == old(self)@.next_id,
            ids_below_next(old(self)@) ==> ids_below_next(final(self)@),
            final(self)@.connection_id == old(self)@.connection_id,
            final(self)@.state == old(self)@.state,
    {
        if let Some(stream) = self.streams.get(&stream_id) {
            let mut s = *stream;
            s.stats.retransmits = s.stats.retransmits.saturating_add(1);
            self.streams.insert(stream_id, s);
        }
    }

    /// One statistics line per stream, in ascending id order.
    pub fn stream_stats_text(&self) -> (text: String)
        ensures
            exists|ids: Seq<u32>|
                ascending_listing(ids, self@.streams.dom()) && text@ == stream_lines(
                    ids,
                    self@.streams,
                ),
    {
        let ids = self.stream_ids();
        let mut text = String::new();
        let mut i: usize = 0;
        while i < ids.len()
            invariant
                i <= ids@.len(),
                ascending_listing(ids@, self@.streams.dom()),
                text@ == stream_lines(ids@.take(i as int), self@.streams),
            decreases ids@.len() - i,
        {
            let id = ids[i];
            assert(self@.streams.contains_key(id));
            let stream = *self.streams.get(&id).unwrap();
            if i > 0 {
                push_char(&mut text, '\n');
            }
            push_stream_line(&mut text, &stream);
            proof {
                let taken = ids@.take(i + 1);
                assert(taken.drop_last() =~= ids@.take(i as int));
                assert(taken.last() == id);
                if i == 0 {
                    assert(ids@.take(0) =~= Seq::<u32>::empty());
                }
            }
            assert(text@ =~= stream_lines(ids@.take(i + 1), self@.streams));
            i = i + 1;
        }
        assert(ids@.take(ids@.len() as int) =~= ids@);
        text
    }
}

fn push_stream_line(text: &mut String, s: &StreamInfo)
    ensures
        final(text)@ == old(text)@ + stream_line(*s),
{
    push_str(text, "stream=");
    push_decimal(text, s.id as u128);
    push_str(text, " rel=");
    push_str(text, s.reliability.name());
    push_str(text, " prio=");
    push_decimal(text, s.priority as u128);
    assert(text@ =~= old(text)@ + stream_line_head(*s));
    push_stream_counts(text, &s.stats);
    assert(text@ =~= old(text)@ + stream_line(*s));
}

fn push_stream_counts(text: &mut String, s: &StreamStats)
    ensures
        final(text)@ == old(text)@ + stream_line_counts(*s),
{
    let avg_rtt_us: u128 = if s.rtt_samples > 0 {
        s.rtt_sum_us / s.rtt_samples as u128
    } else {
        0
    };
    push_str(text, " sent=");
    push_decimal(text, s.sent as u128);
    push_str(text, " acked=");
    push_decimal(text, s.acked as u128);
    push_str(text, " lost=");
    push_decimal(text, s.lost as u128);
    push_str(text, " retx=");
    push_decimal(text, s.retransmits as u128);
    push_str(text, " inflight=");
    push_decimal(text, s.in_flight as u128);
    push_str(text, " avg_rtt_us=");
    push_decimal(text, avg_rtt_us);
    assert(text@ =~= old(text)@ + stream_line_counts(*s));
}

/// Inserts a value that is not yet present into a strictly ascending vector.
fn insert_sorted(ids: &mut Vec<u32>, k: u32)
    requires
        forall|i: int, j: int| 0 <= i < j < old(ids)@.len() ==> old(ids)@[i] < old(ids)@[j],
        !old(ids)@.contains(k),
    ensures
        forall|i: int, j: int| 0 <= i < j < final(ids)@.len() ==> final(ids)@[i] < final(ids)@[j],
        forall|x: u32| #[trigger] final(ids)@.contains(x) <==> (old(ids)@.contains(x) || x == k),
{
    let mut p: usize = 0;
    while p < ids.len() && ids[p] < k
        invariant
            p <= ids@.len(),
            ids@ == old(ids)@,
            forall|i: int| 0 <= i < p ==> ids@[i] < k,
        decreases ids@.len() - p,
    {
        p = p + 1;
    }
    if p < ids.len() {
        assert(ids@[p as int] != k);
    }
    ids.insert(p, k);
    assert forall|x: u32| #[trigger] ids@.contains(x) <==> (old(ids)@.contains(x) || x == k) by {
        if ids@.contains(x) {
            let i = choose|i: int| 0 <= i < ids@.len() && ids@[i] == x;
            if i < p {
                assert(old(ids)@[i] == x);
            } else if i > p {
                assert(old(ids)@[i - 1] == x);
            }
        }
        if old(ids)@.contains(x) {
            let i = choose|i: int| 0 <= i < old(ids)@.len() && old(ids)@[i] == x;
            if i < p {
                assert(ids@[i] == x);
            } else {
                assert(ids@[i + 1] == x);
            }
        }
        if x == k {
            assert(ids@[p as int] == k);
        }
    }
}

/// Two ascending listings of the same set are the same sequence.
pub proof fn lemma_ascending_listing_unique(a: Seq<u32>, b: Seq<u32>, d: Set<u32>)
    requires
        ascending_listing(a, d),
        ascending_listing(b, d),
    ensures
        a == b,
    decreases a.len(),
{
    if a.len() == 0 {
        if b.len() > 0 {
            assert(d.contains(b[0]));
            assert(a.contains(b[0]));
        }
        assert(a =~= b);
    } else {
        assert(d.contains(a.last()));
        assert(b.contains(a.last()));
        assert(b.len() > 0);
        assert(d.contains(b.last()));
        assert(a.contains(b.last()));
        let ia = choose|i: int| 0 <= i < a.len() && a[i] == b.last();
        let ib = choose|i: int| 0 <= i < b.len() && b[i] == a.last();
        assert(a.last() == b.last()) by {
            if a.last() < b.last() {
                assert(ia <= a.len() - 1);
                if ia < a.len() - 1 {
                    assert(a[ia] < a.last());
                }
            } else if b.last() < a.last() {
                if ib < b.len() - 1 {
                    assert(b[ib] < b.last());
                }
            }
        }
        let d2 = d.remove(a.last());
        let a2 = a.drop_last();
        let b2 = b.drop_last();
        assert forall|k: u32| d2.contains(k) implies a2.contains(k) by {
            let i = choose|i: int| 0 <= i < a.len() && a[i] == k;
            assert(i != a.len() - 1);
            assert(a2[i] == k);
        }
        assert forall|k: u32| d2.contains(k) implies b2.contains(k) by {
            let i = choose|i: int| 0 <= i < b.len() && b[i] == k;
            assert(i != b.len() - 1);
            assert(b2[i] == k);
        }
        assert forall|i: int| 0 <= i < a2.len() implies d2.contains(#[trigger] a2[i]) by {
            assert(a[i] < a.last());
        }
        assert forall|i: int| 0 <= i < b2.len() implies d2.contains(#[trigger] b2[i]) by {
            assert(b[i] < b.last());
        }
        lemma_ascending_listing_unique(a2, b2, d2);
        assert(a =~= a2.push(a.last()));
        assert(b =~= b2.push(b.last()));
    }
}


/// Sending a reliable packet on a stream and then getting its ACK leaves the
/// stream's in-flight count where it was (short of the counters' ceiling).
pub proof fn lemma_send_then_ack_restores_in_flight(s: StreamInfo, reliability: Reliability, rtt_us: u128)
    requires
        reliability != Reliability::BestEffort,
        s.stats.in_flight < u64::MAX,
    ensures
        after_ack(after_send(s, reliability), rtt_us).stats.in_flight == s.stats.in_flight,
        after_loss(after_send(s, reliability)).stats.in_flight == s.stats.in_flight,
{
}

/// A best-effort send never counts as in flight.
pub proof fn lemma_best_effort_not_in_flight(s: StreamInfo)
    ensures
        after_send(s, Reliability::BestEffort).stats.in_flight == s.stats.in_flight,
{
}

} // verus!
