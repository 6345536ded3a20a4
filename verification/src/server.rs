//! The server's handling of incoming packets: which connections and streams
//! it knows, and what it answers.  Peers are numbered by the caller, one
//! number per remote address.
use vstd::prelude::*;

use std::collections::HashSet;

use crate::packet::{
    encode_packet, packet_bytes, Packet, Reliability, TYPE_ACK, TYPE_CLOSE, TYPE_CLOSE_ACK,
    TYPE_DATA, TYPE_SYN, TYPE_SYN_ACK,
};

verus! {

/// A packet the server sends back: always best effort, priority 0, sequence
/// number 0 and no payload.
#[derive(Debug, Clone, Copy, PartialEq, Eq, Structural)]
pub struct Reply {
    pub ptype: u8,
    pub connection_id: u32,
    pub stream_id: u32,
    pub ack: u32,
}

/// What handling one packet produced: the answer, if any, and whether the
/// packet opened a connection or a stream the server did not know.
#[derive(Debug, Clone, Copy, PartialEq, Eq, Structural)]
pub struct ServerResponse {
    pub reply: Option<Reply>,
    pub new_connection: bool,
    pub new_stream: bool,
}

/// The connections (peer, connection id) and streams (peer, connection id,
/// stream id) the server knows, each kept under one integer key.
pub struct ServerState {
    connections: HashSet<u64>,
    streams: HashSet<u128>,
}

#[verifier::ext_equal]
pub struct ServerView {
    pub connections: Set<(u32, u32)>,
    pub streams: Set<(u32, u32, u32)>,
}

/// The key of a connection: the peer in the high 32 bits, the connection id
/// in the low ones.
pub open spec fn connection_key(peer: u32, connection_id: u32) -> u64 {
    (peer * 0x1_0000_0000int + connection_id) as u64
}

/// The key of a stream: peer, connection id and stream id, 32 bits each.
pub open spec fn stream_key(peer: u32, connection_id: u32, stream_id: u32) -> u128 {
    (peer * 0x1_0000_0000_0000_0000int + connection_id * 0x1_0000_0000int + stream_id) as u128
}

/// Whether a stream key belongs to the given connection.
pub open spec fn stream_of(k: u128, peer: u32, connection_id: u32) -> bool {
    k / 0x1_0000_0000_0000_0000 == peer && (k / 0x1_0000_0000) % 0x1_0000_0000 == connection_id
}

impl View for ServerState {
    type V = ServerView;

    closed spec fn view(&self) -> ServerView {
        ServerView {
            connections: Set::new(
                |x: (u32, u32)| self.connections@.contains(connection_key(x.0, x.1)),
            ),
            streams: Set::new(
                |x: (u32, u32, u32)| self.streams@.contains(stream_key(x.0, x.1, x.2)),
            ),
        }
    }
}

proof fn lemma_connection_key_injective(a: u32, b: u32, c: u32, d: u32)
    ensures
        connection_key(a, b) == connection_key(c, d) <==> (a == c && b == d),
{
    assert(a * 0x1_0000_0000int + b == c * 0x1_0000_0000int + d ==> a == c && b == d)
        by (nonlinear_arith);
}

proof fn lemma_stream_key_parts(a: u32, b: u32, c: u32)
    ensures
        stream_key(a, b, c) / 0x1_0000_0000_0000_0000 == a,
        (stream_key(a, b, c) / 0x1_0000_0000) % 0x1_0000_0000 == b,
        stream_key(a, b, c) % 0x1_0000_0000 == c,
{
    let k: int = a * 0x1_0000_0000_0000_0000int + b * 0x1_0000_0000int + c;
    assert(0 <= k < 0x1_0000_0000_0000_0000_0000_0000int) by (nonlinear_arith)
        requires
            k == a * 0x1_0000_0000_0000_0000int + b * 0x1_0000_0000int + c,
            a < 0x1_0000_0000,
            b < 0x1_0000_0000,
            c < 0x1_0000_0000,
    ;
    assert(k / 0x1_0000_0000_0000_0000int == a) by (nonlinear_arith)
        requires
            k == a * 0x1_0000_0000_0000_0000int + b * 0x1_0000_0000int + c,
            0 <= a,
            0 <= b < 0x1_0000_0000,
            0 <= c < 0x1_0000_0000,
    ;
    assert(k / 0x1_0000_0000int == a * 0x1_0000_0000int + b) by (nonlinear_arith)
        requires
            k == a * 0x1_0000_0000_0000_0000int + b * 0x1_0000_0000int + c,
            0 <= a,
            0 <= b,
            0 <= c < 0x1_0000_0000,
    ;
    assert((a * 0x1_0000_0000int + b) % 0x1_0000_0000int == b) by (nonlinear_arith)
        requires
            0 <= a,
            0 <= b < 0x1_0000_0000,
    ;
    assert(k % 0x1_0000_0000int == c) by (nonlinear_arith)
        requires
            k == a * 0x1_0000_0000_0000_0000int + b * 0x1_0000_0000int + c,
            0 <= a,
            0 <= b,
            0 <= c < 0x1_0000_0000,
    ;
}

proof fn lemma_stream_key_injective(a: u32, b: u32, c: u32, d: u32, e: u32, f: u32)
    ensures
        stream_key(a, b, c) == stream_key(d, e, f) <==> (a == d && b == e && c == f),
{
    lemma_stream_key_parts(a, b, c);
    lemma_stream_key_parts(d, e, f);
}

fn connection_key_of(peer: u32, connection_id: u32) -> (k: u64)
    ensures
        k == connection_key(peer, connection_id),
{
    assert(peer * 0x1_0000_0000int + connection_id <= u64::MAX) by (nonlinear_arith)
        requires
            peer < 0x1_0000_0000,
            connection_id < 0x1_0000_0000,
    ;
    (peer as u64) * 0x1_0000_0000 + (connection_id as u64)
}

fn stream_key_of(peer: u32, connection_id: u32, stream_id: u32) -> (k: u128)
    ensures
        k == stream_key(peer, connection_id, stream_id),
{
    proof {
        lemma_stream_key_parts(peer, connection_id, stream_id);
    }
    assert(peer * 0x1_0000_0000_0000_0000int + connection_id * 0x1_0000_0000int + stream_id
        <= u128::MAX) by (nonlinear_arith)
        requires
            peer < 0x1_0000_0000,
            connection_id < 0x1_0000_0000,
            stream_id < 0x1_0000_0000,
    ;
    (peer as u128) * 0x1_0000_0000_0000_0000 + (connection_id as u128) * 0x1_0000_0000
        + (stream_id as u128)
}

/// The reply the server gives to `p` from `peer`.
pub open spec fn reply_to(p: Packet) -> Option<Reply> {
    if p.ptype == TYPE_SYN {
        Some(Reply { ptype: TYPE_SYN_ACK, connection_id: p.connection_id, stream_id: 0, ack: p.seq })
    } else if p.ptype == TYPE_CLOSE {
        Some(
            Reply { ptype: TYPE_CLOSE_ACK, connection_id: p.connection_id, stream_id: 0, ack: p.seq },
        )
    } else if p.ptype == TYPE_DATA && p.reliability != Reliability::BestEffort {
        Some(
            Reply {
                ptype: TYPE_ACK,
                connection_id: p.connection_id,
                stream_id: p.stream_id,
                ack: p.seq,
            },
        )
    } else {
        None
    }
}

/// What the server knows after `p` from `peer`: a SYN or a DATA packet adds
/// the connection (and a DATA packet its stream); a CLOSE forgets the
/// connection and its streams.
pub open spec fn state_after(v: ServerView, peer: u32, p: Packet) -> ServerView {
    let key = (peer, p.connection_id);
    if p.ptype == TYPE_SYN {
        ServerView { connections: v.connections.insert(key), ..v }
    } else if p.ptype == TYPE_CLOSE {
        ServerView {
            connections: v.connections.remove(key),
            streams: v.streams.filter(|s: (u32, u32, u32)| !(s.0 == peer && s.1 == p.connection_id)),
        }
    } else if p.ptype == TYPE_DATA {
        ServerView {
            connections: v.connections.insert(key),
            streams: v.streams.insert((peer, p.connection_id, p.stream_id)),
        }
    } else {
        v
    }
}

impl ServerState {
    pub fn new() -> (s: Self)
        ensures
            s@.connections == Set::<(u32, u32)>::empty(),
            s@.streams == Set::<(u32, u32, u32)>::empty(),
    {
        broadcast use vstd::std_specs::hash::group_hash_axioms;

        let s = Self { connections: HashSet::new(), streams: HashSet::new() };
        assert(s@.connections =~= Set::empty());
        assert(s@.streams =~= Set::empty());
        s
    }

    pub fn knows_connection(&self, peer: u32, connection_id: u32) -> (b: bool)
        ensures
            b == self@.connections.contains((peer, connection_id)),
    {
        broadcast use vstd::std_specs::hash::group_hash_axioms;

        let key = connection_key_of(peer, connection_id);
        self.connections.contains(&key)
    }

    pub fn knows_stream(&self, peer: u32, connection_id: u32, stream_id: u32) -> (b: bool)
        ensures
            b == self@.streams.contains((peer, connection_id, stream_id)),
    {
        broadcast use vstd::std_specs::hash::group_hash_axioms;

        let key = stream_key_of(peer, connection_id, stream_id);
        self.streams.contains(&key)
    }

    /// Adds a connection; true when it was not known before.
    fn add_connection(&mut self, peer: u32, connection_id: u32) -> (added: bool)
        ensures
            added == !old(self)@.connections.contains((peer, connection_id)),
            final(self)@.connections == old(self)@.connections.insert((peer, connection_id)),
            final(self)@.streams == old(self)@.streams,
    {
        broadcast use vstd::std_specs::hash::group_hash_axioms;

        let key = connection_key_of(peer, connection_id);
        let added = self.connections.insert(key);
        assert forall|x: (u32, u32)| #[trigger]
            self@.connections.contains(x) == old(self)@.connections.insert(
                (peer, connection_id),
            ).contains(x) by {
            lemma_connection_key_injective(x.0, x.1, peer, connection_id);
        }
        assert(self@.connections =~= old(self)@.connections.insert((peer, connection_id)));
        assert(self@.streams =~= old(self)@.streams);
        added
    }

    /// Adds a stream; true when it was not known before.
    fn add_stream(&mut self, peer: u32, connection_id: u32, stream_id: u32) -> (added: bool)
        ensures
            added == !old(self)@.streams.contains((peer, connection_id, stream_id)),
            final(self)@.streams == old(self)@.streams.insert((peer, connection_id, stream_id)),
            final(self)@.connections == old(self)@.connections,
    {
        broadcast use vstd::std_specs::hash::group_hash_axioms;

        let key = stream_key_of(peer, connection_id, stream_id);
        let added = self.streams.insert(key);
        assert forall|x: (u32, u32, u32)| #[trigger]
            self@.streams.contains(x) == old(self)@.streams.insert(
                (peer, connection_id, stream_id),
            ).contains(x) by {
            lemma_stream_key_injective(x.0, x.1, x.2, peer, connection_id, stream_id);
        }
        assert(self@.streams =~= old(self)@.streams.insert((peer, connection_id, stream_id)));
        assert(self@.connections =~= old(self)@.connections);
        added
    }

    /// Forgets a connection and every stream on it.
    fn close_connection(&mut self, peer: u32, connection_id: u32)
        ensures
            final(self)@.connections == old(self)@.connections.remove((peer, connection_id)),
            final(self)@.streams == old(self)@.streams.filter(
                |s: (u32, u32, u32)| !(s.0 == peer && s.1 == connection_id),
            ),
    {
        broadcast use vstd::std_specs::hash::group_hash_axioms;

        let key = connection_key_of(peer, connection_id);
        self.connections.remove(&key);
        assert forall|x: (u32, u32)| #[trigger]
            self@.connections.contains(x) == old(self)@.connections.remove(
                (peer, connection_id),
            ).contains(x) by {
            lemma_connection_key_injective(x.0, x.1, peer, connection_id);
        }
        assert(self@.connections =~= old(self)@.connections.remove((peer, connection_id)));
        let mut kept: HashSet<u128> = HashSet::new();
        let ghost all = self.streams@;
        let ghost mut seen: Seq<u128> = Seq::empty();
        for k in it: self.streams.iter()
            invariant
                all == self.streams@,
                it.seq().unref().to_set() == all,
                seen == it.seq().unref().take(it.index() as int),
                forall|j: u128| #[trigger]
                    kept@.contains(j) <==> (seen.contains(j) && !stream_of(j, peer, connection_id)),
            ensures
                seen =~= it.seq().unref(),
        {
            assert(it.seq().unref().take(it.index() + 1) =~= seen.push(*k));
            let ghost next = seen.push(*k);
            let high = *k / 0x1_0000_0000_0000_0000;
            let middle = (*k / 0x1_0000_0000) % 0x1_0000_0000;
            if !(high == peer as u128 && middle == connection_id as u128) {
                kept.insert(*k);
            }
            assert forall|j: u128| #[trigger]
                kept@.contains(j) <==> (next.contains(j) && !stream_of(j, peer, connection_id)) by {
                if next.contains(j) && !seen.contains(j) {
                    let t = choose|t: int| 0 <= t < next.len() && next[t] == j;
                    if t < seen.len() {
                        assert(seen[t] == j);
                    }
                }
                if seen.contains(j) {
                    let t = choose|t: int| 0 <= t < seen.len() && seen[t] == j;
                    assert(next[t] == j);
                }
                if j == *k {
                    assert(next[seen.len() as int] == j);
                }
            }
            proof {
                seen = next;
            }
        }
        assert forall|j: u128| #[trigger] kept@.contains(j) <==> (all.contains(j) && !stream_of(
            j,
            peer,
            connection_id,
        )) by {
            if all.contains(j) {
                assert(seen.to_set().contains(j));
            }
        }
        self.streams = kept;
        assert forall|x: (u32, u32, u32)| #[trigger]
            self@.streams.contains(x) == old(self)@.streams.filter(
                |s: (u32, u32, u32)| !(s.0 == peer && s.1 == connection_id),
            ).contains(x) by {
            lemma_stream_key_parts(x.0, x.1, x.2);
            let j = stream_key(x.0, x.1, x.2);
            assert(kept@.contains(j) <==> (all.contains(j) && !stream_of(j, peer, connection_id)));
        }
        assert(self@.streams =~= old(self)@.streams.filter(
            |s: (u32, u32, u32)| !(s.0 == peer && s.1 == connection_id),
        ));
    }

    /// Handles one decoded packet from `peer`.
    pub fn handle_packet(&mut self, peer: u32, p: &Packet) -> (r: ServerResponse)
        ensures
            r.reply == reply_to(*p),
            final(self)@ == state_after(old(self)@, peer, *p),
            r.new_connection == (p.ptype == TYPE_DATA && !old(self)@.connections.contains(
                (peer, p.connection_id),
            )),
            r.new_stream == (p.ptype == TYPE_DATA && !old(self)@.streams.contains(
                (peer, p.connection_id, p.stream_id),
            )),
    {
        if p.ptype == TYPE_SYN {
            self.add_connection(peer, p.connection_id);
            ServerResponse {
                reply: Some(
                    Reply {
                        ptype: TYPE_SYN_ACK,
                        connection_id: p.connection_id,
                        stream_id: 0,
                        ack: p.seq,
                    },
                ),
                new_connection: false,
                new_stream: false,
            }
        } else if p.ptype == TYPE_CLOSE {
            self.close_connection(peer, p.connection_id);
            ServerResponse {
                reply: Some(
                    Reply {
                        ptype: TYPE_CLOSE_ACK,
                        connection_id: p.connection_id,
                        stream_id: 0,
                        ack: p.seq,
                    },
                ),
                new_connection: false,
                new_stream: false,
            }
        } else if p.ptype == TYPE_DATA {
            let new_connection = self.add_connection(peer, p.connection_id);
            let new_stream = self.add_stream(peer, p.connection_id, p.stream_id);
            let reply = if p.reliability != Reliability::BestEffort {
                Some(
                    Reply {
                        ptype: TYPE_ACK,
                        connection_id: p.connection_id,
                        stream_id: p.stream_id,
                        ack: p.seq,
                    },
                )
            } else {
                None
            };
            ServerResponse { reply, new_connection, new_stream }
        } else {
            ServerResponse { reply: None, new_connection: false, new_stream: false }
        }
    }
}

/// The bytes of a reply, stamped with the current time.
pub fn encode_reply(reply: &Reply) -> (bytes: Vec<u8>)
    ensures
        exists|timestamp_us: u64|
            bytes@ == packet_bytes(
                reply.ptype,
                Reliability::BestEffort,
                0,
                reply.connection_id,
                reply.stream_id,
                0,
                reply.ack,
                timestamp_us,
                Seq::empty(),
            ),
{
    let empty: [u8; 0] = [];
    let bytes = encode_packet(
        reply.ptype,
        Reliability::BestEffort,
        0,
        reply.connection_id,
        reply.stream_id,
        0,
        reply.ack,
        &empty,
    );
    assert(empty@ =~= Seq::<u8>::empty());
    bytes
}


/// After a CLOSE the server knows neither the connection nor any stream on it.
pub proof fn lemma_close_forgets_connection(v: ServerView, peer: u32, p: Packet, stream_id: u32)
    requires
        p.ptype == TYPE_CLOSE,
    ensures
        !state_after(v, peer, p).connections.contains((peer, p.connection_id)),
        !state_after(v, peer, p).streams.contains((peer, p.connection_id, stream_id)),
{
}

/// Every reliable DATA packet is acknowledged with its own sequence number,
/// and best-effort data is never acknowledged.
pub proof fn lemma_reliable_data_is_acked(p: Packet)
    requires
        p.ptype == TYPE_DATA,
    ensures
        p.reliability != Reliability::BestEffort ==> reply_to(p) == Some(
            Reply {
                ptype: TYPE_ACK,
                connection_id: p.connection_id,
                stream_id: p.stream_id,
                ack: p.seq,
            },
        ),
        p.reliability == Reliability::BestEffort ==> reply_to(p) is None,
{
}

} // verus!
