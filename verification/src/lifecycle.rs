//! The protocol's formal state machines (connection, stream, retransmission,
//! multipath path), their invariants, the lifecycle self-check and the
//! protocol documents generated from them.
use vstd::prelude::*;
use vstd::string::StringExecFns;

use crate::text::{push_char, push_str, string_views};

verus! {

/// `from --event--> to`, the log entry of one transition.
pub open spec fn transition_text(from: Seq<char>, event: Seq<char>, to: Seq<char>) -> Seq<char> {
    from + " --"@ + event + "--> "@ + to
}

fn transition_entry(from: &str, event: &str, to: &str) -> (s: String)
    ensures
        s@ == transition_text(from@, event@, to@),
{
    let mut s = String::from_str(from);
    push_str(&mut s, " --");
    push_str(&mut s, event);
    push_str(&mut s, "--> ");
    push_str(&mut s, to);
    s
}

/// `<prefix>from <state> on <event>`, the error of a rejected event.
pub open spec fn rejection_text(prefix: Seq<char>, from: Seq<char>, event: Seq<char>) -> Seq<char> {
    prefix + "from "@ + from + " on "@ + event
}

fn rejection_message(prefix: &str, from: &str, event: &str) -> (s: String)
    ensures
        s@ == rejection_text(prefix@, from@, event@),
{
    let mut s = String::from_str(prefix);
    push_str(&mut s, "from ");
    push_str(&mut s, from);
    push_str(&mut s, " on ");
    push_str(&mut s, event);
    s
}

// ------------------------------------------------------------------
// Connection
// ------------------------------------------------------------------
#[derive(Debug, Clone, Copy, PartialEq, Eq, Structural)]
pub enum ConnState {
    Closed,
    WaitSynAck,
    Established,
    WaitCloseAck,
}

#[derive(Debug, Clone, Copy, PartialEq, Eq, Structural)]
pub enum ConnEvent {
    Connect,
    SynAckReceived,
    Close,
    CloseAckReceived,
    Timeout,
}

pub open spec fn conn_state_name(s: ConnState) -> Seq<char> {
    match s {
        ConnState::Closed => "Closed"@,
        ConnState::WaitSynAck => "WaitSynAck"@,
        ConnState::Established => "Established"@,
        ConnState::WaitCloseAck => "WaitCloseAck"@,
    }
}

pub open spec fn conn_event_name(e: ConnEvent) -> Seq<char> {
    match e {
        ConnEvent::Connect => "Connect"@,
        ConnEvent::SynAckReceived => "SynAckReceived"@,
        ConnEvent::Close => "Close"@,
        ConnEvent::CloseAckReceived => "CloseAckReceived"@,
        ConnEvent::Timeout => "Timeout"@,
    }
}

/// The connection transition table.
pub open spec fn conn_step(s: ConnState, e: ConnEvent) -> Option<ConnState> {
    match (s, e) {
        (ConnState::Closed, ConnEvent::Connect) => Some(ConnState::WaitSynAck),
        (ConnState::WaitSynAck, ConnEvent::SynAckReceived) => Some(ConnState::Established),
        (ConnState::WaitSynAck, ConnEvent::Timeout) => Some(ConnState::Closed),
        (ConnState::Established, ConnEvent::Close) => Some(ConnState::WaitCloseAck),
        (ConnState::WaitCloseAck, ConnEvent::CloseAckReceived) => Some(ConnState::Closed),
        (ConnState::WaitCloseAck, ConnEvent::Timeout) => Some(ConnState::Closed),
        _ => None,
    }
}

impl ConnState {
    pub fn name(self) -> (r: &'static str)
        ensures
            r@ == conn_state_name(self),
    {
        match self {
            ConnState::Closed => "Closed",
            ConnState::WaitSynAck => "WaitSynAck",
            ConnState::Established => "Established",
            ConnState::WaitCloseAck => "WaitCloseAck",
        }
    }
}

impl ConnEvent {
    pub fn name(self) -> (r: &'static str)
        ensures
            r@ == conn_event_name(self),
    {
        match self {
            ConnEvent::Connect => "Connect",
            ConnEvent::SynAckReceived => "SynAckReceived",
            ConnEvent::Close => "Close",
            ConnEvent::CloseAckReceived => "CloseAckReceived",
            ConnEvent::Timeout => "Timeout",
        }
    }
}

pub struct ConnStateMachine {
    pub state: ConnState,
    pub log: Vec<String>,
}

impl ConnStateMachine {
    pub fn new() -> (m: Self)
        ensures
            m.state == ConnState::Closed,
            m.log@.len() == 0,
    {
        Self { state: ConnState::Closed, log: Vec::new() }
    }

    /// Takes the transition the table gives for `event`, logging it, or
    /// rejects the event and leaves the machine as it was.
    pub fn apply(&mut self, event: ConnEvent) -> (r: Result<(), String>)
        ensures
            match conn_step(old(self).state, event) {
                Some(next) => {
                    &&& r is Ok
                    &&& final(self).state == next
                    &&& string_views(final(self).log@) == string_views(old(self).log@).push(
                        transition_text(
                            conn_state_name(old(self).state),
                            conn_event_name(event),
                            conn_state_name(next),
                        ),
                    )
                },
                None => {
                    &&& final(self).state == old(self).state
                    &&& final(self).log@ == old(self).log@
                    &&& r matches Err(e) && e@ == rejection_text(
                        "invalid transition "@,
                        conn_state_name(old(self).state),
                        conn_event_name(event),
                    )
                },
            },
    {
        let old_state = self.state;
        let next_state = match (self.state, event) {
            (ConnState::Closed, ConnEvent::Connect) => ConnState::WaitSynAck,
            (ConnState::WaitSynAck, ConnEvent::SynAckReceived) => ConnState::Established,
            (ConnState::WaitSynAck, ConnEvent::Timeout) => ConnState::Closed,
            (ConnState::Established, ConnEvent::Close) => ConnState::WaitCloseAck,
            (ConnState::WaitCloseAck, ConnEvent::CloseAckReceived) => ConnState::Closed,
            (ConnState::WaitCloseAck, ConnEvent::Timeout) => ConnState::Closed,
            _ => {
                return Err(rejection_message("invalid transition ", old_state.name(), event.name()));
            },
        };
        self.state = next_state;
        let entry = transition_entry(old_state.name(), event.name(), next_state.name());
        self.log.push(entry);
        assert(string_views(self.log@) =~= string_views(old(self).log@).push(entry@));
        Ok(())
    }
}

// ------------------------------------------------------------------
// Stream
// ------------------------------------------------------------------
#[derive(Debug, Clone, Copy, PartialEq, Eq, Structural)]
pub enum StreamState {
    Idle,
    Active,
    Closed,
}

#[derive(Debug, Clone, Copy, PartialEq, Eq, Structural)]
pub enum StreamEvent {
    Create,
    SendData,
    ReceiveAck,
    Close,
}

pub open spec fn stream_state_name(s: StreamState) -> Seq<char> {
    match s {
        StreamState::Idle => "Idle"@,
        StreamState::Active => "Active"@,
        StreamState::Closed => "Closed"@,
    }
}

pub open spec fn stream_event_name(e: StreamEvent) -> Seq<char> {
    match e {
        StreamEvent::Create => "Create"@,
        StreamEvent::SendData => "SendData"@,
        StreamEvent::ReceiveAck => "ReceiveAck"@,
        StreamEvent::Close => "Close"@,
    }
}

/// The stream transition table.
pub open spec fn stream_step(s: StreamState, e: StreamEvent) -> Option<StreamState> {
    match (s, e) {
        (StreamState::Idle, StreamEvent::Create) => Some(StreamState::Active),
        (StreamState::Active, StreamEvent::SendData) => Some(StreamState::Active),
        (StreamState::Active, StreamEvent::ReceiveAck) => Some(StreamState::Active),
        (StreamState::Active, StreamEvent::Close) => Some(StreamState::Closed),
        _ => None,
    }
}

impl StreamState {
    pub fn name(self) -> (r: &'static str)
        ensures
            r@ == stream_state_name(self),
    {
        match self {
            StreamState::Idle => "Idle",
            StreamState::Active => "Active",
            StreamState::Closed => "Closed",
        }
    }
}

impl StreamEvent {
    pub fn name(self) -> (r: &'static str)
        ensures
            r@ == stream_event_name(self),
    {
        match self {
            StreamEvent::Create => "Create",
            StreamEvent::SendData => "SendData",
            StreamEvent::ReceiveAck => "ReceiveAck",
            StreamEvent::Close => "Close",
        }
    }
}

pub struct StreamStateMachine {
    pub state: StreamState,
    pub log: Vec<String>,
}

impl StreamStateMachine {
    pub fn new() -> (m: Self)
        ensures
            m.state == StreamState::Idle,
            m.log@.len() == 0,
    {
        Self { state: StreamState::Idle, log: Vec::new() }
    }

    /// Takes the transition the table gives for `event`, logging it, or
    /// rejects the event and leaves the machine as it was.
    pub fn apply(&mut self, event: StreamEvent) -> (r: Result<(), String>)
        ensures
            match stream_step(old(self).state, event) {
                Some(next) => {
                    &&& r is Ok
                    &&& final(self).state == next
                    &&& string_views(final(self).log@) == string_views(old(self).log@).push(
                        transition_text(
                            stream_state_name(old(self).state),
                            stream_event_name(event),
                            stream_state_name(next),
                        ),
                    )
                },
                None => {
                    &&& final(self).state == old(self).state
                    &&& final(self).log@ == old(self).log@
                    &&& r matches Err(e) && e@ == rejection_text(
                        "invalid stream transition "@,
                        stream_state_name(old(self).state),
                        stream_event_name(event),
                    )
                },
            },
    {
        let old_state = self.state;
        let next_state = match (self.state, event) {
            (StreamState::Idle, StreamEvent::Create) => StreamState::Active,
            (StreamState::Active, StreamEvent::SendData) => StreamState::Active,
            (StreamState::Active, StreamEvent::ReceiveAck) => StreamState::Active,
            (StreamState::Active, StreamEvent::Close) => StreamState::Closed,
            _ => {
                return Err(
                    rejection_message("invalid stream transition ", old_state.name(), event.name()),
                );
            },
        };
        self.state = next_state;
        let entry = transition_entry(old_state.name(), event.name(), next_state.name());
        self.log.push(entry);
        assert(string_views(self.log@) =~= string_views(old(self).log@).push(entry@));
        Ok(())
    }
}

// ------------------------------------------------------------------
// Retransmission
// ------------------------------------------------------------------
#[derive(Debug, Clone, Copy, PartialEq, Eq, Structural)]
pub enum RetxState {
    Ready,
    InFlight,
    Acked,
    Dropped,
}

#[derive(Debug, Clone, Copy, PartialEq, Eq, Structural)]
pub enum RetxEvent {
    Transmit,
    Ack,
    Retransmit,
    Fail,
}

pub open spec fn retx_state_name(s: RetxState) -> Seq<char> {
    match s {
        RetxState::Ready => "Ready"@,
        RetxState::InFlight => "InFlight"@,
        RetxState::Acked => "Acked"@,
        RetxState::Dropped => "Dropped"@,
    }
}

pub open spec fn retx_event_name(e: RetxEvent) -> Seq<char> {
    match e {
        RetxEvent::Transmit => "Transmit"@,
        RetxEvent::Ack => "Ack"@,
        RetxEvent::Retransmit => "Retransmit"@,
        RetxEvent::Fail => "Fail"@,
    }
}

/// The retransmission transition table.
pub open spec fn retx_step(s: RetxState, e: RetxEvent) -> Option<RetxState> {
    match (s, e) {
        (RetxState::Ready, RetxEvent::Transmit) => Some(RetxState::InFlight),
        (RetxState::InFlight, RetxEvent::Ack) => Some(RetxState::Acked),
        (RetxState::InFlight, RetxEvent::Retransmit) => Some(RetxState::InFlight),
        (RetxState::InFlight, RetxEvent::Fail) => Some(RetxState::Dropped),
        _ => None,
    }
}

impl RetxState {
    pub fn name(self) -> (r: &'static str)
        ensures
            r@ == retx_state_name(self),
    {
        match self {
            RetxState::Ready => "Ready",
            RetxState::InFlight => "InFlight",
            RetxState::Acked => "Acked",
            RetxState::Dropped => "Dropped",
        }
    }
}

impl RetxEvent {
    pub fn name(self) -> (r: &'static str)
        ensures
            r@ == retx_event_name(self),
    {
        match self {
            RetxEvent::Transmit => "Transmit",
            RetxEvent::Ack => "Ack",
            RetxEvent::Retransmit => "Retransmit",
            RetxEvent::Fail => "Fail",
        }
    }
}

pub struct RetxStateMachine {
    pub state: RetxState,
    pub log: Vec<String>,
}

impl RetxStateMachine {
    pub fn new() -> (m: Self)
        ensures
            m.state == RetxState::Ready,
            m.log@.len() == 0,
    {
        Self { state: RetxState::Ready, log: Vec::new() }
    }

    /// Takes the transition the table gives for `event`, logging it, or
    /// rejects the event and leaves the machine as it was.
    pub fn apply(&mut self, event: RetxEvent) -> (r: Result<(), String>)
        ensures
            match retx_step(old(self).state, event) {
                Some(next) => {
                    &&& r is Ok
                    &&& final(self).state == next
                    &&& string_views(final(self).log@) == string_views(old(self).log@).push(
                        transition_text(
                            retx_state_name(old(self).state),
                            retx_event_name(event),
                            retx_state_name(next),
                        ),
                    )
                },
                None => {
                    &&& final(self).state == old(self).state
                    &&& final(self).log@ == old(self).log@
                    &&& r matches Err(e) && e@ == rejection_text(
                        "invalid retx transition "@,
                        retx_state_name(old(self).state),
                        retx_event_name(event),
                    )
                },
            },
    {
        let old_state = self.state;
        let next_state = match (self.state, event) {
            (RetxState::Ready, RetxEvent::Transmit) => RetxState::InFlight,
            (RetxState::InFlight, RetxEvent::Ack) => RetxState::Acked,
            (RetxState::InFlight, RetxEvent::Retransmit) => RetxState::InFlight,
            (RetxState::InFlight, RetxEvent::Fail) => RetxState::Dropped,
            _ => {
                return Err(
                    rejection_message("invalid retx transition ", old_state.name(), event.name()),
                );
            },
        };
        self.state = next_state;
        let entry = transition_entry(old_state.name(), event.name(), next_state.name());
        self.log.push(entry);
        assert(string_views(self.log@) =~= string_views(old(self).log@).push(entry@));
        Ok(())
    }
}

// ------------------------------------------------------------------
// Multipath path
// ------------------------------------------------------------------
#[derive(Debug, Clone, Copy, PartialEq, Eq, Structural)]
pub enum PathState {
    Available,
    Degraded,
    Unavailable,
}

#[derive(Debug, Clone, Copy, PartialEq, Eq, Structural)]
pub enum PathEvent {
    GoodAck,
    HighLoss,
    HighDelay,
    Recover,
}

pub open spec fn path_state_name(s: PathState) -> Seq<char> {
    match s {
        PathState::Available => "Available"@,
        PathState::Degraded => "Degraded"@,
        PathState::Unavailable => "Unavailable"@,
    }
}

pub open spec fn path_event_name(e: PathEvent) -> Seq<char> {
    match e {
        PathEvent::GoodAck => "GoodAck"@,
        PathEvent::HighLoss => "HighLoss"@,
        PathEvent::HighDelay => "HighDelay"@,
        PathEvent::Recover => "Recover"@,
    }
}

/// The path transition table.
pub open spec fn path_step(s: PathState, e: PathEvent) -> Option<PathState> {
    match (s, e) {
        (PathState::Available, PathEvent::HighLoss) => Some(PathState::Degraded),
        (PathState::Available, PathEvent::HighDelay) => Some(PathState::Degraded),
        (PathState::Degraded, PathEvent::HighLoss) => Some(PathState::Unavailable),
        (PathState::Degraded, PathEvent::GoodAck) => Some(PathState::Available),
        (PathState::Unavailable, PathEvent::Recover) => Some(PathState::Available),
        (PathState::Available, PathEvent::GoodAck) => Some(PathState::Available),
        _ => None,
    }
}

impl PathState {
    pub fn name(self) -> (r: &'static str)
        ensures
            r@ == path_state_name(self),
    {
        match self {
            PathState::Available => "Available",
            PathState::Degraded => "Degraded",
            PathState::Unavailable => "Unavailable",
        }
    }
}

impl PathEvent {
    pub fn name(self) -> (r: &'static str)
        ensures
            r@ == path_event_name(self),
    {
        match self {
            PathEvent::GoodAck => "GoodAck",
            PathEvent::HighLoss => "HighLoss",
            PathEvent::HighDelay => "HighDelay",
            PathEvent::Recover => "Recover",
        }
    }
}

pub struct PathStateMachine {
    pub state: PathState,
    pub log: Vec<String>,
}

impl PathStateMachine {
    pub fn new() -> (m: Self)
        ensures
            m.state == PathState::Available,
            m.log@.len() == 0,
    {
        Self { state: PathState::Available, log: Vec::new() }
    }

    /// Takes the transition the table gives for `event`, logging it, or
    /// rejects the event and leaves the machine as it was.
    pub fn apply(&mut self, event: PathEvent) -> (r: Result<(), String>)
        ensures
            match path_step(old(self).state, event) {
                Some(next) => {
                    &&& r is Ok
                    &&& final(self).state == next
                    &&& string_views(final(self).log@) == string_views(old(self).log@).push(
                        transition_text(
                            path_state_name(old(self).state),
                            path_event_name(event),
                            path_state_name(next),
                        ),
                    )
                },
                None => {
                    &&& final(self).state == old(self).state
                    &&& final(self).log@ == old(self).log@
                    &&& r matches Err(e) && e@ == rejection_text(
                        "invalid path transition "@,
                        path_state_name(old(self).state),
                        path_event_name(event),
                    )
                },
            },
    {
        let old_state = self.state;
        let next_state = match (self.state, event) {
            (PathState::Available, PathEvent::HighLoss) => PathState::Degraded,
            (PathState::Available, PathEvent::HighDelay) => PathState::Degraded,
            (PathState::Degraded, PathEvent::HighLoss) => PathState::Unavailable,
            (PathState::Degraded, PathEvent::GoodAck) => PathState::Available,
            (PathState::Unavailable, PathEvent::Recover) => PathState::Available,
            (PathState::Available, PathEvent::GoodAck) => PathState::Available,
            _ => {
                return Err(
                    rejection_message("invalid path transition ", old_state.name(), event.name()),
                );
            },
        };
        self.state = next_state;
        let entry = transition_entry(old_state.name(), event.name(), next_state.name());
        self.log.push(entry);
        assert(string_views(self.log@) =~= string_views(old(self).log@).push(entry@));
        Ok(())
    }
}

// ------------------------------------------------------------------
// Invariants across machines
// ------------------------------------------------------------------
pub struct GlobalState {
    pub conn: ConnState,
    pub stream: StreamState,
    pub retx: RetxState,
}

/// A stream cannot be active on a closed connection.
pub open spec fn stream_needs_connection(g: GlobalState) -> bool {
    !(g.stream == StreamState::Active && g.conn == ConnState::Closed)
}

/// A packet cannot be in flight on a closed stream.
pub open spec fn flight_needs_stream(g: GlobalState) -> bool {
    !(g.retx == RetxState::InFlight && g.stream == StreamState::Closed)
}

impl GlobalState {
    /// Checks both invariants, the first one first.
    pub fn check_invariants(&self) -> (r: Result<(), String>)
        ensures
            r is Ok <==> stream_needs_connection(*self) && flight_needs_stream(*self),
            r matches Err(e) ==> e@ == (if !stream_needs_connection(*self) {
                "Invariant violated: Stream is Active but Connection is Closed"@
            } else {
                "Invariant violated: Packet is InFlight but Stream is Closed"@
            }),
    {
        if self.stream == StreamState::Active && self.conn == ConnState::Closed {
            return Err(
                String::from_str("Invariant violated: Stream is Active but Connection is Closed"),
            );
        }
        if self.retx == RetxState::InFlight && self.stream == StreamState::Closed {
            return Err(
                String::from_str("Invariant violated: Packet is InFlight but Stream is Closed"),
            );
        }
        Ok(())
    }
}

/// The machines after the self-check's lifecycle trace, and whether the
/// invariants held at its established point.
pub type SelfCheck = (ConnStateMachine, StreamStateMachine, RetxStateMachine, PathStateMachine, bool);

/// The log entries the self-check's trace writes, machine by machine.
pub open spec fn self_check_conn_log() -> Seq<Seq<char>> {
    seq![
        transition_text("Closed"@, "Connect"@, "WaitSynAck"@),
        transition_text("WaitSynAck"@, "SynAckReceived"@, "Established"@),
        transition_text("Established"@, "Close"@, "WaitCloseAck"@),
        transition_text("WaitCloseAck"@, "CloseAckReceived"@, "Closed"@),
    ]
}

pub open spec fn self_check_stream_log() -> Seq<Seq<char>> {
    seq![
        transition_text("Idle"@, "Create"@, "Active"@),
        transition_text("Active"@, "SendData"@, "Active"@),
        transition_text("Active"@, "Close"@, "Closed"@),
    ]
}

pub open spec fn self_check_retx_log() -> Seq<Seq<char>> {
    seq![
        transition_text("Ready"@, "Transmit"@, "InFlight"@),
        transition_text("InFlight"@, "Retransmit"@, "InFlight"@),
        transition_text("InFlight"@, "Ack"@, "Acked"@),
    ]
}

pub open spec fn self_check_path_log() -> Seq<Seq<char>> {
    seq![
        transition_text("Available"@, "HighLoss"@, "Degraded"@),
        transition_text("Degraded"@, "GoodAck"@, "Available"@),
    ]
}

/// Runs every machine through its documented lifecycle, checking the
/// invariants once the connection is established and the packet acked.
pub fn run_self_check() -> (r: Result<SelfCheck, String>)
    ensures
        r matches Ok((conn, stream, retx, path, invariants_ok)) && {
            &&& conn.state == ConnState::Closed
            &&& stream.state == StreamState::Closed
            &&& retx.state == RetxState::Acked
            &&& path.state == PathState::Available
            &&& invariants_ok
            &&& string_views(conn.log@) == self_check_conn_log()
            &&& string_views(stream.log@) == self_check_stream_log()
            &&& string_views(retx.log@) == self_check_retx_log()
            &&& string_views(path.log@) == self_check_path_log()
        },
{
    let mut conn = ConnStateMachine::new();
    let mut stream = StreamStateMachine::new();
    let mut retx = RetxStateMachine::new();
    let mut path = PathStateMachine::new();
    assert(string_views(conn.log@) =~= seq![]);
    assert(string_views(stream.log@) =~= seq![]);
    assert(string_views(retx.log@) =~= seq![]);
    assert(string_views(path.log@) =~= seq![]);

    conn.apply(ConnEvent::Connect)?;
    conn.apply(ConnEvent::SynAckReceived)?;

    stream.apply(StreamEvent::Create)?;
    stream.apply(StreamEvent::SendData)?;

    retx.apply(RetxEvent::Transmit)?;
    retx.apply(RetxEvent::Retransmit)?;
    retx.apply(RetxEvent::Ack)?;

    path.apply(PathEvent::HighLoss)?;
    path.apply(PathEvent::GoodAck)?;

    let global = GlobalState { conn: conn.state, stream: stream.state, retx: retx.state };
    let invariants_ok = global.check_invariants().is_ok();

    stream.apply(StreamEvent::Close)?;
    conn.apply(ConnEvent::Close)?;
    conn.apply(ConnEvent::CloseAckReceived)?;

    assert(string_views(conn.log@) =~= self_check_conn_log());
    assert(string_views(stream.log@) =~= self_check_stream_log());
    assert(string_views(retx.log@) =~= self_check_retx_log());
    assert(string_views(path.log@) =~= self_check_path_log());
    Ok((conn, stream, retx, path, invariants_ok))
}

/// The given text followed by a line break.
pub open spec fn line(s: Seq<char>) -> Seq<char> {
    s.push('\n')
}

/// Each entry on a line of its own.
pub open spec fn lines(entries: Seq<Seq<char>>) -> Seq<char>
    decreases entries.len(),
{
    if entries.len() == 0 {
        seq![]
    } else {
        lines(entries.drop_last()) + line(entries.last())
    }
}

fn push_line(out: &mut String, s: &str)
    ensures
        final(out)@ == old(out)@ + line(s@),
{
    push_str(out, s);
    push_char(out, '\n');
    assert(out@ =~= old(out)@ + line(s@));
}

fn push_lines(out: &mut String, entries: &Vec<String>)
    ensures
        final(out)@ == old(out)@ + lines(string_views(entries@)),
{
    let mut i: usize = 0;
    while i < entries.len()
        invariant
            i <= entries@.len(),
            out@ == old(out)@ + lines(string_views(entries@.take(i as int))),
        decreases entries@.len() - i,
    {
        push_line(out, entries[i].as_str());
        proof {
            let taken = string_views(entries@.take(i + 1));
            assert(taken.drop_last() =~= string_views(entries@.take(i as int)));
            assert(taken.last() == entries@[i as int]@);
        }
        assert(out@ =~= old(out)@ + lines(string_views(entries@.take(i + 1))));
        i = i + 1;
    }
    assert(entries@.take(entries@.len() as int) =~= entries@);
}

/// The text of the generated protocol specification.
pub open spec fn protocol_spec_text() -> Seq<char> {
    line("# Adaptive Transport Prototype Protocol Specification"@)
        + line(""@)
        + line("## 1. Overview"@)
        + line("This prototype implements an adaptive transport protocol over UDP."@)
        + line("It supports adaptive reliability, priority scheduling, congestion control,"@)
        + line("feature extraction, AI-assisted congestion prediction, multipath steering,"@)
        + line("network emulation, streams, connection management, and experiment reporting."@)
        + line(""@)
        + line("## 2. Packet Header Format"@)
        + line("Fixed header size: 28 bytes."@)
        + line("| Field | Size | Description |"@)
        + line("|---|---:|---|"@)
        + line("| version | 1 byte | Protocol version |"@)
        + line("| packet_type | 1 byte | DATA, ACK, SYN, SYN_ACK, CLOSE, CLOSE_ACK |"@)
        + line("| reliability | 1 byte | BestEffort, Important, Guaranteed |"@)
        + line("| priority | 1 byte | Application priority |"@)
        + line("| connection_id | 4 bytes | Connection identifier |"@)
        + line("| stream_id | 4 bytes | Stream identifier |"@)
        + line("| sequence_number | 4 bytes | Packet sequence number |"@)
        + line("| acknowledgment_number | 4 bytes | ACKed sequence number |"@)
        + line("| timestamp_us | 8 bytes | Sender timestamp in microseconds |"@)
        + line(""@)
        + line("## 3. Reliability Classes"@)
        + line("| Class | Behavior |"@)
        + line("|---|---|"@)
        + line("| BestEffort | No ACK, no retransmission |"@)
        + line("| Important | ACK required, limited retransmissions |"@)
        + line("| Guaranteed | ACK required, more retransmissions |"@)
}

/// Writes the protocol specification document.
pub fn protocol_spec() -> (out: String)
    ensures
        out@ == protocol_spec_text(),
{
    let mut out = String::new();
    push_line(&mut out, "# Adaptive Transport Prototype Protocol Specification");
    push_line(&mut out, "");
    push_line(&mut out, "## 1. Overview");
    push_line(&mut out, "This prototype implements an adaptive transport protocol over UDP.");
    push_line(&mut out, "It supports adaptive reliability, priority scheduling, congestion control,");
    push_line(&mut out, "feature extraction, AI-assisted congestion prediction, multipath steering,");
    push_line(
        &mut out,
        "network emulation, streams, connection management, and experiment reporting.",
    );
    push_line(&mut out, "");
    push_line(&mut out, "## 2. Packet Header Format");
    push_line(&mut out, "Fixed header size: 28 bytes.");
    push_line(&mut out, "| Field | Size | Description |");
    push_line(&mut out, "|---|---:|---|");
    push_line(&mut out, "| version | 1 byte | Protocol version |");
    push_line(&mut out, "| packet_type | 1 byte | DATA, ACK, SYN, SYN_ACK, CLOSE, CLOSE_ACK |");
    push_line(&mut out, "| reliability | 1 byte | BestEffort, Important, Guaranteed |");
    push_line(&mut out, "| priority | 1 byte | Application priority |");
    push_line(&mut out, "| connection_id | 4 bytes | Connection identifier |");
    push_line(&mut out, "| stream_id | 4 bytes | Stream identifier |");
    push_line(&mut out, "| sequence_number | 4 bytes | Packet sequence number |");
    push_line(&mut out, "| acknowledgment_number | 4 bytes | ACKed sequence number |");
    push_line(&mut out, "| timestamp_us | 8 bytes | Sender timestamp in microseconds |");
    push_line(&mut out, "");
    push_line(&mut out, "## 3. Reliability Classes");
    push_line(&mut out, "| Class | Behavior |");
    push_line(&mut out, "|---|---|");
    push_line(&mut out, "| BestEffort | No ACK, no retransmission |");
    push_line(&mut out, "| Important | ACK required, limited retransmissions |");
    push_line(&mut out, "| Guaranteed | ACK required, more retransmissions |");
    assert(out@ =~= protocol_spec_text());
    out
}

/// A titled section holding the given log entries in a text block.
pub open spec fn log_section(title: Seq<char>, entries: Seq<Seq<char>>) -> Seq<char> {
    line(title) + line("```text"@) + lines(entries) + line("```"@) + line(""@)
}

/// The text of the generated state machine document.
pub open spec fn state_machine_spec_text(
    conn: Seq<Seq<char>>,
    stream: Seq<Seq<char>>,
    retx: Seq<Seq<char>>,
    path: Seq<Seq<char>>,
    invariants_ok: bool,
) -> Seq<char> {
    line("# Formal State Machines"@) + line(""@) + log_section(
        "## 1. Connection State Machine"@,
        conn,
    ) + log_section("## 2. Stream State Machine"@, stream) + log_section(
        "## 3. Retransmission State Machine"@,
        retx,
    ) + log_section("## 4. Multipath Path State Machine"@, path) + line(
        "## 5. Formal Invariants"@,
    ) + line(""@) + line("1. A stream cannot be `Active` if the Connection is `Closed`."@)
        + line("2. A packet cannot be `InFlight` if its Stream is `Closed`."@) + line(""@)
        + line(
        if invariants_ok {
            "**Self-Check Result:** All invariants held true during the lifecycle trace."@
        } else {
            "**Self-Check Result:** INVARIANT VIOLATION DETECTED."@
        },
    )
}

fn push_log_section(out: &mut String, title: &str, entries: &Vec<String>)
    ensures
        final(out)@ == old(out)@ + log_section(title@, string_views(entries@)),
{
    push_line(out, title);
    push_line(out, "```text");
    push_lines(out, entries);
    push_line(out, "```");
    push_line(out, "");
    assert(out@ =~= old(out)@ + log_section(title@, string_views(entries@)));
}

/// Writes the state machine document from the machines' logs.
pub fn state_machine_spec(
    conn: &ConnStateMachine,
    stream: &StreamStateMachine,
    retx: &RetxStateMachine,
    path: &PathStateMachine,
    invariants_ok: bool,
) -> (out: String)
    ensures
        out@ == state_machine_spec_text(
            string_views(conn.log@),
            string_views(stream.log@),
            string_views(retx.log@),
            string_views(path.log@),
            invariants_ok,
        ),
{
    let mut out = String::new();
    push_line(&mut out, "# Formal State Machines");
    push_line(&mut out, "");
    push_log_section(&mut out, "## 1. Connection State Machine", &conn.log);
    push_log_section(&mut out, "## 2. Stream State Machine", &stream.log);
    push_log_section(&mut out, "## 3. Retransmission State Machine", &retx.log);
    push_log_section(&mut out, "## 4. Multipath Path State Machine", &path.log);
    push_line(&mut out, "## 5. Formal Invariants");
    push_line(&mut out, "");
    push_line(&mut out, "1. A stream cannot be `Active` if the Connection is `Closed`.");
    push_line(&mut out, "2. A packet cannot be `InFlight` if its Stream is `Closed`.");
    push_line(&mut out, "");
    if invariants_ok {
        push_line(
            &mut out,
            "**Self-Check Result:** All invariants held true during the lifecycle trace.",
        );
    } else {
        push_line(&mut out, "**Self-Check Result:** INVARIANT VIOLATION DETECTED.");
    }
    assert(out@ =~= state_machine_spec_text(
        string_views(conn.log@),
        string_views(stream.log@),
        string_views(retx.log@),
        string_views(path.log@),
        invariants_ok,
    ));
    out
}


/// The documented connection lifecycle (connect, SYN-ACK, close, CLOSE-ACK)
/// leads from `Closed` back to `Closed`, and a timeout while waiting for
/// either answer also ends in `Closed`.
pub proof fn lemma_connection_lifecycle()
    ensures
        conn_step(ConnState::Closed, ConnEvent::Connect) == Some(ConnState::WaitSynAck),
        conn_step(ConnState::WaitSynAck, ConnEvent::SynAckReceived) == Some(ConnState::Established),
        conn_step(ConnState::Established, ConnEvent::Close) == Some(ConnState::WaitCloseAck),
        conn_step(ConnState::WaitCloseAck, ConnEvent::CloseAckReceived) == Some(ConnState::Closed),
        conn_step(ConnState::WaitSynAck, ConnEvent::Timeout) == Some(ConnState::Closed),
        conn_step(ConnState::WaitCloseAck, ConnEvent::Timeout) == Some(ConnState::Closed),
{
}

/// A closed stream takes no event, and an acked or dropped packet takes no
/// event: those states are final.
pub proof fn lemma_final_states(s: StreamEvent, r: RetxEvent)
    ensures
        stream_step(StreamState::Closed, s) is None,
        retx_step(RetxState::Acked, r) is None,
        retx_step(RetxState::Dropped, r) is None,
{
}

/// An unavailable path comes back only through `Recover`, and then it is
/// available again.
pub proof fn lemma_unavailable_path_recovers_only_explicitly(e: PathEvent)
    ensures
        path_step(PathState::Unavailable, e) is Some <==> e == PathEvent::Recover,
        path_step(PathState::Unavailable, PathEvent::Recover) == Some(PathState::Available),
{
}

} // verus!
