//! The interactive client's decisions: reading a command line, the demo
//! batch, and the small numeric rules of its commands.
use vstd::prelude::*;
use vstd::string::StringExecFns;

use crate::connection::ConnectionState;
use crate::packet::{
    encode_packet, now_us, packet_bytes, reliability_of_word, Packet, Reliability, TYPE_CLOSE_ACK,
    TYPE_DATA, TYPE_SYN_ACK,
};
use crate::scheduler::{PriorityScheduler, ScheduledPacket};
use crate::text::{
    join_words, join_words_from, lowercased, parse_u32_exact, parse_u64_exact, parse_u8_exact,
    split_words, str_equals, string_views, to_lowercase, trim, trimmed, u64_value,
    unsigned_value, words_of,
};

verus! {

/// A command typed at the client prompt.
pub enum ClientCommand {
    /// A blank line.
    Empty,
    Quit,
    Help,
    Connect,
    Close,
    MakeStream { reliability: Reliability, priority: u8 },
    Use(u32),
    Streams,
    /// `send` with the message after it (possibly empty).
    Send(String),
    Stats,
    Features,
    Summary,
    MultipathSummary,
    Controller,
    Aimd,
    Predictive,
    Ai,
    Reset,
    /// `loss` with its argument as typed (`0` when missing).
    Loss(String),
    Delay(u64),
    Jitter(u64),
    /// `scenario` with its lowercased argument.
    Scenario(String),
    /// `multipath` with its lowercased argument (empty when missing).
    Multipath(String),
    Emulation,
    ClearEmulation,
    Experiment(u32),
    Batch,
    /// `<reliability> <priority> <message>`; the reliability is `None` when
    /// the first word names no class.
    Data {
        reliability_word: String,
        reliability: Option<Reliability>,
        priority: u8,
        message: String,
    },
    /// A data line without a message.
    Incomplete,
}

/// A command with its texts as character sequences.
pub enum CommandModel {
    Empty,
    Quit,
    Help,
    Connect,
    Close,
    MakeStream { reliability: Reliability, priority: u8 },
    Use(u32),
    Streams,
    Send(Seq<char>),
    Stats,
    Features,
    Summary,
    MultipathSummary,
    Controller,
    Aimd,
    Predictive,
    Ai,
    Reset,
    Loss(Seq<char>),
    Delay(u64),
    Jitter(u64),
    Scenario(Seq<char>),
    Multipath(Seq<char>),
    Emulation,
    ClearEmulation,
    Experiment(u32),
    Batch,
    Data {
        reliability_word: Seq<char>,
        reliability: Option<Reliability>,
        priority: u8,
        message: Seq<char>,
    },
    Incomplete,
}

impl ClientCommand {
    pub open spec fn model(&self) -> CommandModel {
        match self {
            ClientCommand::Empty => CommandModel::Empty,
            ClientCommand::Quit => CommandModel::Quit,
            ClientCommand::Help => CommandModel::Help,
            ClientCommand::Connect => CommandModel::Connect,
            ClientCommand::Close => CommandModel::Close,
            ClientCommand::MakeStream { reliability, priority } => CommandModel::MakeStream {
                reliability: *reliability,
                priority: *priority,
            },
            ClientCommand::Use(id) => CommandModel::Use(*id),
            ClientCommand::Streams => CommandModel::Streams,
            ClientCommand::Send(m) => CommandModel::Send(m@),
            ClientCommand::Stats => CommandModel::Stats,
            ClientCommand::Features => CommandModel::Features,
            ClientCommand::Summary => CommandModel::Summary,
            ClientCommand::MultipathSummary => CommandModel::MultipathSummary,
            ClientCommand::Controller => CommandModel::Controller,
            ClientCommand::Aimd => CommandModel::Aimd,
            ClientCommand::Predictive => CommandModel::Predictive,
            ClientCommand::Ai => CommandModel::Ai,
            ClientCommand::Reset => CommandModel::Reset,
            ClientCommand::Loss(a) => CommandModel::Loss(a@),
            ClientCommand::Delay(ms) => CommandModel::Delay(*ms),
            ClientCommand::Jitter(ms) => CommandModel::Jitter(*ms),
            ClientCommand::Scenario(n) => CommandModel::Scenario(n@),
            ClientCommand::Multipath(a) => CommandModel::Multipath(a@),
            ClientCommand::Emulation => CommandModel::Emulation,
            ClientCommand::ClearEmulation => CommandModel::ClearEmulation,
            ClientCommand::Experiment(n) => CommandModel::Experiment(*n),
            ClientCommand::Batch => CommandModel::Batch,
            ClientCommand::Data { reliability_word, reliability, priority, message } =>
                CommandModel::Data {
                reliability_word: reliability_word@,
                reliability: *reliability,
                priority: *priority,
                message: message@,
            },
            ClientCommand::Incomplete => CommandModel::Incomplete,
        }
    }
}

/// Delays and jitters are capped at ten seconds.
pub const MAX_MS: u64 = 10_000;

/// A delay or jitter argument: a plain `u64` (0 when it is not one), capped
/// at 10000.
pub open spec fn ms_value(s: Seq<char>) -> u64 {
    let v: u64 = match u64_value(s) {
        Some(v) => v,
        None => 0,
    };
    if v < MAX_MS {
        v
    } else {
        MAX_MS
    }
}

/// Reads a delay or jitter argument in milliseconds.
pub fn parse_ms(value: &str) -> (ms: u64)
    ensures
        ms == ms_value(value@),
{
    let v = match parse_u64_exact(value) {
        Some(v) => v,
        None => 0,
    };
    if v < MAX_MS {
        v
    } else {
        MAX_MS
    }
}

/// A new connection id: the low 32 bits of the current time in microseconds.
pub fn generate_connection_id() -> u32 {
    connection_id_from_time(now_us())
}

/// The connection id a time in microseconds gives: its low 32 bits.
pub fn connection_id_from_time(now_us: u64) -> (id: u32)
    ensures
        id == now_us % 0x1_0000_0000,
{
    let id = (now_us & 0xFFFF_FFFFu64) as u32;
    assert((now_us & 0xFFFF_FFFFu64) as u32 == now_us % 0x1_0000_0000) by (bit_vector);
    id
}

/// The `n`th word, or `default` when there are fewer words.
pub open spec fn word_or(w: Seq<Seq<char>>, n: int, default: Seq<char>) -> Seq<char> {
    if w.len() > n {
        w[n]
    } else {
        default
    }
}

/// The number an optional argument gives, or `default` when it is not a
/// number of the type's range.
pub open spec fn number_or(s: Seq<char>, max: nat, default: nat) -> nat {
    match unsigned_value(s) {
        Some(v) => if v <= max {
            v
        } else {
            default
        },
        None => default,
    }
}

/// Index of the first plain space at or after `from` (the length if none).
pub open spec fn first_space(s: Seq<char>, from: int) -> int
    decreases s.len() - from,
{
    if from >= s.len() || from < 0 {
        s.len() as int
    } else if s[from] == ' ' {
        from
    } else {
        first_space(s, from + 1)
    }
}

/// The text after the first plain space, trimmed; empty when there is no space.
pub open spec fn send_message(s: Seq<char>) -> Seq<char> {
    let i = first_space(s, 0);
    if i < s.len() {
        trimmed(s.subrange(i + 1, s.len() as int))
    } else {
        seq![]
    }
}

/// How many runs an experiment gets: the argument (5 when it is missing or
/// not a number), held to 1..=100.
pub open spec fn experiment_runs(s: Seq<char>) -> u32 {
    let n = number_or(s, u32::MAX as nat, 5);
    if n < 1 {
        1
    } else if n > 100 {
        100
    } else {
        n as u32
    }
}

/// The command a line stands for.  The first word, lowercased, selects the
/// command; any other line is a data line `<reliability> <priority> <message>`.
pub open spec fn command_of(line: Seq<char>) -> CommandModel {
    let t = trimmed(line);
    let w = words_of(t);
    if t.len() == 0 || w.len() == 0 {
        CommandModel::Empty
    } else {
        let cmd = lowercased(w[0]);
        if cmd == "quit"@ || cmd == "exit"@ {
            CommandModel::Quit
        } else if cmd == "help"@ {
            CommandModel::Help
        } else if cmd == "connect"@ {
            CommandModel::Connect
        } else if cmd == "close"@ {
            CommandModel::Close
        } else if cmd == "mkstream"@ {
            CommandModel::MakeStream {
                reliability: match reliability_of_word(word_or(w, 1, "guaranteed"@)) {
                    Some(r) => r,
                    None => Reliability::Guaranteed,
                },
                priority: number_or(word_or(w, 2, "0"@), u8::MAX as nat, 0) as u8,
            }
        } else if cmd == "use"@ {
            CommandModel::Use(number_or(word_or(w, 1, seq![]), u32::MAX as nat, 0) as u32)
        } else if cmd == "streams"@ {
            CommandModel::Streams
        } else if cmd == "send"@ {
            CommandModel::Send(send_message(t))
        } else if cmd == "stats"@ {
            CommandModel::Stats
        } else if cmd == "features"@ {
            CommandModel::Features
        } else if cmd == "summary"@ {
            CommandModel::Summary
        } else if cmd == "mpsummary"@ {
            CommandModel::MultipathSummary
        } else if cmd == "controller"@ {
            CommandModel::Controller
        } else if cmd == "aimd"@ {
            CommandModel::Aimd
        } else if cmd == "predictive"@ {
            CommandModel::Predictive
        } else if cmd == "ai"@ {
            CommandModel::Ai
        } else if cmd == "reset"@ {
            CommandModel::Reset
        } else if cmd == "loss"@ {
            CommandModel::Loss(word_or(w, 1, "0"@))
        } else if cmd == "delay"@ {
            CommandModel::Delay(ms_value(word_or(w, 1, "0"@)))
        } else if cmd == "jitter"@ {
            CommandModel::Jitter(ms_value(word_or(w, 1, "0"@)))
        } else if cmd == "scenario"@ {
            CommandModel::Scenario(lowercased(word_or(w, 1, seq![])))
        } else if cmd == "multipath"@ || cmd == "mp"@ {
            CommandModel::Multipath(lowercased(word_or(w, 1, seq![])))
        } else if cmd == "emulation"@ || cmd == "emu"@ {
            CommandModel::Emulation
        } else if cmd == "clear"@ {
            CommandModel::ClearEmulation
        } else if cmd == "experiment"@ || cmd == "exp"@ {
            CommandModel::Experiment(experiment_runs(word_or(w, 1, "5"@)))
        } else if cmd == "batch"@ || cmd == "demo"@ {
            CommandModel::Batch
        } else {
            let message = if w.len() > 2 {
                join_words(w.skip(2))
            } else {
                seq![]
            };
            if w[0].len() == 0 || message.len() == 0 {
                CommandModel::Incomplete
            } else {
                CommandModel::Data {
                    reliability_word: w[0],
                    reliability: reliability_of_word(w[0]),
                    priority: number_or(word_or(w, 1, seq![]), u8::MAX as nat, 0) as u8,
                    message,
                }
            }
        }
    }
}

fn word_at_or(words: &Vec<String>, n: usize, default: &str) -> (s: String)
    ensures
        s@ == word_or(string_views(words@), n as int, default@),
{
    if words.len() > n {
        words[n].clone()
    } else {
        String::from_str(default)
    }
}

fn u8_or(s: &str, default: u8) -> (v: u8)
    ensures
        v == number_or(s@, u8::MAX as nat, default as nat),
{
    match parse_u8_exact(s) {
        Some(v) => v,
        None => default,
    }
}

fn u32_or(s: &str, default: u32) -> (v: u32)
    ensures
        v == number_or(s@, u32::MAX as nat, default as nat),
{
    match parse_u32_exact(s) {
        Some(v) => v,
        None => default,
    }
}

fn message_after_first_space(t: &str) -> (m: String)
    ensures
        m@ == send_message(t@),
{
    let n = t.unicode_len();
    let mut i: usize = 0;
    while i < n && t.get_char(i) != ' '
        invariant
            n == t@.len(),
            i <= n,
            first_space(t@, i as int) == first_space(t@, 0),
        decreases n - i,
    {
        i = i + 1;
    }
    if i < n {
        let rest = t.substring_char(i + 1, n);
        String::from_str(trim(rest))
    } else {
        String::new()
    }
}

/// Reads one line typed at the client prompt.
pub fn parse_command(line: &str) -> (c: ClientCommand)
    ensures
        c.model() == command_of(line@),
{
    proof {
        reveal_strlit("guaranteed");
        reveal_strlit("0");
        reveal_strlit("5");
    }
    let t = trim(line);
    let words = split_words(t);
    if t.unicode_len() == 0 || words.len() == 0 {
        return ClientCommand::Empty;
    }
    let lowered = to_lowercase(words[0].as_str());
    let cmd = lowered.as_str();
    if str_equals(cmd, "quit") || str_equals(cmd, "exit") {
        ClientCommand::Quit
    } else if str_equals(cmd, "help") {
        ClientCommand::Help
    } else if str_equals(cmd, "connect") {
        ClientCommand::Connect
    } else if str_equals(cmd, "close") {
        ClientCommand::Close
    } else if str_equals(cmd, "mkstream") {
        let rel_word = word_at_or(&words, 1, "guaranteed");
        let reliability = match Reliability::parse(rel_word.as_str()) {
            Some(r) => r,
            None => Reliability::Guaranteed,
        };
        let prio_word = word_at_or(&words, 2, "0");
        ClientCommand::MakeStream { reliability, priority: u8_or(prio_word.as_str(), 0) }
    } else if str_equals(cmd, "use") {
        let id_word = word_at_or(&words, 1, "");
        proof {
            reveal_strlit("");
            assert(""@ =~= Seq::<char>::empty());
        }
        ClientCommand::Use(u32_or(id_word.as_str(), 0))
    } else if str_equals(cmd, "streams") {
        ClientCommand::Streams
    } else if str_equals(cmd, "send") {
        ClientCommand::Send(message_after_first_space(t))
    } else if str_equals(cmd, "stats") {
        ClientCommand::Stats
    } else if str_equals(cmd, "features") {
        ClientCommand::Features
    } else if str_equals(cmd, "summary") {
        ClientCommand::Summary
    } else if str_equals(cmd, "mpsummary") {
        ClientCommand::MultipathSummary
    } else if str_equals(cmd, "controller") {
        ClientCommand::Controller
    } else if str_equals(cmd, "aimd") {
        ClientCommand::Aimd
    } else if str_equals(cmd, "predictive") {
        ClientCommand::Predictive
    } else if str_equals(cmd, "ai") {
        ClientCommand::Ai
    } else if str_equals(cmd, "reset") {
        ClientCommand::Reset
    } else if str_equals(cmd, "loss") {
        ClientCommand::Loss(word_at_or(&words, 1, "0"))
    } else if str_equals(cmd, "delay") {
        let arg = word_at_or(&words, 1, "0");
        ClientCommand::Delay(parse_ms(arg.as_str()))
    } else if str_equals(cmd, "jitter") {
        let arg = word_at_or(&words, 1, "0");
        ClientCommand::Jitter(parse_ms(arg.as_str()))
    } else if str_equals(cmd, "scenario") {
        let arg = word_at_or(&words, 1, "");
        proof {
            reveal_strlit("");
            assert(""@ =~= Seq::<char>::empty());
        }
        ClientCommand::Scenario(to_lowercase(arg.as_str()))
    } else if str_equals(cmd, "multipath") || str_equals(cmd, "mp") {
        let arg = word_at_or(&words, 1, "");
        proof {
            reveal_strlit("");
            assert(""@ =~= Seq::<char>::empty());
        }
        ClientCommand::Multipath(to_lowercase(arg.as_str()))
    } else if str_equals(cmd, "emulation") || str_equals(cmd, "emu") {
        ClientCommand::Emulation
    } else if str_equals(cmd, "clear") {
        ClientCommand::ClearEmulation
    } else if str_equals(cmd, "experiment") || str_equals(cmd, "exp") {
        let arg = word_at_or(&words, 1, "5");
        let n = u32_or(arg.as_str(), 5);
        let runs = if n < 1 {
            1
        } else if n > 100 {
            100
        } else {
            n
        };
        ClientCommand::Experiment(runs)
    } else if str_equals(cmd, "batch") || str_equals(cmd, "demo") {
        ClientCommand::Batch
    } else {
        let message = if words.len() > 2 {
            join_words_from(&words, 2)
        } else {
            String::new()
        };
        if words[0].as_str().unicode_len() == 0 || message.as_str().unicode_len() == 0 {
            ClientCommand::Incomplete
        } else {
            let prio_word = word_at_or(&words, 1, "");
            proof {
                reveal_strlit("");
                assert(""@ =~= Seq::<char>::empty());
            }
            ClientCommand::Data {
                reliability_word: words[0].clone(),
                reliability: Reliability::parse(words[0].as_str()),
                priority: u8_or(prio_word.as_str(), 0),
                message,
            }
        }
    }
}

/// The packets of the demo batch: class, priority and message.
pub open spec fn demo_entry(k: int) -> (Reliability, u8, Seq<char>) {
    if k == 0 {
        (Reliability::BestEffort, 0u8, "demo best effort"@)
    } else if k == 1 {
        (Reliability::Important, 2u8, "demo sensor"@)
    } else if k == 2 {
        (Reliability::Important, 6u8, "demo alert"@)
    } else if k == 3 {
        (Reliability::Guaranteed, 4u8, "demo file chunk"@)
    } else {
        (Reliability::Guaranteed, 7u8, "demo critical control"@)
    }
}

/// The sequence number `k` steps after `seq`, wrapping around.
pub open spec fn seq_after(seq: u32, k: int) -> u32 {
    ((seq + k) % 0x1_0000_0000) as u32
}

/// The `k`th demo packet is the DATA packet of that entry on the given stream.
pub open spec fn is_demo_packet(
    p: ScheduledPacket,
    k: int,
    first_seq: u32,
    connection_id: u32,
    stream_id: u32,
) -> bool {
    let (reliability, priority, message) = demo_entry(k);
    &&& p.priority == priority
    &&& p.reliability == reliability
    &&& p.seq == seq_after(first_seq, k)
    &&& p.payload_preview@ == message
    &&& exists|ts: u64|
        p.encoded@ == packet_bytes(
            TYPE_DATA,
            reliability,
            priority,
            connection_id,
            stream_id,
            seq_after(first_seq, k),
            0,
            ts,
            vstd::utf8::encode_utf8(message),
        )
}

/// Queues the five demo packets with consecutive sequence numbers and
/// advances `seq` past them.
pub fn enqueue_demo_batch(
    scheduler: &mut PriorityScheduler,
    seq: &mut u32,
    connection_id: u32,
    stream_id: u32,
)
    ensures
        *final(seq) == seq_after(*old(seq), 5),
        final(scheduler)@.len() == old(scheduler)@.len() + 5,
        final(scheduler)@.take(old(scheduler)@.len() as int) == old(scheduler)@,
        forall|k: int|
            0 <= k < 5 ==> is_demo_packet(
                #[trigger] final(scheduler)@[old(scheduler)@.len() + k],
                k,
                *old(seq),
                connection_id,
                stream_id,
            ),
{
    let ghost start = *seq;
    let ghost base = scheduler@;
    let mut k: usize = 0;
    while k < 5
        invariant
            k <= 5,
            *seq == seq_after(start, k as int),
            scheduler@.len() == base.len() + k,
            scheduler@.take(base.len() as int) == base,
            forall|j: int|
                0 <= j < k ==> is_demo_packet(
                    #[trigger] scheduler@[base.len() + j],
                    j,
                    start,
                    connection_id,
                    stream_id,
                ),
        decreases 5 - k,
    {
        let (reliability, priority, message) = demo_batch_entry(k);
        let payload = message.as_bytes();
        let encoded = encode_packet(
            TYPE_DATA,
            reliability,
            priority,
            connection_id,
            stream_id,
            *seq,
            0,
            payload,
        );
        let packet = ScheduledPacket {
            priority,
            seq: *seq,
            reliability,
            encoded,
            payload_preview: String::from_str(message),
        };
        let ghost before = scheduler@;
        proof {
            let ts = choose|ts: u64|
                encoded@ == packet_bytes(
                    TYPE_DATA,
                    reliability,
                    priority,
                    connection_id,
                    stream_id,
                    *seq,
                    0,
                    ts,
                    payload@,
                );
            assert(payload@ == vstd::utf8::encode_utf8(message@));
            assert(packet.seq == seq_after(start, k as int));
            assert(packet.payload_preview@ == demo_entry(k as int).2);
            assert(packet.priority == demo_entry(k as int).1);
            assert(packet.encoded@ == packet_bytes(
                    TYPE_DATA,
                    demo_entry(k as int).0,
                    demo_entry(k as int).1,
                    connection_id,
                    stream_id,
                    seq_after(start, k as int),
                    0,
                    ts,
                    vstd::utf8::encode_utf8(demo_entry(k as int).2),
                ));
            assert(is_demo_packet(packet, k as int, start, connection_id, stream_id));
        }
        scheduler.enqueue(packet);
        proof {
            assert(scheduler@.take(base.len() as int) =~= before.take(base.len() as int));
            assert(scheduler@[base.len() + k] == packet);
            assert forall|j: int| 0 <= j < k implies is_demo_packet(
                #[trigger] scheduler@[base.len() + j],
                j,
                start,
                connection_id,
                stream_id,
            ) by {
                assert(scheduler@[base.len() + j] == before[base.len() + j]);
            }
        }
        *seq = seq.wrapping_add(1);
        k = k + 1;
    }
}

/// The `k`th entry of the demo batch.
pub fn demo_batch_entry(k: usize) -> (r: (Reliability, u8, &'static str))
    requires
        k < 5,
    ensures
        (r.0, r.1, r.2@) == demo_entry(k as int),
{
    if k == 0 {
        (Reliability::BestEffort, 0, "demo best effort")
    } else if k == 1 {
        (Reliability::Important, 2, "demo sensor")
    } else if k == 2 {
        (Reliability::Important, 6, "demo alert")
    } else if k == 3 {
        (Reliability::Guaranteed, 4, "demo file chunk")
    } else {
        (Reliability::Guaranteed, 7, "demo critical control")
    }
}

/// What the client does with a command in the connection's current state.
#[derive(Debug, Clone, Copy, PartialEq, Eq, Structural)]
pub enum ClientStep {
    /// The command needs an open connection and there is none.
    RefuseNotConnected,
    /// `connect` while already connected.
    AlreadyConnected,
    /// `connect`: send SYN and wait for SYN-ACK.
    StartHandshake,
    /// `close`: send CLOSE and wait for CLOSE-ACK.
    StartTeardown,
    /// Carry the command out.
    Run,
}

/// The commands that are refused until a connection is open: creating
/// streams, sending, experiments, the demo batch and data lines.
pub open spec fn needs_connection(cmd: CommandModel) -> bool {
    ||| cmd is MakeStream
    ||| cmd is Send
    ||| cmd is Experiment
    ||| cmd is Batch
    ||| cmd is Data
    ||| cmd is Incomplete
}

/// The client's gating table.
pub open spec fn client_step_spec(state: ConnectionState, cmd: CommandModel) -> ClientStep {
    if cmd is Connect {
        if state == ConnectionState::Connected {
            ClientStep::AlreadyConnected
        } else {
            ClientStep::StartHandshake
        }
    } else if cmd is Close {
        if state == ConnectionState::Connected {
            ClientStep::StartTeardown
        } else {
            ClientStep::RefuseNotConnected
        }
    } else if needs_connection(cmd) && state != ConnectionState::Connected {
        ClientStep::RefuseNotConnected
    } else {
        ClientStep::Run
    }
}

/// Decides what to do with a command in the given connection state.
pub fn client_step(state: ConnectionState, cmd: &ClientCommand) -> (s: ClientStep)
    ensures
        s == client_step_spec(state, cmd.model()),
{
    let connected = state == ConnectionState::Connected;
    match cmd {
        ClientCommand::Connect => if connected {
            ClientStep::AlreadyConnected
        } else {
            ClientStep::StartHandshake
        },
        ClientCommand::Close => if connected {
            ClientStep::StartTeardown
        } else {
            ClientStep::RefuseNotConnected
        },
        ClientCommand::MakeStream { .. } | ClientCommand::Send(_) | ClientCommand::Experiment(_)
        | ClientCommand::Batch | ClientCommand::Data { .. } | ClientCommand::Incomplete => if connected {
            ClientStep::Run
        } else {
            ClientStep::RefuseNotConnected
        },
        _ => ClientStep::Run,
    }
}

/// The connection state while a step is under way: `Connecting` during the
/// handshake, `Closing` during the teardown, unchanged otherwise.
pub open spec fn state_during_spec(state: ConnectionState, step: ClientStep) -> ConnectionState {
    match step {
        ClientStep::StartHandshake => ConnectionState::Connecting,
        ClientStep::StartTeardown => ConnectionState::Closing,
        _ => state,
    }
}

/// The connection state once a step has started.
pub fn state_during(state: ConnectionState, step: ClientStep) -> (next: ConnectionState)
    ensures
        next == state_during_spec(state, step),
{
    match step {
        ClientStep::StartHandshake => ConnectionState::Connecting,
        ClientStep::StartTeardown => ConnectionState::Closing,
        _ => state,
    }
}

/// Whether a packet is the reply the client waits for: SYN-ACK while
/// connecting, CLOSE-ACK while closing, on the same connection.
pub open spec fn answers_handshake_spec(state: ConnectionState, connection_id: u32, p: Packet) -> bool {
    &&& p.connection_id == connection_id
    &&& ((state == ConnectionState::Connecting && p.ptype == TYPE_SYN_ACK) || (state
        == ConnectionState::Closing && p.ptype == TYPE_CLOSE_ACK))
}

/// Tells the awaited reply from other packets.
pub fn answers_handshake(state: ConnectionState, connection_id: u32, p: &Packet) -> (r: bool)
    ensures
        r == answers_handshake_spec(state, connection_id, *p),
{
    p.connection_id == connection_id && ((state == ConnectionState::Connecting && p.ptype
        == TYPE_SYN_ACK) || (state == ConnectionState::Closing && p.ptype == TYPE_CLOSE_ACK))
}

/// The connection state once the handshake or teardown is over: connected
/// after a SYN-ACK while connecting, and disconnected in every other case (a
/// CLOSE-ACK, no reply in time, or an unexpected reply).
pub open spec fn after_handshake_spec(state: ConnectionState, reply: Option<Packet>) -> ConnectionState {
    match reply {
        Some(p) => if state == ConnectionState::Connecting && p.ptype == TYPE_SYN_ACK {
            ConnectionState::Connected
        } else {
            ConnectionState::Disconnected
        },
        None => ConnectionState::Disconnected,
    }
}

/// Moves the connection state on the reply to SYN or CLOSE (`None` when none
/// came in time).
pub fn after_handshake(state: ConnectionState, reply: Option<Packet>) -> (next: ConnectionState)
    ensures
        next == after_handshake_spec(state, reply),
        next == (match reply {
            Some(p) => if state == ConnectionState::Connecting && p.ptype == TYPE_SYN_ACK {
                ConnectionState::Connected
            } else if state == ConnectionState::Closing && p.ptype == TYPE_CLOSE_ACK {
                ConnectionState::Disconnected
            } else {
                ConnectionState::Disconnected
            },
            None => ConnectionState::Disconnected,
        }),
{
    match reply {
        Some(p) => if state == ConnectionState::Connecting && p.ptype == TYPE_SYN_ACK {
            ConnectionState::Connected
        } else {
            ConnectionState::Disconnected
        },
        None => ConnectionState::Disconnected,
    }
}

/// A connection opens only through a SYN-ACK to a handshake; a refused or
/// gated command never starts a handshake, and every command that needs a
/// connection runs only while connected.
pub proof fn lemma_client_gating(state: ConnectionState, cmd: CommandModel, reply: Option<Packet>)
    ensures
        after_handshake_spec(state, reply) == ConnectionState::Connected ==> (state
            == ConnectionState::Connecting && (reply matches Some(p) && p.ptype == TYPE_SYN_ACK)),
        client_step_spec(state, cmd) == ClientStep::Run && needs_connection(cmd) ==> state
            == ConnectionState::Connected,
        client_step_spec(state, cmd) == ClientStep::StartHandshake ==> state
            != ConnectionState::Connected,
        client_step_spec(state, cmd) == ClientStep::StartTeardown ==> state
            == ConnectionState::Connected,
{
}


/// The first word of a line, lowercased, when the line has a word.
pub open spec fn first_command_word(line: Seq<char>) -> Seq<char> {
    lowercased(words_of(trimmed(line))[0])
}

/// A line with words is read by its first word, in any case: each command
/// word gives its command, and a first word that is no command word makes the
/// line a data line (or an incomplete one).
pub proof fn lemma_command_words(line: Seq<char>)
    requires
        trimmed(line).len() > 0,
        words_of(trimmed(line)).len() > 0,
    ensures
        first_command_word(line) == "quit"@ ==> command_of(line) is Quit,
        first_command_word(line) == "exit"@ ==> command_of(line) is Quit,
        first_command_word(line) == "help"@ ==> command_of(line) is Help,
        first_command_word(line) == "connect"@ ==> command_of(line) is Connect,
        first_command_word(line) == "close"@ ==> command_of(line) is Close,
        first_command_word(line) == "mkstream"@ ==> command_of(line) is MakeStream,
        first_command_word(line) == "use"@ ==> command_of(line) is Use,
        first_command_word(line) == "streams"@ ==> command_of(line) is Streams,
        first_command_word(line) == "send"@ ==> command_of(line) is Send,
        first_command_word(line) == "stats"@ ==> command_of(line) is Stats,
        first_command_word(line) == "features"@ ==> command_of(line) is Features,
        first_command_word(line) == "summary"@ ==> command_of(line) is Summary,
        first_command_word(line) == "mpsummary"@ ==> command_of(line) is MultipathSummary,
        first_command_word(line) == "controller"@ ==> command_of(line) is Controller,
        first_command_word(line) == "aimd"@ ==> command_of(line) is Aimd,
        first_command_word(line) == "predictive"@ ==> command_of(line) is Predictive,
        first_command_word(line) == "ai"@ ==> command_of(line) is Ai,
        first_command_word(line) == "reset"@ ==> command_of(line) is Reset,
        first_command_word(line) == "loss"@ ==> command_of(line) is Loss,
        first_command_word(line) == "delay"@ ==> command_of(line) is Delay,
        first_command_word(line) == "jitter"@ ==> command_of(line) is Jitter,
        first_command_word(line) == "scenario"@ ==> command_of(line) is Scenario,
        first_command_word(line) == "multipath"@ ==> command_of(line) is Multipath,
        first_command_word(line) == "mp"@ ==> command_of(line) is Multipath,
        first_command_word(line) == "emulation"@ ==> command_of(line) is Emulation,
        first_command_word(line) == "emu"@ ==> command_of(line) is Emulation,
        first_command_word(line) == "clear"@ ==> command_of(line) is ClearEmulation,
        first_command_word(line) == "experiment"@ ==> command_of(line) is Experiment,
        first_command_word(line) == "exp"@ ==> command_of(line) is Experiment,
        first_command_word(line) == "batch"@ ==> command_of(line) is Batch,
        first_command_word(line) == "demo"@ ==> command_of(line) is Batch,
        ({
            let w = first_command_word(line);
            &&& w != "quit"@
            &&& w != "exit"@
            &&& w != "help"@
            &&& w != "connect"@
            &&& w != "close"@
            &&& w != "mkstream"@
            &&& w != "use"@
            &&& w != "streams"@
            &&& w != "send"@
            &&& w != "stats"@
            &&& w != "features"@
            &&& w != "summary"@
            &&& w != "mpsummary"@
            &&& w != "controller"@
            &&& w != "aimd"@
            &&& w != "predictive"@
            &&& w != "ai"@
            &&& w != "reset"@
            &&& w != "loss"@
            &&& w != "delay"@
            &&& w != "jitter"@
            &&& w != "scenario"@
            &&& w != "multipath"@
            &&& w != "mp"@
            &&& w != "emulation"@
            &&& w != "emu"@
            &&& w != "clear"@
            &&& w != "experiment"@
            &&& w != "exp"@
            &&& w != "batch"@
            &&& w != "demo"@
        }) ==> (command_of(line) is Data || command_of(line) is Incomplete),
{
    reveal_strlit("quit");
    reveal_strlit("exit");
    reveal_strlit("help");
    reveal_strlit("connect");
    reveal_strlit("close");
    reveal_strlit("mkstream");
    reveal_strlit("use");
    reveal_strlit("streams");
    reveal_strlit("send");
    reveal_strlit("stats");
    reveal_strlit("features");
    reveal_strlit("summary");
    reveal_strlit("mpsummary");
    reveal_strlit("controller");
    reveal_strlit("aimd");
    reveal_strlit("predictive");
    reveal_strlit("ai");
    reveal_strlit("reset");
    reveal_strlit("loss");
    reveal_strlit("delay");
    reveal_strlit("jitter");
    reveal_strlit("scenario");
    reveal_strlit("multipath");
    reveal_strlit("mp");
    reveal_strlit("emulation");
    reveal_strlit("emu");
    reveal_strlit("clear");
    reveal_strlit("experiment");
    reveal_strlit("exp");
    reveal_strlit("batch");
    reveal_strlit("demo");
    assert("quit"@[0] != "exit"@[0]);
    assert("quit"@[0] != "help"@[0]);
    assert("quit"@[0] != "send"@[0]);
    assert("quit"@[0] != "aimd"@[0]);
    assert("quit"@[0] != "loss"@[0]);
    assert("quit"@[0] != "demo"@[0]);
    assert("exit"@[0] != "help"@[0]);
    assert("exit"@[0] != "send"@[0]);
    assert("exit"@[0] != "aimd"@[0]);
    assert("exit"@[0] != "loss"@[0]);
    assert("exit"@[0] != "demo"@[0]);
    assert("help"@[0] != "send"@[0]);
    assert("help"@[0] != "aimd"@[0]);
    assert("help"@[0] != "loss"@[0]);
    assert("help"@[0] != "demo"@[0]);
    assert("connect"@[0] != "streams"@[0]);
    assert("connect"@[0] != "summary"@[0]);
    assert("close"@[0] != "stats"@[0]);
    assert("close"@[0] != "reset"@[0]);
    assert("close"@[0] != "delay"@[0]);
    assert("close"@[2] != "clear"@[2]);
    assert("close"@[0] != "batch"@[0]);
    assert("mkstream"@[0] != "features"@[0]);
    assert("mkstream"@[0] != "scenario"@[0]);
    assert("use"@[0] != "emu"@[0]);
    assert("use"@[0] != "exp"@[0]);
    assert("streams"@[1] != "summary"@[1]);
    assert("send"@[0] != "aimd"@[0]);
    assert("send"@[0] != "loss"@[0]);
    assert("send"@[0] != "demo"@[0]);
    assert("stats"@[0] != "reset"@[0]);
    assert("stats"@[0] != "delay"@[0]);
    assert("stats"@[0] != "clear"@[0]);
    assert("stats"@[0] != "batch"@[0]);
    assert("features"@[0] != "scenario"@[0]);
    assert("mpsummary"@[1] != "multipath"@[1]);
    assert("mpsummary"@[0] != "emulation"@[0]);
    assert("controller"@[0] != "predictive"@[0]);
    assert("controller"@[0] != "experiment"@[0]);
    assert("aimd"@[0] != "loss"@[0]);
    assert("aimd"@[0] != "demo"@[0]);
    assert("predictive"@[0] != "experiment"@[0]);
    assert("ai"@[0] != "mp"@[0]);
    assert("reset"@[0] != "delay"@[0]);
    assert("reset"@[0] != "clear"@[0]);
    assert("reset"@[0] != "batch"@[0]);
    assert("loss"@[0] != "demo"@[0]);
    assert("delay"@[0] != "clear"@[0]);
    assert("delay"@[0] != "batch"@[0]);
    assert("multipath"@[0] != "emulation"@[0]);
    assert("emu"@[1] != "exp"@[1]);
    assert("clear"@[0] != "batch"@[0]);
    let t = trimmed(line);
    let w = words_of(t);
    assert(first_command_word(line) == lowercased(w[0]));
    if first_command_word(line) == "quit"@ {
        assert(command_of(line) is Quit);
    }
    if first_command_word(line) == "exit"@ {
        assert(command_of(line) is Quit);
    }
    if first_command_word(line) == "help"@ {
        assert(command_of(line) is Help);
    }
    if first_command_word(line) == "connect"@ {
        assert(command_of(line) is Connect);
    }
    if first_command_word(line) == "close"@ {
        assert(command_of(line) is Close);
    }
    if first_command_word(line) == "mkstream"@ {
        assert(command_of(line) is MakeStream);
    }
    if first_command_word(line) == "use"@ {
        assert(command_of(line) is Use);
    }
    if first_command_word(line) == "streams"@ {
        assert(command_of(line) is Streams);
    }
    if first_command_word(line) == "send"@ {
        assert(command_of(line) is Send);
    }
    if first_command_word(line) == "stats"@ {
        assert(command_of(line) is Stats);
    }
    if first_command_word(line) == "features"@ {
        assert(command_of(line) is Features);
    }
    if first_command_word(line) == "summary"@ {
        assert(command_of(line) is Summary);
    }
    if first_command_word(line) == "mpsummary"@ {
        assert(command_of(line) is MultipathSummary);
    }
    if first_command_word(line) == "controller"@ {
        assert(command_of(line) is Controller);
    }
    if first_command_word(line) == "aimd"@ {
        assert(command_of(line) is Aimd);
    }
    if first_command_word(line) == "predictive"@ {
        assert(command_of(line) is Predictive);
    }
    if first_command_word(line) == "ai"@ {
        assert(command_of(line) is Ai);
    }
    if first_command_word(line) == "reset"@ {
        assert(command_of(line) is Reset);
    }
    if first_command_word(line) == "loss"@ {
        assert(command_of(line) is Loss);
    }
    if first_command_word(line) == "delay"@ {
        assert(command_of(line) is Delay);
    }
    if first_command_word(line) == "jitter"@ {
        assert(command_of(line) is Jitter);
    }
    if first_command_word(line) == "scenario"@ {
        assert(command_of(line) is Scenario);
    }
    if first_command_word(line) == "multipath"@ {
        assert(command_of(line) is Multipath);
    }
    if first_command_word(line) == "mp"@ {
        assert(command_of(line) is Multipath);
    }
    if first_command_word(line) == "emulation"@ {
        assert(command_of(line) is Emulation);
    }
    if first_command_word(line) == "emu"@ {
        assert(command_of(line) is Emulation);
    }
    if first_command_word(line) == "clear"@ {
        assert(command_of(line) is ClearEmulation);
    }
    if first_command_word(line) == "experiment"@ {
        assert(command_of(line) is Experiment);
    }
    if first_command_word(line) == "exp"@ {
        assert(command_of(line) is Experiment);
    }
    if first_command_word(line) == "batch"@ {
        assert(command_of(line) is Batch);
    }
    if first_command_word(line) == "demo"@ {
        assert(command_of(line) is Batch);
    }
}


/// The numbers a command's second word gives: a delay or jitter in
/// milliseconds held to at most 10000, an experiment's run count held to
/// 1..=100, and a stream id as written.
pub proof fn lemma_command_numbers(line: Seq<char>, n: nat)
    requires
        trimmed(line).len() > 0,
        words_of(trimmed(line)).len() >= 2,
        unsigned_value(words_of(trimmed(line))[1]) == Some(n),
    ensures
        first_command_word(line) == "delay"@ && n <= u64::MAX ==> command_of(line) == CommandModel::Delay(
            if n <= 10_000 {
                n as u64
            } else {
                10_000
            },
        ),
        first_command_word(line) == "jitter"@ && n <= u64::MAX ==> command_of(line)
            == CommandModel::Jitter(
            if n <= 10_000 {
                n as u64
            } else {
                10_000
            },
        ),
        (first_command_word(line) == "experiment"@ || first_command_word(line) == "exp"@) && n
            <= u32::MAX ==> command_of(line) == CommandModel::Experiment(
            if n < 1 {
                1
            } else if n > 100 {
                100
            } else {
                n as u32
            },
        ),
        first_command_word(line) == "use"@ && n <= u32::MAX ==> command_of(line) == CommandModel::Use(
            n as u32,
        ),
{
    reveal_strlit("quit");
    reveal_strlit("exit");
    reveal_strlit("help");
    reveal_strlit("connect");
    reveal_strlit("close");
    reveal_strlit("mkstream");
    reveal_strlit("use");
    reveal_strlit("streams");
    reveal_strlit("send");
    reveal_strlit("stats");
    reveal_strlit("features");
    reveal_strlit("summary");
    reveal_strlit("mpsummary");
    reveal_strlit("controller");
    reveal_strlit("aimd");
    reveal_strlit("predictive");
    reveal_strlit("ai");
    reveal_strlit("reset");
    reveal_strlit("loss");
    reveal_strlit("delay");
    reveal_strlit("jitter");
    reveal_strlit("scenario");
    reveal_strlit("multipath");
    reveal_strlit("mp");
    reveal_strlit("emulation");
    reveal_strlit("emu");
    reveal_strlit("clear");
    reveal_strlit("experiment");
    reveal_strlit("exp");
    reveal_strlit("batch");
    reveal_strlit("demo");
    assert("quit"@[0] != "exit"@[0]);
    assert("quit"@[0] != "help"@[0]);
    assert("quit"@[0] != "send"@[0]);
    assert("quit"@[0] != "aimd"@[0]);
    assert("quit"@[0] != "loss"@[0]);
    assert("quit"@[0] != "demo"@[0]);
    assert("exit"@[0] != "help"@[0]);
    assert("exit"@[0] != "send"@[0]);
    assert("exit"@[0] != "aimd"@[0]);
    assert("exit"@[0] != "loss"@[0]);
    assert("exit"@[0] != "demo"@[0]);
    assert("help"@[0] != "send"@[0]);
    assert("help"@[0] != "aimd"@[0]);
    assert("help"@[0] != "loss"@[0]);
    assert("help"@[0] != "demo"@[0]);
    assert("connect"@[0] != "streams"@[0]);
    assert("connect"@[0] != "summary"@[0]);
    assert("close"@[0] != "stats"@[0]);
    assert("close"@[0] != "reset"@[0]);
    assert("close"@[0] != "delay"@[0]);
    assert("close"@[2] != "clear"@[2]);
    assert("close"@[0] != "batch"@[0]);
    assert("mkstream"@[0] != "features"@[0]);
    assert("mkstream"@[0] != "scenario"@[0]);
    assert("use"@[0] != "emu"@[0]);
    assert("use"@[0] != "exp"@[0]);
    assert("streams"@[1] != "summary"@[1]);
    assert("send"@[0] != "aimd"@[0]);
    assert("send"@[0] != "loss"@[0]);
    assert("send"@[0] != "demo"@[0]);
    assert("stats"@[0] != "reset"@[0]);
    assert("stats"@[0] != "delay"@[0]);
    assert("stats"@[0] != "clear"@[0]);
    assert("stats"@[0] != "batch"@[0]);
    assert("features"@[0] != "scenario"@[0]);
    assert("mpsummary"@[1] != "multipath"@[1]);
    assert("mpsummary"@[0] != "emulation"@[0]);
    assert("controller"@[0] != "predictive"@[0]);
    assert("controller"@[0] != "experiment"@[0]);
    assert("aimd"@[0] != "loss"@[0]);
    assert("aimd"@[0] != "demo"@[0]);
    assert("predictive"@[0] != "experiment"@[0]);
    assert("ai"@[0] != "mp"@[0]);
    assert("reset"@[0] != "delay"@[0]);
    assert("reset"@[0] != "clear"@[0]);
    assert("reset"@[0] != "batch"@[0]);
    assert("loss"@[0] != "demo"@[0]);
    assert("delay"@[0] != "clear"@[0]);
    assert("delay"@[0] != "batch"@[0]);
    assert("multipath"@[0] != "emulation"@[0]);
    assert("emu"@[1] != "exp"@[1]);
    assert("clear"@[0] != "batch"@[0]);
    let w = words_of(trimmed(line));
    assert(first_command_word(line) == lowercased(w[0]));
    if first_command_word(line) == "delay"@ {
        assert(command_of(line) == CommandModel::Delay(ms_value(w[1])));
    }
    if first_command_word(line) == "jitter"@ {
        assert(command_of(line) == CommandModel::Jitter(ms_value(w[1])));
    }
    if first_command_word(line) == "experiment"@ {
        assert(command_of(line) == CommandModel::Experiment(experiment_runs(w[1])));
    }
    if first_command_word(line) == "exp"@ {
        assert(command_of(line) == CommandModel::Experiment(experiment_runs(w[1])));
    }
    if first_command_word(line) == "use"@ {
        assert(command_of(line) is Use);
    }
}

} // verus!
