//! Congestion control: the controller interface and the AIMD baseline.
use vstd::prelude::*;

use crate::connection::sat_add_u64;
use crate::text::{decimal, push_decimal, push_str};

verus! {

/// What the sender asks of a congestion controller.  Round trips are given
/// in microseconds.
pub trait CongestionController {
    fn name(&self) -> &str;

    fn can_send(&self, packet_size: usize) -> bool;

    fn on_packet_sent(&mut self, packet_size: usize);

    fn on_ack(&mut self, packet_size: usize, rtt_us: u128);

    fn on_loss(&mut self, packet_size: usize);

    fn status(&self) -> String;
}

/// `a + b`, held at `usize::MAX`.
pub open spec fn sat_add_usize(a: usize, b: usize) -> usize {
    if a + b > usize::MAX {
        usize::MAX
    } else {
        (a + b) as usize
    }
}

/// `a - b`, held at 0.
pub open spec fn sat_sub_usize(a: usize, b: usize) -> usize {
    if a < b {
        0
    } else {
        (a - b) as usize
    }
}

/// `a * b`, held at `usize::MAX`.
pub open spec fn sat_mul_usize(a: usize, b: usize) -> usize {
    if a * b > usize::MAX {
        usize::MAX
    } else {
        (a * b) as usize
    }
}

pub fn saturating_mul_usize(a: usize, b: usize) -> (r: usize)
    ensures
        r == sat_mul_usize(a, b),
{
    match a.checked_mul(b) {
        Some(v) => v,
        None => usize::MAX,
    }
}

/// The segment size used when none is given.
pub const DEFAULT_MSS: usize = 1200;

/// What an AIMD controller holds: window, bytes in flight, segment size and
/// the window's floor and ceiling.
pub struct AimdView {
    pub cwnd_bytes: usize,
    pub in_flight_bytes: usize,
    pub mss: usize,
    pub min_cwnd: usize,
    pub max_cwnd: usize,
}

/// The window of an AIMD controller stays between one segment and its ceiling.
pub open spec fn aimd_window_ok(v: AimdView) -> bool {
    &&& v.mss > 0
    &&& v.min_cwnd == v.mss
    &&& v.max_cwnd == sat_mul_usize(v.mss, 64)
    &&& v.min_cwnd <= v.cwnd_bytes <= v.max_cwnd
}

/// The risk-driven controllers' increase: `mss * packet_size / cwnd`, at
/// least one byte.
pub open spec fn additive_increase(v: AimdView, packet_size: usize) -> usize {
    let inc = sat_mul_usize(v.mss, packet_size) / v.cwnd_bytes;
    if inc == 0 {
        1
    } else {
        inc
    }
}

/// The AIMD window after an ACK: one packet (one segment) larger, up to the
/// ceiling.
pub open spec fn aimd_window_after_ack(v: AimdView) -> usize {
    let grown = sat_add_usize(v.cwnd_bytes, v.mss);
    if grown < v.max_cwnd {
        grown
    } else {
        v.max_cwnd
    }
}

/// The window after an ACK of `packet_size` bytes at low risk: grown by the
/// additive increase, up to the ceiling.
pub open spec fn window_grown_additively(v: AimdView, packet_size: usize) -> usize {
    let grown = sat_add_usize(v.cwnd_bytes, additive_increase(v, packet_size));
    if grown < v.max_cwnd {
        grown
    } else {
        v.max_cwnd
    }
}

/// The window after a loss: halved, but not below one segment.
pub open spec fn aimd_window_after_loss(v: AimdView) -> usize {
    if v.cwnd_bytes / 2 > v.min_cwnd {
        (v.cwnd_bytes / 2) as usize
    } else {
        v.min_cwnd
    }
}

/// The status line of an AIMD controller.
pub open spec fn aimd_status_line(v: AimdView) -> Seq<char> {
    "cwnd_bytes="@ + decimal(v.cwnd_bytes as nat) + " in_flight_bytes="@ + decimal(
        v.in_flight_bytes as nat,
    ) + " mss="@ + decimal(v.mss as nat)
}

/// Additive-increase, multiplicative-decrease baseline controller.
pub struct SimpleAimd {
    cwnd_bytes: usize,
    in_flight_bytes: usize,
    mss: usize,
    min_cwnd: usize,
    max_cwnd: usize,
}

impl View for SimpleAimd {
    type V = AimdView;

    closed spec fn view(&self) -> AimdView {
        AimdView {
            cwnd_bytes: self.cwnd_bytes,
            in_flight_bytes: self.in_flight_bytes,
            mss: self.mss,
            min_cwnd: self.min_cwnd,
            max_cwnd: self.max_cwnd,
        }
    }
}

impl SimpleAimd {
    #[verifier::type_invariant]
    closed spec fn window_ok(&self) -> bool {
        aimd_window_ok(self@)
    }

    /// A controller with a four-segment window; a zero segment size means 1200.
    pub fn new(mss: usize) -> (c: Self)
        ensures
            c@.mss == (if mss == 0 {
                DEFAULT_MSS
            } else {
                mss
            }),
            c@.cwnd_bytes == sat_mul_usize(c@.mss, 4),
            c@.in_flight_bytes == 0,
            c@.min_cwnd == c@.mss,
            c@.max_cwnd == sat_mul_usize(c@.mss, 64),
            aimd_window_ok(c@),
    {
        let mss = if mss == 0 {
            DEFAULT_MSS
        } else {
            mss
        };
        let cwnd = saturating_mul_usize(mss, 4);
        let max = saturating_mul_usize(mss, 64);
        assert(mss <= cwnd <= max) by (nonlinear_arith)
            requires
                mss > 0,
                cwnd == sat_mul_usize(mss, 4),
                max == sat_mul_usize(mss, 64),
        ;
        Self { cwnd_bytes: cwnd, in_flight_bytes: 0, mss, min_cwnd: mss, max_cwnd: max }
    }

    /// The current window in bytes, which always lies between one segment
    /// and 64 segments.
    pub fn cwnd_bytes(&self) -> (r: usize)
        ensures
            r == self@.cwnd_bytes,
            aimd_window_ok(self@),
    {
        proof {
            use_type_invariant(self);
        }
        self.cwnd_bytes
    }
}

impl CongestionController for SimpleAimd {
    fn name(&self) -> (r: &str)
        ensures
            r@ == "simple-aimd"@,
    {
        "simple-aimd"
    }

    /// With nothing in flight one packet may always go; otherwise the packet
    /// must fit in the window.
    fn can_send(&self, packet_size: usize) -> (ok: bool)
        ensures
            ok == (self@.in_flight_bytes == 0 || sat_add_usize(self@.in_flight_bytes, packet_size)
                <= self@.cwnd_bytes),
    {
        if self.in_flight_bytes == 0 {
            return true;
        }
        self.in_flight_bytes.saturating_add(packet_size) <= self.cwnd_bytes
    }

    fn on_packet_sent(&mut self, packet_size: usize)
        ensures
            final(self)@ == (AimdView {
                in_flight_bytes: sat_add_usize(old(self)@.in_flight_bytes, packet_size),
                ..old(self)@
            }),
    {
        proof {
            use_type_invariant(&*self);
        }
        self.in_flight_bytes = self.in_flight_bytes.saturating_add(packet_size);
    }

    /// Takes the packet out of flight and grows the window by one packet (one
    /// segment), up to the ceiling.
    fn on_ack(&mut self, packet_size: usize, rtt_us: u128)
        ensures
            final(self)@ == (AimdView {
                in_flight_bytes: sat_sub_usize(old(self)@.in_flight_bytes, packet_size),
                cwnd_bytes: aimd_window_after_ack(old(self)@),
                ..old(self)@
            }),
            aimd_window_ok(final(self)@),
    {
        proof {
            use_type_invariant(&*self);
        }
        let in_flight = self.in_flight_bytes.saturating_sub(packet_size);
        let grown = self.cwnd_bytes.saturating_add(self.mss);
        let next = if grown < self.max_cwnd {
            grown
        } else {
            self.max_cwnd
        };
        self.in_flight_bytes = in_flight;
        self.cwnd_bytes = next;
    }

    /// Takes the packet out of flight and halves the window, not below one
    /// segment.
    fn on_loss(&mut self, packet_size: usize)
        ensures
            final(self)@ == (AimdView {
                in_flight_bytes: sat_sub_usize(old(self)@.in_flight_bytes, packet_size),
                cwnd_bytes: aimd_window_after_loss(old(self)@),
                ..old(self)@
            }),
            aimd_window_ok(final(self)@),
    {
        proof {
            use_type_invariant(&*self);
        }
        let in_flight = self.in_flight_bytes.saturating_sub(packet_size);
        let half = self.cwnd_bytes / 2;
        let next = if half > self.min_cwnd {
            half
        } else {
            self.min_cwnd
        };
        self.in_flight_bytes = in_flight;
        self.cwnd_bytes = next;
    }

    fn status(&self) -> (s: String)
        ensures
            s@ == aimd_status_line(self@),
    {
        let mut s = String::new();
        push_str(&mut s, "cwnd_bytes=");
        push_decimal(&mut s, self.cwnd_bytes as u128);
        push_str(&mut s, " in_flight_bytes=");
        push_decimal(&mut s, self.in_flight_bytes as u128);
        push_str(&mut s, " mss=");
        push_decimal(&mut s, self.mss as u128);
        assert(s@ =~= aimd_status_line(self@));
        s
    }
}


/// How congested the path looks to a risk-driven controller: low risk grows
/// the window as AIMD does, moderate risk grows it by a byte every eighth ACK,
/// high risk shrinks it ahead of any loss.
#[derive(Debug, Clone, Copy, PartialEq, Eq, Structural)]
pub enum RiskLevel {
    Low,
    Moderate,
    High,
}

/// What a risk-driven window holds: the AIMD fields, the ACKs seen and the
/// number of proactive reductions.
pub struct RiskWindowView {
    pub aimd: AimdView,
    pub ack_events: u64,
    pub proactive_reductions: u64,
}

/// The window after a proactive reduction: three quarters, not below one
/// segment.
pub open spec fn risk_window_reduced(v: AimdView) -> usize {
    let shrunk = sat_mul_usize(v.cwnd_bytes, 75) / 100;
    if shrunk < v.min_cwnd {
        v.min_cwnd
    } else {
        shrunk as usize
    }
}

/// The window after an ACK at the given risk; `acks` counts the ACKs
/// including this one.
pub open spec fn risk_window_after_ack(
    v: AimdView,
    packet_size: usize,
    level: RiskLevel,
    acks: u64,
) -> usize {
    if level == RiskLevel::High {
        risk_window_reduced(v)
    } else if level == RiskLevel::Low {
        window_grown_additively(v, packet_size)
    } else if acks % 8 == 0 {
        let grown = sat_add_usize(v.cwnd_bytes, 1);
        if grown < v.max_cwnd {
            grown
        } else {
            v.max_cwnd
        }
    } else {
        v.cwnd_bytes
    }
}

/// The state of a risk-driven window after an ACK of `packet_size` bytes at
/// the given risk: high risk always reduces the window.
pub open spec fn risk_after_ack(w: RiskWindowView, packet_size: usize, level: RiskLevel) -> RiskWindowView {
    let acks = sat_add_u64(w.ack_events, 1);
    RiskWindowView {
        aimd: AimdView {
            in_flight_bytes: sat_sub_usize(w.aimd.in_flight_bytes, packet_size),
            cwnd_bytes: risk_window_after_ack(w.aimd, packet_size, level, acks),
            ..w.aimd
        },
        ack_events: acks,
        proactive_reductions: if level == RiskLevel::High {
            sat_add_u64(w.proactive_reductions, 1)
        } else {
            w.proactive_reductions
        },
    }
}

/// The congestion window of the risk-driven controllers.
pub struct RiskWindow {
    window: SimpleAimd,
    ack_events: u64,
    proactive_reductions: u64,
}

impl View for RiskWindow {
    type V = RiskWindowView;

    closed spec fn view(&self) -> RiskWindowView {
        RiskWindowView {
            aimd: self.window@,
            ack_events: self.ack_events,
            proactive_reductions: self.proactive_reductions,
        }
    }
}

impl RiskWindow {
    /// A four-segment window with no ACK seen; a zero segment size means 1200.
    pub fn new(mss: usize) -> (w: Self)
        ensures
            w@.aimd.mss == (if mss == 0 {
                DEFAULT_MSS
            } else {
                mss
            }),
            w@.aimd.cwnd_bytes == sat_mul_usize(w@.aimd.mss, 4),
            w@.aimd.in_flight_bytes == 0,
            w@.aimd.min_cwnd == w@.aimd.mss,
            w@.aimd.max_cwnd == sat_mul_usize(w@.aimd.mss, 64),
            aimd_window_ok(w@.aimd),
            w@.ack_events == 0,
            w@.proactive_reductions == 0,
    {
        RiskWindow {
            window: SimpleAimd::new(mss),
            ack_events: 0,
            proactive_reductions: 0,
        }
    }

    /// The current window in bytes, always between one and 64 segments.
    pub fn cwnd_bytes(&self) -> (r: usize)
        ensures
            r == self@.aimd.cwnd_bytes,
            aimd_window_ok(self@.aimd),
    {
        self.window.cwnd_bytes()
    }

    pub fn in_flight_bytes(&self) -> (r: usize)
        ensures
            r == self@.aimd.in_flight_bytes,
    {
        self.window.in_flight_bytes
    }

    pub fn mss(&self) -> (r: usize)
        ensures
            r == self@.aimd.mss,
    {
        self.window.mss
    }

    pub fn proactive_reductions(&self) -> (r: u64)
        ensures
            r == self@.proactive_reductions,
    {
        self.proactive_reductions
    }

    /// With nothing in flight one packet may always go; otherwise the packet
    /// must fit in the window.
    pub fn can_send(&self, packet_size: usize) -> (ok: bool)
        ensures
            ok == (self@.aimd.in_flight_bytes == 0 || sat_add_usize(
                self@.aimd.in_flight_bytes,
                packet_size,
            ) <= self@.aimd.cwnd_bytes),
    {
        self.window.can_send(packet_size)
    }

    pub fn on_packet_sent(&mut self, packet_size: usize)
        ensures
            final(self)@ == (RiskWindowView {
                aimd: AimdView {
                    in_flight_bytes: sat_add_usize(old(self)@.aimd.in_flight_bytes, packet_size),
                    ..old(self)@.aimd
                },
                ..old(self)@
            }),
    {
        self.window.on_packet_sent(packet_size);
    }

    /// Counts the ACK, takes the packet out of flight and moves the window as
    /// the risk level says.
    pub fn on_ack(&mut self, packet_size: usize, level: RiskLevel)
        ensures
            final(self)@ == risk_after_ack(old(self)@, packet_size, level),
            aimd_window_ok(final(self)@.aimd),
    {
        proof {
            use_type_invariant(&self.window);
        }
        self.ack_events = self.ack_events.saturating_add(1);
        if level == RiskLevel::High {
            self.window.reduce_proactively(packet_size);
            self.proactive_reductions = self.proactive_reductions.saturating_add(1);
        } else if level == RiskLevel::Low {
            self.window.grow_additively(packet_size);
        } else if self.ack_events % 8 == 0 {
            self.window.grow_by_one_byte(packet_size);
        } else {
            self.window.release(packet_size);
        }
    }

    /// Takes the packet out of flight and halves the window, not below one
    /// segment.
    pub fn on_loss(&mut self, packet_size: usize)
        ensures
            final(self)@ == (RiskWindowView {
                aimd: AimdView {
                    in_flight_bytes: sat_sub_usize(old(self)@.aimd.in_flight_bytes, packet_size),
                    cwnd_bytes: aimd_window_after_loss(old(self)@.aimd),
                    ..old(self)@.aimd
                },
                ..old(self)@
            }),
            aimd_window_ok(final(self)@.aimd),
    {
        self.window.on_loss(packet_size);
    }
}

impl SimpleAimd {
    /// Takes a packet out of flight and shrinks the window to three quarters,
    /// not below one segment.
    fn reduce_proactively(&mut self, packet_size: usize)
        ensures
            final(self)@ == (AimdView {
                in_flight_bytes: sat_sub_usize(old(self)@.in_flight_bytes, packet_size),
                cwnd_bytes: risk_window_reduced(old(self)@),
                ..old(self)@
            }),
            aimd_window_ok(final(self)@),
    {
        proof {
            use_type_invariant(&*self);
        }
        let in_flight = self.in_flight_bytes.saturating_sub(packet_size);
        let shrunk = saturating_mul_usize(self.cwnd_bytes, 75) / 100;
        let next = if shrunk < self.min_cwnd {
            self.min_cwnd
        } else {
            shrunk
        };
        assert(sat_mul_usize(self.cwnd_bytes, 75) / 100 <= self.cwnd_bytes) by (nonlinear_arith)
            requires
                sat_mul_usize(self.cwnd_bytes, 75) <= self.cwnd_bytes * 75,
        ;
        self.in_flight_bytes = in_flight;
        self.cwnd_bytes = next;
    }

    /// Takes a packet out of flight and grows the window by the additive
    /// increase, up to the ceiling.
    fn grow_additively(&mut self, packet_size: usize)
        ensures
            final(self)@ == (AimdView {
                in_flight_bytes: sat_sub_usize(old(self)@.in_flight_bytes, packet_size),
                cwnd_bytes: window_grown_additively(old(self)@, packet_size),
                ..old(self)@
            }),
            aimd_window_ok(final(self)@),
    {
        proof {
            use_type_invariant(&*self);
        }
        let in_flight = self.in_flight_bytes.saturating_sub(packet_size);
        let cwnd = self.cwnd_bytes;
        let increase = match saturating_mul_usize(self.mss, packet_size).checked_div(cwnd) {
            Some(v) => v,
            None => 1,
        };
        let increase = if increase == 0 {
            1
        } else {
            increase
        };
        let grown = cwnd.saturating_add(increase);
        let next = if grown < self.max_cwnd {
            grown
        } else {
            self.max_cwnd
        };
        self.in_flight_bytes = in_flight;
        self.cwnd_bytes = next;
    }

    /// Takes a packet out of flight and grows the window by one byte, up to
    /// the ceiling.
    fn grow_by_one_byte(&mut self, packet_size: usize)
        ensures
            final(self)@ == (AimdView {
                in_flight_bytes: sat_sub_usize(old(self)@.in_flight_bytes, packet_size),
                cwnd_bytes: if sat_add_usize(old(self)@.cwnd_bytes, 1) < old(self)@.max_cwnd {
                    sat_add_usize(old(self)@.cwnd_bytes, 1)
                } else {
                    old(self)@.max_cwnd
                },
                ..old(self)@
            }),
            aimd_window_ok(final(self)@),
    {
        proof {
            use_type_invariant(&*self);
        }
        let in_flight = self.in_flight_bytes.saturating_sub(packet_size);
        let grown = self.cwnd_bytes.saturating_add(1);
        let next = if grown < self.max_cwnd {
            grown
        } else {
            self.max_cwnd
        };
        self.in_flight_bytes = in_flight;
        self.cwnd_bytes = next;
    }

    /// Takes a packet out of flight and leaves the window as it is.
    fn release(&mut self, packet_size: usize)
        ensures
            final(self)@ == (AimdView {
                in_flight_bytes: sat_sub_usize(old(self)@.in_flight_bytes, packet_size),
                ..old(self)@
            }),
            aimd_window_ok(final(self)@),
    {
        proof {
            use_type_invariant(&*self);
        }
        self.in_flight_bytes = self.in_flight_bytes.saturating_sub(packet_size);
    }
}

/// An AIMD ACK grows the window by exactly one segment unless that would pass
/// the ceiling, where it stops; a loss never grows it; both keep the window
/// between one segment and its ceiling.
pub proof fn lemma_aimd_ack_grows_loss_shrinks(v: AimdView)
    requires
        aimd_window_ok(v),
    ensures
        v.cwnd_bytes + v.mss <= v.max_cwnd ==> aimd_window_after_ack(v) == v.cwnd_bytes + v.mss,
        v.cwnd_bytes + v.mss > v.max_cwnd ==> aimd_window_after_ack(v) == v.max_cwnd,
        aimd_window_after_loss(v) <= v.cwnd_bytes,
        aimd_window_ok(AimdView { cwnd_bytes: aimd_window_after_ack(v), ..v }),
        aimd_window_ok(AimdView { cwnd_bytes: aimd_window_after_loss(v), ..v }),
{
}

/// A risk-driven window is always reduced at high risk and never grows there,
/// never shrinks at low risk (and then grows unless it is at its ceiling),
/// grows by at most one byte at moderate risk, and always stays between one
/// segment and its ceiling.
pub proof fn lemma_risk_window_follows_risk(w: RiskWindowView, packet_size: usize, level: RiskLevel)
    requires
        aimd_window_ok(w.aimd),
    ensures
        ({
            let after = risk_after_ack(w, packet_size, level).aimd.cwnd_bytes;
            &&& level == RiskLevel::High ==> after == risk_window_reduced(w.aimd) && after
                <= w.aimd.cwnd_bytes
            &&& level == RiskLevel::Low ==> after >= w.aimd.cwnd_bytes
            &&& level == RiskLevel::Low && after == w.aimd.cwnd_bytes ==> w.aimd.cwnd_bytes
                == w.aimd.max_cwnd
            &&& level == RiskLevel::Moderate ==> w.aimd.cwnd_bytes <= after <= w.aimd.cwnd_bytes
                + 1
            &&& aimd_window_ok(risk_after_ack(w, packet_size, level).aimd)
        }),
{
    let v = w.aimd;
    assert(sat_mul_usize(v.cwnd_bytes, 75) / 100 <= v.cwnd_bytes) by (nonlinear_arith)
        requires
            sat_mul_usize(v.cwnd_bytes, 75) <= v.cwnd_bytes * 75,
    ;
}

} // verus!
