//! Network impairment: loss, delay and jitter drawn from a xorshift generator.
//! The emulator decides what happens to each packet; sleeping and sending are
//! left to the caller.
use vstd::prelude::*;

verus! {

#[derive(Debug, Clone, Copy, PartialEq, Eq, Structural)]
pub enum SendOutcome {
    Sent,
    Dropped,
}

/// The seed used in place of zero, which xorshift cannot leave.
pub const ZERO_SEED_REPLACEMENT: u64 = 0x243F_6A88_85A3_08D3;

/// The seed used when the clock stands before the epoch.
pub const CLOCK_FALLBACK_SEED: u64 = 0x9E37_79B9_7F4A_7C15;

/// One step of the xorshift64 generator (shifts 13, 7, 17).
pub open spec fn xorshift_step(x: u64) -> u64 {
    let a = x ^ (x << 13u64);
    let b = a ^ (a >> 7u64);
    b ^ (b << 17u64)
}

pub struct XorShift64 {
    pub state: u64,
}

impl XorShift64 {
    pub fn new(seed: u64) -> (r: Self)
        ensures
            r.state == (if seed == 0 {
                ZERO_SEED_REPLACEMENT
            } else {
                seed
            }),
    {
        let state = if seed == 0 {
            ZERO_SEED_REPLACEMENT
        } else {
            seed
        };
        Self { state }
    }

    /// Advances the generator and returns the new state.
    pub fn next_u64(&mut self) -> (x: u64)
        ensures
            x == xorshift_step(old(self).state),
            final(self).state == x,
        no_unwind
    {
        let mut x = self.state;
        x = x ^ (x << 13u64);
        x = x ^ (x >> 7u64);
        x = x ^ (x << 17u64);
        self.state = x;
        x
    }
}

/// Reads the system clock in nanoseconds since the Unix epoch.
#[verifier::external_body]
fn clock_nanos() -> Option<u128> {
    match std::time::SystemTime::now().duration_since(std::time::UNIX_EPOCH) {
        Ok(d) => Some(d.as_nanos()),
        Err(_) => None,
    }
}

/// A seed from the clock: nanoseconds since the epoch truncated to 64 bits.
pub fn now_seed() -> u64 {
    seed_from_clock(clock_nanos())
}

/// The seed a clock reading in nanoseconds gives: its low 64 bits, or the
/// fallback seed when there is no reading.
pub open spec fn seed_of(nanos: Option<u128>) -> u64 {
    match nanos {
        Some(n) => n as u64,
        None => CLOCK_FALLBACK_SEED,
    }
}

/// Turns a clock reading in nanoseconds into a generator seed.
pub fn seed_from_clock(nanos: Option<u128>) -> (seed: u64)
    ensures
        seed == seed_of(nanos),
{
    match nanos {
        Some(n) => n as u64,
        None => CLOCK_FALLBACK_SEED,
    }
}

/// How packets are lost: never, always, or when a draw below 10000 falls
/// under the given threshold (the loss percentage times 100, rounded up).
#[derive(Debug, Clone, Copy, PartialEq, Eq, Structural)]
pub enum LossSetting {
    Never,
    Always,
    Below(u32),
}

/// Delays are capped at ten seconds.
pub const MAX_DELAY_MS: u64 = 10_000;

/// What happens to one packet: how long it waits, then whether it goes out.
#[derive(Debug, Clone, Copy, PartialEq, Eq, Structural)]
pub struct SendPlan {
    pub delay_ms: u64,
    pub outcome: SendOutcome,
}

/// What an emulator holds.
pub struct EmulatorView {
    pub loss: LossSetting,
    pub delay_ms: u64,
    pub jitter_ms: u64,
    pub rng_state: u64,
}

pub open spec fn loss_setting_ok(l: LossSetting) -> bool {
    match l {
        LossSetting::Below(t) => 1 <= t <= 10_000,
        _ => true,
    }
}

pub open spec fn emulator_ok(v: EmulatorView) -> bool {
    &&& loss_setting_ok(v.loss)
    &&& v.delay_ms <= MAX_DELAY_MS
    &&& v.jitter_ms <= MAX_DELAY_MS
}

/// The emulator impairs traffic when loss, delay or jitter is set.
pub open spec fn is_active_view(v: EmulatorView) -> bool {
    v.loss != LossSetting::Never || v.delay_ms > 0 || v.jitter_ms > 0
}

/// The jitter drawn from generator state `rng` and the state after the draw.
pub open spec fn jitter_draw(jitter_ms: u64, rng: u64) -> (u64, u64) {
    if jitter_ms == 0 {
        (0, rng)
    } else {
        let x = xorshift_step(rng);
        ((x as int % (jitter_ms as int + 1)) as u64, x)
    }
}

/// Whether a packet is lost, and the generator state after deciding.
pub open spec fn loss_draw(loss: LossSetting, rng: u64) -> (bool, u64) {
    match loss {
        LossSetting::Never => (false, rng),
        LossSetting::Always => (true, rng),
        LossSetting::Below(t) => {
            let x = xorshift_step(rng);
            (x % 10_000 < t, x)
        },
    }
}

/// The plan for the next packet and the generator state afterwards: no
/// impairment sends at once; otherwise the delay plus a jitter draw, then a
/// loss draw.
pub open spec fn plan_of(v: EmulatorView) -> (SendPlan, u64) {
    if !is_active_view(v) {
        (SendPlan { delay_ms: 0, outcome: SendOutcome::Sent }, v.rng_state)
    } else {
        let (jitter, rng1) = jitter_draw(v.jitter_ms, v.rng_state);
        let delay = if v.delay_ms + jitter > u64::MAX {
            u64::MAX
        } else {
            (v.delay_ms + jitter) as u64
        };
        let (lost, rng2) = loss_draw(v.loss, rng1);
        (
            SendPlan {
                delay_ms: delay,
                outcome: if lost {
                    SendOutcome::Dropped
                } else {
                    SendOutcome::Sent
                },
            },
            rng2,
        )
    }
}

pub struct NetworkEmulator {
    loss: LossSetting,
    delay_ms: u64,
    jitter_ms: u64,
    rng: XorShift64,
}

impl View for NetworkEmulator {
    type V = EmulatorView;

    closed spec fn view(&self) -> EmulatorView {
        EmulatorView {
            loss: self.loss,
            delay_ms: self.delay_ms,
            jitter_ms: self.jitter_ms,
            rng_state: self.rng.state,
        }
    }
}

impl NetworkEmulator {
    #[verifier::type_invariant]
    closed spec fn inv(&self) -> bool {
        emulator_ok(self@)
    }

    /// An emulator that impairs nothing, seeded from the clock.
    pub fn new() -> (e: Self)
        ensures
            e@.loss == LossSetting::Never,
            e@.delay_ms == 0,
            e@.jitter_ms == 0,
            e@.rng_state != 0,
    {
        Self::with_seed(now_seed())
    }

    /// An emulator that impairs nothing, with a given seed.
    pub fn with_seed(seed: u64) -> (e: Self)
        ensures
            e@.loss == LossSetting::Never,
            e@.delay_ms == 0,
            e@.jitter_ms == 0,
            e@.rng_state == (if seed == 0 {
                ZERO_SEED_REPLACEMENT
            } else {
                seed
            }),
    {
        Self { loss: LossSetting::Never, delay_ms: 0, jitter_ms: 0, rng: XorShift64::new(seed) }
    }

    /// Sets the loss; a threshold is held to 1..=10000.
    pub fn set_loss_setting(&mut self, loss: LossSetting)
        ensures
            final(self)@ == (EmulatorView {
                loss: match loss {
                    LossSetting::Below(t) => LossSetting::Below(
                        if t < 1 {
                            1
                        } else if t > 10_000 {
                            10_000
                        } else {
                            t
                        },
                    ),
                    other => other,
                },
                ..old(self)@
            }),
    {
        proof {
            use_type_invariant(&*self);
        }
        let loss = match loss {
            LossSetting::Below(t) => LossSetting::Below(
                if t < 1 {
                    1
                } else if t > 10_000 {
                    10_000
                } else {
                    t
                },
            ),
            other => other,
        };
        self.loss = loss;
    }

    pub fn set_delay(&mut self, ms: u64)
        ensures
            final(self)@ == (EmulatorView {
                delay_ms: if ms < MAX_DELAY_MS {
                    ms
                } else {
                    MAX_DELAY_MS
                },
                ..old(self)@
            }),
    {
        proof {
            use_type_invariant(&*self);
        }
        self.delay_ms = if ms < MAX_DELAY_MS {
            ms
        } else {
            MAX_DELAY_MS
        };
    }

    pub fn set_jitter(&mut self, ms: u64)
        ensures
            final(self)@ == (EmulatorView {
                jitter_ms: if ms < MAX_DELAY_MS {
                    ms
                } else {
                    MAX_DELAY_MS
                },
                ..old(self)@
            }),
    {
        proof {
            use_type_invariant(&*self);
        }
        self.jitter_ms = if ms < MAX_DELAY_MS {
            ms
        } else {
            MAX_DELAY_MS
        };
    }

    /// Removes every impairment.
    pub fn clear(&mut self)
        ensures
            final(self)@ == (EmulatorView {
                loss: LossSetting::Never,
                delay_ms: 0,
                jitter_ms: 0,
                ..old(self)@
            }),
    {
        proof {
            use_type_invariant(&*self);
        }
        self.loss = LossSetting::Never;
        self.delay_ms = 0;
        self.jitter_ms = 0;
    }

    pub fn loss_setting(&self) -> (l: LossSetting)
        ensures
            l == self@.loss,
    {
        self.loss
    }

    pub fn delay_ms(&self) -> (d: u64)
        ensures
            d == self@.delay_ms,
    {
        self.delay_ms
    }

    pub fn jitter_ms(&self) -> (j: u64)
        ensures
            j == self@.jitter_ms,
    {
        self.jitter_ms
    }

    pub fn is_active(&self) -> (b: bool)
        ensures
            b == is_active_view(self@),
    {
        !matches!(self.loss, LossSetting::Never) || self.delay_ms > 0 || self.jitter_ms > 0
    }

    /// The longest delay a packet can get: delay plus jitter.
    pub fn max_delay_ms(&self) -> (d: u64)
        ensures
            d == self@.delay_ms + self@.jitter_ms,
    {
        proof {
            use_type_invariant(self);
        }
        self.delay_ms + self.jitter_ms
    }

    fn random_jitter_ms(&mut self) -> (j: u64)
        ensures
            (j, final(self)@.rng_state) == jitter_draw(old(self)@.jitter_ms, old(self)@.rng_state),
            final(self)@.loss == old(self)@.loss,
            final(self)@.delay_ms == old(self)@.delay_ms,
            final(self)@.jitter_ms == old(self)@.jitter_ms,
    {
        proof {
            use_type_invariant(&*self);
        }
        if self.jitter_ms == 0 {
            return 0;
        }
        let x = self.rng.next_u64();
        x % (self.jitter_ms + 1)
    }

    fn chance(&mut self) -> (lost: bool)
        ensures
            (lost, final(self)@.rng_state) == loss_draw(old(self)@.loss, old(self)@.rng_state),
            final(self)@.loss == old(self)@.loss,
            final(self)@.delay_ms == old(self)@.delay_ms,
            final(self)@.jitter_ms == old(self)@.jitter_ms,
    {
        proof {
            use_type_invariant(&*self);
        }
        match self.loss {
            LossSetting::Never => false,
            LossSetting::Always => true,
            LossSetting::Below(t) => {
                let x = self.rng.next_u64();
                x % 10_000 < t as u64
            },
        }
    }

    /// Decides the fate of the next packet: how long to hold it and whether
    /// it is dropped.
    pub fn plan_send(&mut self) -> (plan: SendPlan)
        ensures
            (plan, final(self)@.rng_state) == plan_of(old(self)@),
            final(self)@.loss == old(self)@.loss,
            final(self)@.delay_ms == old(self)@.delay_ms,
            final(self)@.jitter_ms == old(self)@.jitter_ms,
    {
        if !self.is_active() {
            return SendPlan { delay_ms: 0, outcome: SendOutcome::Sent };
        }
        let jitter = self.random_jitter_ms();
        let delay = self.delay_ms.saturating_add(jitter);
        let lost = self.chance();
        SendPlan {
            delay_ms: delay,
            outcome: if lost {
                SendOutcome::Dropped
            } else {
                SendOutcome::Sent
            },
        }
    }
}


/// The impairment a named scenario puts on an emulator: loss in whole
/// percent, delay and jitter in milliseconds.
#[derive(Debug, Clone, Copy, PartialEq, Eq, Structural)]
pub struct Impairment {
    pub loss_percent: u32,
    pub delay_ms: u64,
    pub jitter_ms: u64,
}

pub open spec fn impairment(loss_percent: u32, delay_ms: u64, jitter_ms: u64) -> Impairment {
    Impairment { loss_percent, delay_ms, jitter_ms }
}

/// The client's emulator scenarios: `good` clears every impairment, `lossy`
/// and `bad` set fixed ones; other names are unknown.
pub open spec fn scenario_spec(name: Seq<char>) -> Option<Impairment> {
    if name == "good"@ {
        Some(impairment(0, 0, 0))
    } else if name == "lossy"@ {
        Some(impairment(20, 20, 10))
    } else if name == "bad"@ {
        Some(impairment(35, 150, 100))
    } else {
        None
    }
}

/// The impairment of a scenario of the single emulator.
pub fn scenario_impairment(name: &str) -> (r: Option<Impairment>)
    ensures
        r == scenario_spec(name@),
{
    if crate::text::str_equals(name, "good") {
        Some(Impairment { loss_percent: 0, delay_ms: 0, jitter_ms: 0 })
    } else if crate::text::str_equals(name, "lossy") {
        Some(Impairment { loss_percent: 20, delay_ms: 20, jitter_ms: 10 })
    } else if crate::text::str_equals(name, "bad") {
        Some(Impairment { loss_percent: 35, delay_ms: 150, jitter_ms: 100 })
    } else {
        None
    }
}

/// The multipath scenarios, path by path (0 is the first path): `good`
/// clears every path and `bad` impairs every path alike; `lossy` and `mixed`
/// set the first two paths and leave the others alone (`None`), as does an
/// unknown name.
pub open spec fn path_scenario_spec(name: Seq<char>, path_index: int) -> Option<Impairment> {
    if name == "good"@ {
        Some(impairment(0, 0, 0))
    } else if name == "lossy"@ {
        if path_index == 0 {
            Some(impairment(10, 10, 5))
        } else if path_index == 1 {
            Some(impairment(30, 80, 50))
        } else {
            None
        }
    } else if name == "mixed"@ {
        if path_index == 0 {
            Some(impairment(0, 0, 0))
        } else if path_index == 1 {
            Some(impairment(30, 120, 80))
        } else {
            None
        }
    } else if name == "bad"@ {
        Some(impairment(35, 150, 100))
    } else {
        None
    }
}

/// The impairment a multipath scenario puts on the path at `path_index`.
pub fn path_scenario_impairment(name: &str, path_index: usize) -> (r: Option<Impairment>)
    ensures
        r == path_scenario_spec(name@, path_index as int),
{
    if crate::text::str_equals(name, "good") {
        Some(Impairment { loss_percent: 0, delay_ms: 0, jitter_ms: 0 })
    } else if crate::text::str_equals(name, "lossy") {
        if path_index == 0 {
            Some(Impairment { loss_percent: 10, delay_ms: 10, jitter_ms: 5 })
        } else if path_index == 1 {
            Some(Impairment { loss_percent: 30, delay_ms: 80, jitter_ms: 50 })
        } else {
            None
        }
    } else if crate::text::str_equals(name, "mixed") {
        if path_index == 0 {
            Some(Impairment { loss_percent: 0, delay_ms: 0, jitter_ms: 0 })
        } else if path_index == 1 {
            Some(Impairment { loss_percent: 30, delay_ms: 120, jitter_ms: 80 })
        } else {
            None
        }
    } else if crate::text::str_equals(name, "bad") {
        Some(Impairment { loss_percent: 35, delay_ms: 150, jitter_ms: 100 })
    } else {
        None
    }
}

/// An emulator with nothing set sends every packet at once and leaves its
/// generator untouched; one set to lose nothing never drops, and one set to
/// lose everything always drops.
pub proof fn lemma_loss_settings(v: EmulatorView)
    ensures
        !is_active_view(v) ==> plan_of(v) == (
            SendPlan { delay_ms: 0, outcome: SendOutcome::Sent },
            v.rng_state,
        ),
        v.loss == LossSetting::Never ==> plan_of(v).0.outcome == SendOutcome::Sent,
        v.loss == LossSetting::Always ==> plan_of(v).0.outcome == SendOutcome::Dropped,
{
}

/// A drawn delay never exceeds the emulator's largest delay.
pub proof fn lemma_delay_within_max(v: EmulatorView)
    requires
        emulator_ok(v),
    ensures
        plan_of(v).0.delay_ms <= v.delay_ms + v.jitter_ms,
{
}


/// A loss setting of `t` drops a packet when the generator's next value,
/// taken modulo 10000, falls below `t`: of the 10000 residues exactly the
/// first `t` drop, so a setting below 10000 lets some draws through, and a
/// larger setting drops at least whatever a smaller one drops.  The draw
/// advances the generator by one step.  Jitter is the next value modulo one
/// more than the jitter setting, so it never exceeds that setting.
pub proof fn lemma_draws(t: u32, more: u32, rng: u64, jitter_ms: u64)
    ensures
        loss_draw(LossSetting::Below(t), rng).1 == xorshift_step(rng),
        loss_draw(LossSetting::Below(t), rng).0 <==> xorshift_step(rng) % 10_000 < t,
        xorshift_step(rng) % 10_000 >= t ==> !loss_draw(LossSetting::Below(t), rng).0,
        t >= 10_000 ==> loss_draw(LossSetting::Below(t), rng).0,
        t <= more && loss_draw(LossSetting::Below(t), rng).0 ==> loss_draw(
            LossSetting::Below(more),
            rng,
        ).0,
        jitter_ms > 0 ==> jitter_draw(jitter_ms, rng) == (
            (xorshift_step(rng) as int % (jitter_ms as int + 1)) as u64,
            xorshift_step(rng),
        ),
        jitter_draw(jitter_ms, rng).0 <= jitter_ms,
{
}


/// An impairing emulator holds each packet for its delay plus a jitter draw,
/// then drops it exactly when the loss draw that follows says so; with no
/// jitter and a loss setting of `t`, a packet is dropped exactly when the
/// generator's next value modulo 10000 is below `t`.
pub proof fn lemma_plan_draws(v: EmulatorView)
    requires
        emulator_ok(v),
        is_active_view(v),
    ensures
        ({
            let (jitter, rng1) = jitter_draw(v.jitter_ms, v.rng_state);
            &&& plan_of(v).0.delay_ms == v.delay_ms + jitter
            &&& (plan_of(v).0.outcome == SendOutcome::Dropped) <==> loss_draw(v.loss, rng1).0
            &&& plan_of(v).1 == loss_draw(v.loss, rng1).1
        }),
        v.jitter_ms == 0 ==> plan_of(v).0.delay_ms == v.delay_ms,
        v.jitter_ms == 0 ==> (v.loss matches LossSetting::Below(t) ==> ((plan_of(v).0.outcome
            == SendOutcome::Dropped) <==> xorshift_step(v.rng_state) % 10_000 < t)),
{
    lemma_draws(0, 0, v.rng_state, v.jitter_ms);
}

} // verus!
