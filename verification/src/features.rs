//! Sliding-window statistics of round trips and packet outcomes.
use vstd::prelude::*;

use std::collections::VecDeque;

verus! {

/// The window size used when none is given.
pub const DEFAULT_WINDOW: usize = 16;

/// The last `n` items of `s` (all of it if it is shorter).
pub open spec fn keep_last<T>(s: Seq<T>, n: nat) -> Seq<T> {
    if s.len() > n {
        s.subrange(s.len() - n, s.len() as int)
    } else {
        s
    }
}

/// What a feature extractor holds: its window size, the round trips in the
/// window (oldest first), and the outcomes in the window (`true` for an ACK,
/// `false` for a loss).
pub struct FeatureView {
    pub window_size: nat,
    pub rtts: Seq<u64>,
    pub outcomes: Seq<bool>,
}

pub struct FeatureExtractor {
    window_size: usize,
    rtt_window: VecDeque<u64>,
    outcome_window: VecDeque<bool>,
}

/// The integer statistics of the round trip window.
#[derive(Debug, Clone, Copy, PartialEq, Eq, Structural)]
pub struct RttStats {
    pub samples: usize,
    pub latest_rtt_us: u64,
    pub avg_rtt_us: u64,
    pub min_rtt_us: u64,
    pub max_rtt_us: u64,
    pub rtt_trend_us: i64,
    pub jitter_us: u64,
}

pub open spec fn seq_sum(s: Seq<u64>) -> nat
    decreases s.len(),
{
    if s.len() == 0 {
        0
    } else {
        seq_sum(s.drop_last()) + s.last() as nat
    }
}

pub open spec fn seq_min(s: Seq<u64>) -> u64
    decreases s.len(),
{
    if s.len() <= 1 {
        if s.len() == 0 {
            u64::MAX
        } else {
            s[0]
        }
    } else {
        let m = seq_min(s.drop_last());
        if s.last() < m {
            s.last()
        } else {
            m
        }
    }
}

pub open spec fn seq_max(s: Seq<u64>) -> u64
    decreases s.len(),
{
    if s.len() == 0 {
        0
    } else {
        let m = seq_max(s.drop_last());
        if s.last() > m {
            s.last()
        } else {
            m
        }
    }
}

pub open spec fn abs_diff(a: u64, b: u64) -> nat {
    if a > b {
        (a - b) as nat
    } else {
        (b - a) as nat
    }
}

/// Sum of the distances between neighbouring samples.
pub open spec fn neighbour_diff_sum(s: Seq<u64>) -> nat
    decreases s.len(),
{
    if s.len() < 2 {
        0
    } else {
        neighbour_diff_sum(s.drop_last()) + abs_diff(s.last(), s[s.len() - 2])
    }
}

/// Integer division rounding toward zero, as Rust divides signed integers.
pub open spec fn div_toward_zero(a: int, b: int) -> int {
    if a >= 0 {
        a / b
    } else {
        -((-a) / b)
    }
}

/// The statistics of a window of round trips.  The trend is the change from
/// the oldest to the latest sample per step, the jitter the mean distance
/// between neighbouring samples.
pub open spec fn rtt_stats_of(s: Seq<u64>) -> RttStats {
    let n = s.len();
    if n == 0 {
        RttStats {
            samples: 0,
            latest_rtt_us: 0,
            avg_rtt_us: 0,
            min_rtt_us: 0,
            max_rtt_us: 0,
            rtt_trend_us: 0,
            jitter_us: 0,
        }
    } else {
        RttStats {
            samples: n as usize,
            latest_rtt_us: s.last(),
            avg_rtt_us: (seq_sum(s) / n) as u64,
            min_rtt_us: seq_min(s),
            max_rtt_us: seq_max(s),
            rtt_trend_us: if n >= 2 {
                div_toward_zero(s.last() - s[0], n - 1) as i64
            } else {
                0
            },
            jitter_us: if n >= 2 {
                (neighbour_diff_sum(s) / ((n - 1) as nat)) as u64
            } else {
                0
            },
        }
    }
}

pub open spec fn count_losses(s: Seq<bool>) -> nat
    decreases s.len(),
{
    if s.len() == 0 {
        0
    } else {
        count_losses(s.drop_last()) + (if s.last() {
            0nat
        } else {
            1nat
        })
    }
}

proof fn lemma_sum_bounds(s: Seq<u64>)
    ensures
        seq_sum(s) <= s.len() * u64::MAX,
        s.len() > 0 ==> s.len() * seq_min(s) <= seq_sum(s) <= s.len() * seq_max(s),
    decreases s.len(),
{
    if s.len() > 0 {
        let t = s.drop_last();
        lemma_sum_bounds(t);
        if t.len() > 0 {
            assert(s.len() * seq_min(s) <= seq_sum(s)) by (nonlinear_arith)
                requires
                    t.len() * seq_min(t) <= seq_sum(t),
                    seq_min(s) <= seq_min(t),
                    seq_min(s) <= s.last(),
                    seq_sum(s) == seq_sum(t) + s.last(),
                    s.len() == t.len() + 1,
            ;
            assert(seq_sum(s) <= s.len() * seq_max(s)) by (nonlinear_arith)
                requires
                    seq_sum(t) <= t.len() * seq_max(t),
                    seq_max(t) <= seq_max(s),
                    s.last() <= seq_max(s),
                    seq_sum(s) == seq_sum(t) + s.last(),
                    s.len() == t.len() + 1,
            ;
        } else {
            assert(t =~= Seq::<u64>::empty());
        }
        assert(seq_sum(s) <= s.len() * u64::MAX) by (nonlinear_arith)
            requires
                seq_sum(t) <= t.len() * u64::MAX,
                s.last() <= u64::MAX,
                seq_sum(s) == seq_sum(t) + s.last(),
                s.len() == t.len() + 1,
        ;
    }
}

proof fn lemma_diff_sum_bound(s: Seq<u64>)
    ensures
        s.len() >= 1 ==> neighbour_diff_sum(s) <= (s.len() - 1) * u64::MAX,
    decreases s.len(),
{
    if s.len() >= 2 {
        let t = s.drop_last();
        lemma_diff_sum_bound(t);
        assert(abs_diff(s.last(), s[s.len() - 2]) <= u64::MAX);
        assert(neighbour_diff_sum(s) <= (s.len() - 1) * u64::MAX) by (nonlinear_arith)
            requires
                neighbour_diff_sum(t) <= (t.len() - 1) * u64::MAX,
                abs_diff(s.last(), s[s.len() - 2]) <= u64::MAX,
                neighbour_diff_sum(s) == neighbour_diff_sum(t) + abs_diff(s.last(), s[s.len() - 2]),
                s.len() == t.len() + 1,
        ;
    }
}

proof fn lemma_min_max_members(s: Seq<u64>)
    requires
        s.len() > 0,
    ensures
        seq_min(s) <= s.last() <= seq_max(s),
        seq_min(s) <= s[0] <= seq_max(s),
    decreases s.len(),
{
    if s.len() > 1 {
        lemma_min_max_members(s.drop_last());
    }
}

/// In every window the minimum, average and maximum round trips are ordered,
/// and the latest sample lies between minimum and maximum.
pub proof fn lemma_rtt_stats_ordered(s: Seq<u64>)
    requires
        s.len() > 0,
        s.len() <= usize::MAX,
    ensures
        rtt_stats_of(s).min_rtt_us <= rtt_stats_of(s).avg_rtt_us <= rtt_stats_of(s).max_rtt_us,
        rtt_stats_of(s).min_rtt_us <= rtt_stats_of(s).latest_rtt_us <= rtt_stats_of(s).max_rtt_us,
{
    lemma_sum_bounds(s);
    lemma_min_max_members(s);
    let n = s.len();
    let sum = seq_sum(s);
    assert(seq_min(s) <= sum / n <= seq_max(s)) by (nonlinear_arith)
        requires
            n > 0,
            n * seq_min(s) <= sum <= n * seq_max(s),
    ;
}

impl View for FeatureExtractor {
    type V = FeatureView;

    closed spec fn view(&self) -> FeatureView {
        FeatureView {
            window_size: self.window_size as nat,
            rtts: self.rtt_window@,
            outcomes: self.outcome_window@,
        }
    }
}

/// The windows never hold more than the window size.
pub open spec fn windows_ok(v: FeatureView) -> bool {
    &&& v.window_size > 0
    &&& v.window_size <= usize::MAX
    &&& v.rtts.len() <= v.window_size
    &&& v.outcomes.len() <= v.window_size
}

impl FeatureExtractor {
    #[verifier::type_invariant]
    closed spec fn inv(&self) -> bool {
        windows_ok(self@)
    }

    /// Empty windows of the given size; a zero size means 16.
    pub fn new(window_size: usize) -> (f: Self)
        ensures
            f@.window_size == (if window_size == 0 {
                DEFAULT_WINDOW
            } else {
                window_size
            }),
            f@.rtts.len() == 0,
            f@.outcomes.len() == 0,
            windows_ok(f@),
    {
        let window_size = if window_size == 0 {
            DEFAULT_WINDOW
        } else {
            window_size
        };
        Self {
            window_size,
            rtt_window: VecDeque::with_capacity(window_size),
            outcome_window: VecDeque::with_capacity(window_size),
        }
    }

    /// Adds a round trip (held at `u64::MAX` microseconds) and an ACK outcome,
    /// dropping the oldest entries beyond the window size.
    pub fn record_ack(&mut self, rtt_us: u128)
        ensures
            final(self)@.window_size == old(self)@.window_size,
            final(self)@.rtts == keep_last(
                old(self)@.rtts.push(
                    if rtt_us > u64::MAX {
                        u64::MAX
                    } else {
                        rtt_us as u64
                    },
                ),
                old(self)@.window_size,
            ),
            final(self)@.outcomes == keep_last(old(self)@.outcomes.push(true), old(self)@.window_size),
            windows_ok(final(self)@),
    {
        proof {
            use_type_invariant(&*self);
        }
        let rtt: u64 = if rtt_us > u64::MAX as u128 {
            u64::MAX
        } else {
            rtt_us as u64
        };
        let mut rtts: VecDeque<u64> = VecDeque::new();
        std::mem::swap(&mut rtts, &mut self.rtt_window);
        let ghost pushed = rtts@.push(rtt);
        rtts.push_back(rtt);
        if rtts.len() > self.window_size {
            rtts.pop_front();
            assert(rtts@ =~= keep_last(pushed, self.window_size as nat));
        }
        let mut outcomes: VecDeque<bool> = VecDeque::new();
        std::mem::swap(&mut outcomes, &mut self.outcome_window);
        let ghost pushed_outcomes = outcomes@.push(true);
        outcomes.push_back(true);
        if outcomes.len() > self.window_size {
            outcomes.pop_front();
            assert(outcomes@ =~= keep_last(pushed_outcomes, self.window_size as nat));
        }
        self.rtt_window = rtts;
        self.outcome_window = outcomes;
    }

    /// Adds a loss outcome, dropping the oldest outcome beyond the window size.
    pub fn record_loss(&mut self)
        ensures
            final(self)@.window_size == old(self)@.window_size,
            final(self)@.rtts == old(self)@.rtts,
            final(self)@.outcomes == keep_last(
                old(self)@.outcomes.push(false),
                old(self)@.window_size,
            ),
            windows_ok(final(self)@),
    {
        proof {
            use_type_invariant(&*self);
        }
        let mut outcomes: VecDeque<bool> = VecDeque::new();
        std::mem::swap(&mut outcomes, &mut self.outcome_window);
        let ghost pushed_outcomes = outcomes@.push(false);
        outcomes.push_back(false);
        if outcomes.len() > self.window_size {
            outcomes.pop_front();
            assert(outcomes@ =~= keep_last(pushed_outcomes, self.window_size as nat));
        }
        self.outcome_window = outcomes;
    }

    /// The number of losses and of outcomes in the outcome window.
    pub fn outcome_counts(&self) -> (r: (usize, usize))
        ensures
            r.0 == count_losses(self@.outcomes),
            r.1 == self@.outcomes.len(),
            windows_ok(self@),
    {
        proof {
            use_type_invariant(self);
        }
        let n = self.outcome_window.len();
        let mut losses: usize = 0;
        let mut i: usize = 0;
        while i < n
            invariant
                n == self@.outcomes.len(),
                i <= n,
                losses <= i,
                losses == count_losses(self@.outcomes.take(i as int)),
            decreases n - i,
        {
            assert(self@.outcomes.take(i + 1).drop_last() =~= self@.outcomes.take(i as int));
            if !self.outcome_window[i] {
                losses = losses + 1;
            }
            i = i + 1;
        }
        assert(self@.outcomes.take(n as int) =~= self@.outcomes);
        (losses, n)
    }

    /// The statistics of the round trip window.
    pub fn rtt_stats(&self) -> (r: RttStats)
        ensures
            r == rtt_stats_of(self@.rtts),
            windows_ok(self@),
    {
        proof {
            use_type_invariant(self);
        }
        let ghost s = self@.rtts;
        let samples = self.rtt_window.len();
        if samples == 0 {
            return RttStats {
                samples: 0,
                latest_rtt_us: 0,
                avg_rtt_us: 0,
                min_rtt_us: 0,
                max_rtt_us: 0,
                rtt_trend_us: 0,
                jitter_us: 0,
            };
        }
        let mut sum: u128 = 0;
        let mut min_rtt_us: u64 = u64::MAX;
        let mut max_rtt_us: u64 = 0;
        let mut i: usize = 0;
        while i < samples
            invariant
                samples == s.len(),
                s == self@.rtts,
                i <= samples,
                sum == seq_sum(s.take(i as int)),
                sum <= i * u64::MAX,
                min_rtt_us == seq_min(s.take(i as int)),
                max_rtt_us == seq_max(s.take(i as int)),
            decreases samples - i,
        {
            let rtt = self.rtt_window[i];
            let ghost t = s.take(i + 1);
            assert(t.drop_last() =~= s.take(i as int));
            assert(sum + rtt <= (i + 1) * u64::MAX) by (nonlinear_arith)
                requires
                    sum <= i * u64::MAX,
                    rtt <= u64::MAX,
            ;
            assert((i + 1) * u64::MAX <= u128::MAX) by (nonlinear_arith)
                requires
                    i < samples,
                    samples <= usize::MAX,
            ;
            sum = sum + rtt as u128;
            if i == 0 {
                assert(s.take(0) =~= Seq::<u64>::empty());
            }
            if rtt < min_rtt_us {
                min_rtt_us = rtt;
            }
            if rtt > max_rtt_us {
                max_rtt_us = rtt;
            }
            i = i + 1;
        }
        assert(s.take(samples as int) =~= s);
        proof {
            lemma_sum_bounds(s);
            assert(sum / (samples as u128) <= u64::MAX) by (nonlinear_arith)
                requires
                    sum <= samples * u64::MAX,
                    samples > 0,
            ;
        }
        let avg_rtt_us = (sum / samples as u128) as u64;
        let latest_rtt_us = self.rtt_window[samples - 1];
        let first_rtt_us = self.rtt_window[0];
        let rtt_trend_us: i64 = if samples >= 2 {
            let steps = (samples - 1) as u64;
            let magnitude: u64 = if latest_rtt_us >= first_rtt_us {
                (latest_rtt_us - first_rtt_us) / steps
            } else {
                (first_rtt_us - latest_rtt_us) / steps
            };
            let signed: i128 = if latest_rtt_us >= first_rtt_us {
                magnitude as i128
            } else {
                -(magnitude as i128)
            };
            signed as i64
        } else {
            0
        };
        let jitter_us: u64 = if samples >= 2 {
            self.jitter(samples)
        } else {
            0
        };
        RttStats {
            samples,
            latest_rtt_us,
            avg_rtt_us,
            min_rtt_us,
            max_rtt_us,
            rtt_trend_us,
            jitter_us,
        }
    }

    fn jitter(&self, samples: usize) -> (j: u64)
        requires
            samples == self@.rtts.len(),
            samples >= 2,
        ensures
            j == neighbour_diff_sum(self@.rtts) / ((samples - 1) as nat),
    {
        let ghost s = self@.rtts;
        let mut diff_sum: u128 = 0;
        let mut previous = self.rtt_window[0];
        let mut i: usize = 1;
        proof {
            assert(neighbour_diff_sum(s.take(1)) == 0);
        }
        while i < samples
            invariant
                samples == s.len(),
                s == self@.rtts,
                1 <= i <= samples,
                previous == s[i - 1],
                diff_sum == neighbour_diff_sum(s.take(i as int)),
                diff_sum <= (i - 1) * u64::MAX,
            decreases samples - i,
        {
            let current = self.rtt_window[i];
            let diff = if current > previous {
                current - previous
            } else {
                previous - current
            };
            let ghost t = s.take(i + 1);
            assert(t.drop_last() =~= s.take(i as int));
            assert(t[t.len() - 2] == previous);
            assert(diff_sum + diff <= i * u64::MAX) by (nonlinear_arith)
                requires
                    diff_sum <= (i - 1) * u64::MAX,
                    diff <= u64::MAX,
            ;
            assert(i * u64::MAX <= u128::MAX) by (nonlinear_arith)
                requires
                    i < samples,
                    samples <= usize::MAX,
            ;
            diff_sum = diff_sum + diff as u128;
            previous = current;
            i = i + 1;
        }
        assert(s.take(samples as int) =~= s);
        let steps = (samples - 1) as u128;
        assert(diff_sum / steps <= u64::MAX) by (nonlinear_arith)
            requires
                diff_sum <= steps * u64::MAX,
                steps > 0,
        ;
        (diff_sum / steps) as u64
    }
}

} // verus!
