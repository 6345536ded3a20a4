//! Global counters of sends, ACKs, losses, retransmissions and round trips.
use vstd::prelude::*;

use crate::connection::{sat_add_u128, sat_add_u64};
use crate::packet::Reliability;
use crate::text::{decimal, push_char, push_decimal, push_str};

verus! {

pub struct Metrics {
    pub sent_total: u64,
    pub sent_best_effort: u64,
    pub sent_important: u64,
    pub sent_guaranteed: u64,
    pub acks: u64,
    pub losses: u64,
    pub retransmits: u64,
    pub rtt_samples: u64,
    pub rtt_sum_us: u128,
    pub rtt_min_us: Option<u128>,
    pub rtt_max_us: Option<u128>,
    pub priority_counts: [u64; 256],
}

/// `m` with every counter at zero and no round trip seen.
pub open spec fn is_fresh(m: Metrics) -> bool {
    &&& m.sent_total == 0
    &&& m.sent_best_effort == 0
    &&& m.sent_important == 0
    &&& m.sent_guaranteed == 0
    &&& m.acks == 0
    &&& m.losses == 0
    &&& m.retransmits == 0
    &&& m.rtt_samples == 0
    &&& m.rtt_sum_us == 0
    &&& m.rtt_min_us is None
    &&& m.rtt_max_us is None
    &&& forall|p: int| 0 <= p < 256 ==> #[trigger] m.priority_counts@[p] == 0
}

/// The smallest round trip seen once `rtt` is added.
pub open spec fn min_with(current: Option<u128>, rtt: u128) -> u128 {
    match current {
        Some(m) => if rtt < m {
            rtt
        } else {
            m
        },
        None => rtt,
    }
}

/// The largest round trip seen once `rtt` is added.
pub open spec fn max_with(current: Option<u128>, rtt: u128) -> u128 {
    match current {
        Some(m) => if rtt > m {
            rtt
        } else {
            m
        },
        None => rtt,
    }
}

/// `p<priority>=<count> ` for each priority below `upto` that was used.
pub open spec fn priority_entries(counts: Seq<u64>, upto: int) -> Seq<char>
    decreases upto,
{
    if upto <= 0 {
        seq![]
    } else {
        priority_entries(counts, upto - 1) + (if counts[upto - 1] > 0 {
            "p"@ + decimal((upto - 1) as nat) + "="@ + decimal(counts[upto - 1] as nat) + " "@
        } else {
            seq![]
        })
    }
}

/// The priority part of the summary: the used priorities, or `none`.
pub open spec fn priorities_text(counts: Seq<u64>) -> Seq<char> {
    let entries = priority_entries(counts, 256);
    if entries.len() == 0 {
        "none"@
    } else {
        entries.drop_last()
    }
}

/// The first half of the summary line: the send, ACK and loss counters.
pub open spec fn summary_counts(m: Metrics) -> Seq<char> {
    "sent_total="@ + decimal(m.sent_total as nat) + " be="@ + decimal(m.sent_best_effort as nat)
        + " important="@ + decimal(m.sent_important as nat) + " guaranteed="@ + decimal(
        m.sent_guaranteed as nat,
    ) + " acks="@ + decimal(m.acks as nat) + " losses="@ + decimal(m.losses as nat)
        + " retransmits="@ + decimal(m.retransmits as nat)
}

/// The second half of the summary line: round trips and priorities.
pub open spec fn summary_rtts(m: Metrics) -> Seq<char> {
    summary_rtt_values(m) + " priorities="@ + priorities_text(m.priority_counts@)
}

/// The average round trip in microseconds; 0 before any sample.
pub open spec fn average_rtt(m: Metrics) -> u128 {
    if m.rtt_samples == 0 {
        0
    } else {
        m.rtt_sum_us / (m.rtt_samples as u128)
    }
}

/// The round trip part of the summary line.
pub open spec fn summary_rtt_values(m: Metrics) -> Seq<char> {
    let avg: u128 = average_rtt(m);
    let min: u128 = match m.rtt_min_us {
        Some(v) => v,
        None => 0,
    };
    let max: u128 = match m.rtt_max_us {
        Some(v) => v,
        None => 0,
    };
    " rtt_samples="@ + decimal(m.rtt_samples as nat) + " rtt_avg_us="@ + decimal(avg as nat)
        + " rtt_min_us="@ + decimal(min as nat) + " rtt_max_us="@ + decimal(max as nat)
}

/// `after` is `before` with one more send of the given class and priority.
pub open spec fn send_recorded(before: Metrics, after: Metrics, reliability: Reliability, priority: u8) -> bool {
    &&& after.sent_total == sat_add_u64(before.sent_total, 1)
    &&& after.sent_best_effort == (if reliability == Reliability::BestEffort {
        sat_add_u64(before.sent_best_effort, 1)
    } else {
        before.sent_best_effort
    })
    &&& after.sent_important == (if reliability == Reliability::Important {
        sat_add_u64(before.sent_important, 1)
    } else {
        before.sent_important
    })
    &&& after.sent_guaranteed == (if reliability == Reliability::Guaranteed {
        sat_add_u64(before.sent_guaranteed, 1)
    } else {
        before.sent_guaranteed
    })
    &&& after.priority_counts@ == before.priority_counts@.update(
        priority as int,
        sat_add_u64(before.priority_counts@[priority as int], 1),
    )
    &&& after.acks == before.acks
    &&& after.losses == before.losses
    &&& after.retransmits == before.retransmits
    &&& after.rtt_samples == before.rtt_samples
    &&& after.rtt_sum_us == before.rtt_sum_us
    &&& after.rtt_min_us == before.rtt_min_us
    &&& after.rtt_max_us == before.rtt_max_us
}

/// `after` is `before` with one more ACK that took `rtt_us` microseconds.
pub open spec fn ack_recorded(before: Metrics, after: Metrics, rtt_us: u128) -> bool {
    &&& after.acks == sat_add_u64(before.acks, 1)
    &&& after.rtt_samples == sat_add_u64(before.rtt_samples, 1)
    &&& after.rtt_sum_us == sat_add_u128(before.rtt_sum_us, rtt_us)
    &&& after.rtt_min_us == Some(min_with(before.rtt_min_us, rtt_us))
    &&& after.rtt_max_us == Some(max_with(before.rtt_max_us, rtt_us))
    &&& after.sent_total == before.sent_total
    &&& after.sent_best_effort == before.sent_best_effort
    &&& after.sent_important == before.sent_important
    &&& after.sent_guaranteed == before.sent_guaranteed
    &&& after.losses == before.losses
    &&& after.retransmits == before.retransmits
    &&& after.priority_counts@ == before.priority_counts@
}

impl Metrics {
    pub fn new() -> (m: Self)
        ensures
            is_fresh(m),
    {
        Self {
            sent_total: 0,
            sent_best_effort: 0,
            sent_important: 0,
            sent_guaranteed: 0,
            acks: 0,
            losses: 0,
            retransmits: 0,
            rtt_samples: 0,
            rtt_sum_us: 0,
            rtt_min_us: None,
            rtt_max_us: None,
            priority_counts: [0; 256],
        }
    }

    /// Counts a send in the total, in its class and under its priority.
    pub fn record_send(&mut self, reliability: Reliability, priority: u8)
        ensures
            send_recorded(*old(self), *final(self), reliability, priority),
    {
        self.sent_total = self.sent_total.saturating_add(1);
        match reliability {
            Reliability::BestEffort => {
                self.sent_best_effort = self.sent_best_effort.saturating_add(1);
            },
            Reliability::Important => {
                self.sent_important = self.sent_important.saturating_add(1);
            },
            Reliability::Guaranteed => {
                self.sent_guaranteed = self.sent_guaranteed.saturating_add(1);
            },
        }
        let p = priority as usize;
        let count = self.priority_counts[p].saturating_add(1);
        self.priority_counts[p] = count;
        assert(self.priority_counts@ =~= old(self).priority_counts@.update(priority as int, count));
    }

    /// Counts an ACK and its round trip.
    pub fn record_ack(&mut self, rtt_us: u128)
        ensures
            ack_recorded(*old(self), *final(self), rtt_us),
    {
        self.acks = self.acks.saturating_add(1);
        self.rtt_samples = self.rtt_samples.saturating_add(1);
        self.rtt_sum_us = self.rtt_sum_us.saturating_add(rtt_us);
        self.rtt_min_us = Some(
            match self.rtt_min_us {
                Some(current) => if rtt_us < current {
                    rtt_us
                } else {
                    current
                },
                None => rtt_us,
            },
        );
        self.rtt_max_us = Some(
            match self.rtt_max_us {
                Some(current) => if rtt_us > current {
                    rtt_us
                } else {
                    current
                },
                None => rtt_us,
            },
        );
    }

    pub fn record_loss(&mut self)
        ensures
            *final(self) == (Metrics { losses: sat_add_u64(old(self).losses, 1), ..*old(self) }),
    {
        self.losses = self.losses.saturating_add(1);
    }

    pub fn record_retransmit(&mut self)
        ensures
            *final(self) == (Metrics {
                retransmits: sat_add_u64(old(self).retransmits, 1),
                ..*old(self)
            }),
    {
        self.retransmits = self.retransmits.saturating_add(1);
    }

    /// The one-line summary of all counters.
    pub fn summary(&self) -> (s: String)
        ensures
            s@ == summary_counts(*self) + summary_rtts(*self),
    {
        let mut s = String::new();
        push_str(&mut s, "sent_total=");
        push_decimal(&mut s, self.sent_total as u128);
        push_str(&mut s, " be=");
        push_decimal(&mut s, self.sent_best_effort as u128);
        push_str(&mut s, " important=");
        push_decimal(&mut s, self.sent_important as u128);
        push_str(&mut s, " guaranteed=");
        push_decimal(&mut s, self.sent_guaranteed as u128);
        push_str(&mut s, " acks=");
        push_decimal(&mut s, self.acks as u128);
        push_str(&mut s, " losses=");
        push_decimal(&mut s, self.losses as u128);
        push_str(&mut s, " retransmits=");
        push_decimal(&mut s, self.retransmits as u128);
        assert(s@ =~= summary_counts(*self));
        self.push_summary_rtts(&mut s);
        push_str(&mut s, " priorities=");
        self.push_priorities(&mut s);
        assert(s@ =~= summary_counts(*self) + summary_rtts(*self));
        s
    }

    /// The average round trip in microseconds; 0 before any sample.
    pub fn average_rtt_us(&self) -> (r: u128)
        ensures
            r == average_rtt(*self),
    {
        if self.rtt_samples == 0 {
            0
        } else {
            self.rtt_sum_us / self.rtt_samples as u128
        }
    }

    fn push_summary_rtts(&self, s: &mut String)
        ensures
            final(s)@ == old(s)@ + summary_rtt_values(*self),
    {
        let avg: u128 = self.average_rtt_us();
        let min: u128 = match self.rtt_min_us {
            Some(v) => v,
            None => 0,
        };
        let max: u128 = match self.rtt_max_us {
            Some(v) => v,
            None => 0,
        };
        push_str(s, " rtt_samples=");
        push_decimal(s, self.rtt_samples as u128);
        push_str(s, " rtt_avg_us=");
        push_decimal(s, avg);
        push_str(s, " rtt_min_us=");
        push_decimal(s, min);
        push_str(s, " rtt_max_us=");
        push_decimal(s, max);
        assert(s@ =~= old(s)@ + summary_rtt_values(*self));
    }

    fn push_priorities(&self, s: &mut String)
        ensures
            final(s)@ == old(s)@ + priorities_text(self.priority_counts@),
    {
        let mut entries = String::new();
        let mut p: usize = 0;
        while p < 256
            invariant
                p <= 256,
                entries@ == priority_entries(self.priority_counts@, p as int),
            decreases 256 - p,
        {
            let count = self.priority_counts[p];
            if count > 0 {
                push_char(&mut entries, 'p');
                push_decimal(&mut entries, p as u128);
                push_char(&mut entries, '=');
                push_decimal(&mut entries, count as u128);
                push_char(&mut entries, ' ');
            }
            proof {
                reveal_strlit("p");
                reveal_strlit("=");
                reveal_strlit(" ");
            }
            assert(entries@ =~= priority_entries(self.priority_counts@, p + 1));
            p = p + 1;
        }
        let n = entries.as_str().unicode_len();
        if n == 0 {
            push_str(s, "none");
        } else {
            push_str(s, entries.as_str().substring_char(0, n - 1));
            assert(entries@.subrange(0, n - 1) =~= entries@.drop_last());
        }
    }
}


/// The smallest round trip recorded never exceeds the largest, once any
/// has been recorded.
pub proof fn lemma_min_rtt_at_most_max(min: Option<u128>, max: Option<u128>, rtt_us: u128)
    requires
        min is Some <==> max is Some,
        min matches Some(lo) ==> max matches Some(hi) && lo <= hi,
    ensures
        min_with(min, rtt_us) <= max_with(max, rtt_us),
{
}


/// The sum of a run of counters.
pub open spec fn counts_sum(s: Seq<u64>) -> nat
    decreases s.len(),
{
    if s.len() == 0 {
        0
    } else {
        counts_sum(s.drop_last()) + s.last() as nat
    }
}

/// The send counters agree: the total is the sum of the three class
/// counters and the sum of the per-priority counters.
pub open spec fn sends_consistent(m: Metrics) -> bool {
    &&& m.sent_total == m.sent_best_effort + m.sent_important + m.sent_guaranteed
    &&& m.sent_total == counts_sum(m.priority_counts@)
}

proof fn lemma_counts_sum_zero(s: Seq<u64>)
    requires
        forall|i: int| 0 <= i < s.len() ==> #[trigger] s[i] == 0,
    ensures
        counts_sum(s) == 0,
    decreases s.len(),
{
    if s.len() > 0 {
        lemma_counts_sum_zero(s.drop_last());
    }
}

proof fn lemma_counts_sum_bump(s: Seq<u64>, i: int)
    requires
        0 <= i < s.len(),
        s[i] < u64::MAX,
    ensures
        s[i] <= counts_sum(s),
        counts_sum(s.update(i, (s[i] + 1) as u64)) == counts_sum(s) + 1,
    decreases s.len(),
{
    let t = s.update(i, (s[i] + 1) as u64);
    if i == s.len() - 1 {
        assert(t.drop_last() =~= s.drop_last());
    } else {
        lemma_counts_sum_bump(s.drop_last(), i);
        assert(t.drop_last() =~= s.drop_last().update(i, (s[i] + 1) as u64));
    }
}

/// Fresh counters agree, and every recorded send, ACK, loss or
/// retransmission keeps them agreeing as long as the total has not reached
/// `u64::MAX`: the total always equals the sum of the class counters and of
/// the per-priority counters.
pub proof fn lemma_sends_stay_consistent(
    before: Metrics,
    after: Metrics,
    reliability: Reliability,
    priority: u8,
    rtt_us: u128,
)
    ensures
        is_fresh(before) ==> sends_consistent(before),
        sends_consistent(before) && before.sent_total < u64::MAX && send_recorded(
            before,
            after,
            reliability,
            priority,
        ) ==> sends_consistent(after),
        sends_consistent(before) && ack_recorded(before, after, rtt_us) ==> sends_consistent(after),
        sends_consistent(before) && (after == Metrics {
            losses: sat_add_u64(before.losses, 1),
            ..before
        } || after == Metrics { retransmits: sat_add_u64(before.retransmits, 1), ..before })
            ==> sends_consistent(after),
{
    if is_fresh(before) {
        lemma_counts_sum_zero(before.priority_counts@);
    }
    if sends_consistent(before) && before.sent_total < u64::MAX && send_recorded(
        before,
        after,
        reliability,
        priority,
    ) {
        let s = before.priority_counts@;
        let p = priority as int;
        assert(s.len() == 256);
        if s[p] == u64::MAX {
            assert(s[p] <= counts_sum(s)) by {
                lemma_counts_sum_le(s, p);
            }
        }
        lemma_counts_sum_bump(s, p);
    }
}

proof fn lemma_counts_sum_le(s: Seq<u64>, i: int)
    requires
        0 <= i < s.len(),
    ensures
        s[i] <= counts_sum(s),
    decreases s.len(),
{
    if i < s.len() - 1 {
        lemma_counts_sum_le(s.drop_last(), i);
    }
}
} // verus!
