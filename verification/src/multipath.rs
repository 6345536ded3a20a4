//! Per-path counters of the multipath manager and the choice of path by
//! delivery class.
use vstd::prelude::*;

use crate::connection::{sat_add_u128, sat_add_u64};
use crate::packet::Reliability;

verus! {

/// Counters of one path.
#[derive(Debug, Clone, Copy, PartialEq, Eq, Structural)]
pub struct MultipathStats {
    pub acks: u64,
    pub losses: u64,
    pub retransmits: u64,
    pub rtt_samples: u64,
    pub rtt_sum_us: u128,
}

impl Default for MultipathStats {
    fn default() -> (s: Self)
        ensures
            s == (MultipathStats { acks: 0, losses: 0, retransmits: 0, rtt_samples: 0, rtt_sum_us: 0 }),
    {
        MultipathStats { acks: 0, losses: 0, retransmits: 0, rtt_samples: 0, rtt_sum_us: 0 }
    }
}

/// The average round trip of a path in microseconds; 0 without samples.
pub open spec fn average_rtt(s: MultipathStats) -> u128 {
    if s.rtt_samples > 0 {
        s.rtt_sum_us / (s.rtt_samples as u128)
    } else {
        0
    }
}

impl MultipathStats {
    /// Counts an ACK on the path and its round trip.
    pub fn record_ack(&mut self, rtt_us: u128)
        ensures
            *final(self) == (MultipathStats {
                acks: sat_add_u64(old(self).acks, 1),
                rtt_samples: sat_add_u64(old(self).rtt_samples, 1),
                rtt_sum_us: sat_add_u128(old(self).rtt_sum_us, rtt_us),
                ..*old(self)
            }),
    {
        self.acks = self.acks.saturating_add(1);
        self.rtt_samples = self.rtt_samples.saturating_add(1);
        self.rtt_sum_us = self.rtt_sum_us.saturating_add(rtt_us);
    }

    /// Counts a loss on the path.
    pub fn record_loss(&mut self)
        ensures
            *final(self) == (MultipathStats { losses: sat_add_u64(old(self).losses, 1), ..*old(self) }),
    {
        self.losses = self.losses.saturating_add(1);
    }

    /// Counts a retransmission on the path.
    pub fn record_retransmit(&mut self)
        ensures
            *final(self) == (MultipathStats {
                retransmits: sat_add_u64(old(self).retransmits, 1),
                ..*old(self)
            }),
    {
        self.retransmits = self.retransmits.saturating_add(1);
    }

    /// The path's average round trip, 0 before any sample.
    pub fn average_rtt_us(&self) -> (r: u128)
        ensures
            r == average_rtt(*self),
    {
        if self.rtt_samples > 0 {
            self.rtt_sum_us / self.rtt_samples as u128
        } else {
            0
        }
    }
}

/// Which path a packet is sent on: the best path (highest quality) or the
/// second best.
#[derive(Debug, Clone, Copy, PartialEq, Eq, Structural)]
pub enum PathRole {
    Best,
    Secondary,
}

/// Best-effort traffic takes the second best path, guaranteed traffic the
/// best, and important traffic the best only from priority 5 up.
pub open spec fn path_role_spec(reliability: Reliability, priority: u8) -> PathRole {
    match reliability {
        Reliability::BestEffort => PathRole::Secondary,
        Reliability::Important => if priority >= 5 {
            PathRole::Best
        } else {
            PathRole::Secondary
        },
        Reliability::Guaranteed => PathRole::Best,
    }
}

/// The path a packet of this class and priority is sent on.
pub fn path_role(reliability: Reliability, priority: u8) -> (role: PathRole)
    ensures
        role == path_role_spec(reliability, priority),
{
    match reliability {
        Reliability::BestEffort => PathRole::Secondary,
        Reliability::Important => if priority >= 5 {
            PathRole::Best
        } else {
            PathRole::Secondary
        },
        Reliability::Guaranteed => PathRole::Best,
    }
}


/// Best-effort traffic always takes the secondary path and guaranteed traffic
/// always the best one, whatever their priority; important traffic takes the
/// best path exactly from priority 5 up.  Raising the priority, or the class,
/// never moves a packet from the best path to the secondary one.
pub proof fn lemma_path_roles(reliability: Reliability, priority: u8, higher: u8)
    ensures
        path_role_spec(Reliability::BestEffort, priority) == PathRole::Secondary,
        path_role_spec(Reliability::Guaranteed, priority) == PathRole::Best,
        (path_role_spec(Reliability::Important, priority) == PathRole::Best) <==> priority >= 5,
        priority <= higher && path_role_spec(reliability, priority) == PathRole::Best
            ==> path_role_spec(reliability, higher) == PathRole::Best,
        path_role_spec(reliability, priority) == PathRole::Best ==> path_role_spec(
            Reliability::Guaranteed,
            priority,
        ) == PathRole::Best,
{
}

} // verus!
