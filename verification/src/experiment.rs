//! Experiment results: their time stamps and the lines of the results file.
use vstd::prelude::*;
use vstd::string::StringExecFns;

use crate::packet::clock_micros;
use crate::text::{csv_row, csv_row_line, decimal, decimal_string, push_char, push_decimal, push_str, string_views};

verus! {

/// Microseconds since the Unix epoch, held at `u64::MAX`; 0 when the clock
/// stands before the epoch.
pub fn timestamp_us() -> u64 {
    timestamp_from_clock(clock_micros())
}

/// A clock reading in microseconds since the epoch, held at `u64::MAX`; 0 when
/// there is none.
pub open spec fn micros_saturated(micros: Option<u128>) -> u64 {
    match micros {
        Some(m) => if m > u64::MAX {
            u64::MAX
        } else {
            m as u64
        },
        None => 0,
    }
}

/// Turns a clock reading into the time stamp of an experiment result.
pub fn timestamp_from_clock(micros: Option<u128>) -> (r: u64)
    ensures
        r == micros_saturated(micros),
{
    match micros {
        Some(m) => if m > u64::MAX as u128 {
            u64::MAX
        } else {
            m as u64
        },
        None => 0,
    }
}

/// One run of an experiment as the results file records it.  The final risk
/// is carried as the text the caller rendered it to.
pub struct ExperimentRow {
    pub timestamp_us: u64,
    pub run_id: u32,
    pub controller: String,
    pub emulator: String,
    pub sent_total: u64,
    pub sent_best_effort: u64,
    pub sent_important: u64,
    pub sent_guaranteed: u64,
    pub acks: u64,
    pub losses: u64,
    pub retransmits: u64,
    pub rtt_samples: u64,
    pub rtt_avg_us: u128,
    pub rtt_min_us: u128,
    pub rtt_max_us: u128,
    pub final_cwnd_bytes: usize,
    pub final_risk: String,
    pub duration_ms: u128,
}

/// The fields of a results line before the final risk.
pub open spec fn experiment_fields(r: ExperimentRow) -> Seq<Seq<char>> {
    seq![
        decimal(r.timestamp_us as nat),
        decimal(r.run_id as nat),
        r.controller@,
        r.emulator@,
        decimal(r.sent_total as nat),
        decimal(r.sent_best_effort as nat),
        decimal(r.sent_important as nat),
        decimal(r.sent_guaranteed as nat),
        decimal(r.acks as nat),
        decimal(r.losses as nat),
        decimal(r.retransmits as nat),
        decimal(r.rtt_samples as nat),
        decimal(r.rtt_avg_us as nat),
        decimal(r.rtt_min_us as nat),
        decimal(r.rtt_max_us as nat),
        decimal(r.final_cwnd_bytes as nat),
    ]
}

/// The results line of a run: its fields as a CSV row, then the final risk as
/// it was rendered, then the duration.
pub open spec fn experiment_text(r: ExperimentRow) -> Seq<char> {
    csv_row(experiment_fields(r)) + seq![','] + r.final_risk@ + seq![','] + decimal(
        r.duration_ms as nat,
    )
}

impl ExperimentRow {
    /// Renders the run's line of the results file.
    pub fn csv_line(&self) -> (line: String)
        ensures
            line@ == experiment_text(*self),
    {
        let mut fields: Vec<String> = Vec::new();
        fields.push(decimal_string(self.timestamp_us as u128));
        fields.push(decimal_string(self.run_id as u128));
        fields.push(String::from_str(self.controller.as_str()));
        fields.push(String::from_str(self.emulator.as_str()));
        fields.push(decimal_string(self.sent_total as u128));
        fields.push(decimal_string(self.sent_best_effort as u128));
        fields.push(decimal_string(self.sent_important as u128));
        fields.push(decimal_string(self.sent_guaranteed as u128));
        fields.push(decimal_string(self.acks as u128));
        fields.push(decimal_string(self.losses as u128));
        fields.push(decimal_string(self.retransmits as u128));
        fields.push(decimal_string(self.rtt_samples as u128));
        fields.push(decimal_string(self.rtt_avg_us));
        fields.push(decimal_string(self.rtt_min_us));
        fields.push(decimal_string(self.rtt_max_us));
        fields.push(decimal_string(self.final_cwnd_bytes as u128));
        assert(string_views(fields@) =~= experiment_fields(*self));
        let mut line = csv_row_line(&fields);
        push_char(&mut line, ',');
        push_str(&mut line, self.final_risk.as_str());
        push_char(&mut line, ',');
        push_decimal(&mut line, self.duration_ms);
        assert(line@ =~= experiment_text(*self));
        line
    }
}

} // verus!
