//! Completed-entry count, smoothed per-entry duration and the ETA derived
//! from them. Time is given in microseconds by the caller, read from a
//! monotonic clock.

use vstd::prelude::*;
use vstd::string::*;

verus! {

/// Elapsed times below this are completion bursts, not per-entry cost.
pub const MIN_SAMPLE_MICROS: u64 = 10_000;

/// Elapsed times above this are stalls, not per-entry cost.
pub const MAX_SAMPLE_MICROS: u64 = 30_000_000;

/// The per-entry estimate is clamped to this range before extrapolating.
pub const MIN_ESTIMATE_MICROS: u64 = 5_000;

pub const MAX_ESTIMATE_MICROS: u64 = 60_000_000;

/// Entries that must complete before an ETA is shown (fewer when the whole
/// run is smaller).
pub const WARMUP_ENTRIES: u64 = 10;

pub const MICROS_PER_SECOND: u64 = 1_000_000;

/// Shared progress of one archive run.
#[derive(Clone, Copy, Debug)]
pub struct CompressionProgress {
    /// Entries processed so far, skipped ones included.
    pub completed: u64,
    /// Entries the run will process, fixed when the run starts.
    pub total_files: u64,
    /// Clock reading at the previous increment (or at the start).
    pub last_update_micros: u64,
    /// Exponential moving average of the time one entry takes.
    pub smoothed_micros: Option<u64>,
}

/// Whether an elapsed time is taken as a sample of the per-entry cost.
pub open spec fn plausible_sample(elapsed: u64) -> bool {
    MIN_SAMPLE_MICROS <= elapsed <= MAX_SAMPLE_MICROS
}

/// The moving average after one more sample: a fifth of the sample and four
/// fifths of the previous average, or the sample alone at first.
pub open spec fn smoothed_after(prev: Option<u64>, sample: u64) -> u64 {
    match prev {
        Some(p) => ((2 * sample + 8 * p) / 10) as u64,
        None => sample,
    }
}

impl CompressionProgress {
    /// The state after one entry is recorded at clock reading `now`: the
    /// count advances by one, and a plausible elapsed time feeds the average.
    pub open spec fn after_increment(self, now: u64) -> CompressionProgress {
        let elapsed = if now >= self.last_update_micros {
            (now - self.last_update_micros) as u64
        } else {
            0u64
        };
        CompressionProgress {
            completed: (self.completed + 1) as u64,
            total_files: self.total_files,
            last_update_micros: now,
            smoothed_micros: if plausible_sample(elapsed) {
                Some(smoothed_after(self.smoothed_micros, elapsed))
            } else {
                self.smoothed_micros
            },
        }
    }

    pub open spec fn wf(self) -> bool {
        &&& self.completed <= self.total_files
        &&& match self.smoothed_micros {
            Some(s) => s <= MAX_SAMPLE_MICROS,
            None => true,
        }
    }

    pub fn new(total_files: u64, now_micros: u64) -> (r: Self)
        ensures
            r.wf(),
            r.completed == 0,
            r.total_files == total_files,
            r.last_update_micros == now_micros,
            r.smoothed_micros.is_none(),
    {
        CompressionProgress {
            completed: 0,
            total_files,
            last_update_micros: now_micros,
            smoothed_micros: None,
        }
    }

    /// Records one processed entry at clock reading `now_micros`.
    pub fn increment_total_progress(&mut self, now_micros: u64)
        requires
            old(self).wf(),
            old(self).completed < old(self).total_files,
        ensures
            final(self).wf(),
            *final(self) == old(self).after_increment(now_micros),
    {
        self.completed = self.completed + 1;
        let elapsed: u64 = now_micros.saturating_sub(self.last_update_micros);
        self.last_update_micros = now_micros;
        if elapsed < MIN_SAMPLE_MICROS || elapsed > MAX_SAMPLE_MICROS {
            return;
        }
        let next: u64 = match self.smoothed_micros {
            Some(prev) => (2 * elapsed + 8 * prev) / 10,
            None => elapsed,
        };
        self.smoothed_micros = Some(next);
    }
}

/// The per-entry estimate, held to the clamp range.
pub open spec fn clamped(s: u64) -> nat {
    if s < MIN_ESTIMATE_MICROS {
        MIN_ESTIMATE_MICROS as nat
    } else if s > MAX_ESTIMATE_MICROS {
        MAX_ESTIMATE_MICROS as nat
    } else {
        s as nat
    }
}

/// Entries that must be done before an estimate is shown.
pub open spec fn warmup(total: u64) -> nat {
    if total < WARMUP_ENTRIES { total as nat } else { WARMUP_ENTRIES as nat }
}

/// Seconds left, in whole seconds, or `None` while the estimate is still
/// being calculated.
pub open spec fn eta_of(p: CompressionProgress) -> Option<nat> {
    if p.completed < warmup(p.total_files) || p.smoothed_micros.is_none() {
        None
    } else {
        Some(clamped(p.smoothed_micros.unwrap()) * (p.total_files - p.completed) as nat
            / MICROS_PER_SECOND as nat)
    }
}

/// The character of one decimal digit.
pub open spec fn digit_char(d: nat) -> char {
    if d == 0 { '0' }
    else if d == 1 { '1' }
    else if d == 2 { '2' }
    else if d == 3 { '3' }
    else if d == 4 { '4' }
    else if d == 5 { '5' }
    else if d == 6 { '6' }
    else if d == 7 { '7' }
    else if d == 8 { '8' }
    else { '9' }
}

/// The decimal notation of `n`, without leading zeros.
pub open spec fn decimal(n: nat) -> Seq<char>
    decreases n,
{
    if n < 10 {
        seq![digit_char(n)]
    } else {
        decimal(n / 10).push(digit_char(n % 10))
    }
}

/// The decimal notation of `n`, padded with a zero to two digits.
pub open spec fn two_digits(n: nat) -> Seq<char> {
    if n < 10 { seq!['0'] + decimal(n) } else { decimal(n) }
}

/// The ETA message for `secs` seconds: hours, minutes and seconds when there
/// are hours, minutes and seconds when there are minutes, seconds alone
/// otherwise.
pub open spec fn eta_text(secs: nat) -> Seq<char> {
    let hours = secs / 3600;
    let minutes = (secs % 3600) / 60;
    let seconds = secs % 60;
    if hours > 0 {
        "ETA: "@ + two_digits(hours) + ":"@ + two_digits(minutes) + ":"@ + two_digits(seconds)
            + " hours"@
    } else if minutes > 0 {
        "ETA: "@ + two_digits(minutes) + ":"@ + two_digits(seconds) + " minutes"@
    } else {
        "ETA: "@ + two_digits(seconds) + " seconds"@
    }
}

/// The message shown while too few entries are done for an estimate.
pub open spec fn calculating_text() -> Seq<char> {
    "ETA: Calculating..."@
}

fn digit_str(d: u64) -> (r: &'static str)
    requires
        d < 10,
    ensures
        r@ == seq![digit_char(d as nat)],
{
    proof {
        reveal_strlit("0");
        reveal_strlit("1");
        reveal_strlit("2");
        reveal_strlit("3");
        reveal_strlit("4");
        reveal_strlit("5");
        reveal_strlit("6");
        reveal_strlit("7");
        reveal_strlit("8");
        reveal_strlit("9");
    }
    let r = if d == 0 { "0" }
    else if d == 1 { "1" }
    else if d == 2 { "2" }
    else if d == 3 { "3" }
    else if d == 4 { "4" }
    else if d == 5 { "5" }
    else if d == 6 { "6" }
    else if d == 7 { "7" }
    else if d == 8 { "8" }
    else { "9" };
    assert(r@ =~= seq![digit_char(d as nat)]);
    r
}

fn append_decimal(s: &mut String, n: u64)
    ensures
        final(s)@ == old(s)@ + decimal(n as nat),
    decreases n,
{
    if n >= 10 {
        append_decimal(s, n / 10);
    }
    s.append(digit_str(n % 10));
    assert(final(s)@ =~= old(s)@ + decimal(n as nat));
}

fn append_two_digits(s: &mut String, n: u64)
    ensures
        final(s)@ == old(s)@ + two_digits(n as nat),
{
    if n < 10 {
        s.append("0");
        proof { reveal_strlit("0"); }
    }
    append_decimal(s, n);
    assert(final(s)@ =~= old(s)@ + two_digits(n as nat));
}

/// Formats a remaining time of `secs` seconds.
pub fn format_eta(secs: u64) -> (r: String)
    ensures
        r@ == eta_text(secs as nat),
{
    let hours = secs / 3600;
    let minutes = (secs % 3600) / 60;
    let seconds = secs % 60;
    let mut s = String::from_str("ETA: ");
    if hours > 0 {
        append_two_digits(&mut s, hours);
        s.append(":");
        append_two_digits(&mut s, minutes);
        s.append(":");
        append_two_digits(&mut s, seconds);
        s.append(" hours");
    } else if minutes > 0 {
        append_two_digits(&mut s, minutes);
        s.append(":");
        append_two_digits(&mut s, seconds);
        s.append(" minutes");
    } else {
        append_two_digits(&mut s, seconds);
        s.append(" seconds");
    }
    assert(s@ =~= eta_text(secs as nat));
    s
}

impl CompressionProgress {
    /// Seconds left, saturated at the largest `u64`, or `None` while the
    /// estimate is still being calculated.
    pub fn eta_seconds(&self) -> (r: Option<u64>)
        requires
            self.completed <= self.total_files,
        ensures
            match eta_of(*self) {
                None => r.is_none(),
                Some(v) => r == Some(if v > u64::MAX { u64::MAX } else { v as u64 }),
            },
    {
        let min_required: u64 = if self.total_files < WARMUP_ENTRIES {
            self.total_files
        } else {
            WARMUP_ENTRIES
        };
        if self.completed < min_required {
            return None;
        }
        match self.smoothed_micros {
            None => None,
            Some(s) => {
                let avg: u64 = if s < MIN_ESTIMATE_MICROS {
                    MIN_ESTIMATE_MICROS
                } else if s > MAX_ESTIMATE_MICROS {
                    MAX_ESTIMATE_MICROS
                } else {
                    s
                };
                let remaining: u64 = self.total_files - self.completed;
                assert((avg as nat) * (remaining as nat) <= 60_000_000 * 0xFFFF_FFFF_FFFF_FFFFnat)
                    by (nonlinear_arith)
                    requires
                        avg <= 60_000_000,
                        remaining <= 0xFFFF_FFFF_FFFF_FFFFu64,
                ;
                let micros: u128 = (avg as u128) * (remaining as u128);
                let secs: u128 = micros / (MICROS_PER_SECOND as u128);
                if secs > u64::MAX as u128 {
                    Some(u64::MAX)
                } else {
                    Some(secs as u64)
                }
            },
        }
    }

    /// The message the ETA display shows now.
    pub fn update_eta(&self) -> (r: String)
        requires
            self.completed <= self.total_files,
        ensures
            r@ == match eta_of(*self) {
                None => calculating_text(),
                Some(v) => eta_text(if v > u64::MAX { u64::MAX as nat } else { v }),
            },
    {
        match self.eta_seconds() {
            None => String::from_str("ETA: Calculating..."),
            Some(secs) => format_eta(secs),
        }
    }
}

} // verus!
