//! The lease policy: how long a single extension lasts, and when extension
//! stops for a message.
use vstd::prelude::*;

verus! {

/// The broker ignores a single extension longer than this (600 s), in milliseconds.
pub const MAX_DURATION_PER_LEASE_EXTENSION: i64 = 600_000;

/// The shortest single extension by default (10 s), in milliseconds.
pub const MIN_DURATION_PER_LEASE_EXTENSION: i64 = 10_000;

/// The shortest single extension by default under exactly-once delivery (60 s),
/// in milliseconds.
pub const MIN_DURATION_PER_LEASE_EXTENSION_EXACTLY_ONCE: i64 = 60_000;

/// The default for `max_extension` (60 minutes), in milliseconds.
pub const DEFAULT_MAX_EXTENSION: i64 = 3_600_000;

/// Configures the automatic extension of the acknowledgement deadline.
/// All values are in milliseconds.
#[derive(Debug, Clone, Copy, PartialEq, Eq)]
pub struct LeaseExtensionSetting {
    /// How long after receipt a message's deadline is extended at all.
    /// A value of zero or less disables automatic extension.
    pub max_extension: i64,
    /// Upper bound on a single extension; when `None` the broker's own
    /// bound of 600 s applies.
    pub max_extension_period: Option<i64>,
    /// Lower bound on a single extension; when `None` the floor is 10 s,
    /// or 60 s under exactly-once delivery.
    pub min_extension_period: Option<i64>,
}

/// Why a setting was refused at construction.
#[derive(Debug, Clone, Copy, PartialEq, Eq)]
pub enum ConfigurationError {
    /// `max_extension_period` lies outside 10 s ..= 600 s.
    MaxExtensionPeriodOutOfRange,
    /// `min_extension_period` lies outside 10 s ..= 600 s.
    MinExtensionPeriodOutOfRange,
    /// Both periods are set and the minimum exceeds the maximum.
    MinAboveMax,
}

/// The lease granted to one message: when it was received, and the instant
/// after which it is no longer extended.
#[derive(Debug, Clone, Copy, PartialEq, Eq)]
pub struct Deadline {
    pub start: i64,
    pub ceiling: i64,
}

pub open spec fn in_broker_range(d: i64) -> bool {
    MIN_DURATION_PER_LEASE_EXTENSION <= d <= MAX_DURATION_PER_LEASE_EXTENSION
}

/// A period is set to a value outside the broker's range.
pub open spec fn period_out_of_range(p: Option<i64>) -> bool {
    match p {
        Some(m) => !in_broker_range(m),
        None => false,
    }
}

/// Both periods are set and the minimum exceeds the maximum.
pub open spec fn periods_inverted(max_period: Option<i64>, min_period: Option<i64>) -> bool {
    match (max_period, min_period) {
        (Some(hi), Some(lo)) => lo > hi,
        _ => false,
    }
}

pub open spec fn spec_min(a: int, b: int) -> int {
    if a <= b { a } else { b }
}

pub open spec fn spec_max(a: int, b: int) -> int {
    if a >= b { a } else { b }
}

impl LeaseExtensionSetting {
    /// The setting's bounds are consistent: each period that is set lies in
    /// 10 s ..= 600 s, and the minimum does not exceed the maximum.
    pub open spec fn valid(&self) -> bool {
        &&& !period_out_of_range(self.max_extension_period)
        &&& !period_out_of_range(self.min_extension_period)
        &&& !periods_inverted(self.max_extension_period, self.min_extension_period)
    }

    /// The upper bound on a single extension.
    pub open spec fn cap(&self) -> int {
        match self.max_extension_period {
            Some(m) => m as int,
            None => MAX_DURATION_PER_LEASE_EXTENSION as int,
        }
    }

    /// The lower bound on a single extension in the given delivery mode.
    pub open spec fn floor(&self, exactly_once: bool) -> int {
        match self.min_extension_period {
            Some(m) => m as int,
            None => if exactly_once {
                MIN_DURATION_PER_LEASE_EXTENSION_EXACTLY_ONCE as int
            } else {
                MIN_DURATION_PER_LEASE_EXTENSION as int
            },
        }
    }

    /// A candidate duration capped first, then floored.
    pub open spec fn bounded(&self, candidate: int, exactly_once: bool) -> int {
        spec_max(spec_min(candidate, self.cap()), self.floor(exactly_once))
    }

    /// Builds a setting, refusing bounds the broker would not accept.
    pub fn new(
        max_extension: i64,
        max_extension_period: Option<i64>,
        min_extension_period: Option<i64>,
    ) -> (r: Result<LeaseExtensionSetting, ConfigurationError>)
        ensures
            match r {
                Ok(s) => s.valid() && s.max_extension == max_extension
                    && s.max_extension_period == max_extension_period
                    && s.min_extension_period == min_extension_period,
                Err(ConfigurationError::MaxExtensionPeriodOutOfRange) =>
                    period_out_of_range(max_extension_period),
                Err(ConfigurationError::MinExtensionPeriodOutOfRange) =>
                    !period_out_of_range(max_extension_period)
                    && period_out_of_range(min_extension_period),
                Err(ConfigurationError::MinAboveMax) =>
                    !period_out_of_range(max_extension_period)
                    && !period_out_of_range(min_extension_period)
                    && periods_inverted(max_extension_period, min_extension_period),
            },
            r is Ok <==> (LeaseExtensionSetting {
                max_extension,
                max_extension_period,
                min_extension_period,
            }).valid(),
    {
        if let Some(m) = max_extension_period {
            if m < MIN_DURATION_PER_LEASE_EXTENSION || m > MAX_DURATION_PER_LEASE_EXTENSION {
                return Err(ConfigurationError::MaxExtensionPeriodOutOfRange);
            }
        }
        if let Some(m) = min_extension_period {
            if m < MIN_DURATION_PER_LEASE_EXTENSION || m > MAX_DURATION_PER_LEASE_EXTENSION {
                return Err(ConfigurationError::MinExtensionPeriodOutOfRange);
            }
        }
        if let (Some(hi), Some(lo)) = (max_extension_period, min_extension_period) {
            if lo > hi {
                return Err(ConfigurationError::MinAboveMax);
            }
        }
        Ok(LeaseExtensionSetting { max_extension, max_extension_period, min_extension_period })
    }

    /// The duration of one extension: `candidate` capped by
    /// `max_extension_period` (or 600 s), then floored by
    /// `min_extension_period` (or 60 s under exactly-once delivery, else 10 s).
    pub fn bounded_duration(&self, candidate: i64, exactly_once: bool) -> (r: i64)
        ensures
            r as int == self.bounded(candidate as int, exactly_once),
            self.valid() ==> MIN_DURATION_PER_LEASE_EXTENSION <= r <= MAX_DURATION_PER_LEASE_EXTENSION,
            self.valid() && self.floor(exactly_once) <= self.cap() ==> self.floor(exactly_once)
                <= r <= self.cap(),
    {
        let capped = match self.max_extension_period {
            Some(m) => if candidate < m { candidate } else { m },
            None => if candidate < MAX_DURATION_PER_LEASE_EXTENSION {
                candidate
            } else {
                MAX_DURATION_PER_LEASE_EXTENSION
            },
        };
        let floor = match self.min_extension_period {
            Some(m) => m,
            None => if exactly_once {
                MIN_DURATION_PER_LEASE_EXTENSION_EXACTLY_ONCE
            } else {
                MIN_DURATION_PER_LEASE_EXTENSION
            },
        };
        if capped > floor { capped } else { floor }
    }

    /// The lease of a message received at `start`: it is extended until
    /// `start + max_extension`.
    pub fn new_deadline(&self, start: i64) -> (r: Deadline)
        requires
            i64::MIN <= start + self.max_extension <= i64::MAX,
        ensures
            r.start == start,
            r.ceiling == start + self.max_extension,
    {
        Deadline { start, ceiling: start + self.max_extension }
    }
}

impl Default for LeaseExtensionSetting {
    /// Extension for up to 60 minutes, with neither period bound set.
    fn default() -> (r: Self)
        ensures
            r.max_extension == DEFAULT_MAX_EXTENSION,
            r.max_extension_period is None,
            r.min_extension_period is None,
    {
        LeaseExtensionSetting {
            max_extension: DEFAULT_MAX_EXTENSION,
            max_extension_period: None,
            min_extension_period: None,
        }
    }
}

/// Under a valid setting, every bounded duration lies between the floor of
/// the delivery mode and the cap, provided the floor does not exceed the cap.
pub proof fn lemma_bounded_within(s: LeaseExtensionSetting, candidate: int, exactly_once: bool)
    requires
        s.valid(),
        s.floor(exactly_once) <= s.cap(),
    ensures
        s.floor(exactly_once) <= s.bounded(candidate, exactly_once) <= s.cap(),
{
}

/// Bounding is idempotent for every setting, candidate and mode.
pub proof fn lemma_bounded_idempotent(s: LeaseExtensionSetting, candidate: int, exactly_once: bool)
    ensures
        s.bounded(s.bounded(candidate, exactly_once), exactly_once)
            == s.bounded(candidate, exactly_once),
{
}

/// Under a valid setting a bounded duration is never below 10 s, so never
/// negative, and never above 600 s.
pub proof fn lemma_bounded_in_broker_range(
    s: LeaseExtensionSetting,
    candidate: int,
    exactly_once: bool,
)
    requires
        s.valid(),
    ensures
        MIN_DURATION_PER_LEASE_EXTENSION <= s.bounded(candidate, exactly_once)
            <= MAX_DURATION_PER_LEASE_EXTENSION,
{
}

} // verus!
