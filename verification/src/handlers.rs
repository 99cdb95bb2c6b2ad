//! What a request asks for: the size of the body and the delay before it,
//! each drawn from a range that the request or the settings name.

use vstd::prelude::*;
use crate::config::{GarbleConfig, PerformanceConfig};
use crate::random::{gen_within, thread_rng};

verus! {

/// The ranges that a request names, as far as it names them.
#[derive(Debug, Clone, Copy)]
pub struct GarbleParams {
    pub max_body_size: Option<usize>,
    pub min_body_size: Option<usize>,
    pub max_wait_duration: Option<u64>,
    pub min_wait_duration: Option<u64>,
}

/// The ranges in force for a request, each with its ends in order.
#[derive(Debug, Clone, Copy, PartialEq, Eq, Structural)]
pub struct RequestRanges {
    pub min_body_size: usize,
    pub max_body_size: usize,
    pub min_wait_ms: u64,
    pub max_wait_ms: u64,
}

/// What was drawn for a request.
#[derive(Debug, Clone, Copy, PartialEq, Eq, Structural)]
pub struct RequestPlan {
    pub target_size: usize,
    pub wait_duration_ms: u64,
}

/// The smaller of two numbers.
pub open spec fn lesser(a: int, b: int) -> int {
    if a <= b {
        a
    } else {
        b
    }
}

/// The larger of two numbers.
pub open spec fn greater(a: int, b: int) -> int {
    if a >= b {
        a
    } else {
        b
    }
}

/// `value` where there is one, and `fallback` where there is none.
pub open spec fn or_else<T>(value: Option<T>, fallback: T) -> T {
    match value {
        Some(v) => v,
        None => fallback,
    }
}

impl GarbleParams {
    /// Whether the ends of the body range are out of order once the
    /// settings have filled in what the request leaves open.
    pub fn body_range_reversed(&self, config: &GarbleConfig) -> (reversed: bool)
        ensures
            reversed == (or_else(self.min_body_size, config.min_body_size) > or_else(
                self.max_body_size,
                config.max_body_size,
            )),
    {
        let low = match self.min_body_size {
            Some(v) => v,
            None => config.min_body_size,
        };
        let high = match self.max_body_size {
            Some(v) => v,
            None => config.max_body_size,
        };
        low > high
    }

    /// Whether the ends of the delay range are out of order once the
    /// settings have filled in what the request leaves open.
    pub fn wait_range_reversed(&self, config: &GarbleConfig) -> (reversed: bool)
        ensures
            reversed == (or_else(self.min_wait_duration, config.min_wait_duration_ms) > or_else(
                self.max_wait_duration,
                config.max_wait_duration_ms,
            )),
    {
        let low = match self.min_wait_duration {
            Some(v) => v,
            None => config.min_wait_duration_ms,
        };
        let high = match self.max_wait_duration {
            Some(v) => v,
            None => config.max_wait_duration_ms,
        };
        low > high
    }

    /// The ranges in force: what the request names, the settings where it
    /// names nothing, and the two ends swapped where they are out of
    /// order.
    pub fn effective_ranges(&self, config: &GarbleConfig) -> (ranges: RequestRanges)
        ensures
            ranges.min_body_size == lesser(
                or_else(self.min_body_size, config.min_body_size) as int,
                or_else(self.max_body_size, config.max_body_size) as int,
            ),
            ranges.max_body_size == greater(
                or_else(self.min_body_size, config.min_body_size) as int,
                or_else(self.max_body_size, config.max_body_size) as int,
            ),
            ranges.min_wait_ms == lesser(
                or_else(self.min_wait_duration, config.min_wait_duration_ms) as int,
                or_else(self.max_wait_duration, config.max_wait_duration_ms) as int,
            ),
            ranges.max_wait_ms == greater(
                or_else(self.min_wait_duration, config.min_wait_duration_ms) as int,
                or_else(self.max_wait_duration, config.max_wait_duration_ms) as int,
            ),
            ranges.min_body_size <= ranges.max_body_size,
            ranges.min_wait_ms <= ranges.max_wait_ms,
    {
        let body_low = match self.min_body_size {
            Some(v) => v,
            None => config.min_body_size,
        };
        let body_high = match self.max_body_size {
            Some(v) => v,
            None => config.max_body_size,
        };
        let wait_low = match self.min_wait_duration {
            Some(v) => v,
            None => config.min_wait_duration_ms,
        };
        let wait_high = match self.max_wait_duration {
            Some(v) => v,
            None => config.max_wait_duration_ms,
        };
        RequestRanges {
            min_body_size: if body_low <= body_high {
                body_low
            } else {
                body_high
            },
            max_body_size: if body_low <= body_high {
                body_high
            } else {
                body_low
            },
            min_wait_ms: if wait_low <= wait_high {
                wait_low
            } else {
                wait_high
            },
            max_wait_ms: if wait_low <= wait_high {
                wait_high
            } else {
                wait_low
            },
        }
    }
}

impl GarbleParams {
    /// The size and the delay for a request, drawn at random from the
    /// ranges in force.
    pub fn plan(&self, config: &GarbleConfig) -> (plan: RequestPlan)
        ensures
            lesser(
                or_else(self.min_body_size, config.min_body_size) as int,
                or_else(self.max_body_size, config.max_body_size) as int,
            ) <= plan.target_size <= greater(
                or_else(self.min_body_size, config.min_body_size) as int,
                or_else(self.max_body_size, config.max_body_size) as int,
            ),
            lesser(
                or_else(self.min_wait_duration, config.min_wait_duration_ms) as int,
                or_else(self.max_wait_duration, config.max_wait_duration_ms) as int,
            ) <= plan.wait_duration_ms <= greater(
                or_else(self.min_wait_duration, config.min_wait_duration_ms) as int,
                or_else(self.max_wait_duration, config.max_wait_duration_ms) as int,
            ),
    {
        self.effective_ranges(config).draw()
    }
}

impl RequestRanges {
    /// `plan` lies within the ranges.
    pub open spec fn admits(&self, plan: RequestPlan) -> bool {
        &&& self.min_body_size <= plan.target_size <= self.max_body_size
        &&& self.min_wait_ms <= plan.wait_duration_ms <= self.max_wait_ms
    }

    /// A size and a delay drawn at random from the ranges. A range of one
    /// value gives that value, and nothing is drawn for it.
    fn draw(&self) -> (plan: RequestPlan)
        requires
            self.min_body_size <= self.max_body_size,
            self.min_wait_ms <= self.max_wait_ms,
        ensures
            self.admits(plan),
    {
        let mut rng = thread_rng();
        let target_size: usize = if self.min_body_size == self.max_body_size {
            self.min_body_size
        } else {
            gen_within(&mut rng, self.min_body_size as u64, self.max_body_size as u64) as usize
        };
        let wait_duration_ms: u64 = if self.min_wait_ms == self.max_wait_ms {
            self.min_wait_ms
        } else {
            gen_within(&mut rng, self.min_wait_ms, self.max_wait_ms)
        };
        RequestPlan { target_size, wait_duration_ms }
    }
}

/// How a response of `target_size` bytes is named in the log, by the
/// thresholds of the settings.
#[derive(Debug, Clone, Copy, PartialEq, Eq, Structural)]
pub enum StrategyLabel {
    Direct,
    FastPool,
    Streaming,
}

impl StrategyLabel {
    /// The label for `target_size` under `performance`.
    pub fn for_size(target_size: usize, performance: &PerformanceConfig) -> (label: Self)
        ensures
            label == if target_size < performance.fast_response_threshold_bytes {
                StrategyLabel::Direct
            } else if target_size < performance.streaming_threshold_bytes {
                StrategyLabel::FastPool
            } else {
                StrategyLabel::Streaming
            },
    {
        if target_size < performance.fast_response_threshold_bytes {
            StrategyLabel::Direct
        } else if target_size < performance.streaming_threshold_bytes {
            StrategyLabel::FastPool
        } else {
            StrategyLabel::Streaming
        }
    }

    /// The label as it is written.
    pub fn as_str(self) -> (text: &'static str)
        ensures
            text@ == match self {
                StrategyLabel::Direct => "direct"@,
                StrategyLabel::FastPool => "fast_pool"@,
                StrategyLabel::Streaming => "streaming"@,
            },
    {
        match self {
            StrategyLabel::Direct => "direct",
            StrategyLabel::FastPool => "fast_pool",
            StrategyLabel::Streaming => "streaming",
        }
    }
}

} // verus!
