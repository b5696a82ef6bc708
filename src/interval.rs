//! Kline/candlestick chart intervals.
use vstd::prelude::*;

verus! {

/// Kline/Candlestick chart intervals.
#[derive(Debug, Clone, Copy, PartialEq, Eq, Structural)]
pub enum Interval {
    I1m,
    I3m,
    I5m,
    I15m,
    I30m,
    I1h,
    I2h,
    I4h,
    I6h,
    I8h,
    I12h,
    I1d,
    I3d,
    I1w,
    I1M,
}

/// The length of an interval in seconds; a month counts thirty days.
pub open spec fn interval_seconds(i: Interval) -> nat {
    match i {
        Interval::I1m => 60,
        Interval::I3m => 60 * 3,
        Interval::I5m => 60 * 5,
        Interval::I15m => 60 * 15,
        Interval::I30m => 60 * 30,
        Interval::I1h => 60 * 60,
        Interval::I2h => 60 * 60 * 2,
        Interval::I4h => 60 * 60 * 4,
        Interval::I6h => 60 * 60 * 6,
        Interval::I8h => 60 * 60 * 8,
        Interval::I12h => 60 * 60 * 12,
        Interval::I1d => 60 * 60 * 24,
        Interval::I3d => 60 * 60 * 24 * 3,
        Interval::I1w => 60 * 60 * 24 * 7,
        Interval::I1M => 60 * 60 * 24 * 30,
    }
}

/// The exchange's name of an interval.
pub open spec fn interval_name(i: Interval) -> Seq<char> {
    match i {
        Interval::I1m => "1m"@,
        Interval::I3m => "3m"@,
        Interval::I5m => "5m"@,
        Interval::I15m => "15m"@,
        Interval::I30m => "30m"@,
        Interval::I1h => "1h"@,
        Interval::I2h => "2h"@,
        Interval::I4h => "4h"@,
        Interval::I6h => "6h"@,
        Interval::I8h => "8h"@,
        Interval::I12h => "12h"@,
        Interval::I1d => "1d"@,
        Interval::I3d => "3d"@,
        Interval::I1w => "1w"@,
        Interval::I1M => "1M"@,
    }
}

/// The interval that a chart time scale selects: scales 1 to 9 give 5m,
/// 15m, 30m, 1h, 2h, 4h, 8h, 12h and 1d; any other scale gives 1m.
pub open spec fn scale_interval(scale: u32) -> Interval {
    if scale == 1 {
        Interval::I5m
    } else if scale == 2 {
        Interval::I15m
    } else if scale == 3 {
        Interval::I30m
    } else if scale == 4 {
        Interval::I1h
    } else if scale == 5 {
        Interval::I2h
    } else if scale == 6 {
        Interval::I4h
    } else if scale == 7 {
        Interval::I8h
    } else if scale == 8 {
        Interval::I12h
    } else if scale == 9 {
        Interval::I1d
    } else {
        Interval::I1m
    }
}

impl Interval {
    /// `Interval` length in seconds. Approximate value for 1M.
    pub fn seconds(&self) -> (r: u32)
        ensures
            r as nat == interval_seconds(*self),
    {
        match self {
            Interval::I1m => 60,
            Interval::I3m => 60 * 3,
            Interval::I5m => 60 * 5,
            Interval::I15m => 60 * 15,
            Interval::I30m => 60 * 30,
            Interval::I1h => 60 * 60,
            Interval::I2h => 60 * 60 * 2,
            Interval::I4h => 60 * 60 * 4,
            Interval::I6h => 60 * 60 * 6,
            Interval::I8h => 60 * 60 * 8,
            Interval::I12h => 60 * 60 * 12,
            Interval::I1d => 60 * 60 * 24,
            Interval::I3d => 60 * 60 * 24 * 3,
            Interval::I1w => 60 * 60 * 24 * 7,
            Interval::I1M => 60 * 60 * 24 * 30,
        }
    }

    /// The exchange's name of the interval, such as `15m`.
    pub fn str(&self) -> (r: &'static str)
        ensures
            r@ == interval_name(*self),
    {
        match self {
            Interval::I1m => "1m",
            Interval::I3m => "3m",
            Interval::I5m => "5m",
            Interval::I15m => "15m",
            Interval::I30m => "30m",
            Interval::I1h => "1h",
            Interval::I2h => "2h",
            Interval::I4h => "4h",
            Interval::I6h => "6h",
            Interval::I8h => "8h",
            Interval::I12h => "12h",
            Interval::I1d => "1d",
            Interval::I3d => "3d",
            Interval::I1w => "1w",
            Interval::I1M => "1M",
        }
    }

    /// The interval of a chart time scale (see `scale_interval`).
    pub fn from_scale(scale: u32) -> (r: Interval)
        ensures
            r == scale_interval(scale),
    {
        match scale {
            1 => Interval::I5m,
            2 => Interval::I15m,
            3 => Interval::I30m,
            4 => Interval::I1h,
            5 => Interval::I2h,
            6 => Interval::I4h,
            7 => Interval::I8h,
            8 => Interval::I12h,
            9 => Interval::I1d,
            _ => Interval::I1m,
        }
    }
}

} // verus!
