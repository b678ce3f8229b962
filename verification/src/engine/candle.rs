//! One bar of the price series.

use vstd::prelude::*;
use vstd::std_specs::convert::FromSpecImpl;

verus! {

/// The prices and volumes of one time step.
#[derive(Debug, Clone, Copy, PartialEq, Eq, Structural)]
pub struct Candle {
    /// The first price of the step.
    pub open: u64,
    /// The highest price of the step.
    pub high: u64,
    /// The lowest price of the step.
    pub low: u64,
    /// The last price of the step.
    pub close: u64,
    /// The volume traded during the step.
    pub volume: u64,
    /// The part of the volume that was bought.
    pub bid: u64,
}

impl From<(u64, u64, u64, u64, u64)> for Candle {
    fn from(ohlcv: (u64, u64, u64, u64, u64)) -> (candle: Self) {
        Self {
            open: ohlcv.0,
            high: ohlcv.1,
            low: ohlcv.2,
            close: ohlcv.3,
            volume: ohlcv.4,
            bid: 0,
        }
    }
}

impl FromSpecImpl<(u64, u64, u64, u64, u64)> for Candle {
    open spec fn obeys_from_spec() -> bool {
        true
    }

    open spec fn from_spec(ohlcv: (u64, u64, u64, u64, u64)) -> Self {
        Candle {
            open: ohlcv.0,
            high: ohlcv.1,
            low: ohlcv.2,
            close: ohlcv.3,
            volume: ohlcv.4,
            bid: 0,
        }
    }
}

impl From<(u64, u64, u64, u64, u64, u64)> for Candle {
    fn from(ohlcvb: (u64, u64, u64, u64, u64, u64)) -> (candle: Self) {
        Self {
            open: ohlcvb.0,
            high: ohlcvb.1,
            low: ohlcvb.2,
            close: ohlcvb.3,
            volume: ohlcvb.4,
            bid: ohlcvb.5,
        }
    }
}

impl FromSpecImpl<(u64, u64, u64, u64, u64, u64)> for Candle {
    open spec fn obeys_from_spec() -> bool {
        true
    }

    open spec fn from_spec(ohlcvb: (u64, u64, u64, u64, u64, u64)) -> Self {
        Candle {
            open: ohlcvb.0,
            high: ohlcvb.1,
            low: ohlcvb.2,
            close: ohlcvb.3,
            volume: ohlcvb.4,
            bid: ohlcvb.5,
        }
    }
}

impl Candle {
    /// The first price of the step.
    pub fn open(&self) -> (r: u64)
        ensures
            r == self.open,
    {
        self.open
    }

    /// The highest price of the step.
    pub fn high(&self) -> (r: u64)
        ensures
            r == self.high,
    {
        self.high
    }

    /// The lowest price of the step.
    pub fn low(&self) -> (r: u64)
        ensures
            r == self.low,
    {
        self.low
    }

    /// The last price of the step.
    pub fn close(&self) -> (r: u64)
        ensures
            r == self.close,
    {
        self.close
    }

    /// The volume traded during the step.
    pub fn volume(&self) -> (r: u64)
        ensures
            r == self.volume,
    {
        self.volume
    }

    /// The part of the volume that was sold: the volume less the bid.
    pub fn ask(&self) -> (r: i128)
        ensures
            r == self.volume - self.bid,
    {
        self.volume as i128 - self.bid as i128
    }

    /// The part of the volume that was bought.
    pub fn bid(&self) -> (r: u64)
        ensures
            r == self.bid,
    {
        self.bid
    }

    /// Whether `price` lies within the range that the candle traded in.
    pub open spec fn spans(self, price: u64) -> bool {
        self.low <= price <= self.high
    }
}

} // verus!
