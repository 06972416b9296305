use vstd::prelude::*;

verus! {

/// Seconds in one day: the widest window that one batching pass covers.
pub const DAY_SECONDS: i64 = 86400;

/// Width of a candle bucket.
#[derive(Clone, Copy, Debug, PartialEq, Eq, Structural)]
pub enum Resolution {
    R1m,
    R5m,
    R15m,
    R1h,
    R4h,
    R1d,
    R1w,
    R1M,
}

impl Resolution {
    /// Bucket width in seconds; a month counts as thirty days.
    pub open spec fn spec_seconds(self) -> int {
        match self {
            Resolution::R1m => 60,
            Resolution::R5m => 300,
            Resolution::R15m => 900,
            Resolution::R1h => 3600,
            Resolution::R4h => 14400,
            Resolution::R1d => 86400,
            Resolution::R1w => 604800,
            Resolution::R1M => 2592000,
        }
    }

    /// The next smaller resolution, from which candles of this one are rolled up.
    pub open spec fn spec_constituent(self) -> Resolution {
        match self {
            Resolution::R1m => Resolution::R1m,
            Resolution::R5m => Resolution::R1m,
            Resolution::R15m => Resolution::R5m,
            Resolution::R1h => Resolution::R15m,
            Resolution::R4h => Resolution::R1h,
            Resolution::R1d => Resolution::R4h,
            Resolution::R1w => Resolution::R1d,
            Resolution::R1M => Resolution::R1w,
        }
    }

    pub open spec fn spec_name(self) -> Seq<char> {
        match self {
            Resolution::R1m => seq!['1', 'm'],
            Resolution::R5m => seq!['5', 'm'],
            Resolution::R15m => seq!['1', '5', 'm'],
            Resolution::R1h => seq!['1', 'H'],
            Resolution::R4h => seq!['4', 'H'],
            Resolution::R1d => seq!['1', 'D'],
            Resolution::R1w => seq!['1', 'W'],
            Resolution::R1M => seq!['1', 'M'],
        }
    }

    pub fn get_duration_seconds(&self) -> (r: i64)
        ensures
            r == self.spec_seconds(),
            60 <= r <= 2592000,
    {
        match self {
            Resolution::R1m => 60,
            Resolution::R5m => 300,
            Resolution::R15m => 900,
            Resolution::R1h => 3600,
            Resolution::R4h => 14400,
            Resolution::R1d => 86400,
            Resolution::R1w => 604800,
            Resolution::R1M => 2592000,
        }
    }

    pub fn get_constituent_resolution(&self) -> (r: Resolution)
        ensures
            r == self.spec_constituent(),
    {
        match self {
            Resolution::R1m => Resolution::R1m,
            Resolution::R5m => Resolution::R1m,
            Resolution::R15m => Resolution::R5m,
            Resolution::R1h => Resolution::R15m,
            Resolution::R4h => Resolution::R1h,
            Resolution::R1d => Resolution::R4h,
            Resolution::R1w => Resolution::R1d,
            Resolution::R1M => Resolution::R1w,
        }
    }

    /// The label under which candles of this resolution are stored.
    pub fn name(&self) -> (r: String)
        ensures
            r@ == self.spec_name(),
    {
        match self {
            Resolution::R1m => {
                proof { reveal_strlit("1m"); }
                String::from_str("1m")
            },
            Resolution::R5m => {
                proof { reveal_strlit("5m"); }
                String::from_str("5m")
            },
            Resolution::R15m => {
                proof { reveal_strlit("15m"); }
                String::from_str("15m")
            },
            Resolution::R1h => {
                proof { reveal_strlit("1H"); }
                String::from_str("1H")
            },
            Resolution::R4h => {
                proof { reveal_strlit("4H"); }
                String::from_str("4H")
            },
            Resolution::R1d => {
                proof { reveal_strlit("1D"); }
                String::from_str("1D")
            },
            Resolution::R1w => {
                proof { reveal_strlit("1W"); }
                String::from_str("1W")
            },
            Resolution::R1M => {
                proof { reveal_strlit("1M"); }
                String::from_str("1M")
            },
        }
    }

    /// Every resolution, smallest first.
    pub fn all() -> (r: Vec<Resolution>)
        ensures
            r@ == seq![
                Resolution::R1m,
                Resolution::R5m,
                Resolution::R15m,
                Resolution::R1h,
                Resolution::R4h,
                Resolution::R1d,
                Resolution::R1w,
                Resolution::R1M,
            ],
    {
        vec![
            Resolution::R1m,
            Resolution::R5m,
            Resolution::R15m,
            Resolution::R1h,
            Resolution::R4h,
            Resolution::R1d,
            Resolution::R1w,
            Resolution::R1M,
        ]
    }
}

} // verus!
