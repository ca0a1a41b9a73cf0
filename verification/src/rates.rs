//! The data model: rates as fixed-point decimals, and the records the
//! resolution pipeline assembles.

use vstd::prelude::*;

verus! {

/// One whole unit of a rate, counted in millionths.
pub const RATE_SCALE: u64 = 1_000_000;

/// Largest rate the pipeline represents, in millionths (a rate of one
/// trillion).  Upstream figures beyond this precision cap are treated as
/// unparsable.
pub const MAX_RATE_MICROS: u64 = 1_000_000_000_000_000_000;

/// A non-negative decimal exchange rate, held as a count of millionths.
#[derive(Clone, Copy, Debug, PartialEq, Eq, Structural)]
pub struct Rate {
    pub micros: u64,
}

impl Rate {
    /// Every rate the pipeline produces stays under the precision cap.
    pub open spec fn wf(self) -> bool {
        self.micros <= MAX_RATE_MICROS
    }

    pub open spec fn spec_zero() -> Rate {
        Rate { micros: 0 }
    }

    pub fn zero() -> (r: Rate)
        ensures
            r == Rate::spec_zero(),
    {
        Rate { micros: 0 }
    }
}

/// Best/average/worst rate over a calendar year.  Defaults to all-zero when
/// no summary row matches.
#[derive(Clone, Copy, Debug, PartialEq, Eq, Structural)]
pub struct YearlyRates {
    pub best: Rate,
    pub average: Rate,
    pub worst: Rate,
}

impl YearlyRates {
    pub open spec fn spec_default() -> YearlyRates {
        YearlyRates { best: Rate::spec_zero(), average: Rate::spec_zero(), worst: Rate::spec_zero() }
    }

    pub fn all_zero() -> (r: YearlyRates)
        ensures
            r == YearlyRates::spec_default(),
    {
        YearlyRates { best: Rate::zero(), average: Rate::zero(), worst: Rate::zero() }
    }
}

/// Best/average/worst rate over a calendar month; present only when exactly
/// three numeric values were recovered from one source.
#[derive(Clone, Copy, Debug, PartialEq, Eq, Structural)]
pub struct MonthlyRates {
    pub best: Rate,
    pub average: Rate,
    pub worst: Rate,
}

/// Combined result of one (pair, year, month) query.
#[derive(Clone, Copy, Debug, PartialEq, Eq, Structural)]
pub struct HistoricalRates {
    pub yearly: Option<YearlyRates>,
    pub monthly: Option<MonthlyRates>,
}

/// One entry of the supported-currency list scraped from the homepage.
#[derive(Clone, Debug, PartialEq, Eq)]
pub struct CurrencyInfo {
    pub name: String,
    pub code: String,
}

/// The current point-in-time rate of a pair, with the rate figure kept as the
/// upstream decimal text.
#[derive(Clone, Debug, PartialEq, Eq)]
pub struct CurrentRate {
    pub rate: String,
    pub from: String,
    pub to: String,
    pub date: String,
}

} // verus!
