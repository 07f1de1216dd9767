//! Error kinds of the arbitrage pipeline.
use vstd::prelude::*;

verus! {

/// Everything that can abort a run.  Each variant carries the text of the
/// offending input: a rate string that is not a decimal, a pair key that
/// does not name two currencies, a rate that is not positive, a hop whose
/// pair is missing from the table, or a rate whose logarithm could not be
/// computed at the supported precision.
#[derive(Debug)]
pub enum ArbiError {
    ParseBigDecimalError(String),
    MalformedPairKey(String),
    InvalidRate(String),
    RateNotFoundError(String),
    ArithmeticConversionError(String),
}

impl ArbiError {
    /// A short description of the error for display by callers.
    pub fn message(&self) -> String {
        let (what, who): (&str, &String) = match self {
            ArbiError::ParseBigDecimalError(s) => ("Failed to parse string as decimal: ", s),
            ArbiError::MalformedPairKey(s) => ("Malformed currency pair key: ", s),
            ArbiError::InvalidRate(s) => ("Rate must be positive for pair: ", s),
            ArbiError::RateNotFoundError(s) => ("Rate not found for key: ", s),
            ArbiError::ArithmeticConversionError(s) => (
                "Failed to convert rate for logarithm: ",
                s,
            ),
        };
        let mut out = what.to_owned();
        out.append(who.as_str());
        out
    }
}

} // verus!
