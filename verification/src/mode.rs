//! Run modes a command line can select.

use vstd::prelude::*;

use crate::json::str_eq;

verus! {

/// How the program is being run; parsed from its command-line spelling or
/// its one-letter shorthand.
#[derive(Clone, Debug, PartialEq, Eq, Structural)]
pub enum Mode {
    Backtest,
    Hypertune,
    Live,
}

/// The mode a spelling selects, case-sensitively: `backtest`/`b`,
/// `hypertune`/`h`, `live`/`l`; anything else selects none.
pub open spec fn spec_parse_mode(s: Seq<char>) -> Option<Mode> {
    if s == "backtest"@ || s == "b"@ {
        Some(Mode::Backtest)
    } else if s == "hypertune"@ || s == "h"@ {
        Some(Mode::Hypertune)
    } else if s == "live"@ || s == "l"@ {
        Some(Mode::Live)
    } else {
        None
    }
}

/// Parse a mode spelling: exactly the six strings of [`spec_parse_mode`]
/// succeed; any other input is an error naming the rejected text.
pub fn parse_mode(s: &str) -> (r: Result<Mode, String>)
    ensures
        match r {
            Ok(m) => spec_parse_mode(s@) == Some(m),
            Err(msg) => spec_parse_mode(s@) is None && msg@ == "Invalid mode: "@ + s@,
        },
{
    if str_eq(s, "backtest") || str_eq(s, "b") {
        Ok(Mode::Backtest)
    } else if str_eq(s, "hypertune") || str_eq(s, "h") {
        Ok(Mode::Hypertune)
    } else if str_eq(s, "live") || str_eq(s, "l") {
        Ok(Mode::Live)
    } else {
        let mut msg = "Invalid mode: ".to_owned();
        msg.append(s);
        Err(msg)
    }
}

impl core::str::FromStr for Mode {
    type Err = String;

    /// The mapping of [`parse_mode`], under the standard trait.
    fn from_str(s: &str) -> Result<Mode, String> {
        parse_mode(s)
    }
}

} // verus!
