use vstd::prelude::*;

use crate::strutil::string_of;

verus! {

/// Severity of an operator-console message.
#[derive(Debug, Clone, Copy, PartialEq, Eq, Structural)]
pub enum Level {
    Error,
    Warn,
    Info,
    Hint,
}

impl Level {
    /// The default prefix a message of this severity carries.
    pub fn prefix(&self) -> (r: String)
        ensures
            r@ == (match *self {
                Level::Error => "Error:"@,
                Level::Warn => "Warn:"@,
                Level::Info => "Info:"@,
                Level::Hint => "Hint:"@,
            }),
    {
        match self {
            Level::Error => string_of("Error:"),
            Level::Warn => string_of("Warn:"),
            Level::Info => string_of("Info:"),
            Level::Hint => string_of("Hint:"),
        }
    }
}

} // verus!
