//! The library's error type.
use vstd::prelude::*;

verus! {

/// Why an operation of the library failed.
#[derive(Debug, Clone, PartialEq, Eq)]
pub enum RuxError {
    /// A tablature file could not be parsed.
    ParsingError(String),
    /// The configuration could not be read or written.
    ConfigError(String),
    /// Audio output failed.
    AudioError(String),
    /// A file could not be read or written.
    IoError(String),
}

impl RuxError {
    /// The kind of the error followed by its message.
    pub fn to_string(&self) -> (r: String)
        ensures
            r@ == self.prefix() + self.message(),
    {
        let (prefix, message) = match self {
            RuxError::ParsingError(m) => ("parsing error: ", m),
            RuxError::ConfigError(m) => ("configuration error: ", m),
            RuxError::AudioError(m) => ("audio error: ", m),
            RuxError::IoError(m) => ("I/O error: ", m),
        };
        let mut r = String::from_str(prefix);
        r.append(message.as_str());
        r
    }

    pub open spec fn prefix(&self) -> Seq<char> {
        match self {
            RuxError::ParsingError(_) => "parsing error: "@,
            RuxError::ConfigError(_) => "configuration error: "@,
            RuxError::AudioError(_) => "audio error: "@,
            RuxError::IoError(_) => "I/O error: "@,
        }
    }

    pub open spec fn message(&self) -> Seq<char> {
        match self {
            RuxError::ParsingError(m) => m@,
            RuxError::ConfigError(m) => m@,
            RuxError::AudioError(m) => m@,
            RuxError::IoError(m) => m@,
        }
    }
}

} // verus!
