//! The error taxonomy of the reporting pipeline.

use vstd::prelude::*;

verus! {

/// Why an operation of the pipeline failed.
///
/// `Io` carries transport or file-system failures, `Protocol` a collector
/// response that was well-formed but unsuccessful (or an error status whose
/// body is kept for diagnostics), `Corrupt` unparsable persisted or wire
/// data, and `NothingToDo` the expected, recoverable outcome of an empty
/// read path: it must not be surfaced as a real failure.
#[derive(Debug)]
pub enum Error {
    /// A file or network transport failure.
    Io(String),
    /// The config file is already exclusively locked by another process.
    LockBusy,
    /// A config file already exists at the path given to `init`.
    AlreadyExists,
    /// Persisted or wire data did not parse.
    Corrupt(String),
    /// Key generation, key decoding, or signing failed.
    Crypto(String),
    /// The collector answered with an error status or an unsuccessful body.
    Protocol(String),
    /// A recoverable "nothing to report" condition, not a real failure.
    NothingToDo,
}

impl Error {
    /// True of the variants that a steady-state cycle must surface in a log;
    /// `NothingToDo` is the one silent outcome.
    pub open spec fn spec_is_silent(&self) -> bool {
        self is NothingToDo
    }

    /// Whether this error is the silent "nothing to report" outcome.
    pub fn is_silent(&self) -> (r: bool)
        ensures
            r == self.spec_is_silent(),
    {
        match self {
            Error::NothingToDo => true,
            _ => false,
        }
    }

    /// A short description, for diagnostics outside the library.
    pub fn describe(&self) -> String {
        match self {
            Error::Io(m) => String::from_str("i/o failure: ").concat(m.as_str()),
            Error::LockBusy => String::from_str("config file is locked by another process"),
            Error::AlreadyExists => String::from_str("config file already exists"),
            Error::Corrupt(m) => String::from_str("corrupt data: ").concat(m.as_str()),
            Error::Crypto(m) => String::from_str("crypto failure: ").concat(m.as_str()),
            Error::Protocol(m) => String::from_str("protocol failure: ").concat(m.as_str()),
            Error::NothingToDo => String::from_str("nothing to do"),
        }
    }
}

} // verus!
