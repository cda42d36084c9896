//! The shared error type.

use crate::text::joined;
use vstd::prelude::*;

verus! {

/// Errors produced across the library.
///
/// Variants are intentionally coarse: loaders, decoders, and renderers map their own errors into
/// these. Each carries the message of what went wrong.
#[derive(Debug)]
#[non_exhaustive]
pub enum Error {
    /// An underlying I/O failure.
    Io(String),
    /// The input's format is recognized but not supported.
    Unsupported(String),
    /// A file could not be decoded or parsed.
    Decode(String),
    /// The geometry of a mesh or scene is invalid (e.g. degenerate, out of range).
    Geometry(String),
    /// A required external dependency (such as `ffmpeg`) is missing or failed.
    External(String),
    /// A configuration value was invalid.
    Config(String),
}

impl Error {
    /// The words that the text of this error starts with.
    pub open spec fn prefix(&self) -> Seq<char> {
        match self {
            Error::Io(_) => "io error: "@,
            Error::Unsupported(_) => "unsupported format: "@,
            Error::Decode(_) => "decode error: "@,
            Error::Geometry(_) => "invalid geometry: "@,
            Error::External(_) => "external tool error: "@,
            Error::Config(_) => "configuration error: "@,
        }
    }

    /// The message that this error carries.
    pub open spec fn detail(&self) -> Seq<char> {
        match self {
            Error::Io(m) => m@,
            Error::Unsupported(m) => m@,
            Error::Decode(m) => m@,
            Error::Geometry(m) => m@,
            Error::External(m) => m@,
            Error::Config(m) => m@,
        }
    }

    /// The text of this error: what kind of failure it is, then its message.
    pub fn message(&self) -> (s: String)
        ensures
            s@ == self.prefix() + self.detail(),
    {
        match self {
            Error::Io(m) => joined("io error: ", m.as_str()),
            Error::Unsupported(m) => joined("unsupported format: ", m.as_str()),
            Error::Decode(m) => joined("decode error: ", m.as_str()),
            Error::Geometry(m) => joined("invalid geometry: ", m.as_str()),
            Error::External(m) => joined("external tool error: ", m.as_str()),
            Error::Config(m) => joined("configuration error: ", m.as_str()),
        }
    }
}

/// `std::io::Error`: what reading or writing fails with.
#[verifier::external_type_specification]
#[verifier::external_body]
pub struct ExIoError(std::io::Error);

/// `<std::io::Error as ToString>::to_string`: the text of the failure, of which nothing is said, since
/// it comes from the operating system.
#[verifier::external_body]
fn io_text(e: &std::io::Error) -> (s: String) {
    e.to_string()
}

impl From<std::io::Error> for Error {
    fn from(e: std::io::Error) -> (r: Error)
        ensures
            r is Io,
    {
        Error::Io(io_text(&e))
    }
}

impl vstd::std_specs::convert::FromSpecImpl<std::io::Error> for Error {
    open spec fn obeys_from_spec() -> bool {
        false
    }

    open spec fn from_spec(e: std::io::Error) -> Error {
        arbitrary()
    }
}

/// What the user is told when a command fails: what went wrong, and what caused it where something
/// underneath did.
#[derive(Debug, Clone)]
pub struct Complaint {
    /// What went wrong.
    pub what: String,
    /// What caused it.
    pub cause: Option<String>,
}

impl Complaint {
    /// A complaint without a cause underneath.
    pub fn new(what: &str) -> (c: Complaint)
        ensures
            c.what@ == what@,
            c.cause is None,
    {
        Complaint { what: what.to_owned(), cause: None }
    }
}

} // verus!
