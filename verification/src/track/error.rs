//! What can go wrong with a track file or with the counters file.

use crate::text::{decimal, push_decimal, push_signed_decimal, signed_decimal};
use vstd::prelude::*;
use vstd::std_specs::convert::FromSpecImpl;
use vstd::string::StringExecFns;

verus! {

/// The operating system's error. Nothing of its inside is known here.
#[verifier::external_type_specification]
#[verifier::external_body]
pub struct ExIoError(std::io::Error);

/// Calls `std::io::Error::kind` and tells whether it is `NotFound`.
/// Nothing is claimed of the answer: the error is not looked into here.
#[verifier::external_body]
pub(crate) fn is_missing(err: &std::io::Error) -> bool {
    match err.kind() {
        std::io::ErrorKind::NotFound => true,
        _ => false,
    }
}

/// Calls `to_string` on the operating system's error: what the system
/// says of the error, in words. Nothing is claimed of the text.
#[verifier::external_body]
pub(crate) fn os_text(err: &std::io::Error) -> String {
    err.to_string()
}

#[derive(Debug)]
pub enum TrackFileError {
    /// The operating system refused an operation.
    IOError(std::io::Error),
    /// The file does not begin with the magic number.
    InvalidMagicNumber,
    /// The length that the header implies, and the length found.
    InvalidFileLength(u128, u64),
    /// What was being decoded, and the number of bytes supplied.
    InsufficientDataLength(String, usize),
    /// The index asked for lies at or past the number of records.
    IndexError(usize),
    /// The timestamp that was refused: the file holds a later one.
    SequenceError(i64),
    /// The path at which no file was found.
    NotFound(String),
}

impl TrackFileError {
    /// Whether this is the error of a decoder that was given `n` bytes, too
    /// few for a `what`.
    pub open spec fn is_insufficient(self, what: Seq<char>, n: nat) -> bool {
        self matches TrackFileError::InsufficientDataLength(w, k) && w@ == what && k == n
    }

    /// Whether this is the error of a file missing at `path`.
    pub open spec fn is_not_found(self, path: Seq<char>) -> bool {
        self matches TrackFileError::NotFound(p) && p@ == path
    }

    /// The error in words, where `os` is what the operating system says of
    /// its own error.
    pub open spec fn text(self, os: Seq<char>) -> Seq<char> {
        match self {
            TrackFileError::IOError(_) => "TrackFileError: "@ + os,
            TrackFileError::InvalidMagicNumber => "Track file corrupted, invalid magic number"@,
            TrackFileError::InvalidFileLength(expected, got) =>
                "Invalid track file length: expected "@ + decimal(expected as nat) + ", got "@
                    + decimal(got as nat),
            TrackFileError::InsufficientDataLength(ident, size) =>
                "Insufficient data length while parsing "@ + ident@ + ": "@ + decimal(
                    size as nat,
                ),
            TrackFileError::IndexError(idx) => "Invalid index "@ + decimal(idx as nat)
                + " while reading track file data"@,
            TrackFileError::NotFound(filename) => "Track file "@ + filename@ + " not found"@,
            TrackFileError::SequenceError(ts) => "Can't append a point ts="@ + signed_decimal(
                ts as int,
            ) + ", a bigger ts exists in the track"@,
        }
    }

    /// The error in words. For an error of the operating system, the words
    /// end with what the system says of it.
    pub fn message(&self) -> (s: String)
        ensures
            exists|os: Seq<char>| s@ == self.text(os),
            !(self is IOError) ==> s@ == self.text(Seq::empty()),
    {
        match self {
            TrackFileError::IOError(err) => {
                let os = os_text(err);
                let s = self.message_with(os.as_str());
                assert(s@ == self.text(os@));
                s
            },
            _ => self.message_with(""),
        }
    }

    /// The error in words, where `os` is what the operating system says of
    /// its own error.
    pub fn message_with(&self, os: &str) -> (s: String)
        ensures
            s@ == self.text(os@),
    {
        match self {
            TrackFileError::IOError(_) => String::from_str("TrackFileError: ").concat(os),
            TrackFileError::InvalidMagicNumber => String::from_str(
                "Track file corrupted, invalid magic number",
            ),
            TrackFileError::InvalidFileLength(expected, got) => {
                let mut s = String::from_str("Invalid track file length: expected ");
                push_decimal(&mut s, *expected);
                s.append(", got ");
                push_decimal(&mut s, *got as u128);
                s
            },
            TrackFileError::InsufficientDataLength(ident, size) => {
                let mut s = String::from_str("Insufficient data length while parsing ");
                s.append(ident.as_str());
                s.append(": ");
                push_decimal(&mut s, *size as u128);
                s
            },
            TrackFileError::IndexError(idx) => {
                let mut s = String::from_str("Invalid index ");
                push_decimal(&mut s, *idx as u128);
                s.append(" while reading track file data");
                s
            },
            TrackFileError::NotFound(filename) => {
                let mut s = String::from_str("Track file ");
                s.append(filename.as_str());
                s.append(" not found");
                s
            },
            TrackFileError::SequenceError(ts) => {
                let mut s = String::from_str("Can't append a point ts=");
                push_signed_decimal(&mut s, *ts);
                s.append(", a bigger ts exists in the track");
                s
            },
        }
    }

    /// The error of opening the file at `path`, which the operating system
    /// refused with `err`: `NotFound` with the path if the system found no
    /// such file, and `err` itself if not.
    pub fn on_open(err: std::io::Error, path: &str) -> (e: TrackFileError)
        ensures
            e.is_not_found(path@) || e == TrackFileError::IOError(err),
    {
        let missing = is_missing(&err);
        TrackFileError::classified(err, missing, path)
    }

    /// The error of opening the file at `path`, given whether the system
    /// found no such file.
    pub fn classified(err: std::io::Error, missing: bool, path: &str) -> (e: TrackFileError)
        ensures
            missing ==> e.is_not_found(path@),
            !missing ==> e == TrackFileError::IOError(err),
    {
        if missing {
            TrackFileError::NotFound(path.to_owned())
        } else {
            TrackFileError::IOError(err)
        }
    }
}

impl From<std::io::Error> for TrackFileError {
    fn from(value: std::io::Error) -> (e: TrackFileError) {
        TrackFileError::IOError(value)
    }
}

impl FromSpecImpl<std::io::Error> for TrackFileError {
    open spec fn obeys_from_spec() -> bool {
        true
    }

    open spec fn from_spec(value: std::io::Error) -> TrackFileError {
        TrackFileError::IOError(value)
    }
}

#[derive(Debug)]
pub enum MetaFileError {
    /// The operating system refused an operation.
    IOError(std::io::Error),
    /// What was being decoded, and the number of bytes supplied.
    InsufficientDataLength(String, usize),
    /// The path at which no file was found.
    NotFound(String),
}

impl MetaFileError {
    /// Whether this is the error of a decoder that was given `n` bytes, too
    /// few for a `what`.
    pub open spec fn is_insufficient(self, what: Seq<char>, n: nat) -> bool {
        self matches MetaFileError::InsufficientDataLength(w, k) && w@ == what && k == n
    }

    /// Whether this is the error of a file missing at `path`.
    pub open spec fn is_not_found(self, path: Seq<char>) -> bool {
        self matches MetaFileError::NotFound(p) && p@ == path
    }

    /// The error in words, where `os` is what the operating system says of
    /// its own error.
    pub open spec fn text(self, os: Seq<char>) -> Seq<char> {
        match self {
            MetaFileError::IOError(_) => "MetaFileError: "@ + os,
            MetaFileError::InsufficientDataLength(ident, size) =>
                "Insufficient data length while parsing "@ + ident@ + ": "@ + decimal(
                    size as nat,
                ),
            MetaFileError::NotFound(filename) => "Meta file "@ + filename@ + " not found"@,
        }
    }

    /// The error in words. For an error of the operating system, the words
    /// end with what the system says of it.
    pub fn message(&self) -> (s: String)
        ensures
            exists|os: Seq<char>| s@ == self.text(os),
            !(self is IOError) ==> s@ == self.text(Seq::empty()),
    {
        match self {
            MetaFileError::IOError(err) => {
                let os = os_text(err);
                let s = self.message_with(os.as_str());
                assert(s@ == self.text(os@));
                s
            },
            _ => self.message_with(""),
        }
    }

    /// The error in words, where `os` is what the operating system says of
    /// its own error.
    pub fn message_with(&self, os: &str) -> (s: String)
        ensures
            s@ == self.text(os@),
    {
        match self {
            MetaFileError::IOError(_) => String::from_str("MetaFileError: ").concat(os),
            MetaFileError::InsufficientDataLength(ident, size) => {
                let mut s = String::from_str("Insufficient data length while parsing ");
                s.append(ident.as_str());
                s.append(": ");
                push_decimal(&mut s, *size as u128);
                s
            },
            MetaFileError::NotFound(filename) => {
                let mut s = String::from_str("Meta file ");
                s.append(filename.as_str());
                s.append(" not found");
                s
            },
        }
    }

    /// The error of opening the file at `path`, which the operating system
    /// refused with `err`: `NotFound` with the path if the system found no
    /// such file, and `err` itself if not.
    pub fn on_open(err: std::io::Error, path: &str) -> (e: MetaFileError)
        ensures
            e.is_not_found(path@) || e == MetaFileError::IOError(err),
    {
        let missing = is_missing(&err);
        MetaFileError::classified(err, missing, path)
    }

    /// The error of opening the file at `path`, given whether the system
    /// found no such file.
    pub fn classified(err: std::io::Error, missing: bool, path: &str) -> (e: MetaFileError)
        ensures
            missing ==> e.is_not_found(path@),
            !missing ==> e == MetaFileError::IOError(err),
    {
        if missing {
            MetaFileError::NotFound(path.to_owned())
        } else {
            MetaFileError::IOError(err)
        }
    }
}

impl From<std::io::Error> for MetaFileError {
    fn from(value: std::io::Error) -> (e: MetaFileError) {
        MetaFileError::IOError(value)
    }
}

impl FromSpecImpl<std::io::Error> for MetaFileError {
    open spec fn obeys_from_spec() -> bool {
        true
    }

    open spec fn from_spec(value: std::io::Error) -> MetaFileError {
        MetaFileError::IOError(value)
    }
}

} // verus!
