//! Errors as the service answers them: a status code and a message.

use crate::text::{decimal, push_decimal};
use crate::track::error::{os_text, MetaFileError, TrackFileError};
use vstd::prelude::*;
use vstd::std_specs::convert::FromSpecImpl;
use vstd::string::StringExecFns;

verus! {

/// An error as the service answers it.
#[derive(Debug)]
pub struct APIError {
    /// The HTTP status code.
    pub code: u16,
    pub message: String,
}

impl APIError {
    /// The status code with which an error of a track file is answered: a
    /// track that is not there with 404, a sample refused for its
    /// timestamp with 403, anything else with 500.
    pub open spec fn code_of(e: TrackFileError) -> u16 {
        match e {
            TrackFileError::NotFound(_) => 404,
            TrackFileError::SequenceError(_) => 403,
            _ => 500,
        }
    }

    /// The message with which an error of a track file is answered, where
    /// `os` is what the operating system says of its own error.
    pub open spec fn message_of(e: TrackFileError, os: Seq<char>) -> Seq<char> {
        match e {
            TrackFileError::IOError(_) => "IOERROR: "@ + os,
            TrackFileError::InvalidMagicNumber => "invalid magic number"@,
            TrackFileError::InvalidFileLength(expected, got) =>
                "Invalid file length, expected "@ + decimal(expected as nat) + ", got "@
                    + decimal(got as nat),
            TrackFileError::InsufficientDataLength(_, _) => "Error unmarshalling track data"@,
            TrackFileError::IndexError(idx) => "error reading track file at index "@ + decimal(
                idx as nat,
            ),
            TrackFileError::NotFound(path) => path@,
            TrackFileError::SequenceError(_) => e.text(os),
        }
    }

    pub fn new(code: u16, message: &str) -> (e: APIError)
        ensures
            e.code == code,
            e.message@ == message@,
    {
        APIError { code, message: message.to_owned() }
    }

    pub fn not_found(message: &str) -> (e: APIError)
        ensures
            e.code == 404,
            e.message@ == message@,
    {
        APIError::new(404, message)
    }

    pub fn bad_request(message: &str) -> (e: APIError)
        ensures
            e.code == 403,
            e.message@ == message@,
    {
        APIError::new(403, message)
    }

    /// An error of the service itself, with `message` or, where there is
    /// none, with the words `internal server error`.
    pub fn internal_server_error(message: Option<String>) -> (e: APIError)
        ensures
            e.code == 500,
            message matches Some(m) ==> e.message@ == m@,
            message is None ==> e.message@ == "internal server error"@,
    {
        match message {
            Some(m) => APIError::new(500, m.as_str()),
            None => APIError::new(500, "internal server error"),
        }
    }

    /// The answer to an error of a track file. For an error of the
    /// operating system, the message ends with what the system says of it.
    pub fn from_track_error(value: TrackFileError) -> (e: APIError)
        ensures
            e.code == APIError::code_of(value),
            exists|os: Seq<char>| e.message@ == APIError::message_of(value, os),
            !(value is IOError) ==> e.message@ == APIError::message_of(value, Seq::empty()),
    {
        let os = match &value {
            TrackFileError::IOError(err) => os_text(err),
            _ => String::from_str(""),
        };
        let e = APIError::from_track_error_with(value, os.as_str());
        assert(e.message@ == APIError::message_of(value, os@));
        e
    }

    /// The answer to an error of a track file, where `os` is what the
    /// operating system says of its own error.
    pub fn from_track_error_with(value: TrackFileError, os: &str) -> (e: APIError)
        ensures
            e.code == APIError::code_of(value),
            e.message@ == APIError::message_of(value, os@),
    {
        match value {
            TrackFileError::IOError(_) => APIError::internal_server_error(
                Some(String::from_str("IOERROR: ").concat(os)),
            ),
            TrackFileError::InvalidMagicNumber => APIError::internal_server_error(
                Some(String::from_str("invalid magic number")),
            ),
            TrackFileError::InvalidFileLength(expected, got) => {
                let mut s = String::from_str("Invalid file length, expected ");
                push_decimal(&mut s, expected);
                s.append(", got ");
                push_decimal(&mut s, got as u128);
                APIError::internal_server_error(Some(s))
            },
            TrackFileError::InsufficientDataLength(_, _) => APIError::internal_server_error(
                Some(String::from_str("Error unmarshalling track data")),
            ),
            TrackFileError::IndexError(idx) => {
                let mut s = String::from_str("error reading track file at index ");
                push_decimal(&mut s, idx as u128);
                APIError::internal_server_error(Some(s))
            },
            TrackFileError::NotFound(path) => APIError::not_found(path.as_str()),
            TrackFileError::SequenceError(_) => {
                let text = value.message_with(os);
                APIError::bad_request(text.as_str())
            },
        }
    }

    /// The answer to an error of the counters file: 500, and the error in
    /// words after `metafile error: `.
    pub fn from_meta_error(value: MetaFileError) -> (e: APIError)
        ensures
            e.code == 500,
            exists|os: Seq<char>| e.message@ == "metafile error: "@ + value.text(os),
            !(value is IOError) ==> e.message@ == "metafile error: "@ + value.text(Seq::empty()),
    {
        let text = value.message();
        let e = APIError::internal_server_error(
            Some(String::from_str("metafile error: ").concat(text.as_str())),
        );
        let ghost os = choose|os: Seq<char>| text@ == value.text(os);
        assert(e.message@ == "metafile error: "@ + value.text(os));
        e
    }
}

impl From<TrackFileError> for APIError {
    /// The answer to an error of a track file: a track that is not there
    /// with 404 and the path, a sample refused for its timestamp with 403
    /// and the error in words, anything else with 500. For an error of the
    /// operating system, the message ends with what the system says of it.
    fn from(value: TrackFileError) -> (e: APIError)
        ensures
            e.code == APIError::code_of(value),
            exists|os: Seq<char>| e.message@ == APIError::message_of(value, os),
            !(value is IOError) ==> e.message@ == APIError::message_of(value, Seq::empty()),
    {
        APIError::from_track_error(value)
    }
}

impl FromSpecImpl<TrackFileError> for APIError {
    /// The conversion is no function of the error alone: the message may
    /// hold what the operating system says. What it gives is stated on
    /// `from` itself.
    open spec fn obeys_from_spec() -> bool {
        false
    }

    open spec fn from_spec(value: TrackFileError) -> APIError {
        arbitrary()
    }
}

impl From<MetaFileError> for APIError {
    /// The answer to an error of the counters file: 500, and the error in
    /// words after `metafile error: `.
    fn from(value: MetaFileError) -> (e: APIError)
        ensures
            e.code == 500,
            exists|os: Seq<char>| e.message@ == "metafile error: "@ + value.text(os),
            !(value is IOError) ==> e.message@ == "metafile error: "@ + value.text(Seq::empty()),
    {
        APIError::from_meta_error(value)
    }
}

impl FromSpecImpl<MetaFileError> for APIError {
    /// The conversion is no function of the error alone: the message may
    /// hold what the operating system says. What it gives is stated on
    /// `from` itself.
    open spec fn obeys_from_spec() -> bool {
        false
    }

    open spec fn from_spec(value: MetaFileError) -> APIError {
        arbitrary()
    }
}

/// The answer to a request for what is not there.
pub fn catch404() -> (e: APIError)
    ensures
        e.code == 404,
        e.message@ == "not found"@,
{
    APIError::not_found("not found")
}

/// The answer to a request on which the service failed.
pub fn catch500() -> (e: APIError)
    ensures
        e.code == 500,
        e.message@ == "internal server error"@,
{
    APIError::internal_server_error(None)
}

} // verus!
