use vstd::prelude::*;

verus! {

/// Stands for `std::io::Error`, which an I/O failure carries verbatim.
#[verifier::external_type_specification]
#[verifier::external_body]
pub struct ExIoError(std::io::Error);

/// Stands for `std::str::Utf8Error`, reported by a codec's own text decoding.
#[verifier::external_type_specification]
#[verifier::external_body]
pub struct ExUtf8Error(std::str::Utf8Error);

/// The failure of a cache operation.
#[derive(Debug)]
pub struct Error {
    pub error: ErrorKind,
}

/// What went wrong.
#[derive(Debug)]
pub enum ErrorKind {
    /// The backing storage failed; the underlying error is kept as it came.
    Io(std::io::Error),
    /// The codec refused to encode a record.
    Serialize(),
    /// The codec refused the bytes of the file.
    Deserialize(),
    /// A codec's text decoding met a malformed byte sequence.
    Utf8(std::str::Utf8Error),
}

impl Error {
    /// An encoding failure, for codecs to return.
    pub fn serialize() -> (r: Self)
        ensures
            r.error is Serialize,
    {
        Error { error: ErrorKind::Serialize() }
    }

    /// A decoding failure, for codecs to return.
    pub fn deserialize() -> (r: Self)
        ensures
            r.error is Deserialize,
    {
        Error { error: ErrorKind::Deserialize() }
    }
}

impl From<std::io::Error> for Error {
    fn from(e: std::io::Error) -> (r: Self) {
        Error { error: ErrorKind::Io(e) }
    }
}

impl vstd::std_specs::convert::FromSpecImpl<std::io::Error> for Error {
    open spec fn obeys_from_spec() -> bool {
        true
    }

    open spec fn from_spec(e: std::io::Error) -> Error {
        Error { error: ErrorKind::Io(e) }
    }
}

impl From<std::str::Utf8Error> for Error {
    fn from(e: std::str::Utf8Error) -> (r: Self) {
        Error { error: ErrorKind::Utf8(e) }
    }
}

impl vstd::std_specs::convert::FromSpecImpl<std::str::Utf8Error> for Error {
    open spec fn obeys_from_spec() -> bool {
        true
    }

    open spec fn from_spec(e: std::str::Utf8Error) -> Error {
        Error { error: ErrorKind::Utf8(e) }
    }
}

} // verus!
