use vstd::prelude::*;

verus! {

/// Declares `std::io::Error` to Verus as an opaque type, carried through as the cause of an error.
#[verifier::external_type_specification]
#[verifier::external_body]
pub struct ExIoError(std::io::Error);

/// The closed set of things that can go wrong while reading a `.env` file.
#[derive(Debug)]
pub enum Detail {
    /// The input could not be read as lines of text.
    IoError(std::io::Error),
    /// A line broke the format; the message says which rule.
    Error(String),
}

/// An error of this library: a syntax error with its message, or a wrapped I/O failure.
#[derive(Debug)]
pub struct Error {
    pub detail: Detail,
}

/// Message of a non-blank, non-comment line that has no `=`.
pub open spec fn missing_separator_message() -> Seq<char> {
    "key and value must be separated by `=`"@
}

/// Message of a line whose key holds a whitespace character.
pub open spec fn whitespace_in_key_message() -> Seq<char> {
    "key cannot contain whitespaces"@
}

/// Relies on `ToString::to_string` through `std::io::Error`'s `Display`: renders the cause.
#[verifier::external_body]
fn io_error_text(e: &std::io::Error) -> String {
    e.to_string()
}

impl Error {
    /// Is this the syntax error with message `msg`?
    pub open spec fn is_syntax(&self, msg: Seq<char>) -> bool {
        &&& self.detail is Error
        &&& self.detail->Error_0@ == msg
    }

    /// Is this an I/O failure?
    pub open spec fn is_io(&self) -> bool {
        self.detail is IoError
    }

    /// A syntax error carrying `msg`.
    pub fn new(msg: &str) -> (r: Error)
        ensures
            r.is_syntax(msg@),
    {
        Error { detail: Detail::Error(msg.to_owned()) }
    }

    /// Wraps an I/O failure, kept as the cause.
    pub fn from_io_error(e: std::io::Error) -> (r: Error)
        ensures
            r.detail == Detail::IoError(e),
    {
        Error { detail: Detail::IoError(e) }
    }

    /// The wrapped I/O failure, if this is one; `None` for a syntax error.
    pub fn cause(&self) -> (r: Option<&std::io::Error>)
        ensures
            self.detail is IoError <==> r is Some,
            r is Some ==> self.detail == Detail::IoError(*r->Some_0),
    {
        match &self.detail {
            Detail::IoError(e) => Some(e),
            Detail::Error(_) => None,
        }
    }

    /// The human-readable message: the syntax message itself, or the cause rendered as text.
    pub fn message(&self) -> (r: String)
        ensures
            self.detail is Error ==> r@ == self.detail->Error_0@,
    {
        match &self.detail {
            Detail::IoError(e) => io_error_text(e),
            Detail::Error(msg) => msg.clone(),
        }
    }
}

} // verus!
