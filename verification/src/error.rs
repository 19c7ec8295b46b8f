//! The one error that decoding reports.

use vstd::prelude::*;
use vstd::string::StringExecFns;

verus! {

/// Decoding failed. The message says what could not be read.
#[derive(Debug, Clone, PartialEq, Eq)]
pub enum Error {
    Serde(String),
}

impl View for Error {
    type V = Seq<char>;

    /// An error is its message.
    open spec fn view(&self) -> Seq<char> {
        match self {
            Error::Serde(message) => message@,
        }
    }
}

/// What an error with this message prints as.
pub open spec fn display_text(message: Seq<char>) -> Seq<char> {
    "serde: "@ + message
}

/// The message for a text that was asked for as a boolean and is neither
/// "true" nor "false".
pub open spec fn invalid_bool_text(text: Seq<char>) -> Seq<char> {
    "provided string `"@ + text + "` was not `true` or `false`"@
}

/// The message for a field that no pair supplied.
pub open spec fn missing_field_text(name: Seq<char>) -> Seq<char> {
    "missing field `"@ + name + "`"@
}

/// The message for a field that a second pair supplied again.
pub open spec fn duplicate_field_text(name: Seq<char>) -> Seq<char> {
    "duplicate field `"@ + name + "`"@
}

/// The message for a pair that names no field, where that is refused.
pub open spec fn unknown_field_text(name: Seq<char>) -> Seq<char> {
    "unknown field `"@ + name + "`"@
}

impl Error {
    /// An error that carries `message`.
    pub fn custom(message: &str) -> (error: Error)
        ensures
            error@ == message@,
    {
        Error::Serde(String::from_str(message))
    }

    /// The message that the error carries.
    pub fn message(&self) -> (message: &str)
        ensures
            message@ == self@,
    {
        match self {
            Error::Serde(message) => message.as_str(),
        }
    }

    /// The error as it is shown to a user: the message behind "serde: ".
    pub fn to_string(&self) -> (shown: String)
        ensures
            shown@ == display_text(self@),
    {
        let mut shown = String::from_str("serde: ");
        shown.append(self.message());
        shown
    }

    /// The error for a text that is no boolean.
    pub fn invalid_bool(text: &str) -> (error: Error)
        ensures
            error@ == invalid_bool_text(text@),
    {
        let mut message = String::from_str("provided string `");
        message.append(text);
        message.append("` was not `true` or `false`");
        Error::Serde(message)
    }

    /// The error for a field that no pair supplied.
    pub fn missing_field(name: &str) -> (error: Error)
        ensures
            error@ == missing_field_text(name@),
    {
        let mut message = String::from_str("missing field `");
        message.append(name);
        message.append("`");
        Error::Serde(message)
    }

    /// The error for a field that a second pair supplied again.
    pub fn duplicate_field(name: &str) -> (error: Error)
        ensures
            error@ == duplicate_field_text(name@),
    {
        let mut message = String::from_str("duplicate field `");
        message.append(name);
        message.append("`");
        Error::Serde(message)
    }

    /// The error for a pair that names no field, where that is refused.
    pub fn unknown_field(name: &str) -> (error: Error)
        ensures
            error@ == unknown_field_text(name@),
    {
        let mut message = String::from_str("unknown field `");
        message.append(name);
        message.append("`");
        Error::Serde(message)
    }
}

} // verus!
