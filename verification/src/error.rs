//! Errors reported by the parser and the serializer.
use vstd::prelude::*;
use vstd::string::StringExecFns;

verus! {

/// The construct and the phase in which a failure was detected.
#[derive(Debug, Clone, Copy, PartialEq, Eq, Structural)]
pub enum JsonErrorKind {
    ParseErrorInObject,
    ParseErrorInKey,
    ParseErrorInValue,
    ParseErrorInString,
    ParseErrorInNumber,
    ParseErrorInBool,
    ParseErrorInNull,
    ParseErrorInArray,
    SerializeErrorInObject,
    SerializeErrorInKey,
    SerializeErrorInValue,
    SerializeErrorInString,
    SerializeErrorInNumber,
    SerializeErrorInBool,
    SerializeErrorInNull,
    SerializeErrorInArray,
}

/// The fixed message of an error kind.
pub open spec fn kind_message(kind: JsonErrorKind) -> Seq<char> {
    match kind {
        JsonErrorKind::ParseErrorInObject => "Parse error in object"@,
        JsonErrorKind::ParseErrorInKey => "Parse error in key"@,
        JsonErrorKind::ParseErrorInValue => "Parse error in value"@,
        JsonErrorKind::ParseErrorInString => "Parse error in string"@,
        JsonErrorKind::ParseErrorInNumber => "Parse error in number"@,
        JsonErrorKind::ParseErrorInBool => "Parse error in bool"@,
        JsonErrorKind::ParseErrorInNull => "Parse error in null"@,
        JsonErrorKind::ParseErrorInArray => "Parse error in array"@,
        JsonErrorKind::SerializeErrorInObject => "Serialize error in object"@,
        JsonErrorKind::SerializeErrorInKey => "Serialize error in key"@,
        JsonErrorKind::SerializeErrorInValue => "Serialize error in value"@,
        JsonErrorKind::SerializeErrorInString => "Serialize error in string"@,
        JsonErrorKind::SerializeErrorInNumber => "Serialize error in number"@,
        JsonErrorKind::SerializeErrorInBool => "Serialize error in bool"@,
        JsonErrorKind::SerializeErrorInNull => "Serialize error in null"@,
        JsonErrorKind::SerializeErrorInArray => "Serialize error in array"@,
    }
}

/// True for the eight kinds of the parse phase.
pub open spec fn is_parse_kind(kind: JsonErrorKind) -> bool {
    match kind {
        JsonErrorKind::ParseErrorInObject
        | JsonErrorKind::ParseErrorInKey
        | JsonErrorKind::ParseErrorInValue
        | JsonErrorKind::ParseErrorInString
        | JsonErrorKind::ParseErrorInNumber
        | JsonErrorKind::ParseErrorInBool
        | JsonErrorKind::ParseErrorInNull
        | JsonErrorKind::ParseErrorInArray => true,
        _ => false,
    }
}

impl JsonErrorKind {
    /// The fixed message of this kind.
    pub fn message(&self) -> (text: &'static str)
        ensures
            text@ == kind_message(*self),
    {
        match self {
            JsonErrorKind::ParseErrorInObject => "Parse error in object",
            JsonErrorKind::ParseErrorInKey => "Parse error in key",
            JsonErrorKind::ParseErrorInValue => "Parse error in value",
            JsonErrorKind::ParseErrorInString => "Parse error in string",
            JsonErrorKind::ParseErrorInNumber => "Parse error in number",
            JsonErrorKind::ParseErrorInBool => "Parse error in bool",
            JsonErrorKind::ParseErrorInNull => "Parse error in null",
            JsonErrorKind::ParseErrorInArray => "Parse error in array",
            JsonErrorKind::SerializeErrorInObject => "Serialize error in object",
            JsonErrorKind::SerializeErrorInKey => "Serialize error in key",
            JsonErrorKind::SerializeErrorInValue => "Serialize error in value",
            JsonErrorKind::SerializeErrorInString => "Serialize error in string",
            JsonErrorKind::SerializeErrorInNumber => "Serialize error in number",
            JsonErrorKind::SerializeErrorInBool => "Serialize error in bool",
            JsonErrorKind::SerializeErrorInNull => "Serialize error in null",
            JsonErrorKind::SerializeErrorInArray => "Serialize error in array",
        }
    }
}

/// A failed parse or serialize call: the kind, and optionally a detail text.
#[derive(Debug, Clone, PartialEq)]
pub struct JsonError {
    pub err_kind: JsonErrorKind,
    pub op_additional_message: Option<String>,
}

/// The text an error is shown as: the message of its kind, followed by
/// `" : "` and the detail where there is one.
pub open spec fn shown_text(kind: JsonErrorKind, detail: Option<Seq<char>>) -> Seq<char> {
    match detail {
        Some(d) => kind_message(kind) + " : "@ + d,
        None => kind_message(kind),
    }
}

impl JsonError {
    /// The detail text, as a sequence of characters.
    pub open spec fn detail(&self) -> Option<Seq<char>> {
        match self.op_additional_message {
            Some(m) => Some(m@),
            None => None,
        }
    }

    /// An error of a kind, with or without a detail text.
    pub fn new(err_kind: JsonErrorKind, op_additional_message: Option<String>) -> (err: JsonError)
        ensures
            err.err_kind == err_kind,
            err.op_additional_message == op_additional_message,
    {
        JsonError { err_kind, op_additional_message }
    }

    /// The text this error is shown as.
    pub fn to_string(&self) -> (text: String)
        ensures
            text@ == shown_text(self.err_kind, self.detail()),
    {
        let mut text = String::from_str(self.err_kind.message());
        match &self.op_additional_message {
            Some(detail) => {
                text.append(" : ");
                text.append(detail.as_str());
            },
            None => {},
        }
        text
    }
}

/// What the library's fallible functions return.
pub type Result<T> = std::result::Result<T, JsonError>;

} // verus!
