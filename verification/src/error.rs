//! The ways in which loading metadata fails.
use vstd::prelude::*;

verus! {

/// Why metadata could not be loaded.
#[derive(Debug, PartialEq, Eq)]
pub enum LoadError {
    /// The XML tokenizer stopped on malformed input (its message).
    Xml(String),
    /// A name, attribute or text that had to be read as a string is not UTF-8.
    Utf8,
    /// An attribute that holds a number is not a decimal `u16`.
    ParseInt,
    /// An attribute that holds a boolean is neither `true` nor `false`.
    ParseBool,
    /// An end tag closes an element other than the one being read.
    MismatchedTag(String),
    /// The document ends inside an element.
    UnexpectedEof,
    /// An attribute that the element being read does not take.
    UnhandledAttribute { phase: String, name: String, value: String },
    /// A child element that the element being read does not take.
    UnhandledElement { phase: String, name: String },
}

/// Mathematical model of an error.
pub enum ErrorModel {
    Xml(Seq<char>),
    Utf8,
    ParseInt,
    ParseBool,
    MismatchedTag(Seq<char>),
    UnexpectedEof,
    UnhandledAttribute { phase: Seq<char>, name: Seq<char>, value: Seq<char> },
    UnhandledElement { phase: Seq<char>, name: Seq<char> },
}

impl View for LoadError {
    type V = ErrorModel;

    open spec fn view(&self) -> ErrorModel {
        match self {
            LoadError::Xml(message) => ErrorModel::Xml(message@),
            LoadError::Utf8 => ErrorModel::Utf8,
            LoadError::ParseInt => ErrorModel::ParseInt,
            LoadError::ParseBool => ErrorModel::ParseBool,
            LoadError::MismatchedTag(name) => ErrorModel::MismatchedTag(name@),
            LoadError::UnexpectedEof => ErrorModel::UnexpectedEof,
            LoadError::UnhandledAttribute { phase, name, value } => ErrorModel::UnhandledAttribute {
                phase: phase@,
                name: name@,
                value: value@,
            },
            LoadError::UnhandledElement { phase, name } => ErrorModel::UnhandledElement {
                phase: phase@,
                name: name@,
            },
        }
    }
}

} // verus!
