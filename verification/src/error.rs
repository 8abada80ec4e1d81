//! The error taxonomy of one document's parse. Every anomaly is non-fatal:
//! it is rendered into a description and appended to the document's report.

use vstd::prelude::*;
use vstd::string::StringExecFns;

use crate::numstr::dec_digits;

verus! {

/// One anomaly met while turning an event stream into a book.
#[derive(Debug)]
pub enum Error {
    /// A free-form description.
    Custom(String),
    /// A source file name with no two-digit volume number in it.
    UnexpectedFilename { file_name: String },
    /// A number marker whose text held no usable digits, or a value out of range.
    NumberParseFailure { text: String },
    /// A line event with no open draft: the line is dropped.
    OrphanLine { line: String },
    /// A finalized draft whose id is already present in the book.
    DuplicatePoem { number: u32 },
    /// A draft filed into the pending index but never paired by stream end.
    NoTranslationForPoem { number: u32 },
    /// A stream that ended with no draft ever opened.
    NoPoemsInBook { number: u32 },
}

pub open spec fn custom_msg(text: Seq<char>) -> Seq<char> {
    "Custom: "@ + text
}

pub open spec fn unexpected_filename_msg(name: Seq<char>) -> Seq<char> {
    "UnexpectedFilename: "@ + name
}

pub open spec fn parse_fail_msg(text: Seq<char>) -> Seq<char> {
    "NumberParseFailure: "@ + text
}

pub open spec fn orphan_msg(line: Seq<char>) -> Seq<char> {
    "OrphanLine: "@ + line
}

pub open spec fn dup_msg(number: u32) -> Seq<char> {
    "DuplicatePoem: "@ + dec_digits(number as nat)
}

pub open spec fn no_trans_msg(number: u32) -> Seq<char> {
    "NoTranslationForPoem: "@ + dec_digits(number as nat)
}

pub open spec fn no_poems_msg(number: u32) -> Seq<char> {
    "NoPoemsInBook: "@ + dec_digits(number as nat)
}

/// The rendered description of an error, as the report stores it.
pub open spec fn error_msg(e: Error) -> Seq<char> {
    match e {
        Error::Custom(text) => custom_msg(text@),
        Error::UnexpectedFilename { file_name } => unexpected_filename_msg(file_name@),
        Error::NumberParseFailure { text } => parse_fail_msg(text@),
        Error::OrphanLine { line } => orphan_msg(line@),
        Error::DuplicatePoem { number } => dup_msg(number),
        Error::NoTranslationForPoem { number } => no_trans_msg(number),
        Error::NoPoemsInBook { number } => no_poems_msg(number),
    }
}

impl Error {
    /// A free-form error from any description.
    pub fn custom(val: String) -> (e: Error)
        ensures
            e == Error::Custom(val),
    {
        Error::Custom(val)
    }

    /// The rendered description of this error.
    pub fn describe(&self) -> (r: String)
        ensures
            r@ == error_msg(*self),
    {
        match self {
            Error::Custom(text) => {
                let mut r = String::from_str("Custom: ");
                r.append(text.as_str());
                r
            },
            Error::UnexpectedFilename { file_name } => {
                let mut r = String::from_str("UnexpectedFilename: ");
                r.append(file_name.as_str());
                r
            },
            Error::NumberParseFailure { text } => {
                let mut r = String::from_str("NumberParseFailure: ");
                r.append(text.as_str());
                r
            },
            Error::OrphanLine { line } => {
                let mut r = String::from_str("OrphanLine: ");
                r.append(line.as_str());
                r
            },
            Error::DuplicatePoem { number } => {
                let mut r = String::from_str("DuplicatePoem: ");
                let d = crate::numstr::u32_to_string(*number);
                r.append(d.as_str());
                r
            },
            Error::NoTranslationForPoem { number } => {
                let mut r = String::from_str("NoTranslationForPoem: ");
                let d = crate::numstr::u32_to_string(*number);
                r.append(d.as_str());
                r
            },
            Error::NoPoemsInBook { number } => {
                let mut r = String::from_str("NoPoemsInBook: ");
                let d = crate::numstr::u32_to_string(*number);
                r.append(d.as_str());
                r
            },
        }
    }
}

/// The result of an operation that can meet such an anomaly.
pub type PoemResult<T> = core::result::Result<T, Error>;

} // verus!
