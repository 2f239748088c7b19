//! Readings of the answers of the server that the HTTP library and the
//! standard library make: the `Content-Length` and `Content-Disposition`
//! headers, and the decoding of a file name from UTF-8.

use vstd::prelude::*;
use vstd::utf8::*;
use hyper::header::{ContentDisposition, ContentLength, Header};

verus! {

/// The abstract content of a [`DispositionParam`].
pub enum DispositionParamView {
    Filename(Seq<u8>),
    Ext(Seq<char>, Seq<char>),
}

/// A parameter of a `Content-Disposition` header.
#[derive(Clone, PartialEq, Eq, Debug)]
pub enum DispositionParam {
    /// A file name, as the bytes that encode it.
    Filename(Vec<u8>),
    /// Any other parameter: its token and its value.
    Ext(String, String),
}

impl View for DispositionParam {
    type V = DispositionParamView;

    open spec fn view(&self) -> DispositionParamView {
        match self {
            DispositionParam::Filename(bytes) => DispositionParamView::Filename(bytes@),
            DispositionParam::Ext(token, value) => DispositionParamView::Ext(token@, value@),
        }
    }
}

/// The number that the ASCII decimal digits `digits` write.
pub open spec fn spec_digits_value(digits: Seq<u8>) -> int
    decreases digits.len(),
{
    if digits.len() == 0 {
        0
    } else {
        spec_digits_value(digits.drop_last()) * 10 + (digits.last() - 48)
    }
}

/// What `u64::from_str` reads from the bytes `line`: an optional `+` followed
/// by one or more ASCII digits, whose value fits in 64 bits; anything else is
/// an error.
pub open spec fn spec_u64_from_str(line: Seq<u8>) -> Option<u64> {
    let digits = if line.len() > 0 && line[0] == 43 {
        line.drop_first()
    } else {
        line
    };
    if digits.len() > 0 && (forall|i: int| 0 <= i < digits.len() ==> 48 <= #[trigger] digits[i] <= 57)
        && spec_digits_value(digits) <= u64::MAX {
        Some(spec_digits_value(digits) as u64)
    } else {
        None
    }
}

/// What the HTTP library reads from the lines `raw` of a `Content-Length`
/// header: the number that every line holds, where there is at least one line,
/// every line reads as a number, and all those numbers are equal.
pub open spec fn spec_content_length_value(raw: Seq<Seq<u8>>) -> Option<u64> {
    if raw.len() > 0 && spec_u64_from_str(raw[0]) is Some && (forall|i: int|
        0 <= i < raw.len() ==> #[trigger] spec_u64_from_str(raw[i]) == spec_u64_from_str(raw[0])) {
        spec_u64_from_str(raw[0])
    } else {
        None
    }
}

/// The parameters that the HTTP library reads from the lines `raw` of a
/// `Content-Disposition` header, in order, or `None` where it cannot read the
/// header.
pub uninterp spec fn content_disposition_parameters(raw: Seq<Seq<u8>>) -> Option<
    Seq<DispositionParamView>,
>;

/// Reads a `Content-Length` header from its raw lines with
/// `hyper::header::ContentLength::parse_header`, which reads each line as UTF-8
/// and then with `u64::from_str`, and accepts the lines when there is at least
/// one and they all give the same number. The contract claims that the result
/// is that number, and `None` where the lines are not accepted.
#[verifier::external_body]
pub(crate) fn read_content_length(raw: &Vec<Vec<u8>>) -> (value: Option<u64>)
    ensures
        value == spec_content_length_value(raw.deep_view()),
{
    ContentLength::parse_header(raw.as_slice()).ok().map(|header| header.0)
}

/// Reads the parameters of a `Content-Disposition` header from its raw lines
/// with `hyper::header::ContentDisposition::parse_header`, keeping of a file
/// name parameter its bytes and dropping its character set and language tag.
/// The contract claims that the result depends on the raw lines alone; how the
/// header is split into parameters is left to the library and not stated.
#[verifier::external_body]
pub(crate) fn read_content_disposition(raw: &Vec<Vec<u8>>) -> (parameters: Option<Vec<DispositionParam>>)
    ensures
        parameters is Some <==> content_disposition_parameters(raw.deep_view()) is Some,
        parameters matches Some(p) ==> p@.map_values(|param: DispositionParam| param@)
            == content_disposition_parameters(raw.deep_view())->0,
{
    ContentDisposition::parse_header(raw.as_slice()).ok().map(
        |header| header.parameters.into_iter().map(|param| match param {
            hyper::header::DispositionParam::Filename(_, _, bytes) => DispositionParam::Filename(bytes),
            hyper::header::DispositionParam::Ext(token, value) => DispositionParam::Ext(token, value),
        }).collect(),
    )
}

/// Decodes `bytes` as UTF-8 with `String::from_utf8`: a string exactly when
/// the bytes are valid UTF-8, holding the characters that they encode.
#[verifier::external_body]
pub(crate) fn string_from_utf8(bytes: Vec<u8>) -> (decoded: Option<String>)
    ensures
        decoded is Some <==> valid_utf8(bytes@),
        decoded matches Some(s) ==> s@ == decode_utf8(bytes@),
{
    String::from_utf8(bytes).ok()
}

} // verus!
