//! Command line arguments: what they are before parsing, and what the outcome
//! of parsing them makes of them.

use vstd::prelude::*;
use crate::download;
use crate::program;

verus! {

/// Parsed command line arguments.
#[derive(Clone, PartialEq, Eq, Debug)]
pub struct Arguments {
    /// The target URL to download.
    pub target_url: String,
    /// The container for program execution options.
    pub program_options: program::Options,
    /// The container for download options.
    pub download_options: download::Options,
}

/// The possible parsing errors.
#[derive(PartialEq, Eq, Debug)]
pub enum ParseError {
    /// The application was invoked with `--help`.
    OnlyHelpRequested,
    /// The arguments parsed have an invalid form.
    InvalidArguments,
    /// An unknown error has occurred.
    Unknown,
}

impl Arguments {
    /// The arguments that parsing starts from and fills in: no target URL,
    /// and the default program and download options.
    pub fn unparsed() -> (arguments: Arguments)
        ensures
            arguments.target_url@ == Seq::<char>::empty(),
            arguments.program_options.be_verbose,
            arguments.download_options.thread_count == 4,
            arguments.download_options.chunk_size == 5000,
            arguments.download_options.output_directory@ == "./"@,
            arguments.download_options.output_file_name@ == Seq::<char>::empty(),
    {
        Arguments {
            target_url: String::new(),
            program_options: program::Options::default(),
            download_options: download::Options::default(),
        }
    }
}

/// The parse error that an exit code of the argument parser stands for: `0`
/// when only help (or the version) was asked for, `2` when the arguments have
/// an invalid form, anything else unknown.
pub open spec fn spec_parse_error(code: i32) -> ParseError {
    if code == 0 {
        ParseError::OnlyHelpRequested
    } else if code == 2 {
        ParseError::InvalidArguments
    } else {
        ParseError::Unknown
    }
}

/// Concludes the parsing of the command line: `arguments` as the parser
/// filled them in when it succeeded, else the error that its exit code stands
/// for (see [`spec_parse_error`]).
///
/// # Errors
///
/// `Err(ParseError::OnlyHelpRequested)` when the application was invoked with
/// `--help`, `Err(ParseError::InvalidArguments)` when one or more arguments
/// have an invalid form, and `Err(ParseError::Unknown)` when the error could
/// not be identified.
pub fn parse_arguments(arguments: Arguments, outcome: Result<(), i32>) -> (result: Result<
    Arguments,
    ParseError,
>)
    ensures
        outcome is Ok ==> result == Ok::<Arguments, ParseError>(arguments),
        outcome matches Err(code) ==> result == Err::<Arguments, ParseError>(spec_parse_error(code)),
{
    match outcome {
        Ok(()) => Ok(arguments),
        Err(0) => Err(ParseError::OnlyHelpRequested),
        Err(2) => Err(ParseError::InvalidArguments),
        Err(_) => Err(ParseError::Unknown),
    }
}

} // verus!
