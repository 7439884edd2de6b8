//! The decision that follows running `cargo info`: what its exit status and
//! output make of the result.
use vstd::prelude::*;

use crate::parser::{parse, result_view, spec_parse, ParseError, ParseErrorView};
use crate::types::{CrateInfo, CrateInfoView};

verus! {

/// `std::io::Error`, which Verus sees as opaque: the error of launching a
/// process, carried through unread.
#[verifier::external_type_specification]
#[verifier::external_body]
pub struct ExIoError(std::io::Error);

/// An error that occurred while executing or parsing a `cargo info` command.
#[derive(Debug)]
pub enum ExecuteError {
    /// `cargo` could not be found or could not be launched.
    Io(std::io::Error),
    /// `cargo info` exited with a non-zero status.
    CargoError {
        /// The exit status code, or `-1` where none was available.
        code: i32,
        /// Standard error output from the `cargo info` invocation.
        stderr: String,
    },
    /// The command succeeded but its output could not be parsed.
    Parse(ParseError),
}

impl From<ParseError> for ExecuteError {
    /// A parse error of the command's output.
    fn from(e: ParseError) -> (r: Self) {
        ExecuteError::Parse(e)
    }
}

impl vstd::std_specs::convert::FromSpecImpl<ParseError> for ExecuteError {
    open spec fn obeys_from_spec() -> bool {
        true
    }

    open spec fn from_spec(e: ParseError) -> Self {
        ExecuteError::Parse(e)
    }
}

impl From<std::io::Error> for ExecuteError {
    /// A failure to launch the command.
    fn from(e: std::io::Error) -> (r: Self) {
        ExecuteError::Io(e)
    }
}

impl vstd::std_specs::convert::FromSpecImpl<std::io::Error> for ExecuteError {
    open spec fn obeys_from_spec() -> bool {
        true
    }

    open spec fn from_spec(e: std::io::Error) -> Self {
        ExecuteError::Io(e)
    }
}

/// The exit code that a failed run reports: the process's code, or `-1`
/// where it had none.
pub open spec fn reported_code(code: Option<i32>) -> i32 {
    match code {
        Some(c) => c,
        None => -1i32,
    }
}

/// Turns the outcome of one run of `cargo info -q <crate> --color never`
/// into its result: a run that did not succeed is a `CargoError` with its
/// exit code and standard error; a successful run's standard output is
/// parsed, and a parse error becomes `ExecuteError::Parse`.
pub fn interpret_cargo_output(success: bool, code: Option<i32>, stdout: &str, stderr: String) -> (r:
    Result<CrateInfo, ExecuteError>)
    ensures
        !success ==> (r matches Err(ExecuteError::CargoError { code: c, stderr: s }) && c
            == reported_code(code) && s@ == stderr@),
        success ==> (r matches Ok(info) && spec_parse(stdout@) == Ok::<
            CrateInfoView,
            ParseErrorView,
        >(info@)) || (r matches Err(ExecuteError::Parse(e)) && spec_parse(stdout@) == Err::<
            CrateInfoView,
            ParseErrorView,
        >(e@)),
{
    if !success {
        let c = match code {
            Some(c) => c,
            None => -1,
        };
        return Err(ExecuteError::CargoError { code: c, stderr });
    }
    let parsed = parse(stdout);
    proof {
        assert(result_view(parsed) == spec_parse(stdout@));
    }
    match parsed {
        Ok(info) => Ok(info),
        Err(e) => Err(ExecuteError::from(e)),
    }
}

} // verus!
