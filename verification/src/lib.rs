//! Parse the output of `cargo info` into well-typed Rust structures.
//!
//! - [`CrateInfo`]: everything `cargo info` reports about a crate.
//! - [`Feature`]: a single Cargo feature flag with its dependency list.
//! - [`parse()`]: parses the text output of `cargo info -q <crate> --color
//!   never` into a [`CrateInfo`].
//! - [`strip_ansi_escapes()`]: removes ANSI/VT100 color sequences from a
//!   string before it is parsed, for cases where `--color never` cannot be
//!   used.
//! - [`interpret_cargo_output()`]: the result of one run of `cargo info`,
//!   from its exit status and output.
use vstd::prelude::*;
use vstd::utf8::{decode_utf8, decode_utf8_encode_utf8, encode_utf8, valid_utf8};
use vstd::string::StringSliceAdditionalSpecFns;

pub mod executor;
pub mod laws;
pub mod parser;
pub mod text;
pub mod types;

pub use executor::{interpret_cargo_output, ExecuteError};
pub use parser::{
    is_known_key_line, parse, parse_feature_line, parse_header, strip_key, ParseError, RawFields,
};
pub use types::{CrateInfo, Feature};

verus! {

/// The bytes that `strip_ansi_escapes::strip` leaves of `data`: what a VT100
/// parser reads as printable characters, UTF-8 encoded, and line feeds.
pub uninterp spec fn ansi_stripped(data: Seq<u8>) -> Seq<u8>;

/// Calls `strip_ansi_escapes::strip`. Its result is named `ansi_stripped`.
/// The crate's source writes each printable character that the VT100 parser
/// reports with `write!("{}", c)` and each line feed with `writeln!`, and
/// nothing else, so the result is valid UTF-8.
#[verifier::external_body]
fn strip_bytes(data: &[u8]) -> (out: Vec<u8>)
    ensures
        out@ == ansi_stripped(data@),
        valid_utf8(out@),
{
    ::strip_ansi_escapes::strip(data)
}

/// Calls `String::from_utf8`, which std documents to succeed exactly when
/// the bytes are valid UTF-8, and then to hold the text they encode.
#[verifier::external_body]
fn string_from_utf8(bytes: Vec<u8>) -> (r: Option<String>)
    ensures
        r is Some <==> valid_utf8(bytes@),
        r matches Some(s) ==> s@ == decode_utf8(bytes@),
{
    String::from_utf8(bytes).ok()
}

/// Strips ANSI/VT100 escape sequences from the given string.
///
/// `cargo info` emits ANSI SGR color codes when writing to a terminal.
/// Passing `--color never` suppresses them; this function is the
/// alternative when the command's flags cannot be controlled. Sequence
/// removal is delegated to the `strip-ansi-escapes` crate.
pub fn strip_ansi_escapes(input: &str) -> (out: String)
    ensures
        encode_utf8(out@) == ansi_stripped(input.spec_bytes()),
        out@ == decode_utf8(ansi_stripped(input.spec_bytes())),
{
    let stripped = strip_bytes(input.as_bytes());
    proof {
        decode_utf8_encode_utf8(stripped@);
    }
    match string_from_utf8(stripped) {
        Some(s) => s,
        None => {
            proof {
                assert(false);
            }
            String::new()
        },
    }
}

} // verus!
