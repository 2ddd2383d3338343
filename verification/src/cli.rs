//! The one thing the checker is configured with: its starting URL.

use vstd::prelude::*;

use crate::address::{parsed_url, Url};
use crate::scope::{checkable_scheme, is_checkable};
use crate::text::same_text;

verus! {

broadcast use vstd::string::to_string_from_display_ensures_for_str;

/// What the command line asks for.
#[derive(Debug)]
pub enum Invocation {
    /// `-h` or `--help`: print the usage and stop.
    Help,
    /// Check the links under this URL.
    Check(Url),
}

/// What std's `Debug` formatting makes of a string: the string in double
/// quotes, with quotes, backslashes and unprintable characters escaped.
pub uninterp spec fn debug_quoted(s: Seq<char>) -> Seq<char>;

/// Formats `s` with std's `Debug` (`format!("{s:?}")`). The contract claims
/// only that the result is the one named by `debug_quoted` for `s`.
#[verifier::external_body]
fn quoted(s: &str) -> (r: String)
    ensures
        r@ == debug_quoted(s@),
{
    format!("{s:?}")
}

/// The argument asks for help.
pub open spec fn asks_for_help(arg: Seq<char>) -> bool {
    arg == "-h"@ || arg == "--help"@
}

/// Reads the command-line arguments (without the program's name): exactly
/// one starting URL, absolute, with an http or https scheme; or a request
/// for help as the first argument. Anything else is refused with a sentence
/// saying why.
pub fn start_url(args: &Vec<String>) -> (r: Result<Invocation, String>)
    ensures
        args.len() == 0 ==> (r matches Err(m) && m@ == "missing the starting URL"@),
        args.len() > 0 && asks_for_help(args@[0]@) ==> r matches Ok(Invocation::Help),
        args.len() > 1 && !asks_for_help(args@[0]@) ==> (r matches Err(m) && m@
            == "expected exactly one starting URL"@),
        args.len() == 1 && !asks_for_help(args@[0]@) ==> match parsed_url(args@[0]@) {
            Err(e) => r matches Err(m) && m@ == debug_quoted(args@[0]@) + " is not a URL: "@ + e,
            Ok(u) => if checkable_scheme(u.scheme) {
                r matches Ok(Invocation::Check(url)) && url@ == u
            } else {
                r matches Err(m) && m@ == debug_quoted(args@[0]@) + " is not an http or https URL"@
            },
        },
{
    if args.len() == 0 {
        return Err("missing the starting URL".to_string());
    }
    let argument = args[0].as_str();
    if same_text(argument, "-h") || same_text(argument, "--help") {
        return Ok(Invocation::Help);
    }
    if args.len() > 1 {
        return Err("expected exactly one starting URL".to_string());
    }
    match Url::parse(argument) {
        Err(error) => {
            let mut message = quoted(argument);
            message.append(" is not a URL: ");
            message.append(error.as_str());
            Err(message)
        },
        Ok(url) => {
            if is_checkable(&url) {
                Ok(Invocation::Check(url))
            } else {
                let mut message = quoted(argument);
                message.append(" is not an http or https URL");
                Err(message)
            }
        },
    }
}

} // verus!
