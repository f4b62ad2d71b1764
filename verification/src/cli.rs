//! The arguments every agent answers the same way: `--version`/`-V`,
//! `status` and `top` as the first argument.

use crate::text::{chars_of, concat_chars, str_eq, string_of};
use vstd::prelude::*;

verus! {

/// What the first command-line argument asks for.
pub enum CommonArg {
    /// Print `<bin_name> <version>` and exit.
    Version,
    /// Print one status snapshot and exit.
    Status,
    /// Run the live status view and exit.
    Top,
    /// Not a common argument: the agent starts normally.
    Continue,
}

/// The common argument named by `first` (the first argument after the
/// program name, if there is one).
pub fn common_arg(first: Option<&str>) -> (a: CommonArg)
    ensures
        a == (match first {
            None => CommonArg::Continue,
            Some(s) => if s@ == "--version"@ || s@ == "-V"@ {
                CommonArg::Version
            } else if s@ == "status"@ {
                CommonArg::Status
            } else if s@ == "top"@ {
                CommonArg::Top
            } else {
                CommonArg::Continue
            },
        }),
{
    match first {
        None => CommonArg::Continue,
        Some(s) => {
            if str_eq(s, "--version")
                || str_eq(s, "-V") {
                CommonArg::Version
            } else if str_eq(s, "status") {
                CommonArg::Status
            } else if str_eq(s, "top") {
                CommonArg::Top
            } else {
                CommonArg::Continue
            }
        },
    }
}

/// The `--version` line: `<bin_name> <version>`.
pub fn version_text(bin_name: &str, version: &str) -> (t: String)
    ensures
        t@ == bin_name@ + " "@ + version@,
{
    let a = chars_of(bin_name);
    let sp = chars_of(" ");
    let b = chars_of(version);
    let head = concat_chars(&a, &sp);
    let all = concat_chars(&head, &b);
    string_of(&all)
}

} // verus!
