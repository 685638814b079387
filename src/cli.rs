//! Options of the command-line front end.
use vstd::prelude::*;
use crate::text::{push_all, string_of};
use vstd::string::StringExecFns;

verus! {

/// What the command line asks for.
pub struct Args {
    /// Show the average result for each dice expression.
    pub show_average: bool,
    /// Show the minimum and maximum possible result for each dice expression.
    pub show_range: bool,
    /// Show only the roll results (incompatible with the two above).
    pub quiet: bool,
    /// Optional seed for the random number generator.
    pub seed: Option<u64>,
    /// One or more dice expressions to evaluate.
    pub expressions: Vec<String>,
}

/// Error returned for a bad combination of command-line options.
pub struct InvalidArgumentError {
    pub msg: String,
}

impl InvalidArgumentError {
    /// The error as text.
    pub fn print(&self) -> (r: String)
        ensures
            r@ == "InvalidArgumentError: "@ + self.msg@,
    {
        let mut out: Vec<char> = Vec::new();
        push_all(&mut out, "InvalidArgumentError: ");
        push_all(&mut out, self.msg.as_str());
        string_of(&out)
    }
}

/// Refuses quiet output together with the average or the range.
pub fn sanity_check(args: &Args) -> (r: Result<(), InvalidArgumentError>)
    ensures
        r is Err <==> args.quiet && (args.show_range || args.show_average),
        r is Err ==> r->Err_0.msg@
            == "Invalid arguments: -q/--quiet is not compatible with -a/--average and -r/--range"@,
{
    if args.quiet && (args.show_range || args.show_average) {
        return Err(
            InvalidArgumentError {
                msg: String::from_str(
                    "Invalid arguments: -q/--quiet is not compatible with -a/--average and -r/--range",
                ),
            },
        );
    }
    Ok(())
}

} // verus!
