//! Command-line flag recognition: each known option maps to one flag, in
//! argument order; anything unknown is passed over.

use vstd::prelude::*;

use crate::strings::str_eq;

verus! {

/// One recognized command-line option.
#[derive(Clone, Copy, Debug, PartialEq, Eq, Structural)]
pub enum Flag {
    Help,
    Version,
    Debug,
    Verbose,
    Error,
}

/// The flag one argument denotes, if any.
pub open spec fn spec_flag_of(arg: Seq<char>) -> Option<Flag> {
    if arg == "-h"@ || arg == "--help"@ {
        Some(Flag::Help)
    } else if arg == "-v"@ || arg == "--version"@ {
        Some(Flag::Version)
    } else if arg == "-d"@ || arg == "--debug"@ {
        Some(Flag::Debug)
    } else if arg == "-V"@ || arg == "--verbose"@ {
        Some(Flag::Verbose)
    } else if arg == "-E"@ || arg == "--error"@ {
        Some(Flag::Error)
    } else {
        None
    }
}

/// The flags a whole argument list denotes, in order.
pub open spec fn spec_parse_args(args: Seq<Seq<char>>) -> Seq<Flag>
    decreases args.len(),
{
    if args.len() == 0 {
        Seq::empty()
    } else {
        let rest = spec_parse_args(args.drop_last());
        match spec_flag_of(args.last()) {
            Some(f) => rest.push(f),
            None => rest,
        }
    }
}

/// Recognizes the known options among the arguments, in order.
pub fn parse_args(args: &Vec<String>) -> (flags: Vec<Flag>)
    ensures
        flags@ =~= spec_parse_args(args.deep_view()),
{
    let n = args.len();
    let mut flags: Vec<Flag> = Vec::new();
    let mut i: usize = 0;
    while i < n
        invariant
            n == args@.len(),
            i <= n,
            flags@ =~= spec_parse_args(args.deep_view().take(i as int)),
        decreases n - i,
    {
        proof {
            assert(args.deep_view().take(i + 1).drop_last() =~= args.deep_view().take(i as int));
            assert(args.deep_view().take(i + 1).last() == args.deep_view()[i as int]);
        }
        let a = args[i].as_str();
        if str_eq(a, "-h") || str_eq(a, "--help") {
            flags.push(Flag::Help);
        } else if str_eq(a, "-v") || str_eq(a, "--version") {
            flags.push(Flag::Version);
        } else if str_eq(a, "-d") || str_eq(a, "--debug") {
            flags.push(Flag::Debug);
        } else if str_eq(a, "-V") || str_eq(a, "--verbose") {
            flags.push(Flag::Verbose);
        } else if str_eq(a, "-E") || str_eq(a, "--error") {
            flags.push(Flag::Error);
        }
        i = i + 1;
    }
    proof {
        assert(args.deep_view().take(n as int) =~= args.deep_view());
    }
    flags
}

} // verus!
