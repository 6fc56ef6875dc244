//! Command-line options and the classification of raw argument lists.

use crate::text::str_eq;
use vstd::prelude::*;

verus! {

/// What the user asked for: verbosity, and an optional restriction of the
/// displayed report to chosen paths.
pub struct Options {
    pub verbose: bool,
    pub paths: Vec<String>,
}

/// What a run of the program should do, as decided by the arguments.
pub enum Command {
    Run(Options),
    ShowHelp,
    ShowVersion,
}

/// A fatal command-line error: an argument beginning with `-` that is not a
/// recognized flag. The offending argument is carried verbatim.
#[derive(Debug)]
pub enum CliError {
    UnexpectedFlag(String),
}

/// Ghost counterpart of a parse outcome, over sequences of characters.
pub ghost enum SpecCommand {
    Run { verbose: bool, paths: Seq<Seq<char>> },
    ShowHelp,
    ShowVersion,
    UnexpectedFlag(Seq<char>),
}

/// The outcome of scanning `args[i..]`, having already seen `verbose` and
/// `paths`. Arguments are classified left to right; the first `--help`/`-h`,
/// `--version`/`-V` or unrecognized flag decides the outcome.
pub open spec fn spec_parse_from(
    args: Seq<Seq<char>>,
    i: int,
    verbose: bool,
    paths: Seq<Seq<char>>,
) -> SpecCommand
    decreases args.len() - i,
{
    if i < 0 || i >= args.len() {
        SpecCommand::Run { verbose, paths }
    } else if args[i] == "--help"@ || args[i] == "-h"@ {
        SpecCommand::ShowHelp
    } else if args[i] == "--verbose"@ {
        spec_parse_from(args, i + 1, true, paths)
    } else if args[i] == "--version"@ || args[i] == "-V"@ {
        SpecCommand::ShowVersion
    } else if args[i].len() > 0 && args[i][0] == '-' {
        SpecCommand::UnexpectedFlag(args[i])
    } else {
        spec_parse_from(args, i + 1, verbose, paths.push(args[i]))
    }
}

/// The outcome of classifying a whole argument list (without the program name).
pub open spec fn spec_parse(args: Seq<Seq<char>>) -> SpecCommand {
    spec_parse_from(args, 0, false, Seq::empty())
}

/// The ghost outcome that an executable parse result stands for.
pub open spec fn parse_result_view(r: Result<Command, CliError>) -> SpecCommand {
    match r {
        Ok(Command::Run(options)) => SpecCommand::Run {
            verbose: options.verbose,
            paths: options.paths.deep_view(),
        },
        Ok(Command::ShowHelp) => SpecCommand::ShowHelp,
        Ok(Command::ShowVersion) => SpecCommand::ShowVersion,
        Err(CliError::UnexpectedFlag(arg)) => SpecCommand::UnexpectedFlag(arg@),
    }
}

impl Options {
    /// Whether the report should display `path`: an empty path list means
    /// every path is displayed, otherwise only the listed ones are.
    pub open spec fn spec_included_path(&self, path: Seq<char>) -> bool {
        self.paths@.len() == 0 || exists|i: int|
            0 <= i < self.paths@.len() && #[trigger] self.paths@[i]@ == path
    }

    pub fn included_path(&self, path: &String) -> (r: bool)
        ensures
            r == self.spec_included_path(path@),
    {
        if self.paths.len() == 0 {
            return true;
        }
        let mut i: usize = 0;
        while i < self.paths.len()
            invariant
                i <= self.paths.len(),
                forall|j: int| 0 <= j < i ==> #[trigger] self.paths@[j]@ != path@,
            decreases self.paths.len() - i,
        {
            if self.paths[i] == *path {
                return true;
            }
            i += 1;
        }
        false
    }

    /// Classify an argument list (the arguments after the program name).
    /// `--verbose` accumulates, a bare word accumulates as a path, and the
    /// first help, version or unrecognized flag decides the outcome instead.
    pub fn parse(args: &Vec<String>) -> (r: Result<Command, CliError>)
        ensures
            parse_result_view(r) == spec_parse(args.deep_view()),
    {
        let mut verbose = false;
        let mut paths: Vec<String> = Vec::new();
        proof {
            assert(paths.deep_view() =~= Seq::<Seq<char>>::empty());
        }
        let mut i: usize = 0;
        while i < args.len()
            invariant
                i <= args.len(),
                spec_parse(args.deep_view()) == spec_parse_from(
                    args.deep_view(),
                    i as int,
                    verbose,
                    paths.deep_view(),
                ),
            decreases args.len() - i,
        {
            let arg = &args[i];
            proof {
                assert(args.deep_view()[i as int] == arg@);
            }
            if str_eq(arg.as_str(), "--help") || str_eq(arg.as_str(), "-h") {
                return Ok(Command::ShowHelp);
            } else if str_eq(arg.as_str(), "--verbose") {
                verbose = true;
            } else if str_eq(arg.as_str(), "--version") || str_eq(arg.as_str(), "-V") {
                return Ok(Command::ShowVersion);
            } else if arg.as_str().unicode_len() > 0 && arg.as_str().get_char(0) == '-' {
                return Err(CliError::UnexpectedFlag(arg.clone()));
            } else {
                let ghost prior = paths.deep_view();
                paths.push(arg.clone());
                proof {
                    assert(paths.deep_view() =~= prior.push(arg@));
                }
            }
            i += 1;
        }
        Ok(Command::Run(Options { verbose, paths }))
    }
}

impl Default for Options {
    /// No verbosity and no path restriction.
    fn default() -> (r: Self)
        ensures
            !r.verbose,
            r.paths@.len() == 0,
    {
        Options { verbose: false, paths: Vec::new() }
    }
}

} // verus!
