//! The command line of the corpus validator: `validate [--json] <path>...`.

use vstd::prelude::*;

use crate::text::text_is;

verus! {

/// A well-formed `validate` command.
#[derive(Debug, Clone, PartialEq)]
pub struct ValidateCommand {
    /// Print the report as JSON.
    pub json_output: bool,
    /// The files and corpus directories to check, in order.
    pub paths: Vec<String>,
}

/// Why a command line was refused (the shell prints the usage and exits with 2).
#[derive(Debug, Clone, PartialEq)]
pub enum UsageError {
    /// No subcommand.
    MissingSubcommand,
    /// A subcommand other than `validate`.
    UnknownSubcommand { command: String },
    /// An argument starting with `-` other than `--json`.
    UnknownFlag { flag: String },
    /// No path to check.
    NoPaths,
}

/// The outcome of reading a command line, with its texts taken by their characters.
pub enum ParsedView {
    Command { json_output: bool, paths: Seq<Seq<char>> },
    MissingSubcommand,
    UnknownSubcommand { command: Seq<char> },
    UnknownFlag { flag: Seq<char> },
    NoPaths,
}

/// Reading the arguments after the subcommand, left to right: `--json` sets the JSON
/// flag, any other argument starting with `-` is refused (the first one met), the
/// rest are paths.  `Err` carries the refused flag.
pub open spec fn read_options(rest: Seq<Seq<char>>) -> Result<(bool, Seq<Seq<char>>), Seq<char>>
    decreases rest.len(),
{
    if rest.len() == 0 {
        Ok((false, Seq::empty()))
    } else {
        match read_options(rest.drop_last()) {
            Err(flag) => Err(flag),
            Ok((json, paths)) => {
                let arg = rest.last();
                if arg == "--json"@ {
                    Ok((true, paths))
                } else if arg.len() > 0 && arg[0] == '-' {
                    Err(arg)
                } else {
                    Ok((json, paths.push(arg)))
                }
            },
        }
    }
}

/// A refused flag stays refused whatever follows it.
proof fn lemma_read_options_error_persists(s: Seq<Seq<char>>, k: int)
    requires
        0 <= k <= s.len(),
        read_options(s.take(k)) is Err,
    ensures
        read_options(s) == read_options(s.take(k)),
    decreases s.len(),
{
    if s.len() > k {
        assert(s.drop_last().take(k) == s.take(k));
        lemma_read_options_error_persists(s.drop_last(), k);
    } else {
        assert(s.take(k) == s);
    }
}

/// What a command line means.
pub open spec fn spec_parse(args: Seq<Seq<char>>) -> ParsedView {
    if args.len() == 0 {
        ParsedView::MissingSubcommand
    } else if args[0] != "validate"@ {
        ParsedView::UnknownSubcommand { command: args[0] }
    } else {
        match read_options(args.drop_first()) {
            Err(flag) => ParsedView::UnknownFlag { flag },
            Ok((json_output, paths)) => if paths.len() == 0 {
                ParsedView::NoPaths
            } else {
                ParsedView::Command { json_output, paths }
            },
        }
    }
}

/// The outcome of [`parse_arguments`] taken by its view.
pub open spec fn parsed_view(r: Result<ValidateCommand, UsageError>) -> ParsedView {
    match r {
        Ok(c) => ParsedView::Command { json_output: c.json_output, paths: c.paths@.map_values(|p: String| p@) },
        Err(UsageError::MissingSubcommand) => ParsedView::MissingSubcommand,
        Err(UsageError::UnknownSubcommand { command }) => ParsedView::UnknownSubcommand { command: command@ },
        Err(UsageError::UnknownFlag { flag }) => ParsedView::UnknownFlag { flag: flag@ },
        Err(UsageError::NoPaths) => ParsedView::NoPaths,
    }
}

/// Reads the command line (the arguments after the program's name).
pub fn parse_arguments(args: &[String]) -> (r: Result<ValidateCommand, UsageError>)
    ensures
        parsed_view(r) == spec_parse(args@.map_values(|a: String| a@)),
{
    let ghost views = args@.map_values(|a: String| a@);
    if args.len() == 0 {
        return Err(UsageError::MissingSubcommand);
    }
    if !text_is(args[0].as_str(), "validate") {
        return Err(UsageError::UnknownSubcommand { command: args[0].clone() });
    }
    let ghost rest = views.drop_first();
    proof {
        assert(views[0] == args@[0]@);
    }
    let mut json_output = false;
    let mut paths: Vec<String> = Vec::new();
    let mut i: usize = 1;
    proof {
        assert(rest.take(0) == Seq::<Seq<char>>::empty());
        assert(paths@.map_values(|p: String| p@) == Seq::<Seq<char>>::empty());
    }
    while i < args.len()
        invariant
            1 <= i <= args@.len(),
            views == args@.map_values(|a: String| a@),
            rest == views.drop_first(),
            views.len() == args@.len(),
            views[0] == "validate"@,
            read_options(rest.take(i - 1)) == Ok::<(bool, Seq<Seq<char>>), Seq<char>>(
                (json_output, paths@.map_values(|p: String| p@)),
            ),
        decreases args@.len() - i,
    {
        proof {
            assert(rest.take(i as int).drop_last() == rest.take(i - 1));
            assert(rest.take(i as int).last() == args@[i as int]@);
        }
        let arg = args[i].as_str();
        if text_is(arg, "--json") {
            json_output = true;
        } else if starts_with_dash(arg) {
            proof {
                assert(read_options(rest.take(i as int)) == Err::<(bool, Seq<Seq<char>>), Seq<char>>(args@[i as int]@));
                lemma_read_options_error_persists(rest, i as int);
            }
            return Err(UsageError::UnknownFlag { flag: args[i].clone() });
        } else {
            let ghost before = paths@;
            paths.push(args[i].clone());
            proof {
                assert(paths@.map_values(|p: String| p@) == before.map_values(|p: String| p@).push(args@[i as int]@));
            }
        }
        i += 1;
    }
    proof {
        assert(rest.take(args@.len() - 1) == rest);
    }
    if paths.len() == 0 {
        return Err(UsageError::NoPaths);
    }
    Ok(ValidateCommand { json_output, paths })
}

fn starts_with_dash(s: &str) -> (r: bool)
    ensures
        r == (s@.len() > 0 && s@[0] == '-'),
{
    let cs = crate::text::chars_of(s);
    cs.len() > 0 && cs[0] == '-'
}

} // verus!
