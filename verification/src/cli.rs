//! The command-line grammar: `install <distribution> <version>`,
//! `list [-d|--dist <d>] [-v|--version <v>]`, `search` with the same two
//! options but at least one required, and `update` with none. The first
//! argument is the program name. Every usage error carries exit code 2.

use vstd::prelude::*;
use vstd::string::StringExecFns;

verus! {

/// A usage error; the process exits with code 2 on any of them.
#[derive(Clone, Copy, Debug, PartialEq, Eq, Structural)]
pub enum CliError {
    MissingCommand,
    UnknownCommand,
    MissingArgument,
    UnexpectedArgument,
    MissingValue,
    DuplicateOption,
    MissingFilter,
}

impl CliError {
    /// The exit code a usage error maps to.
    pub fn exit_code(&self) -> (r: i32)
        ensures
            r == 2,
    {
        2
    }
}

/// The mathematical value of a parsed command.
pub ghost enum CommandsModel {
    Install { distribution: Seq<char>, version: Seq<char> },
    List { distribution: Option<Seq<char>>, version: Option<Seq<char>> },
    Search { distribution: Option<Seq<char>>, version: Option<Seq<char>> },
    Update,
}

/// A parsed command.
pub enum Commands {
    Install { distribution: String, version: String },
    List { distribution: Option<String>, version: Option<String> },
    Search { distribution: Option<String>, version: Option<String> },
    Update,
}

pub open spec fn opt_view(o: Option<String>) -> Option<Seq<char>> {
    match o {
        Option::None => Option::None,
        Option::Some(s) => Some(s@),
    }
}

impl View for Commands {
    type V = CommandsModel;

    open spec fn view(&self) -> CommandsModel {
        match self {
            Commands::Install { distribution, version } => CommandsModel::Install {
                distribution: distribution@,
                version: version@,
            },
            Commands::List { distribution, version } => CommandsModel::List {
                distribution: opt_view(*distribution),
                version: opt_view(*version),
            },
            Commands::Search { distribution, version } => CommandsModel::Search {
                distribution: opt_view(*distribution),
                version: opt_view(*version),
            },
            Commands::Update => CommandsModel::Update,
        }
    }
}

/// A parsed command line.
pub struct Cli {
    pub command: Commands,
}

impl View for Cli {
    type V = CommandsModel;

    open spec fn view(&self) -> CommandsModel {
        self.command@
    }
}

/// Folds the `-d/--dist` and `-v/--version` options from position `i` on.
/// Each option takes a value, may be given once, and nothing else is
/// accepted.
pub open spec fn spec_filters(
    argv: Seq<Seq<char>>,
    i: int,
    d: Option<Seq<char>>,
    v: Option<Seq<char>>,
) -> Result<(Option<Seq<char>>, Option<Seq<char>>), CliError>
    decreases argv.len() - i,
{
    if i >= argv.len() {
        Ok((d, v))
    } else if argv[i] == "-d"@ || argv[i] == "--dist"@ {
        if d is Some {
            Err(CliError::DuplicateOption)
        } else if i + 1 >= argv.len() {
            Err(CliError::MissingValue)
        } else {
            spec_filters(argv, i + 2, Some(argv[i + 1]), v)
        }
    } else if argv[i] == "-v"@ || argv[i] == "--version"@ {
        if v is Some {
            Err(CliError::DuplicateOption)
        } else if i + 1 >= argv.len() {
            Err(CliError::MissingValue)
        } else {
            spec_filters(argv, i + 2, d, Some(argv[i + 1]))
        }
    } else {
        Err(CliError::UnexpectedArgument)
    }
}

/// What a command line (program name first) parses to.
pub open spec fn spec_parse_cli(argv: Seq<Seq<char>>) -> Result<CommandsModel, CliError> {
    if argv.len() < 2 {
        Err(CliError::MissingCommand)
    } else if argv[1] == "install"@ {
        if argv.len() < 4 {
            Err(CliError::MissingArgument)
        } else if argv.len() > 4 {
            Err(CliError::UnexpectedArgument)
        } else {
            Ok(CommandsModel::Install { distribution: argv[2], version: argv[3] })
        }
    } else if argv[1] == "list"@ {
        match spec_filters(argv, 2, Option::None, Option::None) {
            Err(e) => Err(e),
            Ok((d, v)) => Ok(CommandsModel::List { distribution: d, version: v }),
        }
    } else if argv[1] == "search"@ {
        match spec_filters(argv, 2, Option::None, Option::None) {
            Err(e) => Err(e),
            Ok((d, v)) => if d is None && v is None {
                Err(CliError::MissingFilter)
            } else {
                Ok(CommandsModel::Search { distribution: d, version: v })
            },
        }
    } else if argv[1] == "update"@ {
        if argv.len() > 2 {
            Err(CliError::UnexpectedArgument)
        } else {
            Ok(CommandsModel::Update)
        }
    } else {
        Err(CliError::UnknownCommand)
    }
}

/// Whether `s` is exactly the literal `lit`.
fn str_is(s: &String, lit: &str) -> (r: bool)
    ensures
        r == (s@ == lit@),
{
    let other = String::from_str(lit);
    *s == other
}

/// Folds the option arguments from position `start` on.
fn parse_filters(args: &Vec<String>, start: usize) -> (r: Result<
    (Option<String>, Option<String>),
    CliError,
>)
    requires
        start <= args.len(),
    ensures
        match r {
            Ok(p) => spec_filters(args.deep_view(), start as int, Option::None, Option::None)
                == Ok::<_, CliError>((opt_view(p.0), opt_view(p.1))),
            Err(e) => spec_filters(args.deep_view(), start as int, Option::None, Option::None)
                == Err::<(Option<Seq<char>>, Option<Seq<char>>), _>(e),
        },
{
    let ghost av = args.deep_view();
    let mut d: Option<String> = None;
    let mut v: Option<String> = None;
    let mut i: usize = start;
    while i < args.len()
        invariant
            start <= i <= args.len(),
            av == args.deep_view(),
            spec_filters(av, start as int, Option::None, Option::None) == spec_filters(
                av,
                i as int,
                opt_view(d),
                opt_view(v),
            ),
        decreases args.len() - i,
    {
        proof {
            assert(av[i as int] =~= args@[i as int]@);
            if i + 1 < args.len() {
                assert(av[i + 1] =~= args@[i + 1]@);
            }
        }
        if str_is(&args[i], "-d") || str_is(&args[i], "--dist") {
            if matches!(d, Option::Some(_)) {
                return Err(CliError::DuplicateOption);
            }
            if i + 1 >= args.len() {
                return Err(CliError::MissingValue);
            }
            d = Some(args[i + 1].clone());
            i = i + 2;
        } else if str_is(&args[i], "-v") || str_is(&args[i], "--version") {
            if matches!(v, Option::Some(_)) {
                return Err(CliError::DuplicateOption);
            }
            if i + 1 >= args.len() {
                return Err(CliError::MissingValue);
            }
            v = Some(args[i + 1].clone());
            i = i + 2;
        } else {
            return Err(CliError::UnexpectedArgument);
        }
    }
    Ok((d, v))
}

impl Cli {
    /// Parses a full command line, the program name first, into the
    /// command to run, or the usage error exactly as the grammar gives it.
    pub fn try_parse_from(args: Vec<String>) -> (r: Result<Cli, CliError>)
        ensures
            match r {
                Ok(c) => spec_parse_cli(args.deep_view()) == Ok::<_, CliError>(c@),
                Err(e) => spec_parse_cli(args.deep_view()) == Err::<CommandsModel, _>(e),
            },
    {
        let ghost av = args.deep_view();
        if args.len() < 2 {
            return Err(CliError::MissingCommand);
        }
        proof {
            assert(av[1] =~= args@[1]@);
        }
        if str_is(&args[1], "install") {
            if args.len() < 4 {
                return Err(CliError::MissingArgument);
            }
            if args.len() > 4 {
                return Err(CliError::UnexpectedArgument);
            }
            proof {
                assert(av[2] =~= args@[2]@);
                assert(av[3] =~= args@[3]@);
            }
            Ok(
                Cli {
                    command: Commands::Install {
                        distribution: args[2].clone(),
                        version: args[3].clone(),
                    },
                },
            )
        } else if str_is(&args[1], "list") {
            match parse_filters(&args, 2) {
                Result::Err(e) => Err(e),
                Result::Ok((d, v)) => Ok(
                    Cli { command: Commands::List { distribution: d, version: v } },
                ),
            }
        } else if str_is(&args[1], "search") {
            match parse_filters(&args, 2) {
                Result::Err(e) => Err(e),
                Result::Ok((d, v)) => {
                    let no_dist = matches!(d, Option::None);
                    let no_version = matches!(v, Option::None);
                    if no_dist && no_version {
                        Err(CliError::MissingFilter)
                    } else {
                        Ok(Cli { command: Commands::Search { distribution: d, version: v } })
                    }
                },
            }
        } else if str_is(&args[1], "update") {
            if args.len() > 2 {
                return Err(CliError::UnexpectedArgument);
            }
            Ok(Cli { command: Commands::Update })
        } else {
            Err(CliError::UnknownCommand)
        }
    }
}

/// Parses a command line (program name first) and hands back the command
/// to run, or the usage error to report with exit code 2.
pub fn cli(args: Vec<String>) -> (r: Result<Commands, CliError>)
    ensures
        match r {
            Ok(c) => spec_parse_cli(args.deep_view()) == Ok::<_, CliError>(c@),
            Err(e) => spec_parse_cli(args.deep_view()) == Err::<CommandsModel, _>(e),
        },
{
    match Cli::try_parse_from(args) {
        Result::Ok(c) => Ok(c.command),
        Result::Err(e) => Err(e),
    }
}

} // verus!
