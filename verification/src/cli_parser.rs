//! The command line: the options that the program takes, and what a list
//! of arguments says about them.

use vstd::prelude::*;
use vstd::string::*;

verus! {

/// `getopts::Options`, a set of options to parse arguments against. Nothing
/// inside it is seen here.
#[verifier::external_type_specification]
#[verifier::external_body]
pub struct ExOptions(getopts::Options);

/// `getopts::Matches`, the options that were found in a list of arguments.
/// Nothing inside it is seen here.
#[verifier::external_type_specification]
#[verifier::external_body]
pub struct ExMatches(getopts::Matches);

/// The option groups that a set of options holds, in the order in which they
/// were added: short name, long name, description, hint for the argument,
/// and whether the option takes an argument. This describes a set that was
/// made empty and filled with options that may occur once, which either
/// take an argument or take none.
pub uninterp spec fn option_groups(o: getopts::Options) -> Seq<
    (Seq<char>, Seq<char>, Seq<char>, Seq<char>, bool),
>;

/// Whether a set of options takes long names after a single dash too.
pub uninterp spec fn long_only_mode(o: getopts::Options) -> bool;

/// What parsed arguments hold: for each option name that was defined, the
/// occurrences of that option in the arguments, each with the value it was
/// given, if any.
pub uninterp spec fn matches_values(m: getopts::Matches) -> Map<Seq<char>, Seq<Option<Seq<char>>>>;

/// Why a list of arguments was not accepted.
#[derive(Clone, Copy, Debug, PartialEq, Eq, Structural)]
pub enum FailKind {
    ArgumentMissing,
    UnrecognizedOption,
    OptionMissing,
    OptionDuplicated,
    UnexpectedArgument,
}

/// A list of arguments that was not accepted: why, and the option at fault.
#[derive(Debug, PartialEq, Eq)]
pub struct ParseFail {
    pub kind: FailKind,
    pub option: String,
}

impl View for ParseFail {
    type V = (FailKind, Seq<char>);

    open spec fn view(&self) -> (FailKind, Seq<char>) {
        (self.kind, self.option@)
    }
}

/// The outcome of parsing `args` against the option groups `groups`: what
/// the matches hold, or why the arguments were not accepted.
pub uninterp spec fn parse_outcome(
    groups: Seq<(Seq<char>, Seq<char>, Seq<char>, Seq<char>, bool)>,
    long_only: bool,
    args: Seq<Seq<char>>,
) -> Result<Map<Seq<char>, Seq<Option<Seq<char>>>>, (FailKind, Seq<char>)>;

/// The usage message for the option groups `groups` under the heading `brief`.
pub uninterp spec fn usage_of(
    groups: Seq<(Seq<char>, Seq<char>, Seq<char>, Seq<char>, bool)>,
    long_only: bool,
    brief: Seq<char>,
) -> Seq<char>;

/// The texts of a list of arguments, in order.
pub open spec fn arg_texts(args: Seq<&str>) -> Seq<Seq<char>> {
    Seq::new(args.len(), |i: int| args[i]@)
}

/// `getopts::Options::new` gives a set of options that holds no group and
/// takes long names after two dashes only.
pub assume_specification[ getopts::Options::new ]() -> (o: getopts::Options)
    ensures
        option_groups(o) == Seq::<(Seq<char>, Seq<char>, Seq<char>, Seq<char>, bool)>::empty(),
        !long_only_mode(o),
;

/// Calls `getopts::Options::long_only`, which sets or clears the mode and
/// leaves the groups as they are.
#[verifier::external_body]
fn set_long_only(o: &mut getopts::Options, on: bool)
    ensures
        option_groups(*final(o)) == option_groups(*old(o)),
        long_only_mode(*final(o)) == on,
{
    o.long_only(on);
}

/// Calls `getopts::Options::optopt`, which appends a group for an option
/// that may occur once and takes an argument. It panics on a short name of
/// more than one byte and on a long name of exactly one byte; both are left
/// out here.
#[verifier::external_body]
fn add_optopt(o: &mut getopts::Options, short_name: &str, long_name: &str, desc: &str, hint: &str)
    requires
        short_name@.len() == 0 || (short_name@.len() == 1 && short_name.is_ascii()),
        long_name@.len() != 1,
    ensures
        option_groups(*final(o)) == option_groups(*old(o)).push(
            (short_name@, long_name@, desc@, hint@, true),
        ),
        long_only_mode(*final(o)) == long_only_mode(*old(o)),
{
    o.optopt(short_name, long_name, desc, hint);
}

/// Calls `getopts::Options::optflag`, which appends a group for an option
/// that may occur once and takes no argument, with an empty hint. It panics
/// on the same names as `optopt`.
#[verifier::external_body]
fn add_optflag(o: &mut getopts::Options, short_name: &str, long_name: &str, desc: &str)
    requires
        short_name@.len() == 0 || (short_name@.len() == 1 && short_name.is_ascii()),
        long_name@.len() != 1,
    ensures
        option_groups(*final(o)) == option_groups(*old(o)).push(
            (short_name@, long_name@, desc@, Seq::<char>::empty(), false),
        ),
        long_only_mode(*final(o)) == long_only_mode(*old(o)),
{
    o.optflag(short_name, long_name, desc);
}

/// Calls `getopts::Options::parse` and names its outcome, which the groups,
/// the mode and the arguments determine. A failure is handed on with its
/// kind and the option's name as they came. One fact of the parser is
/// stated beside the name: every long name of a group is defined in the
/// matches. The parser panics on a group without any name, which is left
/// out here.
#[verifier::external_body]
fn parse_args(o: &getopts::Options, args: &Vec<&str>) -> (r: Result<getopts::Matches, ParseFail>)
    requires
        forall|i: int|
            0 <= i < option_groups(*o).len() ==> (#[trigger] option_groups(*o)[i]).0.len()
                + option_groups(*o)[i].1.len() > 0,
    ensures
        match r {
            Ok(m) => parse_outcome(option_groups(*o), long_only_mode(*o), arg_texts(args@)) == Ok::<
                Map<Seq<char>, Seq<Option<Seq<char>>>>,
                (FailKind, Seq<char>),
            >(matches_values(m)),
            Err(e) => parse_outcome(option_groups(*o), long_only_mode(*o), arg_texts(args@)) == Err::<
                Map<Seq<char>, Seq<Option<Seq<char>>>>,
                (FailKind, Seq<char>),
            >(e@),
        },
        r matches Ok(m) ==> forall|i: int|
            0 <= i < option_groups(*o).len() && (#[trigger] option_groups(*o)[i]).1.len() > 0
                ==> matches_values(m).dom().contains(option_groups(*o)[i].1),
{
    match o.parse(args) {
        Ok(m) => Ok(m),
        Err(getopts::Fail::ArgumentMissing(s)) => Err(ParseFail { kind: FailKind::ArgumentMissing, option: s }),
        Err(getopts::Fail::UnrecognizedOption(s)) => Err(ParseFail { kind: FailKind::UnrecognizedOption, option: s }),
        Err(getopts::Fail::OptionMissing(s)) => Err(ParseFail { kind: FailKind::OptionMissing, option: s }),
        Err(getopts::Fail::OptionDuplicated(s)) => Err(ParseFail { kind: FailKind::OptionDuplicated, option: s }),
        Err(getopts::Fail::UnexpectedArgument(s)) => Err(ParseFail { kind: FailKind::UnexpectedArgument, option: s }),
    }
}

/// `getopts::Options::usage` renders the heading and one entry for each
/// group; the result is named, nothing more is claimed of it.
pub assume_specification[ getopts::Options::usage ](o: &getopts::Options, brief: &str) -> (r:
    String)
    ensures
        r@ == usage_of(option_groups(*o), long_only_mode(*o), brief@),
;

/// `getopts::Matches::opt_present` says whether the option occurred. It
/// panics on a name that was not defined, which is left out here.
pub assume_specification[ getopts::Matches::opt_present ](m: &getopts::Matches, name: &str) -> (r:
    bool)
    requires
        matches_values(*m).dom().contains(name@),
    ensures
        r == (matches_values(*m)[name@].len() > 0),
;

/// `getopts::Matches::opt_str` gives the value of the option's first
/// occurrence, if it occurred and that occurrence has a value. It panics on
/// a name that was not defined, which is left out here.
pub assume_specification[ getopts::Matches::opt_str ](m: &getopts::Matches, name: &str) -> (r:
    Option<String>)
    requires
        matches_values(*m).dom().contains(name@),
    ensures
        match r {
            Some(v) => matches_values(*m)[name@].len() > 0 && matches_values(*m)[name@][0] == Some(
                v@,
            ),
            None => matches_values(*m)[name@].len() == 0 || matches_values(*m)[name@][0] is None,
        },
;

/// What the usage message says of each option.
pub const EXCLUDE_HELP: &'static str =
    "Explicitly exclude (comma-separated) tables from export and import\n            \"all\" excludes all tables";

pub const EXPORT_HELP: &'static str =
    "Export Public-DB as SQL query. Possible values are \"mysql\" and \"sqlite\" (default \"mysql\")";

pub const IMPORT_HELP: &'static str =
    "Import configured SQL database to JSON database found in data folder";

pub const IMPORT_SCHEMA_HELP: &'static str = "Import all schemas from database";

pub const INCLUDE_HELP: &'static str =
    "Explicitly include (comma-separated) tables that are not listed or are non-static for import";

pub const UPDATE_ONLY_HELP: &'static str =
    "Set to export/replace static content, but keep player content untouched";

pub const HELP_HELP: &'static str = "Show this help";

/// A group for an option that takes an argument.
pub open spec fn valued(long_name: Seq<char>, desc: Seq<char>) -> (
    Seq<char>,
    Seq<char>,
    Seq<char>,
    Seq<char>,
    bool,
) {
    (""@, long_name, desc, "string"@, true)
}

/// A group for an option that takes no argument.
pub open spec fn flag(long_name: Seq<char>, desc: Seq<char>) -> (
    Seq<char>,
    Seq<char>,
    Seq<char>,
    Seq<char>,
    bool,
) {
    (""@, long_name, desc, Seq::<char>::empty(), false)
}

/// The options of the program, in the order of the usage message.
pub open spec fn option_table() -> Seq<(Seq<char>, Seq<char>, Seq<char>, Seq<char>, bool)> {
    seq![
        valued("exclude"@, EXCLUDE_HELP@),
        valued("export"@, EXPORT_HELP@),
        flag("import"@, IMPORT_HELP@),
        flag("import-schema"@, IMPORT_SCHEMA_HELP@),
        valued("include"@, INCLUDE_HELP@),
        flag("update-only"@, UPDATE_ONLY_HELP@),
        flag("help"@, HELP_HELP@),
    ]
}

/// What parsing `args` against the options of the program gives.
pub open spec fn cli_outcome(args: Seq<Seq<char>>) -> Result<
    Map<Seq<char>, Seq<Option<Seq<char>>>>,
    (FailKind, Seq<char>),
> {
    parse_outcome(option_table(), true, args)
}

/// The heading of the usage message for the program at `path`.
pub open spec fn brief_for(path: Seq<char>) -> Seq<char> {
    "Usage: "@ + path + " [options]"@
}

/// The usage message for the program at `path`.
pub open spec fn usage_for(path: Seq<char>) -> Seq<char> {
    usage_of(option_table(), true, brief_for(path))
}

/// The program's path in a list of arguments: the first of them, and the
/// empty text where there is none.
pub open spec fn program_path(args: Seq<&str>) -> Seq<char> {
    if args.len() > 0 {
        args[0]@
    } else {
        Seq::<char>::empty()
    }
}

/// What is said of an argument list that was not accepted.
pub open spec fn fail_message(fail: (FailKind, Seq<char>)) -> Seq<char> {
    "Option --"@ + fail.1 + match fail.0 {
        FailKind::ArgumentMissing => " needs an argument."@,
        FailKind::UnrecognizedOption => " is not defined."@,
        FailKind::OptionMissing => " is missing."@,
        FailKind::OptionDuplicated => " may not be given more than once."@,
        FailKind::UnexpectedArgument => " may not be given an argument."@,
    }
}

impl ParseFail {
    /// The sentence that tells the user what was wrong.
    pub fn message(&self) -> (r: String)
        ensures
            r@ == fail_message(self@),
    {
        let tail: &str = match self.kind {
            FailKind::ArgumentMissing => " needs an argument.",
            FailKind::UnrecognizedOption => " is not defined.",
            FailKind::OptionMissing => " is missing.",
            FailKind::OptionDuplicated => " may not be given more than once.",
            FailKind::UnexpectedArgument => " may not be given an argument.",
        };
        let mut out: String = "Option --".to_owned();
        out.append(self.option.as_str());
        out.append(tail);
        out
    }
}

/// Arguments that were not accepted: why, and the usage message to show.
#[derive(Debug, PartialEq, Eq)]
pub struct CliError {
    pub fail: ParseFail,
    pub usage: String,
}

/// The options of the program, ready to parse arguments.
pub struct CliParser {
    opts: getopts::Options,
}

impl CliParser {
    #[verifier::type_invariant]
    closed spec fn holds_option_table(&self) -> bool {
        option_groups(self.opts) == option_table() && long_only_mode(self.opts)
    }

    /// The option groups that the parser holds.
    pub closed spec fn groups(&self) -> Seq<(Seq<char>, Seq<char>, Seq<char>, Seq<char>, bool)> {
        option_groups(self.opts)
    }

    /// Whether the parser takes long names after a single dash too.
    pub closed spec fn long_only(&self) -> bool {
        long_only_mode(self.opts)
    }

    /// A parser for the options of the program, which takes their long
    /// names after one dash or two.
    pub fn new() -> (r: CliParser)
        ensures
            r.groups() == option_table(),
            r.long_only(),
    {
        let mut opts: getopts::Options = getopts::Options::new();
        set_long_only(&mut opts, true);
        proof {
            reveal_strlit("");
            reveal_strlit("exclude");
            reveal_strlit("export");
            reveal_strlit("import");
            reveal_strlit("import-schema");
            reveal_strlit("include");
            reveal_strlit("update-only");
            reveal_strlit("help");
        }
        add_optopt(&mut opts, "", "exclude", EXCLUDE_HELP, "string");
        add_optopt(&mut opts, "", "export", EXPORT_HELP, "string");
        add_optflag(&mut opts, "", "import", IMPORT_HELP);
        add_optflag(&mut opts, "", "import-schema", IMPORT_SCHEMA_HELP);
        add_optopt(&mut opts, "", "include", INCLUDE_HELP, "string");
        add_optflag(&mut opts, "", "update-only", UPDATE_ONLY_HELP);
        add_optflag(&mut opts, "", "help", HELP_HELP);
        assert(option_groups(opts) =~= option_table());
        CliParser { opts }
    }

    /// The usage message for the program at `path_to_binary`.
    pub fn usage_text(&self, path_to_binary: &str) -> (r: String)
        ensures
            r@ == usage_for(path_to_binary@),
    {
        proof {
            use_type_invariant(self);
        }
        let mut brief: String = "Usage: ".to_owned();
        brief.append(path_to_binary);
        brief.append(" [options]");
        self.opts.usage(brief.as_str())
    }

    /// Parses `args`, the program's path first. The matches are those that
    /// the parser finds for the options of the program; arguments that it
    /// does not accept come back with the reason and the usage message.
    pub fn get_matches(&self, args: &Vec<&str>) -> (r: Result<getopts::Matches, CliError>)
        ensures
            match r {
                Ok(m) => cli_outcome(arg_texts(args@)) == Ok::<
                    Map<Seq<char>, Seq<Option<Seq<char>>>>,
                    (FailKind, Seq<char>),
                >(matches_values(m)),
                Err(e) => cli_outcome(arg_texts(args@)) == Err::<
                    Map<Seq<char>, Seq<Option<Seq<char>>>>,
                    (FailKind, Seq<char>),
                >(e.fail@) && e.usage@ == usage_for(program_path(args@)),
            },
            r matches Ok(m) ==> defines_options(m),
    {
        proof {
            use_type_invariant(self);
            reveal_strlit("");
            reveal_strlit("exclude");
            reveal_strlit("export");
            reveal_strlit("import");
            reveal_strlit("import-schema");
            reveal_strlit("include");
            reveal_strlit("update-only");
            reveal_strlit("help");
        }
        match parse_args(&self.opts, args) {
            Ok(m) => {
                proof {
                    let g = option_groups(self.opts);
                    assert(g[0].1 == "exclude"@);
                    assert(g[1].1 == "export"@);
                    assert(g[2].1 == "import"@);
                    assert(g[3].1 == "import-schema"@);
                    assert(g[4].1 == "include"@);
                    assert(g[5].1 == "update-only"@);
                    assert(g[6].1 == "help"@);
                }
                Ok(m)
            },
            Err(fail) => {
                let usage: String = self.usage_text(path_in(args));
                Err(CliError { fail, usage })
            },
        }
    }
}

/// The program's path in a list of arguments.
pub fn path_in<'a>(args: &Vec<&'a str>) -> (r: &'a str)
    ensures
        r@ == program_path(args@),
{
    if args.len() > 0 {
        args[0]
    } else {
        proof {
            reveal_strlit("");
        }
        assert(""@ =~= Seq::<char>::empty());
        ""
    }
}

/// The matches know every option of the program.
pub open spec fn defines_options(m: getopts::Matches) -> bool {
    let d = matches_values(m).dom();
    d.contains("exclude"@) && d.contains("export"@) && d.contains("import"@) && d.contains(
        "import-schema"@,
    ) && d.contains("include"@) && d.contains("update-only"@) && d.contains("help"@)
}

} // verus!
