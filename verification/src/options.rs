//! Reading the command line.
//!
//! The command line is taken apart by the `getopts` crate. What that crate
//! does is not proved here: the declarations at the head of this file state
//! what is taken on trust of it. What is made of its answer is verified.

use vstd::prelude::*;
use vstd::string::is_ascii;
use vstd::utf8::encode_utf8;
use crate::error::{ConfigError, InvalidSelectionError, UnknownModeError, UsageError};
use crate::mode::{Mode, ModeView};
use crate::selection::{selection_of, FieldSelection};
use crate::text::texts;

verus! {

/// The options that a program takes, as `getopts` holds them.
#[verifier::external_type_specification]
#[verifier::external_body]
pub struct ExOptions(getopts::Options);

/// What `getopts` found on a command line.
#[verifier::external_type_specification]
#[verifier::external_body]
pub struct ExMatches(getopts::Matches);

/// Why `getopts` rejected a command line.
#[verifier::external_type_specification]
#[verifier::external_body]
pub struct ExFail(getopts::Fail);

/// The options that `options` holds, in the order in which they were
/// defined: for each its short name, its long name, and whether it takes an
/// argument.
pub uninterp spec fn option_table(options: getopts::Options) -> Seq<(Seq<char>, Seq<char>, bool)>;

/// Whether `options` reads a command line in the way in which a new set of
/// options does, and holds only options that may be left out, may be given
/// once, and take an argument always or never. For such options the table
/// above says all that reading depends on.
pub uninterp spec fn plain_options(options: getopts::Options) -> bool;

/// What `getopts` makes of a command line under a table of plain options:
/// `None` where it rejects the command line, else the values found for each
/// name and the free arguments.
pub uninterp spec fn parse_outcome(
    table: Seq<(Seq<char>, Seq<char>, bool)>,
    args: Seq<Seq<char>>,
) -> Option<(Map<Seq<char>, Seq<Option<Seq<char>>>>, Seq<Seq<char>>)>;

/// For each name that can be asked of `matches`, what was found for it: one
/// entry for each time the option was given, holding its argument if it came
/// with one.
pub uninterp spec fn matched(matches: getopts::Matches) -> Map<Seq<char>, Seq<Option<Seq<char>>>>;

/// The arguments of the command line that belong to no option, in order.
pub uninterp spec fn free_arguments(matches: getopts::Matches) -> Seq<Seq<char>>;

/// Whether a table defines the name `name`: as the short name of an option,
/// which is one character, or as its long name, which is longer.
pub open spec fn defines(table: Seq<(Seq<char>, Seq<char>, bool)>, name: Seq<char>) -> bool {
    exists|i: int|
        0 <= i < table.len() && ((name.len() == 1 && (#[trigger] table[i]).0 == name) || (name.len()
            > 1 && table[i].1 == name))
}

/// Every option of the table has a name.
pub open spec fn all_named(table: Seq<(Seq<char>, Seq<char>, bool)>) -> bool {
    forall|i: int| 0 <= i < table.len() ==> (#[trigger] table[i]).0.len() + table[i].1.len() > 0
}

/// `getopts::Options::new`: the new set of options is plain and holds no
/// option.
pub assume_specification[ getopts::Options::new ]() -> (options: getopts::Options)
    ensures
        plain_options(options),
        option_table(options) == Seq::<(Seq<char>, Seq<char>, bool)>::empty(),
;

/// `getopts::Options::optopt`: adds an option that takes an argument, and
/// changes nothing else. The call panics on a short name longer than one
/// byte and on a long name of one byte, which are left out here.
#[verifier::external_body]
fn define_option(options: &mut getopts::Options, short: &str, long: &str, desc: &str, hint: &str)
    requires
        short@.len() == 0 || (short@.len() == 1 && is_ascii(short)),
        long@.len() != 1,
    ensures
        plain_options(*final(options)) == plain_options(*old(options)),
        option_table(*final(options)) == option_table(*old(options)).push((short@, long@, true)),
{
    options.optopt(short, long, desc, hint);
}

/// `getopts::Options::optflag`: adds an option that takes no argument, and
/// changes nothing else. The call panics on the same names as the one above.
#[verifier::external_body]
fn define_flag(options: &mut getopts::Options, short: &str, long: &str, desc: &str)
    requires
        short@.len() == 0 || (short@.len() == 1 && is_ascii(short)),
        long@.len() != 1,
    ensures
        plain_options(*final(options)) == plain_options(*old(options)),
        option_table(*final(options)) == option_table(*old(options)).push((short@, long@, false)),
{
    options.optflag(short, long, desc);
}

/// `getopts::Options::parse`: reads a command line. Under plain options the
/// answer depends on the table and the arguments alone. Every name that the
/// table defines can be asked of the matches. The call panics on an option
/// without a name, which is left out here.
#[verifier::external_body]
fn parse_arguments(options: &getopts::Options, args: &[String]) -> (r: Result<
    getopts::Matches,
    getopts::Fail,
>)
    requires
        plain_options(*options),
        all_named(option_table(*options)),
    ensures
        match r {
            Ok(matches) => {
                &&& parse_outcome(option_table(*options), texts(args@)) == Some(
                    (matched(matches), free_arguments(matches)),
                )
                &&& forall|name: Seq<char>| #[trigger]
                    defines(option_table(*options), name) ==> matched(matches).dom().contains(
                        name,
                    )
            },
            Err(_) => parse_outcome(option_table(*options), texts(args@)) is None,
        },
{
    options.parse(args)
}

/// `getopts::Matches::opt_present`: whether the option was given at all.
/// The call panics on a name that was not defined, which is left out here.
pub assume_specification[ getopts::Matches::opt_present ](
    matches: &getopts::Matches,
    name: &str,
) -> (b: bool)
    requires
        matched(*matches).dom().contains(name@),
    ensures
        b == (matched(*matches)[name@].len() > 0),
;

/// `getopts::Matches::opt_str`: the argument that the option came with the
/// first time it was given, if it was given and came with one. The call
/// panics on a name that was not defined, which is left out here.
pub assume_specification[ getopts::Matches::opt_str ](
    matches: &getopts::Matches,
    name: &str,
) -> (r: Option<String>)
    requires
        matched(*matches).dom().contains(name@),
    ensures
        match r {
            Some(value) => first_value(matched(*matches)[name@]) == Some(value@),
            None => first_value(matched(*matches)[name@]) is None,
        },
;

/// The field `free` of `getopts::Matches`: the free arguments.
#[verifier::external_body]
fn free_of(matches: getopts::Matches) -> (free: Vec<String>)
    ensures
        texts(free@) == free_arguments(matches),
{
    matches.free
}

/// The argument of the first entry, if there is an entry and it has one.
pub open spec fn first_value(values: Seq<Option<Seq<char>>>) -> Option<Seq<char>> {
    if values.len() > 0 {
        values[0]
    } else {
        None
    }
}

/// What the command line says, option by option.
#[derive(Debug, Clone, PartialEq, Eq)]
pub struct Flags {
    /// The argument of `-d` or `--delimiter`.
    pub delimiter: Option<String>,
    /// The argument of `-e` or `--extract`.
    pub pattern: Option<String>,
    /// Whether `--csv` is given.
    pub csv: bool,
    /// Whether `--tsv` is given.
    pub tsv: bool,
    /// The argument of `-f` or `--fields`.
    pub fields: Option<String>,
    /// The arguments that belong to no option: the paths of the input files.
    pub free: Vec<String>,
}

/// The flags, with their texts as sequences of characters.
pub struct FlagsView {
    pub delimiter: Option<Seq<char>>,
    pub pattern: Option<Seq<char>>,
    pub csv: bool,
    pub tsv: bool,
    pub fields: Option<Seq<char>>,
    pub free: Seq<Seq<char>>,
}

/// The text of a string that may be missing.
pub open spec fn text_of(s: Option<String>) -> Option<Seq<char>> {
    match s {
        Some(s) => Some(s@),
        None => None,
    }
}

impl View for Flags {
    type V = FlagsView;

    open spec fn view(&self) -> FlagsView {
        FlagsView {
            delimiter: text_of(self.delimiter),
            pattern: text_of(self.pattern),
            csv: self.csv,
            tsv: self.tsv,
            fields: text_of(self.fields),
            free: texts(self.free@),
        }
    }
}

/// The options of the command line: `-d` and `--delimiter`, `-e` and
/// `--extract`, `-f` and `--fields`, which take an argument, and `--csv` and
/// `--tsv`, which take none.
pub open spec fn cli_table() -> Seq<(Seq<char>, Seq<char>, bool)> {
    seq![
        ("d"@, "delimiter"@, true),
        ("e"@, "extract"@, true),
        (""@, "csv"@, false),
        (""@, "tsv"@, false),
        ("f"@, "fields"@, true),
    ]
}

/// The flags that are read from what was found for each name and from the
/// free arguments.
pub open spec fn flags_of(
    found: (Map<Seq<char>, Seq<Option<Seq<char>>>>, Seq<Seq<char>>),
) -> FlagsView {
    FlagsView {
        delimiter: first_value(found.0["d"@]),
        pattern: first_value(found.0["e"@]),
        csv: found.0["csv"@].len() > 0,
        tsv: found.0["tsv"@].len() > 0,
        fields: first_value(found.0["f"@]),
        free: found.1,
    }
}

/// The mode that the flags name: the one of `-d`, `-e`, `--csv` and `--tsv`
/// that is given, where exactly one is.
pub open spec fn chosen(flags: FlagsView) -> Option<ModeView> {
    match (flags.delimiter, flags.pattern, flags.csv, flags.tsv) {
        (Some(d), None, false, false) => Some(ModeView::Split(d)),
        (None, Some(p), false, false) => Some(ModeView::Extract(p)),
        (None, None, true, false) => Some(ModeView::CSV),
        (None, None, false, true) => Some(ModeView::TSV),
        _ => None,
    }
}

/// The lengths of the names of the options, and that they are plain text.
proof fn lemma_names()
    ensures
        "d"@.len() == 1 && is_ascii("d"),
        "e"@.len() == 1 && is_ascii("e"),
        "f"@.len() == 1 && is_ascii("f"),
        ""@.len() == 0,
        "delimiter"@.len() == 9,
        "extract"@.len() == 7,
        "fields"@.len() == 6,
        "csv"@.len() == 3,
        "tsv"@.len() == 3,
{
    reveal_strlit("d");
    reveal_strlit("e");
    reveal_strlit("f");
    reveal_strlit("");
    reveal_strlit("delimiter");
    reveal_strlit("extract");
    reveal_strlit("fields");
    reveal_strlit("csv");
    reveal_strlit("tsv");
}

/// The options of the command line, as `getopts` holds them.
fn cli_options() -> (options: getopts::Options)
    ensures
        plain_options(options),
        option_table(options) == cli_table(),
{
    proof {
        lemma_names();
    }
    let mut options = getopts::Options::new();
    define_option(&mut options, "d", "delimiter", "set the field delimiter", "DELIMITER");
    define_option(&mut options, "e", "extract", "extract fields from a pattern", "PATTERN");
    define_flag(&mut options, "", "csv", "extract from CSV");
    define_flag(&mut options, "", "tsv", "extract from TSV");
    define_option(&mut options, "f", "fields", "set the fields to select", "FIELDS");
    assert(option_table(options) =~= cli_table());
    options
}

/// The table of the command line defines the names that are asked for.
proof fn lemma_cli_table_defines()
    ensures
        all_named(cli_table()),
        defines(cli_table(), "d"@),
        defines(cli_table(), "e"@),
        defines(cli_table(), "csv"@),
        defines(cli_table(), "tsv"@),
        defines(cli_table(), "f"@),
{
    lemma_names();
    let t = cli_table();
    assert(t[0].0 == "d"@);
    assert(t[1].0 == "e"@);
    assert(t[2].1 == "csv"@);
    assert(t[3].1 == "tsv"@);
    assert(t[4].0 == "f"@);
}

/// Reads the flags from the arguments of the command line, the name of the
/// program left out. The command line is rejected exactly where `getopts`
/// rejects it.
pub fn read_flags(args: &[String]) -> (r: Result<Flags, UsageError>)
    ensures
        match r {
            Ok(flags) => parse_outcome(cli_table(), texts(args@)) matches Some(found) && flags@
                == flags_of(found),
            Err(_) => parse_outcome(cli_table(), texts(args@)) is None,
        },
{
    let options = cli_options();
    proof {
        lemma_cli_table_defines();
    }
    match parse_arguments(&options, args) {
        Ok(matches) => {
            let delimiter = matches.opt_str("d");
            let pattern = matches.opt_str("e");
            let csv = matches.opt_present("csv");
            let tsv = matches.opt_present("tsv");
            let fields = matches.opt_str("f");
            let free = free_of(matches);
            Ok(Flags { delimiter, pattern, csv, tsv, fields, free })
        },
        Err(_) => Err(UsageError),
    }
}

/// Decides the mode of a run. The flags must name exactly one mode: with
/// none, or with more than one, there is no mode.
pub fn choose_mode(flags: &Flags) -> (r: Result<Mode, UnknownModeError>)
    ensures
        match r {
            Ok(mode) => chosen(flags@) == Some(mode@),
            Err(_) => chosen(flags@) is None,
        },
{
    match (&flags.delimiter, &flags.pattern, flags.csv, flags.tsv) {
        (Some(d), None, false, false) => Ok(Mode::Split(d.clone())),
        (None, Some(p), false, false) => Ok(Mode::Extract(p.clone())),
        (None, None, true, false) => Ok(Mode::CSV),
        (None, None, false, true) => Ok(Mode::TSV),
        _ => Err(UnknownModeError),
    }
}

/// Reads the selection that the flags ask for. Without `-f` there is no
/// selection, and every field is kept.
pub fn choose_selection(flags: &Flags) -> (r: Result<Option<FieldSelection>, InvalidSelectionError>)
    ensures
        match flags@.fields {
            None => r == Ok::<Option<FieldSelection>, InvalidSelectionError>(None),
            Some(expr) => match selection_of(encode_utf8(expr)) {
                Some(ranges) => r matches Ok(Some(selection)) && selection@ == ranges
                    && selection.wf(),
                None => r == Err::<Option<FieldSelection>, InvalidSelectionError>(
                    InvalidSelectionError,
                ),
            },
        },
{
    match &flags.fields {
        None => Ok(None),
        Some(expr) => match FieldSelection::parse(expr.as_str()) {
            Ok(selection) => Ok(Some(selection)),
            Err(e) => Err(e),
        },
    }
}

/// Reads the mode and the paths of the input files from the arguments of
/// the command line, the name of the program left out.
///
/// The command line is rejected where `getopts` rejects it, where it does
/// not name exactly one mode, and where the argument of `-f` is no
/// selection expression. The mode is looked at before the selection. A
/// rejected command line gives no mode and no paths, so that no source is
/// opened for it.
pub fn parse_options(args: &[String]) -> (r: Result<(Mode, Vec<String>), ConfigError>)
    ensures
        match parse_outcome(cli_table(), texts(args@)) {
            None => r == Err::<(Mode, Vec<String>), ConfigError>(ConfigError::Usage),
            Some(found) => match chosen(flags_of(found)) {
                None => r == Err::<(Mode, Vec<String>), ConfigError>(ConfigError::UnknownMode),
                Some(mode) => if flags_of(found).fields matches Some(expr) && selection_of(
                    encode_utf8(expr),
                ) is None {
                    r == Err::<(Mode, Vec<String>), ConfigError>(ConfigError::InvalidSelection)
                } else {
                    r matches Ok(pair) && pair.0@ == mode && texts(pair.1@) == found.1
                },
            },
        },
{
    match read_flags(args) {
        Ok(flags) => match choose_mode(&flags) {
            Ok(mode) => match choose_selection(&flags) {
                Ok(_) => Ok((mode, flags.free)),
                Err(_) => Err(ConfigError::InvalidSelection),
            },
            Err(_) => Err(ConfigError::UnknownMode),
        },
        Err(_) => Err(ConfigError::Usage),
    }
}

} // verus!
