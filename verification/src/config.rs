//! From the command line to the plan of a run.

use vstd::prelude::*;
use vstd::utf8::encode_utf8;
use crate::error::ConfigError;
use crate::driver::{source_list, source_views, sources_of, Source};
use crate::mode::ModeView;
use crate::options::{
    chosen, choose_mode, choose_selection, cli_table, flags_of, parse_outcome, read_flags, Flags,
    FlagsView,
};
use crate::text::texts;
use crate::pipeline::Pipeline;
use crate::selection::{selection_of, FieldRange};

verus! {

/// What a run does and on what.
#[derive(Debug, Clone, PartialEq, Eq)]
pub struct Plan {
    /// What is done to every record.
    pub pipeline: Pipeline,
    /// Where the records come from, in the order in which they are taken.
    pub sources: Vec<Source>,
}

/// What a plan must be to be the plan of a mode, of the ranges of a
/// selection if there is one, and of the paths of the input files.
pub open spec fn plans(
    plan: Plan,
    mode: ModeView,
    ranges: Option<Seq<FieldRange>>,
    free: Seq<Seq<char>>,
) -> bool {
    &&& plan.pipeline.mode@ == mode
    &&& match ranges {
        Some(ranges) => plan.pipeline.selection matches Some(selection) && selection@ == ranges
            && selection.wf(),
        None => plan.pipeline.selection is None,
    }
    &&& plan.pipeline.delimiter@ == plan.pipeline.mode.delimiter()
    &&& !plan.pipeline.strict
    &&& source_views(plan.sources@) == sources_of(free)
}

/// What the flags ask for: an error, or a mode with the ranges of the
/// selection, if one is given. The mode is looked at first.
pub open spec fn asked(flags: FlagsView) -> Result<(ModeView, Option<Seq<FieldRange>>), ConfigError> {
    match chosen(flags) {
        None => Err(ConfigError::UnknownMode),
        Some(mode) => match flags.fields {
            None => Ok((mode, None)),
            Some(expr) => match selection_of(encode_utf8(expr)) {
                None => Err(ConfigError::InvalidSelection),
                Some(ranges) => Ok((mode, Some(ranges))),
            },
        },
    }
}

/// Makes the plan of a run from the flags of the command line. The flags
/// must name exactly one mode. Without `-f` every field is kept; with it,
/// its argument must be a selection expression. Records are written with
/// the delimiter of the mode, a malformed record is reported and skipped,
/// and the sources are the free arguments, or the standard input where
/// there is none.
pub fn plan(flags: &Flags) -> (r: Result<Plan, ConfigError>)
    ensures
        match asked(flags@) {
            Err(e) => r == Err::<Plan, ConfigError>(e),
            Ok((mode, ranges)) => r matches Ok(plan) && plans(plan, mode, ranges, flags@.free),
        },
{
    let mode = match choose_mode(flags) {
        Ok(mode) => mode,
        Err(_) => {
            return Err(ConfigError::UnknownMode);
        },
    };
    let selection = match choose_selection(flags) {
        Ok(selection) => selection,
        Err(_) => {
            return Err(ConfigError::InvalidSelection);
        },
    };
    let pipeline = Pipeline::new(mode, selection);
    let sources = source_list(&flags.free);
    Ok(Plan { pipeline, sources })
}

/// Makes the plan of a run from the arguments of the command line, the name
/// of the program left out. A command line that cannot be read gives a
/// usage error; one that can gives what its flags ask for.
pub fn configure(args: &[String]) -> (r: Result<Plan, ConfigError>)
    ensures
        match parse_outcome(cli_table(), texts(args@)) {
            None => r == Err::<Plan, ConfigError>(ConfigError::Usage),
            Some(found) => match asked(flags_of(found)) {
                Err(e) => r == Err::<Plan, ConfigError>(e),
                Ok((mode, ranges)) => r matches Ok(plan) && plans(plan, mode, ranges, found.1),
            },
        },
{
    match read_flags(args) {
        Ok(flags) => plan(&flags),
        Err(_) => Err(ConfigError::Usage),
    }
}

} // verus!
