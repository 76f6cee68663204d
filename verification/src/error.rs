//! The ways in which a run can fail.

use vstd::prelude::*;

verus! {

/// A selection expression that names no fields: it is empty, or one of its
/// parts is neither a position nor a range of positions.
#[derive(Debug, Clone, Copy, PartialEq, Eq)]
pub struct InvalidSelectionError;

/// A record of quoted text whose last quoted field is never closed.
#[derive(Debug, Clone, Copy, PartialEq, Eq)]
pub struct MalformedRecordError;

/// A command line that cannot be read: it holds an option that is not known
/// or is given twice, an option without the argument that it takes, or an
/// argument for an option that takes none.
#[derive(Debug, Clone, Copy, PartialEq, Eq)]
pub struct UsageError;

/// A command line that names no mode, or more than one.
#[derive(Debug, Clone, Copy, PartialEq, Eq)]
pub struct UnknownModeError;

/// Why a command line gives no run. Each of these ends the run before any
/// source is opened.
#[derive(Debug, Clone, Copy, PartialEq, Eq)]
pub enum ConfigError {
    /// The command line cannot be read.
    Usage,
    /// The command line names no mode, or more than one.
    UnknownMode,
    /// The selection expression names no fields.
    InvalidSelection,
}

} // verus!
