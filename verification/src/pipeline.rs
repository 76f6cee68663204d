//! From one record of input to one line of output.

use vstd::prelude::*;
use crate::error::MalformedRecordError;
use crate::mode::{split, Mode};
use crate::selection::{project, projected, FieldSelection};
use crate::writer::{format_line, line_of};

verus! {

/// What a run does to every record: how it cuts the record into fields,
/// which fields it keeps, and how it writes them.
#[derive(Debug, Clone, PartialEq, Eq)]
pub struct Pipeline {
    /// How records are cut into fields.
    pub mode: Mode,
    /// The fields to keep. With no selection every field is kept, in the
    /// record's order.
    pub selection: Option<FieldSelection>,
    /// The bytes written between the fields of a line of output.
    pub delimiter: Vec<u8>,
    /// Whether a malformed record ends the run. Where it does not, the
    /// record is reported and left out, and the run goes on.
    pub strict: bool,
}

impl Pipeline {
    /// The fields that are kept of the fields of a record.
    pub open spec fn kept(self, fields: Seq<Seq<u8>>) -> Seq<Seq<u8>> {
        match self.selection {
            Some(selection) => projected(fields, selection@),
            None => fields,
        }
    }

    /// The line of output that a record gives, or `None` where the record
    /// is malformed.
    pub open spec fn output(self, record: Seq<u8>) -> Option<Seq<u8>> {
        match self.mode.fields(record) {
            Some(fields) => Some(line_of(self.kept(fields), self.delimiter@)),
            None => None,
        }
    }

    /// The pipeline of a mode and a selection, with the output delimiter
    /// that goes with the mode. A malformed record does not end its run.
    pub fn new(mode: Mode, selection: Option<FieldSelection>) -> (p: Pipeline)
        ensures
            p.mode == mode,
            p.selection == selection,
            p.delimiter@ == mode.delimiter(),
            !p.strict,
    {
        let delimiter = mode.output_delimiter();
        Pipeline { mode, selection, delimiter, strict: false }
    }

    /// Takes one record through the pipeline: cuts it into fields, keeps the
    /// selected ones and joins them into a line of output.
    pub fn process(&self, record: &[u8]) -> (r: Result<Vec<u8>, MalformedRecordError>)
        ensures
            match r {
                Ok(line) => self.output(record@) == Some(line@),
                Err(_) => self.output(record@) is None,
            },
    {
        match split(record, &self.mode) {
            Ok(fields) => {
                match &self.selection {
                    Some(selection) => {
                        let kept = project(&fields, selection);
                        Ok(format_line(&kept, self.delimiter.as_slice()))
                    },
                    None => Ok(format_line(&fields, self.delimiter.as_slice())),
                }
            },
            Err(e) => Err(e),
        }
    }
}

} // verus!
