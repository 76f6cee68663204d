//! The four ways of cutting a record into fields.

use vstd::prelude::*;
use vstd::utf8::encode_utf8;
use crate::error::MalformedRecordError;
use crate::quoted::{quoted_fields, split_quoted};
use crate::split::{split_fields, split_literal};
use crate::text::{rows, copy_bytes, COMMA, TAB};

verus! {

/// How records are cut into fields. One mode holds for a whole run.
#[derive(Debug, Clone, PartialEq, Eq)]
pub enum Mode {
    /// Cut at every occurrence of a literal delimiter, which may be longer
    /// than one byte.
    Split(String),
    /// Cut at every occurrence of a pattern. The pattern is one separator
    /// token taken as it is written, so it cuts as a literal delimiter does.
    Extract(String),
    /// Comma-separated fields, with quoting.
    CSV,
    /// Tab-separated fields, with quoting.
    TSV,
}

/// A mode, with the text that it holds as a sequence of characters.
pub enum ModeView {
    Split(Seq<char>),
    Extract(Seq<char>),
    CSV,
    TSV,
}

impl View for Mode {
    type V = ModeView;

    open spec fn view(&self) -> ModeView {
        match *self {
            Mode::Split(d) => ModeView::Split(d@),
            Mode::Extract(p) => ModeView::Extract(p@),
            Mode::CSV => ModeView::CSV,
            Mode::TSV => ModeView::TSV,
        }
    }
}

impl Mode {
    /// Whether records are quoted text.
    pub open spec fn quoted(self) -> bool {
        self is CSV || self is TSV
    }

    /// The bytes that separate fields in the input. These also separate
    /// them in the output unless another delimiter is asked for.
    pub open spec fn delimiter(self) -> Seq<u8> {
        match self {
            Mode::Split(d) => encode_utf8(d@),
            Mode::Extract(p) => encode_utf8(p@),
            Mode::CSV => seq![COMMA],
            Mode::TSV => seq![TAB],
        }
    }

    /// The fields of a record in this mode, or `None` where the record is
    /// malformed, which only quoted text can be.
    pub open spec fn fields(self, record: Seq<u8>) -> Option<Seq<Seq<u8>>> {
        match self {
            Mode::Split(d) => Some(split_fields(record, encode_utf8(d@))),
            Mode::Extract(p) => Some(split_fields(record, encode_utf8(p@))),
            Mode::CSV => quoted_fields(record, COMMA),
            Mode::TSV => quoted_fields(record, TAB),
        }
    }

    /// Whether records are quoted text, in which a line break inside quotes
    /// does not end the record.
    pub fn is_quoted(&self) -> (b: bool)
        ensures
            b == self.quoted(),
    {
        match self {
            Mode::CSV => true,
            Mode::TSV => true,
            _ => false,
        }
    }

    /// The delimiter that the output has where none is asked for: the
    /// delimiter or pattern of the input, the comma for CSV, the tab for TSV.
    pub fn output_delimiter(&self) -> (d: Vec<u8>)
        ensures
            d@ == self.delimiter(),
    {
        match self {
            Mode::Split(d) => copy_bytes(d.as_str().as_bytes()),
            Mode::Extract(p) => copy_bytes(p.as_str().as_bytes()),
            Mode::CSV => {
                let mut d: Vec<u8> = Vec::new();
                d.push(COMMA);
                assert(d@ =~= seq![COMMA]);
                d
            },
            Mode::TSV => {
                let mut d: Vec<u8> = Vec::new();
                d.push(TAB);
                assert(d@ =~= seq![TAB]);
                d
            },
        }
    }
}

/// Cuts one record into its fields as the mode says. Only quoted text can
/// be malformed: a literal delimiter or pattern always gives fields.
pub fn split(record: &[u8], mode: &Mode) -> (r: Result<Vec<Vec<u8>>, MalformedRecordError>)
    ensures
        match r {
            Ok(fields) => mode.fields(record@) == Some(rows(fields@)),
            Err(_) => mode.fields(record@) is None,
        },
{
    match mode {
        Mode::Split(d) => Ok(split_literal(record, d.as_str().as_bytes())),
        Mode::Extract(p) => Ok(split_literal(record, p.as_str().as_bytes())),
        Mode::CSV => split_quoted(record, COMMA),
        Mode::TSV => split_quoted(record, TAB),
    }
}

} // verus!
