//! What the parsers pass over, and note.

use crate::word::ParseError;
use vstd::prelude::*;

verus! {

/// Something in a file that the parser passed over. None of them stops the
/// parser: each is noted and the next line is read.
#[derive(Debug, PartialEq, Eq)]
pub enum Anomaly {
    /// A line at the place of a block header that is neither blank, nor a
    /// header, nor a known line of the file. Holds the trimmed line.
    UnexpectedHeader(String),
    /// A usage line whose tag is outside the table. Holds the line as read.
    UnknownUsage(String),
    /// A form that cannot be entered for want of fields. Holds the type of
    /// the form and what it lacks.
    ShortForm { form_type: String, error: ParseError },
}

/// What an `Anomaly` holds.
pub enum AnomalyView {
    UnexpectedHeader(Seq<char>),
    UnknownUsage(Seq<char>),
    ShortForm { form_type: Seq<char>, error: ParseError },
}

impl View for Anomaly {
    type V = AnomalyView;

    open spec fn view(&self) -> AnomalyView {
        match self {
            Anomaly::UnexpectedHeader(line) => AnomalyView::UnexpectedHeader(line@),
            Anomaly::UnknownUsage(line) => AnomalyView::UnknownUsage(line@),
            Anomaly::ShortForm { form_type, error } => AnomalyView::ShortForm {
                form_type: form_type@,
                error: *error,
            },
        }
    }
}

impl DeepView for Anomaly {
    type V = AnomalyView;

    open spec fn deep_view(&self) -> AnomalyView {
        self@
    }
}

} // verus!
