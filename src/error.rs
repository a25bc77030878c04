//! Errors of the cell-to-record transformation and of the cross-sheet join.
use vstd::prelude::*;

verus! {

/// The slot of a cell that a value was read from.
#[derive(Clone, Copy, Debug, PartialEq, Eq, Structural)]
pub enum CellSlot {
    /// The value the spreadsheet engine computed.
    Computed,
    /// The literal or formula as it was typed.
    Entered,
}

/// The variant of a cell value, named in error reports.
#[derive(Clone, Copy, Debug, PartialEq, Eq, Structural)]
pub enum ValueKind {
    Number,
    Text,
    Bool,
    Formula,
    Empty,
}

/// Everything that can go wrong while building or joining records.
#[derive(Clone, Debug, PartialEq, Eq)]
pub enum ExportError {
    /// The sheet carries no grid payload.
    NoGridData,
    /// The grid has no rows, so no header row.
    NoColumnTitles,
    /// The header cell at this column resolves to nothing.
    MissingColumnTitle { column: usize },
    /// A formula that is not a single-argument `IMAGE("...")` call.
    UnsupportedFormula { formula: String },
    /// A value of this kind cannot stand in this slot.
    UnsupportedCellType { kind: ValueKind, slot: CellSlot },
    /// No sheet has this title.
    SheetNotFound { title: String },
    /// A record lacks this field, or holds something other than text in it.
    FieldMissing { field: String },
}

/// The mathematical value of an [`ExportError`].
pub enum ErrorView {
    NoGridData,
    NoColumnTitles,
    MissingColumnTitle { column: nat },
    UnsupportedFormula { formula: Seq<char> },
    UnsupportedCellType { kind: ValueKind, slot: CellSlot },
    SheetNotFound { title: Seq<char> },
    FieldMissing { field: Seq<char> },
}

impl View for ExportError {
    type V = ErrorView;

    open spec fn view(&self) -> ErrorView {
        match self {
            ExportError::NoGridData => ErrorView::NoGridData,
            ExportError::NoColumnTitles => ErrorView::NoColumnTitles,
            ExportError::MissingColumnTitle { column } => ErrorView::MissingColumnTitle {
                column: *column as nat,
            },
            ExportError::UnsupportedFormula { formula } => ErrorView::UnsupportedFormula {
                formula: formula@,
            },
            ExportError::UnsupportedCellType { kind, slot } => ErrorView::UnsupportedCellType {
                kind: *kind,
                slot: *slot,
            },
            ExportError::SheetNotFound { title } => ErrorView::SheetNotFound { title: title@ },
            ExportError::FieldMissing { field } => ErrorView::FieldMissing { field: field@ },
        }
    }
}

} // verus!
