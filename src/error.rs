//! The errors that the library reports.
use vstd::prelude::*;

verus! {

/// Why a dataset, a formula or a fit was refused.
///
/// Row and column indices are 0-based positions in the data.
#[derive(Debug)]
pub enum FitError {
    /// A data row does not have one cell per header.
    RowLength { row: usize, len: usize, expected: usize },
    /// The formula holds nothing but spaces, tabs and line breaks.
    BlankFormula { formula: String },
    /// The formula could not be parsed, or parses but cannot be bound for
    /// evaluation (an unknown function, a wrong number of arguments);
    /// `cause` is meval's own report.
    Parse { formula: String, cause: meval::Error },
    /// No header matches the column name; `help` suggests similar headers.
    ColumnNotFound { name: String, help: String },
    /// A column index that the rows of the data do not reach.
    ColumnOutOfRange { col: usize },
    /// A column that the fit reads holds a cell that is not a number.
    NonNumericCell { row: usize, col: usize, text: String },
    /// The formula has no free parameter left to fit.
    ZeroParameters { formula: String },
    /// There are too few observations for the number of parameters.
    DegenerateStatistics { n: usize, k: usize },
}

} // verus!
