//! Curve fitting of a formula to tabular observations: column headers and
//! data, formula parsing with the split of its identifiers into columns and
//! free parameters, and the checks that a fit needs before its numeric work.
pub mod data;
pub mod error;
pub mod expr;
pub mod fit;
pub mod text;

pub use data::{Cell, Data, DataRow, Headers};
pub use error::FitError;
pub use fit::{check_fit, ensure_float_values_in_data, residual_dof};
pub use text::str_eq_ignore_case_and_ws;
