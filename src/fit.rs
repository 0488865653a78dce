//! The checks that a fit makes before its numeric work, and the degrees of
//! freedom that its statistics rest on.
use vstd::prelude::*;

use crate::data::{
    cell_number, column_of, is_header_help, lemma_first_where_in_range, match_hdr_help, strings_view, Cell, Data,
};
use crate::error::FitError;

verus! {

/// The first row whose cell in column `c` is not a number.
pub open spec fn first_non_numeric(cells: Seq<Seq<Cell>>, c: int) -> Option<int>
    decreases cells.len(),
{
    if cells.len() == 0 {
        None
    } else {
        match first_non_numeric(cells.drop_last(), c) {
            Some(r) => Some(r),
            None => if cell_number(cells.last(), c) is None {
                Some(cells.len() - 1)
            } else {
                None
            },
        }
    }
}

/// Some row holds text in column `c`.
pub open spec fn has_text_cell(cells: Seq<Seq<Cell>>, c: int) -> bool {
    exists|row: int| 0 <= row < cells.len() && 0 <= c < cells[row].len() && #[trigger] cells[row][c] is Txt
}

proof fn lemma_text_cell_found(cells: Seq<Seq<Cell>>, c: int)
    requires
        has_text_cell(cells, c),
    ensures
        first_non_numeric(cells, c) is Some,
    decreases cells.len(),
{
    let row = choose|row: int| 0 <= row < cells.len() && 0 <= c < cells[row].len() && #[trigger] cells[row][c] is Txt;
    if row < cells.len() - 1 {
        assert(cells.drop_last()[row] == cells[row]);
        lemma_text_cell_found(cells.drop_last(), c);
    }
}

proof fn lemma_first_non_numeric_in_range(cells: Seq<Seq<Cell>>, c: int)
    ensures
        first_non_numeric(cells, c) matches Some(r) ==> 0 <= r < cells.len(),
    decreases cells.len(),
{
    if cells.len() > 0 {
        lemma_first_non_numeric_in_range(cells.drop_last(), c);
        if first_non_numeric(cells.drop_last(), c) is Some {
            assert(cells.drop_last().len() < cells.len());
        }
    }
}

/// `e` reports the first row whose cell in column `c` is not a number: the
/// text of that cell, or that the row has no such column.
pub open spec fn reports_non_numeric(cells: Seq<Seq<Cell>>, c: int, e: FitError) -> bool {
    &&& first_non_numeric(cells, c) matches Some(row)
    &&& if 0 <= c < cells[row].len() {
        e matches FitError::NonNumericCell { row: r, col, text } && r == row && col == c && {
            cells[row][c] matches Cell::Txt(t) && t@ == text@
        }
    } else {
        e matches FitError::ColumnOutOfRange { col } && col == c
    }
}

/// The column named `n` exists in `hs` and holds only numbers.
pub open spec fn name_ok(hs: Seq<Seq<char>>, cells: Seq<Seq<Cell>>, n: Seq<char>) -> bool {
    column_of(hs, n) matches Some(c) && first_non_numeric(cells, c) is None
}

/// `e` reports why the column named `n` cannot be used.
pub open spec fn reports_name(hs: Seq<Seq<char>>, cells: Seq<Seq<Cell>>, n: Seq<char>, e: FitError) -> bool {
    match column_of(hs, n) {
        None => e matches FitError::ColumnNotFound { name, help } && name@ == n && is_header_help(hs, n, help@),
        Some(c) => reports_non_numeric(cells, c, e),
    }
}

/// The outcome of checking that column `tgt` and the columns named `names`
/// (looked up in `hs`, in order) hold only numbers: success when all do,
/// else the first failure.
pub open spec fn numeric_outcome(
    hs: Seq<Seq<char>>,
    cells: Seq<Seq<Cell>>,
    tgt: int,
    names: Seq<Seq<char>>,
    r: Result<(), FitError>,
) -> bool {
    &&& r is Ok <==> (first_non_numeric(cells, tgt) is None && forall|k: int|
        0 <= k < names.len() ==> name_ok(hs, cells, #[trigger] names[k]))
    &&& r matches Err(e) ==> {
        ||| reports_non_numeric(cells, tgt, e)
        ||| first_non_numeric(cells, tgt) is None && exists|k: int|
            0 <= k < names.len() && (forall|j: int| 0 <= j < k ==> name_ok(hs, cells, #[trigger] names[j]))
                && reports_name(hs, cells, #[trigger] names[k], e)
    }
}

proof fn lemma_first_non_numeric_prefix(cells: Seq<Seq<Cell>>, c: int, k: int)
    requires
        0 <= k <= cells.len(),
        first_non_numeric(cells.subrange(0, k), c) is Some,
    ensures
        first_non_numeric(cells, c) == first_non_numeric(cells.subrange(0, k), c),
    decreases cells.len() - k,
{
    if k < cells.len() {
        assert(cells.subrange(0, k + 1).drop_last() =~= cells.subrange(0, k));
        lemma_first_non_numeric_prefix(cells, c, k + 1);
    } else {
        assert(cells.subrange(0, k) =~= cells);
    }
}

/// Checks that column `c` holds a number in every row; else reports the
/// first row that does not.
pub fn ensure_numeric_column(data: &Data, c: usize) -> (r: Result<(), FitError>)
    ensures
        r is Ok <==> first_non_numeric(data.cells(), c as int) is None,
        r matches Err(e) ==> reports_non_numeric(data.cells(), c as int, e),
{
    let rows = data.rows();
    let ghost cells = data.cells();
    let mut i: usize = 0;
    while i < rows.len()
        invariant
            i <= rows@.len(),
            cells == data.cells(),
            rows@.len() == cells.len(),
            forall|j: int|
                0 <= j < rows@.len() ==> {
                    &&& (#[trigger] rows@[j]).index() == j
                    &&& rows@[j].cells() == cells[j]
                    &&& rows@[j].cells().len() == data.columns().len()
                },
            first_non_numeric(cells.subrange(0, i as int), c as int) is None,
        decreases rows@.len() - i,
    {
        proof {
            assert(cells.subrange(0, i + 1).drop_last() =~= cells.subrange(0, i as int));
        }
        match rows[i].get_num(c) {
            Some(Ok(_)) => {},
            Some(Err(e)) => {
                proof {
                    lemma_first_non_numeric_prefix(cells, c as int, i + 1);
                }
                return Err(e);
            },
            None => {
                proof {
                    lemma_first_non_numeric_prefix(cells, c as int, i + 1);
                }
                return Err(FitError::ColumnOutOfRange { col: c });
            },
        }
        i += 1;
    }
    assert(cells.subrange(0, cells.len() as int) =~= cells);
    Ok(())
}

/// Checks that the target column `tgt` and every column that `eq` binds a
/// variable to (looked up by name in the data's headers) hold only numbers.
pub fn ensure_float_values_in_data(eq: &crate::expr::Eq, data: &Data, tgt: usize) -> (r: Result<(), FitError>)
    ensures
        numeric_outcome(
            data.columns(),
            data.cells(),
            tgt as int,
            eq.var_view().map_values(|p: (Seq<char>, usize)| p.0),
            r,
        ),
{
    let ghost hs = data.columns();
    let ghost cells = data.cells();
    let ghost names = eq.var_view().map_values(|p: (Seq<char>, usize)| p.0);
    match ensure_numeric_column(data, tgt) {
        Ok(()) => {},
        Err(e) => {
            return Err(e);
        },
    }
    let vars = eq.vars();
    let headers = data.headers();
    let mut k: usize = 0;
    while k < vars.len()
        invariant
            k <= vars@.len(),
            strings_view(vars@) == names,
            names == eq.var_view().map_values(|p: (Seq<char>, usize)| p.0),
            headers@ == hs,
            hs == data.columns(),
            cells == data.cells(),
            first_non_numeric(cells, tgt as int) is None,
            forall|j: int| 0 <= j < k ==> name_ok(hs, cells, #[trigger] names[j]),
        decreases vars@.len() - k,
    {
        let n = vars[k].as_str();
        assert(names[k as int] == n@);
        match headers.find_ignore_case_and_ws(n) {
            None => {
                let help = match_hdr_help(headers, n);
                let e = FitError::ColumnNotFound { name: String::from_str(n), help };
                proof {
                    assert(reports_name(hs, cells, names[k as int], e));
                    assert(!name_ok(hs, cells, names[k as int]));
                    assert(exists|kk: int|
                        0 <= kk < names.len() && (forall|j: int| 0 <= j < kk ==> name_ok(hs, cells, #[trigger] names[j]))
                            && reports_name(hs, cells, #[trigger] names[kk], e));
                }
                return Err(e);
            },
            Some(c) => {
                match ensure_numeric_column(data, c) {
                    Ok(()) => {},
                    Err(e) => {
                        proof {
                            assert(reports_name(hs, cells, names[k as int], e));
                            assert(!name_ok(hs, cells, names[k as int]));
                            assert(exists|kk: int|
                                0 <= kk < names.len() && (forall|j: int| 0 <= j < kk ==> name_ok(hs, cells, #[trigger] names[j]))
                                    && reports_name(hs, cells, #[trigger] names[kk], e));
                        }
                        return Err(e);
                    },
                }
            },
        }
        k += 1;
    }
    Ok(())
}

/// The checks before a fit, in order: the target column exists (case and
/// whitespace ignored), the target and every column-bound variable hold only
/// numbers, and the formula has a free parameter. Returns the target column.
pub fn check_fit(eq: &crate::expr::Eq, data: &Data, target: &str) -> (r: Result<usize, FitError>)
    ensures
        match column_of(data.columns(), target@) {
            None => (r matches Err(FitError::ColumnNotFound { name, help }) && name@ == target@
                && is_header_help(data.columns(), target@, help@)),
            Some(c) => {
                let names = eq.var_view().map_values(|p: (Seq<char>, usize)| p.0);
                let columns_ok = first_non_numeric(data.cells(), c) is None && forall|k: int|
                    0 <= k < names.len() ==> name_ok(data.columns(), data.cells(), #[trigger] names[k]);
                &&& !columns_ok ==> numeric_outcome(
                    data.columns(),
                    data.cells(),
                    c,
                    names,
                    match r {
                        Ok(_) => Ok(()),
                        Err(e) => Err(e),
                    },
                )
                &&& columns_ok && eq.param_view().len() == 0 ==> (r matches Err(
                    FitError::ZeroParameters { formula },
                ) && formula@ == eq.text())
                &&& columns_ok && eq.param_view().len() > 0 ==> r == Ok::<usize, FitError>(c as usize)
                &&& (forall|k: int| 0 <= k < names.len() ==> column_of(data.columns(), #[trigger] names[k]) is Some)
                    && (has_text_cell(data.cells(), c) || exists|k: int|
                    0 <= k < names.len() && has_text_cell(
                        data.cells(),
                        column_of(data.columns(), #[trigger] names[k])->0,
                    )) ==> r matches Err(FitError::NonNumericCell { .. })
            },
        },
{
    let headers = data.headers();
    let tgt = match headers.find_ignore_case_and_ws(target) {
        Some(t) => t,
        None => {
            let help = match_hdr_help(headers, target);
            return Err(FitError::ColumnNotFound { name: String::from_str(target), help });
        },
    };
    let checked = ensure_float_values_in_data(eq, data, tgt);
    match checked {
        Ok(()) => {},
        Err(e) => {
            proof {
                lemma_text_reports_cell(eq, data, target@, tgt as int, e);
            }
            return Err(e);
        },
    }
    proof {
        lemma_text_reports_cell_ok(eq, data, tgt as int);
    }
    if eq.params_len() == 0 {
        let formula = match eq.expr() {
            Some(s) => s,
            None => String::new(),
        };
        return Err(FitError::ZeroParameters { formula });
    }
    Ok(tgt)
}

proof fn lemma_text_reports_cell(eq: &crate::expr::Eq, data: &Data, target: Seq<char>, c: int, e: FitError)
    requires
        column_of(data.columns(), target) == Some(c),
        forall|i: int| 0 <= i < data.cells().len() ==> #[trigger] data.cells()[i].len() == data.columns().len(),
        numeric_outcome(
            data.columns(),
            data.cells(),
            c,
            eq.var_view().map_values(|p: (Seq<char>, usize)| p.0),
            Err(e),
        ),
    ensures
        ({
            let names = eq.var_view().map_values(|p: (Seq<char>, usize)| p.0);
            (forall|k: int| 0 <= k < names.len() ==> column_of(data.columns(), #[trigger] names[k]) is Some)
                ==> e matches FitError::NonNumericCell { .. }
        }),
{
    let names = eq.var_view().map_values(|p: (Seq<char>, usize)| p.0);
    let hs = data.columns();
    let cells = data.cells();
    if forall|k: int| 0 <= k < names.len() ==> column_of(hs, #[trigger] names[k]) is Some {
        lemma_first_where_in_range(hs, |h: Seq<char>| crate::text::seq_eq_ignore_case_and_ws(h, target));
        if reports_non_numeric(cells, c, e) {
            lemma_first_non_numeric_in_range(cells, c);
            let row = first_non_numeric(cells, c)->0;
            assert(data.cells()[row].len() == data.columns().len());
        } else {
            let k = choose|k: int|
                0 <= k < names.len() && (forall|j: int| 0 <= j < k ==> name_ok(hs, cells, #[trigger] names[j]))
                    && reports_name(hs, cells, #[trigger] names[k], e);
            let c2 = column_of(hs, names[k])->0;
            lemma_first_where_in_range(hs, |h: Seq<char>| crate::text::seq_eq_ignore_case_and_ws(h, names[k]));
            lemma_first_non_numeric_in_range(cells, c2);
            let row = first_non_numeric(cells, c2)->0;
            assert(data.cells()[row].len() == data.columns().len());
        }
    }
}

proof fn lemma_text_reports_cell_ok(eq: &crate::expr::Eq, data: &Data, c: int)
    requires
        numeric_outcome(
            data.columns(),
            data.cells(),
            c,
            eq.var_view().map_values(|p: (Seq<char>, usize)| p.0),
            Ok(()),
        ),
    ensures
        ({
            let names = eq.var_view().map_values(|p: (Seq<char>, usize)| p.0);
            &&& !has_text_cell(data.cells(), c)
            &&& forall|k: int|
                0 <= k < names.len() ==> !has_text_cell(
                    data.cells(),
                    column_of(data.columns(), #[trigger] names[k])->0,
                )
        }),
{
    let names = eq.var_view().map_values(|p: (Seq<char>, usize)| p.0);
    if has_text_cell(data.cells(), c) {
        lemma_text_cell_found(data.cells(), c);
    }
    assert forall|k: int|
        0 <= k < names.len() implies !has_text_cell(
            data.cells(),
            column_of(data.columns(), #[trigger] names[k])->0,
        ) by {
        assert(name_ok(data.columns(), data.cells(), names[k]));
        let c2 = column_of(data.columns(), names[k])->0;
        if has_text_cell(data.cells(), c2) {
            lemma_text_cell_found(data.cells(), c2);
        }
    }
}

/// The residual degrees of freedom `n - k - 1` of `n` observations and `k`
/// parameters; an error where that is not positive.
pub fn residual_dof(n: usize, k: usize) -> (r: Result<usize, FitError>)
    ensures
        r is Ok <==> n > k + 1,
        r matches Ok(d) ==> d == n - k - 1,
        r matches Err(e) ==> e matches FitError::DegenerateStatistics { n: en, k: ek } && en == n
            && ek == k,
{
    if k < n && n - k > 1 {
        Ok(n - k - 1)
    } else {
        Err(FitError::DegenerateStatistics { n, k })
    }
}

} // verus!
