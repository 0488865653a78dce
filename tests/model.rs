use fitme::expr;
use fitme::fit::ensure_numeric_column;
use fitme::{check_fit, residual_dof, Cell, Data, FitError, Headers};

fn num(x: f64) -> Cell {
    Cell::Num(x.to_bits())
}

fn txt(s: &str) -> Cell {
    Cell::Txt(s.to_string())
}

#[test]
fn distinct_params_and_vars() {
    let e = expr::Eq::parse("x * x + d + d", &Headers::from_iter(&["d"])).unwrap();

    assert_eq!(e.params(), vec!["x".to_string()]);
    assert_eq!(e.vars(), vec!["d".to_string()]);
}

#[test]
fn params_in_first_occurrence_order() {
    let h = Headers::from_iter(&["y", "x"]);
    let e = expr::Eq::parse("m * x + c", &h).unwrap();
    assert_eq!(e.params(), vec!["m".to_string(), "c".to_string()]);
    assert_eq!(e.vars(), vec!["x".to_string()]);
    assert_eq!(e.params_len(), 2);
    assert_eq!(e.expr(), Some("m * x + c".to_string()));
    assert_eq!(
        e.build_inputs(),
        vec!["m".to_string(), "c".to_string(), "x".to_string()]
    );
}

#[test]
fn constants_and_functions_are_not_identifiers() {
    let h = Headers::from_iter(&["y", "x", "sin"]);
    let e = expr::Eq::parse("pi * sin(x) + e * a", &h).unwrap();
    assert_eq!(e.params(), vec!["a".to_string()]);
    assert_eq!(e.vars(), vec!["x".to_string()]);
}

#[test]
fn variables_match_columns_ignoring_case_and_whitespace() {
    let h = Headers::from_iter(&["y", "x", "a Space Col"]);
    let e = expr::Eq::parse("10 - x - y + FOO + aspacecol", &h).unwrap();
    assert_eq!(e.params(), vec!["FOO".to_string()]);
    assert_eq!(
        e.vars(),
        vec!["x".to_string(), "y".to_string(), "aspacecol".to_string()]
    );
}

#[test]
fn invalid_expr() {
    let h = Headers::from_iter(&["y", "x"]);
    match expr::Eq::parse("3 * 2x +", &h) {
        Err(FitError::Parse { formula, cause }) => {
            assert_eq!(formula, "3 * 2x +");
            assert_eq!(cause.to_string(), "Parse error: Unexpected token at byte 5.");
        }
        _ => panic!("expected a parse error"),
    }
}

#[test]
fn rows_must_match_headers() {
    let h = Headers::from_iter(&["y", "x"]);
    let r = Data::new(h, vec![vec![num(1.0), num(2.0)], vec![num(3.0)], vec![num(4.0)]]);
    match r {
        Err(FitError::RowLength { row, len, expected }) => {
            assert_eq!((row, len, expected), (1, 1, 2));
        }
        _ => panic!("expected a row length error"),
    }
}

#[test]
fn data_rows_and_cells() {
    let h = Headers::from_iter(&["y", "x"]);
    let d = Data::new(h, vec![vec![num(1.5), txt("foo")], vec![num(3.0), num(-2.0)]]).unwrap();
    assert_eq!(d.len(), 2);
    assert!(!d.is_empty());
    assert_eq!(d.headers().name(1), "x");
    let rows = d.rows();
    assert_eq!(rows.len(), 2);
    assert_eq!(rows[1].idx(), 1);
    assert_eq!(rows[1].headers().len(), 2);
    assert_eq!(rows[0].get_num(0).unwrap().unwrap(), 1.5f64.to_bits());
    assert!(rows[0].get_num(2).is_none());
    match rows[0].get_num(1) {
        Some(Err(FitError::NonNumericCell { row, col, text })) => {
            assert_eq!((row, col, text.as_str()), (0, 1, "foo"));
        }
        _ => panic!("expected a non-numeric cell"),
    }
    let empty = Data::new(Headers::from_iter(&["y"]), vec![]).unwrap();
    assert!(empty.is_empty());
}

#[test]
fn inputs_are_params_then_row_values() {
    let h = Headers::from_iter(&["y", "x"]);
    let e = expr::Eq::parse("m * x + c", &h).unwrap();
    let d = Data::new(h, vec![vec![num(1.0), num(2.0)], vec![num(1.0), txt("bar")]]).unwrap();
    let rows = d.rows();
    let p = [0.5f64.to_bits(), 3.0f64.to_bits()];
    assert_eq!(
        e.inputs(&p, &rows[0]),
        Some(vec![0.5f64.to_bits(), 3.0f64.to_bits(), 2.0f64.to_bits()])
    );
    assert_eq!(e.inputs(&p, &rows[1]), None);
}

#[test]
fn matching_column_name() {
    let h = Headers::from_iter(&["y", "x", "a Space col"]);
    let e = expr::Eq::parse("10 - x - y + FOO", &h).unwrap();
    assert_eq!(e.params(), vec!["FOO".to_string()]);
    let d = Data::new(
        h,
        vec![vec![num(1.0), num(2.0), num(3.0)], vec![num(4.0), num(5.0), num(6.0)]],
    )
    .unwrap();
    assert_eq!(check_fit(&e, &d, "aSpaceCol").ok(), Some(2));
}

#[test]
fn zero_params() {
    let h = Headers::from_iter(&["y", "x"]);
    let e = expr::Eq::parse("2 * x", &h).unwrap();
    let d = Data::new(h, vec![vec![num(1.0), num(2.0)], vec![num(3.0), num(4.0)]]).unwrap();
    match check_fit(&e, &d, "y") {
        Err(FitError::ZeroParameters { formula }) => assert_eq!(formula, "2 * x"),
        _ => panic!("expected zero parameters"),
    }
}

#[test]
fn column_errors_come_before_zero_params() {
    let h = Headers::from_iter(&["y", "x"]);
    let e = expr::Eq::parse("2 * x", &h).unwrap();
    let d = Data::new(h, vec![vec![num(1.0), txt("oops")]]).unwrap();
    assert!(matches!(
        check_fit(&e, &d, "nothere"),
        Err(FitError::ColumnNotFound { .. })
    ));
    match check_fit(&e, &d, "y") {
        Err(FitError::NonNumericCell { row, col, text }) => {
            assert_eq!((row, col, text.as_str()), (0, 1, "oops"));
        }
        _ => panic!("expected a non-numeric cell"),
    }
}

#[test]
fn column_out_of_range() {
    let h = Headers::from_iter(&["y", "x"]);
    let d = Data::new(h, vec![vec![num(1.0), num(2.0)]]).unwrap();
    assert!(ensure_numeric_column(&d, 1).is_ok());
    assert!(matches!(
        ensure_numeric_column(&d, 2),
        Err(FitError::ColumnOutOfRange { col: 2 })
    ));
    let empty = Data::new(Headers::from_iter(&["y"]), vec![]).unwrap();
    assert!(ensure_numeric_column(&empty, 5).is_ok());
}

#[test]
fn supported_math() {
    let h = Headers::from_iter(&["y", "x"]);
    let f = "sin(x) + ln(x) + cos(x) + tan(x) + log(x) + sqrt(x) + exp(x) + abs(x)";
    let e = expr::Eq::parse(f, &h).unwrap();
    assert_eq!(e.params_len(), 0);
    let d = Data::new(h, vec![vec![num(1.0), num(2.0)]]).unwrap();
    match check_fit(&e, &d, "y") {
        Err(FitError::ZeroParameters { formula }) => assert_eq!(formula, f),
        _ => panic!("expected zero parameters"),
    }
}

#[test]
fn target_not_found() {
    let h = Headers::from_iter(&["y", "x"]);
    let e = expr::Eq::parse("m * x + c", &h).unwrap();
    let d = Data::new(h, vec![vec![num(1.0), num(2.0)]]).unwrap();
    match check_fit(&e, &d, "y_") {
        Err(FitError::ColumnNotFound { name, help }) => {
            assert_eq!(name, "y_");
            assert_eq!(help, "help - these headers are similar: y");
        }
        _ => panic!("expected a missing column"),
    }

    let h = Headers::from_iter(&["y", "x", "a Space col"]);
    let e = expr::Eq::parse("m * x + c", &h).unwrap();
    let d = Data::new(h, vec![vec![num(1.0), num(2.0), num(3.0)]]).unwrap();
    match check_fit(&e, &d, "a space ") {
        Err(FitError::ColumnNotFound { name, help }) => {
            assert_eq!(name, "a space ");
            assert_eq!(help, "help - these headers are similar: aSpacecol");
        }
        _ => panic!("expected a missing column"),
    }
}

#[test]
fn invalid_csv() {
    let h = Headers::from_iter(&["y", "x"]);
    let e = expr::Eq::parse("3 * 2 * x + b", &h).unwrap();
    let d = Data::new(
        h,
        vec![
            vec![num(1.0), num(2.0)],
            vec![num(2.0), txt("bar")],
            vec![num(3.0), txt("baz")],
        ],
    )
    .unwrap();
    match check_fit(&e, &d, "y") {
        Err(FitError::NonNumericCell { row, col, text }) => {
            assert_eq!((row, col, text.as_str()), (1, 1, "bar"));
        }
        _ => panic!("expected a non-numeric cell"),
    }
}

#[test]
fn non_numeric_target_is_reported_first() {
    let h = Headers::from_iter(&["y", "x"]);
    let e = expr::Eq::parse("m * x", &h).unwrap();
    let d = Data::new(h, vec![vec![num(1.0), txt("a")], vec![txt("b"), num(1.0)]]).unwrap();
    match check_fit(&e, &d, "Y") {
        Err(FitError::NonNumericCell { row, col, text }) => {
            assert_eq!((row, col, text.as_str()), (1, 0, "b"));
        }
        _ => panic!("expected a non-numeric cell"),
    }
}

#[test]
fn variable_missing_from_data_headers() {
    let e = expr::Eq::parse("m * x", &Headers::from_iter(&["y", "x"])).unwrap();
    let d = Data::new(Headers::from_iter(&["y", "z"]), vec![vec![num(1.0), num(1.0)]]).unwrap();
    match check_fit(&e, &d, "y") {
        Err(FitError::ColumnNotFound { name, .. }) => assert_eq!(name, "x"),
        _ => panic!("expected a missing column"),
    }
}

#[test]
fn checks_pass_on_numeric_data() {
    let h = Headers::from_iter(&["y", "x"]);
    let e = expr::Eq::parse("m * x + c", &h).unwrap();
    let d = Data::new(h, vec![vec![num(1.0), num(2.0)], vec![num(3.0), num(4.0)]]).unwrap();
    assert_eq!(check_fit(&e, &d, " X ").ok(), Some(1));
    assert_eq!(check_fit(&e, &d, "y").ok(), Some(0));
}

#[test]
fn degrees_of_freedom() {
    assert_eq!(residual_dof(10, 2).ok(), Some(7));
    assert_eq!(residual_dof(4, 2).ok(), Some(1));
    match residual_dof(3, 2) {
        Err(FitError::DegenerateStatistics { n, k }) => assert_eq!((n, k), (3, 2)),
        _ => panic!("expected degenerate statistics"),
    }
    assert!(residual_dof(0, 0).is_err());
}

#[test]
fn unbindable_formula_is_a_parse_error() {
    let h = Headers::from_iter(&["y", "x"]);
    for f in ["foo(x) + m", "atan2(x) + m", "sin(x, m)"] {
        match expr::Eq::parse(f, &h) {
            Err(FitError::Parse { formula, .. }) => assert_eq!(formula, f),
            _ => panic!("expected a parse error for {f}"),
        }
    }
    assert!(expr::Eq::parse("log(x) * m + ln(x) + atan2(x, m)", &h).is_ok());
}

#[test]
fn blank_formula_is_refused() {
    let h = Headers::from_iter(&["y", "x"]);
    for f in [" ", "\t\r\n  "] {
        match expr::Eq::parse(f, &h) {
            Err(FitError::BlankFormula { formula }) => assert_eq!(formula, f),
            _ => panic!("expected a blank formula"),
        }
    }
    assert!(matches!(
        expr::Eq::parse("", &h),
        Err(FitError::Parse { .. })
    ));
    assert!(expr::Eq::parse("  m * x  ", &h).is_ok());
}
