use fitme::data::{hdr_help, match_hdr_help};
use fitme::text::{str_eq_ignore_case_and_ws, trim};
use fitme::Headers;
use std::iter::{repeat, repeat_with};

#[test]
fn eq_testing() {
    let f = str_eq_ignore_case_and_ws;
    assert!(f("", ""));
    assert!(f("  ", " "));
    assert!(f("  a  ", " a"));
}

#[test]
fn fuzz_eq_testing() {
    for _ in 0..10_000 {
        let a: String = repeat_with(|| fastrand::char(..))
            .take(fastrand::usize(..100))
            .collect();
        let b = a.chars().fold(String::new(), |mut s, c| {
            s.extend(repeat(' ').take(fastrand::usize(..2)));
            s.push(c);
            s
        });

        assert!(str_eq_ignore_case_and_ws(&a, &b));
    }
}

#[test]
fn fuzz_eq_testing2() {
    for _ in 0..10_000 {
        let mut a: String = repeat_with(|| fastrand::char(..))
            .take(fastrand::usize(..100))
            .collect();
        let mut b: String = repeat_with(|| fastrand::char(..))
            .take(fastrand::usize(..100))
            .collect();

        let x = str_eq_ignore_case_and_ws(&a, &b);

        a.retain(|c| !c.is_whitespace());
        b.retain(|c| !c.is_whitespace());

        let y = a.eq_ignore_ascii_case(&b);

        assert_eq!(x, y);
    }
}

#[test]
fn eq_ignores_case_and_inner_whitespace() {
    assert!(str_eq_ignore_case_and_ws("a Space Col", "aSpaceCol"));
    assert!(str_eq_ignore_case_and_ws("A\tB", "ab"));
    assert!(!str_eq_ignore_case_and_ws("ab", "abc"));
    assert!(!str_eq_ignore_case_and_ws("a_b", "a-b"));
}

#[test]
fn trim_removes_outer_whitespace_only() {
    assert_eq!(trim("  a b \t"), "a b");
    assert_eq!(trim("   "), "");
    assert_eq!(trim("x"), "x");
}

#[test]
fn headers_are_trimmed() {
    let h = Headers::from_iter(&["  y ", "x", "\ta Space Col\n"]);
    assert_eq!(h.len(), 3);
    assert!(!h.is_empty());
    assert_eq!(h.name(0), "y");
    assert_eq!(h.name(2), "a Space Col");
    assert!(Headers::from_iter(&[]).is_empty());
}

#[test]
fn lookup_ignores_case_and_whitespace() {
    let h = Headers::from_iter(&["y", "x", "a Space Col"]);
    assert_eq!(h.find_ignore_case_and_ws("aSpaceCol"), Some(2));
    assert_eq!(h.find_ignore_case_and_ws(" A SPACE col "), Some(2));
    assert_eq!(h.find_ignore_case_and_ws("z"), None);
}

#[test]
fn lookup_exact_and_case_only() {
    let h = Headers::from_iter(&["y", "X", "a Space Col"]);
    assert_eq!(h.find("X"), Some(1));
    assert_eq!(h.find("x"), None);
    assert_eq!(h.find_ignore_case("x"), Some(1));
    assert_eq!(h.find_ignore_case("A SPACE COL"), Some(2));
    assert_eq!(h.find_ignore_case("aSpaceCol"), None);
}

#[test]
fn lookup_takes_first_match() {
    let h = Headers::from_iter(&["ab", "a b", "AB"]);
    assert_eq!(h.find_ignore_case_and_ws("AB"), Some(0));
    assert_eq!(h.find("AB"), Some(2));
}

#[test]
fn find_match_uses_predicate() {
    let h = Headers::from_iter(&["alpha", "beta", "gamma"]);
    assert_eq!(h.find_match(|s| s.starts_with('b')), Some(1));
    assert_eq!(h.find_match(|s| s.len() > 10), None);
}

#[test]
fn similar_names_strip_whitespace_and_skip_missing() {
    let h = Headers::from_iter(&["a b", "c"]);
    assert_eq!(
        h.similar_names(&vec![1, 5, 0]),
        vec!["c".to_string(), "ab".to_string()]
    );
}

#[test]
fn fuzzy_match_finds_similar_header() {
    let h = Headers::from_iter(&["y", "x", "a Space col"]);
    let m = h.fuzzy_match("y_");
    assert_eq!(m, vec!["y".to_string()]);
    let m = h.fuzzy_match("space");
    assert_eq!(m, vec!["aSpacecol".to_string()]);
}

#[test]
fn help_texts() {
    assert_eq!(
        hdr_help(&vec![]),
        "help - no columns match, use `cat <file> | head -n1` for inspect headers"
    );
    assert_eq!(
        hdr_help(&vec!["a".to_string(), "b".to_string()]),
        "help - these headers are similar: a b"
    );
    let h = Headers::from_iter(&["y", "x"]);
    assert_eq!(match_hdr_help(&h, "y_"), "help - these headers are similar: y");
    assert_eq!(
        match_hdr_help(&h, "qqqqqq"),
        "help - no columns match, use `cat <file> | head -n1` for inspect headers"
    );
}

#[test]
fn case_folding_is_ascii_only() {
    assert!(!str_eq_ignore_case_and_ws("É", "é"));
    assert!(str_eq_ignore_case_and_ws("É x", "Éx"));
    assert!(str_eq_ignore_case_and_ws("[Z]", "[z]"));
    assert!(!str_eq_ignore_case_and_ws("@", "`"));
}

#[test]
fn fuzzy_match_keeps_every_header_sharing_a_word() {
    let h = Headers::from_iter(&["A b", "c", "B d", "e"]);
    let m = h.fuzzy_match("b");
    assert!(m.contains(&"Ab".to_string()));
    assert!(m.contains(&"Bd".to_string()));
    assert!(!m.contains(&"c".to_string()));
    assert!(!m.contains(&"e".to_string()));
}

#[test]
fn whitespace_matches_std() {
    for c in ['\u{9}', '\u{d}', ' ', '\u{85}', '\u{a0}', '\u{1680}', '\u{2000}', '\u{200a}', '\u{2028}', '\u{2029}', '\u{202f}', '\u{205f}', '\u{3000}'] {
        assert!(c.is_whitespace());
        assert!(str_eq_ignore_case_and_ws(&format!("a{c}b"), "ab"));
    }
    for c in ['\u{8}', '\u{e}', '\u{200b}', '\u{180e}', 'x'] {
        assert!(!c.is_whitespace());
        assert!(!str_eq_ignore_case_and_ws(&format!("a{c}b"), "ab"));
    }
}
