//! Column headers and the table of observations.
use vstd::prelude::*;

use crate::error::FitError;
use crate::text::{
    char_eq_ignore_case, chars_eq, chars_eq_ignore_ascii_case, chars_of, push_char, seq_eq_ignore_case,
    seq_eq_ignore_case_and_ws, strip_chars, strip_ws, trim, trim_ws,
};

verus! {

/// The first position of `hs` whose item satisfies `p`.
pub open spec fn first_where(hs: Seq<Seq<char>>, p: spec_fn(Seq<char>) -> bool) -> Option<int>
    decreases hs.len(),
{
    if hs.len() == 0 {
        None
    } else {
        match first_where(hs.drop_last(), p) {
            Some(i) => Some(i),
            None => if p(hs.last()) {
                Some(hs.len() - 1)
            } else {
                None
            },
        }
    }
}

/// `r` is the first position of `hs` whose item satisfies `p`.
pub open spec fn is_first_where(
    hs: Seq<Seq<char>>,
    p: spec_fn(Seq<char>) -> bool,
    r: Option<usize>,
) -> bool {
    match r {
        Some(i) => {
            &&& i < hs.len()
            &&& p(hs[i as int])
            &&& forall|j: int| 0 <= j < i ==> !p(#[trigger] hs[j])
        },
        None => forall|j: int| 0 <= j < hs.len() ==> !p(#[trigger] hs[j]),
    }
}

proof fn lemma_first_where(hs: Seq<Seq<char>>, p: spec_fn(Seq<char>) -> bool, r: Option<usize>)
    requires
        is_first_where(hs, p, r),
    ensures
        first_where(hs, p) == match r {
            Some(i) => Some(i as int),
            None => None::<int>,
        },
    decreases hs.len(),
{
    if hs.len() > 0 {
        let d = hs.drop_last();
        match r {
            Some(i) => {
                if i < d.len() {
                    assert(forall|j: int| 0 <= j < i ==> d[j] == hs[j]);
                    lemma_first_where(d, p, r);
                } else {
                    assert(forall|j: int| 0 <= j < d.len() ==> d[j] == hs[j]);
                    lemma_first_where(d, p, None);
                }
            },
            None => {
                assert(forall|j: int| 0 <= j < d.len() ==> d[j] == hs[j]);
                lemma_first_where(d, p, None);
            },
        }
    }
}

/// The ways in which a header can match a name.
pub enum Matching {
    /// The same characters.
    Exact,
    /// The same characters up to ASCII case.
    IgnoreCase,
    /// The same characters up to ASCII case once whitespace is removed.
    IgnoreCaseAndWs,
}

/// Whether header `h` matches name `s` in the way `how`.
pub open spec fn names_match(how: Matching, h: Seq<char>, s: Seq<char>) -> bool {
    match how {
        Matching::Exact => h == s,
        Matching::IgnoreCase => seq_eq_ignore_case(h, s),
        Matching::IgnoreCaseAndWs => seq_eq_ignore_case_and_ws(h, s),
    }
}

/// The column of `name` when case and whitespace are ignored: the first match.
pub open spec fn column_of(hs: Seq<Seq<char>>, name: Seq<char>) -> Option<int> {
    first_where(hs, |h: Seq<char>| seq_eq_ignore_case_and_ws(h, name))
}

/// `p` was seen to answer `b` on a string whose characters are `h`.
pub open spec fn answers<P: Fn(&str) -> bool>(p: P, h: Seq<char>, b: bool) -> bool {
    exists|x: &str| x@ == h && p.ensures((x,), b)
}

/// A position found by `first_where` lies inside the sequence.
pub proof fn lemma_first_where_in_range(hs: Seq<Seq<char>>, p: spec_fn(Seq<char>) -> bool)
    ensures
        first_where(hs, p) matches Some(i) ==> 0 <= i < hs.len(),
    decreases hs.len(),
{
    if hs.len() > 0 {
        lemma_first_where_in_range(hs.drop_last(), p);
    }
}

/// Column lookup ignores case and whitespace in the name looked up: two names
/// that are equal up to ASCII case once their whitespace is removed find the
/// same column, or both find none.
pub proof fn lemma_lookup_ignores_case_and_ws(hs: Seq<Seq<char>>, a: Seq<char>, b: Seq<char>)
    requires
        seq_eq_ignore_case_and_ws(a, b),
    ensures
        column_of(hs, a) == column_of(hs, b),
{
    let pa = |h: Seq<char>| seq_eq_ignore_case_and_ws(h, a);
    let pb = |h: Seq<char>| seq_eq_ignore_case_and_ws(h, b);
    assert forall|h: Seq<char>| #[trigger] pa(h) == pb(h) by {
        let (x, y, z) = (strip_ws(h), strip_ws(a), strip_ws(b));
        if seq_eq_ignore_case(x, y) {
            assert forall|i: int| 0 <= i < x.len() implies char_eq_ignore_case(#[trigger] x[i], z[i]) by {
                assert(char_eq_ignore_case(x[i], y[i]));
                assert(char_eq_ignore_case(y[i], z[i]));
            }
        }
        if seq_eq_ignore_case(x, z) {
            assert forall|i: int| 0 <= i < x.len() implies char_eq_ignore_case(#[trigger] x[i], y[i]) by {
                assert(char_eq_ignore_case(x[i], z[i]));
                assert(char_eq_ignore_case(y[i], z[i]));
            }
        }
    }
    assert(pa =~= pb);
}

/// Input data headers: the column names, in column order.
pub struct Headers(Vec<String>);

impl View for Headers {
    type V = Seq<Seq<char>>;

    closed spec fn view(&self) -> Seq<Seq<char>> {
        self.0@.map_values(|s: String| s@)
    }
}

impl Headers {
    /// Builds the headers from names, each trimmed of surrounding whitespace.
    pub fn from_iter(names: &[&str]) -> (r: Headers)
        ensures
            r@.len() == names@.len(),
            forall|i: int| 0 <= i < names@.len() ==> #[trigger] r@[i] == trim_ws(names@[i]@),
    {
        let mut v: Vec<String> = Vec::new();
        let mut i: usize = 0;
        while i < names.len()
            invariant
                i <= names@.len(),
                v@.len() == i,
                forall|k: int| 0 <= k < i ==> #[trigger] v@[k]@ == trim_ws(names@[k]@),
            decreases names@.len() - i,
        {
            v.push(trim(names[i]));
            i += 1;
        }
        Headers(v)
    }

    /// The number of headers, which is the number of columns.
    pub fn len(&self) -> (r: usize)
        ensures
            r == self@.len(),
    {
        self.0.len()
    }

    /// Whether there are no headers.
    pub fn is_empty(&self) -> (r: bool)
        ensures
            r == (self@.len() == 0),
    {
        self.0.len() == 0
    }

    /// The name of column `i`.
    pub fn name(&self, i: usize) -> (r: &str)
        requires
            i < self@.len(),
        ensures
            r@ == self@[i as int],
    {
        self.0[i].as_str()
    }

    /// Finds the first column for which `predicate` holds.
    pub fn find_match<P>(&self, predicate: P) -> (r: Option<usize>)
        where
            P: Fn(&str) -> bool,
        requires
            forall|x: &str| predicate.requires((x,)),
        ensures
            match r {
                Some(i) => {
                    &&& i < self@.len()
                    &&& answers(predicate, self@[i as int], true)
                    &&& forall|j: int| 0 <= j < i ==> answers(predicate, #[trigger] self@[j], false)
                },
                None => forall|j: int| 0 <= j < self@.len() ==> answers(predicate, #[trigger] self@[j], false),
            },
    {
        let mut i: usize = 0;
        while i < self.0.len()
            invariant
                i <= self@.len(),
                self@.len() == self.0@.len(),
                forall|x: &str| predicate.requires((x,)),
                forall|j: int| 0 <= j < i ==> answers(predicate, #[trigger] self@[j], false),
            decreases self@.len() - i,
        {
            let x = self.0[i].as_str();
            let b = predicate(x);
            if b {
                return Some(i);
            }
            i += 1;
        }
        None
    }

    /// Finds the first column whose name matches `s` in the given way.
    fn find_by(&self, how: Matching, s: &str) -> (r: Option<usize>)
        ensures
            is_first_where(self@, |h: Seq<char>| names_match(how, h, s@), r),
    {
        let target = chars_of(s);
        let stripped = strip_chars(&target);
        let mut i: usize = 0;
        while i < self.0.len()
            invariant
                i <= self@.len(),
                self@.len() == self.0@.len(),
                target@ == s@,
                stripped@ == strip_ws(s@),
                forall|j: int| 0 <= j < i ==> !names_match(how, #[trigger] self@[j], s@),
            decreases self@.len() - i,
        {
            let h = chars_of(self.0[i].as_str());
            let b = match how {
                Matching::Exact => chars_eq(&h, &target),
                Matching::IgnoreCase => chars_eq_ignore_ascii_case(&h, &target),
                Matching::IgnoreCaseAndWs => chars_eq_ignore_ascii_case(&strip_chars(&h), &stripped),
            };
            if b {
                return Some(i);
            }
            i += 1;
        }
        None
    }

    /// Finds the first column named exactly `s`.
    pub fn find(&self, s: &str) -> (r: Option<usize>)
        ensures
            is_first_where(self@, |h: Seq<char>| h == s@, r),
    {
        self.find_by(Matching::Exact, s)
    }

    /// Finds the first column whose name is `s` up to ASCII case.
    pub fn find_ignore_case(&self, s: &str) -> (r: Option<usize>)
        ensures
            is_first_where(self@, |h: Seq<char>| seq_eq_ignore_case(h, s@), r),
    {
        self.find_by(Matching::IgnoreCase, s)
    }

    /// Finds the first column whose name is `s` up to ASCII case and whitespace.
    pub fn find_ignore_case_and_ws(&self, s: &str) -> (r: Option<usize>)
        ensures
            is_first_where(self@, |h: Seq<char>| seq_eq_ignore_case_and_ws(h, s@), r),
            column_of(self@, s@) == match r {
                Some(i) => Some(i as int),
                None => None::<int>,
            },
    {
        let r = self.find_by(Matching::IgnoreCaseAndWs, s);
        proof {
            lemma_first_where(self@, |h: Seq<char>| seq_eq_ignore_case_and_ws(h, s@), r);
        }
        r
    }
}

/// One cell of the data: a number, held as the bit pattern of an IEEE-754
/// double, or text that does not read as a number.
#[derive(Debug)]
pub enum Cell {
    Num(u64),
    Txt(String),
}

/// The number in column `c` of a row, if the row has that column and it holds a number.
pub open spec fn cell_number(cells: Seq<Cell>, c: int) -> Option<u64> {
    if 0 <= c < cells.len() {
        match cells[c] {
            Cell::Num(x) => Some(x),
            Cell::Txt(_) => None,
        }
    } else {
        None
    }
}

/// Input data: headers and rows of cells, one cell per header in every row.
pub struct Data {
    cols: Headers,
    rows: Vec<Vec<Cell>>,
}

impl Data {
    /// The column names.
    pub closed spec fn columns(&self) -> Seq<Seq<char>> {
        self.cols@
    }

    /// The rows, each a sequence of cells.
    pub closed spec fn cells(&self) -> Seq<Seq<Cell>> {
        self.rows@.map_values(|r: Vec<Cell>| r@)
    }

    #[verifier::type_invariant]
    spec fn rows_fit_headers(&self) -> bool {
        forall|i: int| 0 <= i < self.rows@.len() ==> #[trigger] self.rows@[i]@.len() == self.cols@.len()
    }

    /// Builds the data from headers and rows; every row must have one cell per
    /// header, else the first row that does not is reported.
    pub fn new(headers: Headers, data: Vec<Vec<Cell>>) -> (r: Result<Data, FitError>)
        ensures
            r is Ok <==> forall|i: int| 0 <= i < data@.len() ==> #[trigger] data@[i]@.len() == headers@.len(),
            r matches Ok(d) ==> d.columns() == headers@ && d.cells() == data@.map_values(|r: Vec<Cell>| r@),
            r matches Err(e) ==> e matches FitError::RowLength { row, len, expected } && {
                &&& row < data@.len()
                &&& len == data@[row as int]@.len()
                &&& expected == headers@.len()
                &&& len != expected
                &&& forall|j: int| 0 <= j < row ==> #[trigger] data@[j]@.len() == headers@.len()
            },
    {
        let n = headers.len();
        let mut i: usize = 0;
        while i < data.len()
            invariant
                i <= data@.len(),
                n == headers@.len(),
                forall|j: int| 0 <= j < i ==> #[trigger] data@[j]@.len() == headers@.len(),
            decreases data@.len() - i,
        {
            if data[i].len() != n {
                return Err(FitError::RowLength { row: i, len: data[i].len(), expected: n });
            }
            i += 1;
        }
        Ok(Data { cols: headers, rows: data })
    }

    /// The number of observation rows.
    pub fn len(&self) -> (r: usize)
        ensures
            r == self.cells().len(),
    {
        self.rows.len()
    }

    /// Whether there are no observation rows (there may still be headers).
    pub fn is_empty(&self) -> (r: bool)
        ensures
            r == (self.cells().len() == 0),
    {
        self.rows.len() == 0
    }

    /// The headers; every row has one cell per header.
    pub fn headers(&self) -> (r: &Headers)
        ensures
            r@ == self.columns(),
            forall|i: int| 0 <= i < self.cells().len() ==> #[trigger] self.cells()[i].len() == r@.len(),
    {
        proof {
            use_type_invariant(self);
            assert forall|i: int| 0 <= i < self.cells().len() implies #[trigger] self.cells()[i].len()
                == self.cols@.len() by {
                assert(self.cells()[i] == self.rows@[i]@);
            }
        }
        &self.cols
    }

    /// The rows, in order, each with its index.
    pub fn rows(&self) -> (r: Vec<DataRow<'_>>)
        ensures
            r@.len() == self.cells().len(),
            forall|i: int|
                0 <= i < r@.len() ==> {
                    &&& (#[trigger] r@[i]).index() == i
                    &&& r@[i].cells() == self.cells()[i]
                    &&& r@[i].cells().len() == self.columns().len()
                    &&& r@[i].header_names() == self.columns()
                },
    {
        proof {
            use_type_invariant(self);
        }
        let mut r: Vec<DataRow<'_>> = Vec::new();
        let mut i: usize = 0;
        while i < self.rows.len()
            invariant
                i <= self.rows@.len(),
                r@.len() == i,
                forall|j: int| 0 <= j < self.rows@.len() ==> #[trigger] self.rows@[j]@.len() == self.cols@.len(),
                forall|j: int|
                    0 <= j < i ==> {
                        &&& (#[trigger] r@[j]).index() == j
                        &&& r@[j].cells() == self.cells()[j]
                        &&& r@[j].header_names() == self.columns()
                    },
            decreases self.rows@.len() - i,
        {
            r.push(DataRow { idx: i, vals: self.rows[i].as_slice(), hdrs: &self.cols });
            i += 1;
        }
        r
    }
}

/// One row of [`Data`].
#[derive(Copy, Clone)]
pub struct DataRow<'a> {
    idx: usize,
    vals: &'a [Cell],
    hdrs: &'a Headers,
}

impl<'a> DataRow<'a> {
    /// The position of the row in the data.
    pub closed spec fn index(&self) -> usize {
        self.idx
    }

    /// The cells of the row.
    pub closed spec fn cells(&self) -> Seq<Cell> {
        self.vals@
    }

    /// The column names of the data the row belongs to.
    pub closed spec fn header_names(&self) -> Seq<Seq<char>> {
        self.hdrs@
    }

    /// The number in column `colidx`: `None` where the row has no such column,
    /// an error naming the row and column where the cell is text.
    pub fn get_num(&self, colidx: usize) -> (r: Option<Result<u64, FitError>>)
        ensures
            colidx >= self.cells().len() ==> r is None,
            colidx < self.cells().len() ==> match self.cells()[colidx as int] {
                Cell::Num(x) => r == Some(Ok::<u64, FitError>(x)),
                Cell::Txt(t) => r matches Some(Err(FitError::NonNumericCell { row, col, text }))
                    && row == self.index() && col == colidx && text@ == t@,
            },
    {
        if colidx < self.vals.len() {
            match &self.vals[colidx] {
                Cell::Num(x) => Some(Ok(*x)),
                Cell::Txt(t) => Some(Err(FitError::NonNumericCell { row: self.idx, col: colidx, text: t.clone() })),
            }
        } else {
            None
        }
    }

    /// The position of the row in the data.
    pub fn idx(&self) -> (r: usize)
        ensures
            r == self.index(),
    {
        self.idx
    }

    /// The headers of the data the row belongs to.
    pub fn headers(&self) -> (r: &Headers)
        ensures
            r@ == self.header_names(),
    {
        self.hdrs
    }
}

#[verifier::external_type_specification]
#[verifier::external_body]
#[verifier::reject_recursive_types(Id)]
pub struct ExSimSearch<Id: std::cmp::Eq + std::cmp::PartialEq + std::clone::Clone + std::hash::Hash + std::cmp::Ord>(
    simsearch::SimSearch<Id>,
);

/// The tokens that the search engine makes of a text: the words of its
/// lowercased form, split at whitespace, without empty ones.
pub uninterp spec fn search_tokens(s: Seq<char>) -> Set<Seq<char>>;

/// The entries of a search engine: each id with the tokens of the text it was
/// inserted with.
pub uninterp spec fn engine_entries(e: simsearch::SimSearch<usize>) -> Map<usize, Set<Seq<char>>>;

/// Two token sets have a token in common.
pub open spec fn shares_token(a: Set<Seq<char>>, b: Set<Seq<char>>) -> bool {
    exists|t: Seq<char>| a.contains(t) && b.contains(t)
}

/// Relies on `simsearch::SimSearch::new`: an engine with no entries.
#[verifier::external_body]
fn engine_new() -> (r: simsearch::SimSearch<usize>)
    ensures
        engine_entries(r).dom() == Set::<usize>::empty(),
{
    simsearch::SimSearch::new()
}

/// Relies on `simsearch::SimSearch::insert`: adds the entry `id` with the
/// tokens of `content`, replacing an earlier entry with that id.
#[verifier::external_body]
fn engine_insert(e: &mut simsearch::SimSearch<usize>, id: usize, content: &str)
    ensures
        engine_entries(*final(e)) == engine_entries(*old(e)).insert(id, search_tokens(content@)),
{
    e.insert(id, content)
}

/// Relies on `simsearch::SimSearch::search`: ids of entries whose tokens are
/// similar to those of `pattern`, most relevant first. A token equal to one
/// of the pattern scores above the engine's threshold, so every entry that
/// shares a token with the pattern is among them.
#[verifier::external_body]
fn engine_search(e: &simsearch::SimSearch<usize>, pattern: &str) -> (r: Vec<usize>)
    ensures
        forall|k: int| 0 <= k < r@.len() ==> engine_entries(*e).contains_key(#[trigger] r@[k]),
        forall|id: usize|
            engine_entries(*e).contains_key(id) && shares_token(
                #[trigger] engine_entries(*e)[id],
                search_tokens(pattern@),
            ) ==> r@.contains(id),
{
    e.search(pattern)
}

/// The names of the headers at positions `ids` that exist, each without its
/// whitespace, in the order of `ids`.
pub open spec fn names_at(hs: Seq<Seq<char>>, ids: Seq<usize>) -> Seq<Seq<char>>
    decreases ids.len(),
{
    if ids.len() == 0 {
        Seq::empty()
    } else {
        let prev = names_at(hs, ids.drop_last());
        if ids.last() < hs.len() {
            prev.push(strip_ws(hs[ids.last() as int]))
        } else {
            prev
        }
    }
}

/// The view of a vector of strings.
pub open spec fn strings_view(v: Seq<String>) -> Seq<Seq<char>> {
    v.map_values(|s: String| s@)
}

/// A string holding the characters `v`.
pub fn string_of(v: &Vec<char>) -> (r: String)
    ensures
        r@ == v@,
{
    let mut r = String::new();
    let mut i: usize = 0;
    while i < v.len()
        invariant
            i <= v@.len(),
            r@ == v@.subrange(0, i as int),
        decreases v@.len() - i,
    {
        push_char(&mut r, v[i]);
        i += 1;
        assert(r@ =~= v@.subrange(0, i as int));
    }
    assert(v@.subrange(0, v@.len() as int) =~= v@);
    r
}

impl Headers {
    /// The headers at positions `ids` (those that exist), each without its
    /// whitespace, in the order of `ids`.
    pub fn similar_names(&self, ids: &Vec<usize>) -> (r: Vec<String>)
        ensures
            strings_view(r@) == names_at(self@, ids@),
    {
        let mut r: Vec<String> = Vec::new();
        let mut i: usize = 0;
        while i < ids.len()
            invariant
                i <= ids@.len(),
                self@.len() == self.0@.len(),
                strings_view(r@) == names_at(self@, ids@.subrange(0, i as int)),
            decreases ids@.len() - i,
        {
            let id = ids[i];
            proof {
                assert(ids@.subrange(0, i + 1).drop_last() =~= ids@.subrange(0, i as int));
            }
            if id < self.0.len() {
                let stripped = string_of(&strip_chars(&chars_of(self.0[id].as_str())));
                r.push(stripped);
                assert(strings_view(r@) =~= names_at(self@, ids@.subrange(0, i + 1)));
            }
            i += 1;
        }
        assert(ids@.subrange(0, ids@.len() as int) =~= ids@);
        r
    }

    /// Headers that are similar to `s`, each without its whitespace, most
    /// similar first; among them every header that shares a search token with
    /// `s`.
    pub fn fuzzy_match(&self, s: &str) -> (r: Vec<String>)
        ensures
            forall|k: int|
                0 <= k < r@.len() ==> exists|j: int|
                    0 <= j < self@.len() && (#[trigger] r@[k])@ == strip_ws(self@[j]),
            forall|j: int|
                0 <= j < self@.len() && shares_token(search_tokens(#[trigger] self@[j]), search_tokens(s@))
                    ==> strings_view(r@).contains(strip_ws(self@[j])),
    {
        let mut eng = engine_new();
        let mut i: usize = 0;
        while i < self.0.len()
            invariant
                i <= self@.len(),
                self@.len() == self.0@.len(),
                forall|id: usize| engine_entries(eng).contains_key(id) <==> id < i,
                forall|id: usize| id < i ==> #[trigger] engine_entries(eng)[id] == search_tokens(self@[id as int]),
            decreases self@.len() - i,
        {
            engine_insert(&mut eng, i, self.0[i].as_str());
            i += 1;
        }
        let ids = engine_search(&eng, s);
        let r = self.similar_names(&ids);
        proof {
            lemma_names_at_are_headers(self@, ids@);
            assert forall|k: int| 0 <= k < r@.len() implies exists|j: int|
                0 <= j < self@.len() && (#[trigger] r@[k])@ == strip_ws(self@[j]) by {
                assert(strings_view(r@)[k] == r@[k]@);
            }
            assert forall|j: int|
                0 <= j < self@.len() && shares_token(search_tokens(#[trigger] self@[j]), search_tokens(s@))
                    implies strings_view(r@).contains(strip_ws(self@[j])) by {
                let id = j as usize;
                assert(engine_entries(eng)[id] == search_tokens(self@[j]));
                assert(ids@.contains(id));
                lemma_names_at_contains(self@, ids@, id);
            }
        }
        r
    }
}

proof fn lemma_names_at_contains(hs: Seq<Seq<char>>, ids: Seq<usize>, id: usize)
    requires
        ids.contains(id),
        id < hs.len(),
    ensures
        names_at(hs, ids).contains(strip_ws(hs[id as int])),
    decreases ids.len(),
{
    let prev = names_at(hs, ids.drop_last());
    if ids.last() == id {
        assert(names_at(hs, ids) == prev.push(strip_ws(hs[id as int])));
        assert(names_at(hs, ids)[prev.len() as int] == strip_ws(hs[id as int]));
    } else {
        let k = choose|k: int| 0 <= k < ids.len() && ids[k] == id;
        assert(ids.drop_last()[k] == id);
        lemma_names_at_contains(hs, ids.drop_last(), id);
        let m = choose|m: int| 0 <= m < prev.len() && prev[m] == strip_ws(hs[id as int]);
        assert(names_at(hs, ids)[m] == prev[m]);
    }
}

proof fn lemma_names_at_are_headers(hs: Seq<Seq<char>>, ids: Seq<usize>)
    ensures
        forall|k: int|
            0 <= k < names_at(hs, ids).len() ==> exists|j: int|
                0 <= j < hs.len() && #[trigger] names_at(hs, ids)[k] == strip_ws(hs[j]),
    decreases ids.len(),
{
    if ids.len() > 0 {
        lemma_names_at_are_headers(hs, ids.drop_last());
        let prev = names_at(hs, ids.drop_last());
        assert forall|k: int|
            0 <= k < names_at(hs, ids).len() implies exists|j: int|
                0 <= j < hs.len() && #[trigger] names_at(hs, ids)[k] == strip_ws(hs[j]) by {
            if k < prev.len() {
                assert(names_at(hs, ids)[k] == prev[k]);
            } else {
                assert(names_at(hs, ids)[k] == strip_ws(hs[ids.last() as int]));
            }
        }
    }
}

/// The first words of a help text that lists similar headers.
pub open spec fn similar_prefix() -> Seq<char> {
    "help - these headers are similar:"@
}

/// The help text given when no header is similar.
pub open spec fn no_match_help() -> Seq<char> {
    "help - no columns match, use `cat <file> | head -n1` for inspect headers"@
}

/// Each name preceded by a space, one after the other.
pub open spec fn spaced(names: Seq<Seq<char>>) -> Seq<char>
    decreases names.len(),
{
    if names.len() == 0 {
        Seq::empty()
    } else {
        spaced(names.drop_last()) + seq![' '] + names.last()
    }
}

/// The help text for a list of similar header names.
pub open spec fn help_text(similar: Seq<Seq<char>>) -> Seq<char> {
    if similar.len() == 0 {
        no_match_help()
    } else {
        similar_prefix() + spaced(similar)
    }
}

/// The help text that lists `similar` header names, or says that none matches.
pub fn hdr_help(similar: &Vec<String>) -> (r: String)
    ensures
        r@ == help_text(strings_view(similar@)),
{
    if similar.len() == 0 {
        return String::from_str("help - no columns match, use `cat <file> | head -n1` for inspect headers");
    }
    let mut s = String::from_str("help - these headers are similar:");
    let mut i: usize = 0;
    while i < similar.len()
        invariant
            i <= similar@.len(),
            s@ == similar_prefix() + spaced(strings_view(similar@.subrange(0, i as int))),
        decreases similar@.len() - i,
    {
        proof {
            let a = strings_view(similar@.subrange(0, i + 1));
            assert(a.drop_last() =~= strings_view(similar@.subrange(0, i as int)));
        }
        s.append(" ");
        s.append(similar[i].as_str());
        i += 1;
        proof {
            reveal_strlit(" ");
        }
        assert(s@ =~= similar_prefix() + spaced(strings_view(similar@.subrange(0, i as int))));
    }
    assert(similar@.subrange(0, similar@.len() as int) =~= similar@);
    s
}

/// `help` is the help text for some list of header names, each one of `hs`
/// without its whitespace, that holds every header sharing a search token
/// with `col`.
pub open spec fn is_header_help(hs: Seq<Seq<char>>, col: Seq<char>, help: Seq<char>) -> bool {
    exists|similar: Seq<Seq<char>>|
        {
            &&& help == help_text(similar)
            &&& forall|k: int|
                0 <= k < similar.len() ==> exists|j: int|
                    0 <= j < hs.len() && #[trigger] similar[k] == strip_ws(hs[j])
            &&& forall|j: int|
                0 <= j < hs.len() && shares_token(search_tokens(#[trigger] hs[j]), search_tokens(col))
                    ==> similar.contains(strip_ws(hs[j]))
        }
}

/// Help for a name that matches no header: the headers similar to `col`, or a
/// hint when there are none.
pub fn match_hdr_help(hdrs: &Headers, col: &str) -> (r: String)
    ensures
        is_header_help(hdrs@, col@, r@),
{
    let similar = hdrs.fuzzy_match(col);
    let r = hdr_help(&similar);
    proof {
        let sv = strings_view(similar@);
        assert forall|k: int| 0 <= k < sv.len() implies exists|j: int|
            0 <= j < hdrs@.len() && #[trigger] sv[k] == strip_ws(hdrs@[j]) by {
            assert(sv[k] == similar@[k]@);
        }
    }
    r
}

} // verus!
