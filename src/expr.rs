//! Formulas: parsing, and the split of their identifiers into column-bound
//! variables and free parameters.
use vstd::prelude::*;

use crate::data::{cell_number, column_of, strings_view, Cell, DataRow, Headers};
use crate::error::FitError;
use crate::text::{blank, chars_eq, chars_of, is_blank};

verus! {

#[verifier::external_type_specification]
#[verifier::external_body]
pub struct ExExpr(meval::Expr);

#[verifier::external_type_specification]
#[verifier::external_body]
pub struct ExMevalError(meval::Error);

#[verifier::external_type_specification]
#[verifier::external_body]
pub struct ExToken(meval::tokenizer::Token);

/// The tokens that meval parses `s` into, in its reverse Polish order, each
/// given as the name of the variable it reads, or `None` for any other token;
/// `None` as a whole where `s` does not parse.
pub uninterp spec fn parsed_tokens(s: Seq<char>) -> Option<Seq<Option<Seq<char>>>>;

/// The view of a token list.
pub open spec fn tokens_view(toks: Seq<Option<String>>) -> Seq<Option<Seq<char>>> {
    toks.map_values(
        |t: Option<String>|
            match t {
                Some(n) => Some(n@),
                None => None,
            },
    )
}

/// Relies on `meval::Expr::from_str` and on the token slice that
/// `meval::Expr` dereferences to: the parse succeeds or fails on the text
/// alone, and each token is kept as its variable name, if it is a variable.
/// Its tokenizer panics on a text of nothing but spaces, tabs and line
/// breaks, which is left out.
#[verifier::external_body]
fn parse_expr(s: &str) -> (r: Result<(meval::Expr, Vec<Option<String>>), meval::Error>)
    requires
        !blank(s@),
    ensures
        r matches Ok(p) ==> parsed_tokens(s@) == Some(tokens_view(p.1@)),
        r is Err ==> parsed_tokens(s@) is None,
{
    s.parse::<meval::Expr>().map(|e| {
        let toks = e.iter().map(|t| match t {
            meval::tokenizer::Token::Var(n) => Some(n.clone()),
            _ => None,
        }).collect();
        (e, toks)
    })
}

/// Whether the formula `s` parses and can be bound for evaluation with the
/// input names `names`, in meval's default context with a one-argument `log`.
pub uninterp spec fn binds(s: Seq<char>, names: Seq<Seq<char>>) -> bool;

/// Relies on `meval::Expr::from_str` and `meval::Expr::bindn_with_context`:
/// the bind succeeds exactly when every variable of the formula is one of
/// `names` or a constant, and every function it calls is known with that
/// number of arguments. The bind only checks names and arities (it calls each
/// function on zeros and drops the value), so `log` is registered with
/// meval's `max_array` under an arity of exactly one. The tokenizer's panic
/// on a blank text is left out.
#[verifier::external_body]
fn bind_check(s: &str, names: &Vec<String>) -> (r: Result<(), meval::Error>)
    requires
        !blank(s@),
    ensures
        r is Ok <==> binds(s@, strings_view(names@)),
{
    let e = s.parse::<meval::Expr>()?;
    let names: Vec<&str> = names.iter().map(String::as_str).collect();
    let mut ctx = meval::Context::new();
    ctx.funcn("log", meval::max_array, 1);
    e.bindn_with_context(ctx, &names).map(|_| ())
}

/// The names that meval's default context defines as constants.
pub open spec fn builtin_constant(n: Seq<char>) -> bool {
    n == seq!['p', 'i'] || n == seq!['e']
}

/// Relies on `meval::Context::new` and its `get_var`: the default context
/// defines the constants `pi` and `e`, and no other variable.
#[verifier::external_body]
fn is_builtin_constant(n: &str) -> (r: bool)
    ensures
        r == builtin_constant(n@),
{
    meval::ContextProvider::get_var(&meval::Context::new(), n).is_some()
}

/// The free identifiers of a token list: the variable names that are not
/// constants, each once, in order of first occurrence.
pub open spec fn free_idents(toks: Seq<Option<Seq<char>>>) -> Seq<Seq<char>>
    decreases toks.len(),
{
    if toks.len() == 0 {
        Seq::empty()
    } else {
        let prev = free_idents(toks.drop_last());
        match toks.last() {
            Some(n) => if builtin_constant(n) || prev.contains(n) {
                prev
            } else {
                prev.push(n)
            },
            None => prev,
        }
    }
}

/// The identifiers that match no column: the free parameters.
pub open spec fn param_names(ids: Seq<Seq<char>>, hs: Seq<Seq<char>>) -> Seq<Seq<char>> {
    ids.filter(|n: Seq<char>| column_of(hs, n) is None)
}

/// The identifiers that match a column.
pub open spec fn var_names(ids: Seq<Seq<char>>, hs: Seq<Seq<char>>) -> Seq<Seq<char>> {
    ids.filter(|n: Seq<char>| column_of(hs, n) is Some)
}

/// The identifiers that match a column, each with the index of that column.
pub open spec fn var_columns(ids: Seq<Seq<char>>, hs: Seq<Seq<char>>) -> Seq<(Seq<char>, usize)> {
    var_names(ids, hs).map_values(|n: Seq<char>| (n, column_of(hs, n)->0 as usize))
}

/// The input names of an evaluation: the free parameters, then the
/// column-bound variables.
pub open spec fn input_names(ids: Seq<Seq<char>>, hs: Seq<Seq<char>>) -> Seq<Seq<char>> {
    param_names(ids, hs) + var_columns(ids, hs).map_values(|p: (Seq<char>, usize)| p.0)
}

/// The values that a row gives to column-bound variables, in their order;
/// `None` where one of those cells is not a number.
pub open spec fn bound_values(vars: Seq<(Seq<char>, usize)>, cells: Seq<Cell>) -> Option<Seq<u64>>
    decreases vars.len(),
{
    if vars.len() == 0 {
        Some(Seq::empty())
    } else {
        match (bound_values(vars.drop_last(), cells), cell_number(cells, vars.last().1 as int)) {
            (Some(v), Some(x)) => Some(v.push(x)),
            _ => None,
        }
    }
}

/// A parsed formula, with its identifiers split into column-bound variables
/// and free parameters.
///
/// Formulas are the right-hand side of an equation: to fit `y = m * x + c`,
/// the formula is `m * x + c`.
pub struct Eq {
    /// Column-bound variables, each with its column index.
    vars: Vec<(String, usize)>,
    /// Free parameters, the values that a fit varies.
    params: Vec<String>,
    /// The parsed expression.
    expr: meval::Expr,
    /// The formula text.
    estr: String,
}

impl Eq {
    /// The free parameters' names, in order of first occurrence.
    pub closed spec fn param_view(&self) -> Seq<Seq<char>> {
        strings_view(self.params@)
    }

    /// The column-bound variables' names and columns, in order of first occurrence.
    pub closed spec fn var_view(&self) -> Seq<(Seq<char>, usize)> {
        self.vars@.map_values(|p: (String, usize)| (p.0@, p.1))
    }

    /// The formula text.
    pub closed spec fn text(&self) -> Seq<char> {
        self.estr@
    }
}

proof fn lemma_map_values_push<A, B>(a: Seq<A>, x: A, f: spec_fn(A) -> B)
    ensures
        a.push(x).map_values(f) == a.map_values(f).push(f(x)),
{
    assert(a.push(x).map_values(f) =~= a.map_values(f).push(f(x)));
}

proof fn lemma_split_push(ids: Seq<Seq<char>>, hs: Seq<Seq<char>>, n: Seq<char>)
    ensures
        param_names(ids.push(n), hs) == if column_of(hs, n) is None {
            param_names(ids, hs).push(n)
        } else {
            param_names(ids, hs)
        },
        var_names(ids.push(n), hs) == if column_of(hs, n) is Some {
            var_names(ids, hs).push(n)
        } else {
            var_names(ids, hs)
        },
{
    reveal(Seq::filter);
    assert(ids.push(n).drop_last() =~= ids);
}

/// Whether `n` is one of `names`.
fn contains_name(names: &Vec<String>, n: &str) -> (r: bool)
    ensures
        r == strings_view(names@).contains(n@),
{
    let target = chars_of(n);
    let mut i: usize = 0;
    while i < names.len()
        invariant
            i <= names@.len(),
            target@ == n@,
            forall|j: int| 0 <= j < i ==> #[trigger] names@[j]@ != n@,
        decreases names@.len() - i,
    {
        if chars_eq(&chars_of(names[i].as_str()), &target) {
            assert(strings_view(names@)[i as int] == n@);
            return true;
        }
        i += 1;
    }
    proof {
        if strings_view(names@).contains(n@) {
            let j = choose|j: int| 0 <= j < names@.len() && strings_view(names@)[j] == n@;
            assert(names@[j]@ == n@);
        }
    }
    false
}

/// A copy of a list of strings.
fn copy_strings(v: &Vec<String>) -> (r: Vec<String>)
    ensures
        strings_view(r@) == strings_view(v@),
{
    let mut r: Vec<String> = Vec::new();
    let mut i: usize = 0;
    while i < v.len()
        invariant
            i <= v@.len(),
            strings_view(r@) == strings_view(v@.subrange(0, i as int)),
        decreases v@.len() - i,
    {
        let x = v[i].clone();
        proof {
            lemma_map_values_push(r@, x, |s: String| s@);
            lemma_map_values_push(v@.subrange(0, i as int), v@[i as int], |s: String| s@);
            assert(v@.subrange(0, i + 1) =~= v@.subrange(0, i as int).push(v@[i as int]));
        }
        r.push(x);
        i += 1;
    }
    assert(v@.subrange(0, v@.len() as int) =~= v@);
    r
}

impl Eq {
    /// Parses `expr`, splits its free identifiers as [`Eq::classify`] does,
    /// and confirms that the formula can be bound for evaluation with its
    /// parameters and variables as inputs. A blank formula, one that does not
    /// parse and one that cannot be bound are errors that echo the formula.
    pub fn parse(expr: &str, columns: &Headers) -> (r: Result<Eq, FitError>)
        ensures
            r is Ok <==> {
                &&& !blank(expr@)
                &&& parsed_tokens(expr@) is Some
                &&& binds(expr@, input_names(free_idents(parsed_tokens(expr@)->0), columns@))
            },
            r matches Ok(eq) ==> {
                let ids = free_idents(parsed_tokens(expr@)->0);
                &&& eq.param_view() == param_names(ids, columns@)
                &&& eq.var_view() == var_columns(ids, columns@)
                &&& eq.text() == expr@
            },
            blank(expr@) ==> (r matches Err(FitError::BlankFormula { formula }) && formula@ == expr@),
            !blank(expr@) && r is Err ==> (r matches Err(FitError::Parse { formula, .. }) && formula@
                == expr@),
    {
        if is_blank(expr) {
            return Err(FitError::BlankFormula { formula: String::from_str(expr) });
        }
        match parse_expr(expr) {
            Ok((e, toks)) => {
                let eq = Eq::classify(e, &toks, expr, columns);
                let names = eq.build_inputs();
                match bind_check(expr, &names) {
                    Ok(()) => Ok(eq),
                    Err(cause) => Err(FitError::Parse { formula: String::from_str(expr), cause }),
                }
            },
            Err(cause) => Err(FitError::Parse { formula: String::from_str(expr), cause }),
        }
    }

    /// Builds the formula `text` from its parsed expression and token list
    /// (each token as the variable name it reads, if any). Each free
    /// identifier (a variable name that is not a constant, taken once, in
    /// order of first occurrence) that matches a header, ignoring case and
    /// whitespace, is bound to that column; any other is a free parameter.
    pub fn classify(expr: meval::Expr, toks: &Vec<Option<String>>, text: &str, columns: &Headers) -> (r: Eq)
        ensures
            r.param_view() == param_names(free_idents(tokens_view(toks@)), columns@),
            r.var_view() == var_columns(free_idents(tokens_view(toks@)), columns@),
            r.text() == text@,
    {
        let ghost tv = tokens_view(toks@);
        let mut seen: Vec<String> = Vec::new();
        let mut vars: Vec<(String, usize)> = Vec::new();
        let mut params: Vec<String> = Vec::new();
        let mut i: usize = 0;
        while i < toks.len()
            invariant
                i <= toks@.len(),
                tv == tokens_view(toks@),
                strings_view(seen@) == free_idents(tv.subrange(0, i as int)),
                strings_view(params@) == param_names(strings_view(seen@), columns@),
                vars@.map_values(|p: (String, usize)| (p.0@, p.1)) == var_columns(
                    strings_view(seen@),
                    columns@,
                ),
            decreases toks@.len() - i,
        {
            proof {
                assert(tv.subrange(0, i + 1).drop_last() =~= tv.subrange(0, i as int));
            }
            match &toks[i] {
                Some(n) => {
                    if !is_builtin_constant(n.as_str()) && !contains_name(&seen, n.as_str()) {
                        let ghost old_seen = strings_view(seen@);
                        let ghost old_vars = vars@;
                        seen.push(n.clone());
                        let c = columns.find_ignore_case_and_ws(n.as_str());
                        match c {
                            Some(c) => vars.push((n.clone(), c)),
                            None => params.push(n.clone()),
                        }
                        proof {
                            assert(strings_view(seen@) =~= old_seen.push(n@));
                            lemma_split_push(old_seen, columns@, n@);
                            assert(strings_view(params@) =~= param_names(strings_view(seen@), columns@));
                            lemma_map_values_push(old_vars, vars@.last(), |p: (String, usize)| (p.0@, p.1));
                            lemma_map_values_push(
                                var_names(old_seen, columns@),
                                n@,
                                |n: Seq<char>| (n, column_of(columns@, n)->0 as usize),
                            );
                            if c is Some {
                                assert(vars@ =~= old_vars.push(vars@.last()));
                            } else {
                                assert(vars@ =~= old_vars);
                            }
                        }
                    }
                },
                None => {},
            }
            i += 1;
        }
        assert(tv.subrange(0, toks@.len() as int) =~= tv);
        Eq { vars, params, expr, estr: String::from_str(text) }
    }

    /// The number of free parameters.
    pub fn params_len(&self) -> (r: usize)
        ensures
            r == self.param_view().len(),
    {
        self.params.len()
    }

    /// The formula text.
    pub fn expr(&self) -> (r: Option<String>)
        ensures
            r matches Some(s) && s@ == self.text(),
    {
        Some(self.estr.clone())
    }

    /// The free parameters' names, in order of first occurrence.
    pub fn params(&self) -> (r: Vec<String>)
        ensures
            strings_view(r@) == self.param_view(),
    {
        copy_strings(&self.params)
    }

    /// The column-bound variables' names, in order of first occurrence.
    pub fn vars(&self) -> (r: Vec<String>)
        ensures
            strings_view(r@) == self.var_view().map_values(|p: (Seq<char>, usize)| p.0),
    {
        let mut r: Vec<String> = Vec::new();
        let mut i: usize = 0;
        while i < self.vars.len()
            invariant
                i <= self.vars@.len(),
                strings_view(r@) == self.var_view().subrange(0, i as int).map_values(
                    |p: (Seq<char>, usize)| p.0,
                ),
            decreases self.vars@.len() - i,
        {
            let x = self.vars[i].0.clone();
            proof {
                let f = |p: (Seq<char>, usize)| p.0;
                let vv = self.var_view();
                lemma_map_values_push(r@, x, |s: String| s@);
                lemma_map_values_push(vv.subrange(0, i as int), vv[i as int], f);
                assert(vv.subrange(0, i + 1) =~= vv.subrange(0, i as int).push(vv[i as int]));
            }
            r.push(x);
            i += 1;
        }
        assert(self.var_view().subrange(0, self.vars@.len() as int) =~= self.var_view());
        r
    }

    /// The names that an evaluation binds, in the order of its inputs: the
    /// free parameters, then the column-bound variables.
    pub fn build_inputs(&self) -> (r: Vec<String>)
        ensures
            strings_view(r@) == self.param_view() + self.var_view().map_values(
                |p: (Seq<char>, usize)| p.0,
            ),
    {
        let mut r = copy_strings(&self.params);
        let vs = self.vars();
        let mut i: usize = 0;
        while i < vs.len()
            invariant
                i <= vs@.len(),
                strings_view(r@) == self.param_view() + strings_view(vs@.subrange(0, i as int)),
            decreases vs@.len() - i,
        {
            let x = vs[i].clone();
            proof {
                lemma_map_values_push(r@, x, |s: String| s@);
                lemma_map_values_push(vs@.subrange(0, i as int), vs@[i as int], |s: String| s@);
                assert(vs@.subrange(0, i + 1) =~= vs@.subrange(0, i as int).push(vs@[i as int]));
                assert(self.param_view() + strings_view(vs@.subrange(0, i as int)).push(x@)
                    =~= (self.param_view() + strings_view(vs@.subrange(0, i as int))).push(x@));
            }
            r.push(x);
            i += 1;
        }
        assert(vs@.subrange(0, vs@.len() as int) =~= vs@);
        r
    }

    /// The parsed expression, for evaluation.
    pub fn parsed(&self) -> &meval::Expr {
        &self.expr
    }

    /// The inputs of one evaluation on `row`: `params` for the free
    /// parameters, then the row's numbers for the column-bound variables;
    /// `None` where one of those cells is not a number.
    pub fn inputs(&self, params: &[u64], row: &DataRow) -> (r: Option<Vec<u64>>)
        requires
            params@.len() == self.param_view().len(),
        ensures
            r is Some <==> bound_values(self.var_view(), row.cells()) is Some,
            r matches Some(v) ==> v@ == params@ + bound_values(self.var_view(), row.cells())->0,
    {
        let mut r: Vec<u64> = Vec::new();
        let mut i: usize = 0;
        while i < params.len()
            invariant
                i <= params@.len(),
                r@ == params@.subrange(0, i as int),
            decreases params@.len() - i,
        {
            r.push(params[i]);
            i += 1;
            assert(r@ =~= params@.subrange(0, i as int));
        }
        assert(params@.subrange(0, params@.len() as int) =~= params@);
        let mut j: usize = 0;
        while j < self.vars.len()
            invariant
                j <= self.vars@.len(),
                bound_values(self.var_view().subrange(0, j as int), row.cells()) matches Some(v)
                    && r@ == params@ + v,
            decreases self.vars@.len() - j,
        {
            proof {
                assert(self.var_view().subrange(0, j + 1).drop_last() =~= self.var_view().subrange(0, j as int));
            }
            match row.get_num(self.vars[j].1) {
                Some(Ok(x)) => {
                    r.push(x);
                },
                _ => {
                    proof {
                        lemma_bound_values_prefix(self.var_view(), row.cells(), j + 1);
                    }
                    return None;
                },
            }
            j += 1;
            assert(r@ =~= params@ + bound_values(self.var_view().subrange(0, j as int), row.cells())->0);
        }
        assert(self.var_view().subrange(0, self.vars@.len() as int) =~= self.var_view());
        Some(r)
    }
}

proof fn lemma_bound_values_prefix(vars: Seq<(Seq<char>, usize)>, cells: Seq<Cell>, k: int)
    requires
        0 <= k <= vars.len(),
        bound_values(vars.subrange(0, k), cells) is None,
    ensures
        bound_values(vars, cells) is None,
    decreases vars.len() - k,
{
    if k < vars.len() {
        assert(vars.subrange(0, k + 1).drop_last() =~= vars.subrange(0, k));
        lemma_bound_values_prefix(vars, cells, k + 1);
    } else {
        assert(vars.subrange(0, k) =~= vars);
    }
}

/// `n` is a free identifier of the tokens: a variable name in them that is
/// not a constant.
pub open spec fn is_free_ident(toks: Seq<Option<Seq<char>>>, n: Seq<char>) -> bool {
    &&& !builtin_constant(n)
    &&& exists|i: int| 0 <= i < toks.len() && toks[i] == Some(n)
}

proof fn lemma_free_idents(toks: Seq<Option<Seq<char>>>)
    ensures
        forall|n: Seq<char>| free_idents(toks).contains(n) <==> is_free_ident(toks, n),
        free_idents(toks).no_duplicates(),
    decreases toks.len(),
{
    if toks.len() > 0 {
        let d = toks.drop_last();
        lemma_free_idents(d);
        let prev = free_idents(d);
        let f = free_idents(toks);
        assert forall|n: Seq<char>| f.contains(n) <==> is_free_ident(toks, n) by {
            let last_is_n = toks.last() == Some(n);
            if is_free_ident(toks, n) && !last_is_n {
                let i = choose|i: int| 0 <= i < toks.len() && toks[i] == Some(n);
                assert(d[i] == Some(n));
                assert(is_free_ident(d, n));
            }
            if is_free_ident(d, n) {
                let i = choose|i: int| 0 <= i < d.len() && d[i] == Some(n);
                assert(toks[i] == Some(n));
            }
            if last_is_n && !builtin_constant(n) {
                assert(toks[toks.len() - 1] == Some(n));
            }
            match toks.last() {
                Some(m) => {
                    if !(builtin_constant(m) || prev.contains(m)) {
                        assert(f == prev.push(m));
                        if f.contains(n) && n != m {
                            let j = choose|j: int| 0 <= j < f.len() && f[j] == n;
                            assert(prev[j] == n);
                        }
                        if n == m {
                            assert(f[f.len() - 1] == n);
                        }
                        if prev.contains(n) {
                            let j = choose|j: int| 0 <= j < prev.len() && prev[j] == n;
                            assert(f[j] == n);
                        }
                    }
                },
                None => {},
            }
        }
        match toks.last() {
            Some(m) => {
                if !(builtin_constant(m) || prev.contains(m)) {
                    assert forall|i: int, j: int| 0 <= i < f.len() && 0 <= j < f.len() && i != j
                        implies f[i] != f[j] by {
                        if i < prev.len() && j < prev.len() {
                        } else if i < prev.len() {
                            assert(prev.contains(prev[i]));
                        } else {
                            assert(prev.contains(prev[j]));
                        }
                    }
                }
            },
            None => {},
        }
    }
}

proof fn lemma_filter_contains_iff(s: Seq<Seq<char>>, p: spec_fn(Seq<char>) -> bool, n: Seq<char>)
    ensures
        s.filter(p).contains(n) <==> s.contains(n) && p(n),
{
    broadcast use Seq::lemma_filter_contains_rev, Seq::lemma_filter_pred;

    if s.contains(n) && p(n) {
        let i = choose|i: int| 0 <= i < s.len() && s[i] == n;
        s.lemma_filter_contains(p, i);
    }
    if s.filter(p).contains(n) {
        let j = choose|j: int| 0 <= j < s.filter(p).len() && s.filter(p)[j] == n;
        s.lemma_filter_pred(p, j);
    }
}

/// For every formula that parses, against any headers: no name is both a free
/// parameter and a column-bound variable, and the two together hold exactly
/// the free identifiers of the formula (the variable names in it that are not
/// constants), each once.
pub proof fn lemma_params_vars_partition(formula: Seq<char>, hs: Seq<Seq<char>>)
    requires
        parsed_tokens(formula) is Some,
    ensures
        ({
            let toks = parsed_tokens(formula)->0;
            let ids = free_idents(toks);
            let ps = param_names(ids, hs);
            let vs = var_columns(ids, hs).map_values(|p: (Seq<char>, usize)| p.0);
            &&& forall|n: Seq<char>| ps.contains(n) ==> !vs.contains(n)
            &&& forall|n: Seq<char>| (ps.contains(n) || vs.contains(n)) <==> is_free_ident(toks, n)
            &&& ids.no_duplicates()
        }),
{
    let toks = parsed_tokens(formula)->0;
    let ids = free_idents(toks);
    let ps = param_names(ids, hs);
    let vs = var_columns(ids, hs).map_values(|p: (Seq<char>, usize)| p.0);
    lemma_free_idents(toks);
    assert(vs =~= var_names(ids, hs));
    assert forall|n: Seq<char>| #![auto]
        (ps.contains(n) ==> !vs.contains(n)) && ((ps.contains(n) || vs.contains(n))
            <==> is_free_ident(toks, n)) by {
        lemma_filter_contains_iff(ids, |n: Seq<char>| column_of(hs, n) is None, n);
        lemma_filter_contains_iff(ids, |n: Seq<char>| column_of(hs, n) is Some, n);
    }
}

} // verus!
