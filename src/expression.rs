//! The row-filter expression language: a flat grammar of `AND`/`OR` lists of
//! equality and inequality comparisons, evaluated against row data and
//! session context. An expression splits at ` AND ` first, each part at
//! ` OR `, and each of those at its first `=` (or `!=`); there are no
//! parentheses and no other precedence.
use vstd::prelude::*;
use crate::error::LakeError;
use crate::strmap::lookup;
use crate::strmap::StrMap;
use crate::text::contains;
use crate::text::ends_with;
use crate::text::ends_with_str;
use crate::text::eq_ci;
use crate::text::eq_ci_str;
use crate::text::find;
use crate::text::find_str;
use crate::text::lemma_find_from_bounds;
use crate::text::starts_with;
use crate::text::starts_with_str;
use crate::text::trim;
use crate::text::trim_char;
use crate::text::trim_char_str;
use crate::text::trim_str;
use crate::types::RowFilter;

verus! {

/// Why a filter could not be evaluated, as plain values.
pub enum FilterFailure {
    /// `SESSION_CONTEXT(key)` named a key that is not set.
    MissingKey(Seq<char>),
    /// Text that is neither a comparison nor a boolean literal.
    Unevaluable(Seq<char>),
}

pub type Pairs = Seq<(Seq<char>, Seq<char>)>;

/// The text after an optional leading `WHERE ` (any case).
pub open spec fn strip_where(e: Seq<char>) -> Seq<char> {
    if e.len() >= 6 && eq_ci(e.subrange(0, 6), "WHERE "@) {
        e.subrange(6, e.len() as int)
    } else {
        e
    }
}

/// A part of an expression as it is evaluated: trimmed, without `WHERE `.
pub open spec fn norm(p: Seq<char>) -> Seq<char> {
    strip_where(trim(p))
}

/// The value an operand stands for: a quoted literal without its quotes, a
/// session-context entry, a row column, or else the text itself.
pub open spec fn resolve(v0: Seq<char>, ctx: Pairs, row: Pairs) -> Result<Seq<char>, FilterFailure> {
    let v = trim(v0);
    let n = v.len();
    if n >= 2 && ((v[0] == '\'' && v[n - 1] == '\'') || (v[0] == '"' && v[n - 1] == '"')) {
        Ok(v.subrange(1, n - 1))
    } else if n >= 17 && starts_with(v, "SESSION_CONTEXT("@) && ends_with(v, ")"@) {
        let key = trim_char(trim_char(v.subrange(16, n - 1), '\''), '"');
        match lookup(ctx, key) {
            Some(x) => Ok(x),
            None => Err(FilterFailure::MissingKey(key)),
        }
    } else {
        match lookup(row, v) {
            Some(x) => Ok(x),
            None => Ok(v),
        }
    }
}

/// Whether two operands resolve to the same text; the left one is resolved first.
pub open spec fn compare(l: Seq<char>, r: Seq<char>, ctx: Pairs, row: Pairs) -> Result<bool, FilterFailure> {
    match resolve(l, ctx, row) {
        Err(f) => Err(f),
        Ok(a) => match resolve(r, ctx, row) {
            Err(f) => Err(f),
            Ok(b) => Ok(a == b),
        },
    }
}

/// A comparison split at the first `=` (an inequality where that `=` follows
/// `!`), or else a boolean literal.
pub open spec fn eval_atom(e: Seq<char>, ctx: Pairs, row: Pairs) -> Result<bool, FilterFailure> {
    match find(e, "="@) {
        Some(i) => if i > 0 && e[i - 1] == '!' {
            match compare(e.subrange(0, i - 1), e.subrange(i + 1, e.len() as int), ctx, row) {
                Ok(b) => Ok(!b),
                Err(f) => Err(f),
            }
        } else {
            compare(e.subrange(0, i), e.subrange(i + 1, e.len() as int), ctx, row)
        },
        None => if eq_ci(e, "TRUE"@) {
            Ok(true)
        } else if eq_ci(e, "FALSE"@) {
            Ok(false)
        } else {
            Err(FilterFailure::Unevaluable(e))
        },
    }
}

/// `s` split at each ` OR `: true at the first part that is true, left to right.
pub open spec fn eval_or(s: Seq<char>, ctx: Pairs, row: Pairs) -> Result<bool, FilterFailure>
    decreases s.len(),
{
    match find(s, " OR "@) {
        Some(i) => if 0 <= i && i + 4 <= s.len() {
            match eval_atom(norm(s.subrange(0, i)), ctx, row) {
                Err(f) => Err(f),
                Ok(true) => Ok(true),
                Ok(false) => eval_or(s.subrange(i + 4, s.len() as int), ctx, row),
            }
        } else {
            Err(FilterFailure::Unevaluable(s))
        },
        None => eval_atom(norm(s), ctx, row),
    }
}

/// An `AND` part: an `OR` list if it holds ` OR `, else one comparison.
pub open spec fn eval_disjunct(e: Seq<char>, ctx: Pairs, row: Pairs) -> Result<bool, FilterFailure> {
    if contains(e, " OR "@) {
        eval_or(e, ctx, row)
    } else {
        eval_atom(e, ctx, row)
    }
}

/// `s` split at each ` AND `: false at the first part that is false, left to right.
pub open spec fn eval_and(s: Seq<char>, ctx: Pairs, row: Pairs) -> Result<bool, FilterFailure>
    decreases s.len(),
{
    match find(s, " AND "@) {
        Some(i) => if 0 <= i && i + 5 <= s.len() {
            match eval_disjunct(norm(s.subrange(0, i)), ctx, row) {
                Err(f) => Err(f),
                Ok(false) => Ok(false),
                Ok(true) => eval_and(s.subrange(i + 5, s.len() as int), ctx, row),
            }
        } else {
            Err(FilterFailure::Unevaluable(s))
        },
        None => eval_disjunct(norm(s), ctx, row),
    }
}

/// The value of a filter expression against session context `ctx` and row `row`.
pub open spec fn eval_filter(expr: Seq<char>, ctx: Pairs, row: Pairs) -> Result<bool, FilterFailure> {
    let e = norm(expr);
    if contains(e, " AND "@) {
        eval_and(e, ctx, row)
    } else {
        eval_disjunct(e, ctx, row)
    }
}

/// `r` reports the failure `f`.
pub open spec fn reports(r: LakeError, f: FilterFailure) -> bool {
    match f {
        FilterFailure::MissingKey(k) => r matches LakeError::MissingSessionContextKey(m) && m@ == k,
        FilterFailure::Unevaluable(t) => r matches LakeError::EvaluationError(m) && m@ == t,
    }
}

/// An executable result agrees with a specified one.
pub open spec fn agrees<T, U>(r: Result<T, LakeError>, s: Result<U, FilterFailure>, f: spec_fn(T) -> U) -> bool {
    match (r, s) {
        (Ok(a), Ok(b)) => f(a) == b,
        (Err(e), Err(g)) => reports(e, g),
        _ => false,
    }
}

/// The outcome of a boolean evaluation agrees with its specification.
pub open spec fn agrees_bool(r: Result<bool, LakeError>, s: Result<bool, FilterFailure>) -> bool {
    agrees(r, s, |b: bool| b)
}

/// Evaluates row filters against session context and one row of data.
#[derive(Debug)]
pub struct ExpressionEvaluator {
    session_context: StrMap,
    row_data: StrMap,
}

impl ExpressionEvaluator {
    pub closed spec fn context(&self) -> Pairs {
        self.session_context@
    }

    pub closed spec fn row(&self) -> Pairs {
        self.row_data@
    }

    pub fn new() -> (r: ExpressionEvaluator)
        ensures
            r.context() == Seq::<(Seq<char>, Seq<char>)>::empty(),
            r.row() == Seq::<(Seq<char>, Seq<char>)>::empty(),
    {
        ExpressionEvaluator { session_context: StrMap::new(), row_data: StrMap::new() }
    }

    /// Replaces the session context.
    pub fn set_session_context(&mut self, context: StrMap)
        ensures
            final(self).context() == context@,
            final(self).row() == old(self).row(),
    {
        self.session_context = context;
    }

    /// Replaces the row data.
    pub fn set_row_data(&mut self, row: StrMap)
        ensures
            final(self).row() == row@,
            final(self).context() == old(self).context(),
    {
        self.row_data = row;
    }

    /// Evaluates `filter`'s expression.
    pub fn evaluate_filter(&self, filter: &RowFilter) -> (r: Result<bool, LakeError>)
        ensures
            agrees_bool(r, eval_filter(filter.expression@, self.context(), self.row())),
    {
        self.evaluate_expression(filter.expression.as_str())
    }

    fn evaluate_expression(&self, expr: &str) -> (r: Result<bool, LakeError>)
        ensures
            agrees_bool(r, eval_filter(expr@, self.context(), self.row())),
    {
        let e = normalize(expr);
        if find_str(e, " AND ").is_some() {
            self.evaluate_logical_and(e)
        } else {
            self.evaluate_disjunct(e)
        }
    }

    fn evaluate_logical_and(&self, s: &str) -> (r: Result<bool, LakeError>)
        ensures
            agrees_bool(r, eval_and(s@, self.context(), self.row())),
        decreases s@.len(),
    {
        match find_str(s, " AND ") {
            Some(i) => {
                proof {
                    lemma_find_from_bounds(s@, " AND "@, 0);
                    reveal_strlit(" AND ");
                }
                let n = s.unicode_len();
                let first = normalize(s.substring_char(0, i));
                match self.evaluate_disjunct(first) {
                    Err(e) => Err(e),
                    Ok(false) => Ok(false),
                    Ok(true) => self.evaluate_logical_and(s.substring_char(i + 5, n)),
                }
            },
            None => self.evaluate_disjunct(normalize(s)),
        }
    }

    fn evaluate_disjunct(&self, e: &str) -> (r: Result<bool, LakeError>)
        ensures
            agrees_bool(r, eval_disjunct(e@, self.context(), self.row())),
    {
        if find_str(e, " OR ").is_some() {
            self.evaluate_logical_or(e)
        } else {
            self.evaluate_atom(e)
        }
    }

    fn evaluate_logical_or(&self, s: &str) -> (r: Result<bool, LakeError>)
        ensures
            agrees_bool(r, eval_or(s@, self.context(), self.row())),
        decreases s@.len(),
    {
        match find_str(s, " OR ") {
            Some(i) => {
                proof {
                    lemma_find_from_bounds(s@, " OR "@, 0);
                    reveal_strlit(" OR ");
                }
                let n = s.unicode_len();
                let first = normalize(s.substring_char(0, i));
                match self.evaluate_atom(first) {
                    Err(e) => Err(e),
                    Ok(true) => Ok(true),
                    Ok(false) => self.evaluate_logical_or(s.substring_char(i + 4, n)),
                }
            },
            None => self.evaluate_atom(normalize(s)),
        }
    }

    fn evaluate_atom(&self, e: &str) -> (r: Result<bool, LakeError>)
        ensures
            agrees_bool(r, eval_atom(e@, self.context(), self.row())),
    {
        let n = e.unicode_len();
        match find_str(e, "=") {
            Some(i) => {
                proof {
                    lemma_find_from_bounds(e@, "="@, 0);
                    reveal_strlit("=");
                }
                if i > 0 && e.get_char(i - 1) == '!' {
                    match self.evaluate_equals(e.substring_char(0, i - 1), e.substring_char(i + 1, n)) {
                        Ok(b) => Ok(!b),
                        Err(x) => Err(x),
                    }
                } else {
                    self.evaluate_equals(e.substring_char(0, i), e.substring_char(i + 1, n))
                }
            },
            None => {
                if eq_ci_str(e, "TRUE") {
                    Ok(true)
                } else if eq_ci_str(e, "FALSE") {
                    Ok(false)
                } else {
                    Err(LakeError::EvaluationError(String::from_str(e)))
                }
            },
        }
    }

    fn evaluate_equals(&self, left: &str, right: &str) -> (r: Result<bool, LakeError>)
        ensures
            agrees_bool(r, compare(left@, right@, self.context(), self.row())),
    {
        let a = self.resolve_value(left)?;
        let b = self.resolve_value(right)?;
        Ok(a == b)
    }

    fn resolve_value(&self, value: &str) -> (r: Result<String, LakeError>)
        ensures
            agrees(r, resolve(value@, self.context(), self.row()), |s: String| s@),
    {
        let v = trim_str(value);
        let n = v.unicode_len();
        if n >= 2 {
            let first = v.get_char(0);
            let last = v.get_char(n - 1);
            if (first == '\'' && last == '\'') || (first == '"' && last == '"') {
                return Ok(String::from_str(v.substring_char(1, n - 1)));
            }
        }
        if n >= 17 && starts_with_str(v, "SESSION_CONTEXT(") && ends_with_str(v, ")") {
            let key = trim_char_str(trim_char_str(v.substring_char(16, n - 1), '\''), '"');
            return self.get_session_context(key);
        }
        match self.row_data.get(v) {
            Some(x) => Ok(x.clone()),
            None => Ok(String::from_str(v)),
        }
    }

    fn get_session_context(&self, key: &str) -> (r: Result<String, LakeError>)
        ensures
            match lookup(self.context(), key@) {
                Some(x) => r matches Ok(s) && s@ == x,
                None => r matches Err(LakeError::MissingSessionContextKey(m)) && m@ == key@,
            },
    {
        match self.session_context.get(key) {
            Some(x) => Ok(x.clone()),
            None => Err(LakeError::MissingSessionContextKey(String::from_str(key))),
        }
    }
}

impl Default for ExpressionEvaluator {
    fn default() -> (r: ExpressionEvaluator)
        ensures
            r.context() == Seq::<(Seq<char>, Seq<char>)>::empty(),
            r.row() == Seq::<(Seq<char>, Seq<char>)>::empty(),
    {
        ExpressionEvaluator::new()
    }
}

/// Exec counterpart of [`norm`].
fn normalize(p: &str) -> (r: &str)
    ensures
        r@ == norm(p@),
{
    let t = trim_str(p);
    let n = t.unicode_len();
    if n >= 6 && eq_ci_str(t.substring_char(0, 6), "WHERE ") {
        t.substring_char(6, n)
    } else {
        t
    }
}

/// A map built from key/value pairs; a later pair replaces an earlier one with the same key.
pub fn create_sample_row(data: Vec<(&str, &str)>) -> (r: StrMap)
    ensures
        r.wf(),
        r@ == pairs_to_map(data@.map_values(|e: (&str, &str)| (e.0@, e.1@))),
{
    pairs_map(&data)
}

/// A session context built from key/value pairs, as [`create_sample_row`] does.
pub fn create_session_context(data: Vec<(&str, &str)>) -> (r: StrMap)
    ensures
        r.wf(),
        r@ == pairs_to_map(data@.map_values(|e: (&str, &str)| (e.0@, e.1@))),
{
    pairs_map(&data)
}

/// The entries left after inserting each pair of `ps` in turn into an empty map.
pub open spec fn pairs_to_map(ps: Pairs) -> Pairs
    decreases ps.len(),
{
    if ps.len() == 0 {
        ps
    } else {
        crate::strmap::insert_entry(pairs_to_map(ps.drop_last()), ps.last().0, ps.last().1)
    }
}

fn pairs_map(data: &Vec<(&str, &str)>) -> (r: StrMap)
    ensures
        r.wf(),
        r@ == pairs_to_map(data@.map_values(|e: (&str, &str)| (e.0@, e.1@))),
{
    let ghost all = data@.map_values(|e: (&str, &str)| (e.0@, e.1@));
    let mut m = StrMap::new();
    let mut i: usize = 0;
    while i < data.len()
        invariant
            0 <= i <= data.len(),
            all == data@.map_values(|e: (&str, &str)| (e.0@, e.1@)),
            m@ == pairs_to_map(all.subrange(0, i as int)),
            m.wf(),
        decreases data.len() - i,
    {
        proof {
            assert(all.subrange(0, i + 1).drop_last() =~= all.subrange(0, i as int));
        }
        m.insert(String::from_str(data[i].0), String::from_str(data[i].1));
        i = i + 1;
    }
    assert(all.subrange(0, data.len() as int) =~= all);
    m
}

} // verus!
