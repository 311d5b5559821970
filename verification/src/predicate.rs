//! The predicate language: boolean expressions over `request`, `response`
//! and `metadata`, with member access, indexing, comparisons, boolean
//! operators and the string methods `startsWith` and `contains`. Every
//! failure — a text that does not parse, a non-boolean result, a missing
//! member, a type error — yields `false`; evaluation never fails and never
//! changes state.

use vstd::prelude::*;
use crate::json::{Json, JsonV, skip_ws, is_digit, digits_end, num_as_u64, dec_val, all_digits,
    skip_ws_x, digits_end_x, is_json_ws, views_of, pair_views_of, digits_range_to_u64};
use crate::model::{Interaction, InteractionV};
use crate::strutil::{is_prefix, has_substring, str_chars, chars_to_string, str_eq, matches_at,
    str_matches_at};
use vstd::assert_seqs_equal;

verus! {

/// A value of the predicate language. Numbers are integers; a JSON number
/// that is not a plain integer is carried opaquely and defeats comparison.
pub enum CelVal {
    Null,
    Bool(bool),
    Int(i128),
    Str(String),
    List(Vec<CelVal>),
    Mapping(Vec<(String, CelVal)>),
    Opaque(String),
}

#[verifier::ext_equal]
pub enum CelVV {
    Null,
    Bool(bool),
    Int(i128),
    Str(Seq<char>),
    List(Seq<CelVV>),
    Mapping(Seq<(Seq<char>, CelVV)>),
    Opaque(Seq<char>),
}

impl CelVal {
    pub open spec fn view(&self) -> CelVV
        decreases self, 0int,
    {
        match self {
            CelVal::Null => CelVV::Null,
            CelVal::Bool(b) => CelVV::Bool(*b),
            CelVal::Int(n) => CelVV::Int(*n),
            CelVal::Str(s) => CelVV::Str(s@),
            CelVal::List(v) => CelVV::List(cel_views_of(v@)),
            CelVal::Mapping(v) => CelVV::Mapping(cel_pair_views_of(v@)),
            CelVal::Opaque(s) => CelVV::Opaque(s@),
        }
    }
}

pub open spec fn cel_views_of(v: Seq<CelVal>) -> Seq<CelVV>
    decreases v, 1int,
{
    Seq::new(
        v.len(),
        |i: int|
            if 0 <= i < v.len() {
                v[i].view()
            } else {
                CelVV::Null
            },
    )
}

pub open spec fn cel_pair_views_of(v: Seq<(String, CelVal)>) -> Seq<(Seq<char>, CelVV)>
    decreases v, 1int,
{
    Seq::new(
        v.len(),
        |i: int|
            if 0 <= i < v.len() {
                (v[i].0@, v[i].1.view())
            } else {
                (Seq::empty(), CelVV::Null)
            },
    )
}

/// The value under a name in a map, the last pair winning.
pub open spec fn cel_lookup_spec(pairs: Seq<(Seq<char>, CelVV)>, k: Seq<char>) -> Option<CelVV>
    decreases pairs.len(),
{
    if pairs.len() == 0 {
        None
    } else if pairs.last().0 == k {
        Some(pairs.last().1)
    } else {
        cel_lookup_spec(pairs.drop_last(), k)
    }
}

// ---------------------------------------------------------------------------
// Expressions
// ---------------------------------------------------------------------------

pub enum CmpOp {
    Eq,
    Ne,
    Lt,
    Le,
    Gt,
    Ge,
}

pub enum Expr {
    LitNull,
    LitBool(bool),
    LitInt(i128),
    LitStr(String),
    Var(String),
    Member(Box<Expr>, String),
    Index(Box<Expr>, Box<Expr>),
    Neg(Box<Expr>),
    Cmp(CmpOp, Box<Expr>, Box<Expr>),
    AndE(Box<Expr>, Box<Expr>),
    OrE(Box<Expr>, Box<Expr>),
    StartsW(Box<Expr>, Box<Expr>),
    ContainsS(Box<Expr>, Box<Expr>),
}

#[verifier::ext_equal]
pub enum ExprV {
    LitNull,
    LitBool(bool),
    LitInt(i128),
    LitStr(Seq<char>),
    Var(Seq<char>),
    Member(Box<ExprV>, Seq<char>),
    Index(Box<ExprV>, Box<ExprV>),
    Neg(Box<ExprV>),
    Cmp(CmpOp, Box<ExprV>, Box<ExprV>),
    AndE(Box<ExprV>, Box<ExprV>),
    OrE(Box<ExprV>, Box<ExprV>),
    StartsW(Box<ExprV>, Box<ExprV>),
    ContainsS(Box<ExprV>, Box<ExprV>),
}

impl Expr {
    pub open spec fn view(&self) -> ExprV
        decreases self,
    {
        match self {
            Expr::LitNull => ExprV::LitNull,
            Expr::LitBool(b) => ExprV::LitBool(*b),
            Expr::LitInt(n) => ExprV::LitInt(*n),
            Expr::LitStr(s) => ExprV::LitStr(s@),
            Expr::Var(s) => ExprV::Var(s@),
            Expr::Member(b, s) => ExprV::Member(Box::new(b.view()), s@),
            Expr::Index(b, ix) => ExprV::Index(Box::new(b.view()), Box::new(ix.view())),
            Expr::Neg(b) => ExprV::Neg(Box::new(b.view())),
            Expr::Cmp(op, l, r) => ExprV::Cmp(*op, Box::new(l.view()), Box::new(r.view())),
            Expr::AndE(l, r) => ExprV::AndE(Box::new(l.view()), Box::new(r.view())),
            Expr::OrE(l, r) => ExprV::OrE(Box::new(l.view()), Box::new(r.view())),
            Expr::StartsW(l, r) => ExprV::StartsW(Box::new(l.view()), Box::new(r.view())),
            Expr::ContainsS(l, r) => ExprV::ContainsS(Box::new(l.view()), Box::new(r.view())),
        }
    }
}

// ---------------------------------------------------------------------------
// Evaluation
// ---------------------------------------------------------------------------

/// Lexicographic order on character sequences, by scalar value.
pub open spec fn lex_lt(a: Seq<char>, b: Seq<char>) -> bool
    decreases a.len(),
{
    if b.len() == 0 {
        false
    } else if a.len() == 0 {
        true
    } else if (a[0] as u32) < (b[0] as u32) {
        true
    } else if a[0] == b[0] {
        lex_lt(a.drop_first(), b.drop_first())
    } else {
        false
    }
}

/// Equality of two values: scalars compare by kind and content; a mismatch
/// of scalar kinds is plainly unequal; lists, maps and opaque numbers defeat
/// the comparison.
pub open spec fn cel_eq(a: CelVV, b: CelVV) -> Option<bool> {
    match (a, b) {
        (CelVV::Null, CelVV::Null) => Some(true),
        (CelVV::Bool(x), CelVV::Bool(y)) => Some(x == y),
        (CelVV::Int(x), CelVV::Int(y)) => Some(x == y),
        (CelVV::Str(x), CelVV::Str(y)) => Some(x == y),
        (CelVV::List(_), _) => None,
        (CelVV::Mapping(_), _) => None,
        (CelVV::Opaque(_), _) => None,
        (_, CelVV::List(_)) => None,
        (_, CelVV::Mapping(_)) => None,
        (_, CelVV::Opaque(_)) => None,
        _ => Some(false),
    }
}

/// Order between two values: integers numerically, strings lexicographically.
pub open spec fn cel_lt(a: CelVV, b: CelVV) -> Option<bool> {
    match (a, b) {
        (CelVV::Int(x), CelVV::Int(y)) => Some(x < y),
        (CelVV::Str(x), CelVV::Str(y)) => Some(lex_lt(x, y)),
        _ => None,
    }
}

pub open spec fn eval_cmp(op: CmpOp, a: CelVV, b: CelVV) -> Option<CelVV> {
    match op {
        CmpOp::Eq => match cel_eq(a, b) {
            Some(r) => Some(CelVV::Bool(r)),
            None => None,
        },
        CmpOp::Ne => match cel_eq(a, b) {
            Some(r) => Some(CelVV::Bool(!r)),
            None => None,
        },
        CmpOp::Lt => match cel_lt(a, b) {
            Some(r) => Some(CelVV::Bool(r)),
            None => None,
        },
        CmpOp::Ge => match cel_lt(a, b) {
            Some(r) => Some(CelVV::Bool(!r)),
            None => None,
        },
        CmpOp::Gt => match cel_lt(b, a) {
            Some(r) => Some(CelVV::Bool(r)),
            None => None,
        },
        CmpOp::Le => match cel_lt(b, a) {
            Some(r) => Some(CelVV::Bool(!r)),
            None => None,
        },
    }
}

/// Evaluate an expression against the environment. A boolean conjunction or
/// disjunction short-circuits on its left side; everything else is strict.
pub open spec fn eval_expr(e: ExprV, env: Seq<(Seq<char>, CelVV)>) -> Option<CelVV>
    decreases e,
{
    match e {
        ExprV::LitNull => Some(CelVV::Null),
        ExprV::LitBool(b) => Some(CelVV::Bool(b)),
        ExprV::LitInt(n) => Some(CelVV::Int(n)),
        ExprV::LitStr(s) => Some(CelVV::Str(s)),
        ExprV::Var(name) => cel_lookup_spec(env, name),
        ExprV::Member(b, name) => match eval_expr(*b, env) {
            Some(CelVV::Mapping(pairs)) => cel_lookup_spec(pairs, name),
            _ => None,
        },
        ExprV::Index(b, ix) => match (eval_expr(*b, env), eval_expr(*ix, env)) {
            (Some(CelVV::Mapping(pairs)), Some(CelVV::Str(k))) => cel_lookup_spec(pairs, k),
            (Some(CelVV::List(items)), Some(CelVV::Int(n))) => if 0 <= n < items.len() {
                Some(items[n as int])
            } else {
                None
            },
            _ => None,
        },
        ExprV::Neg(b) => match eval_expr(*b, env) {
            Some(CelVV::Bool(x)) => Some(CelVV::Bool(!x)),
            _ => None,
        },
        ExprV::Cmp(op, l, r) => match (eval_expr(*l, env), eval_expr(*r, env)) {
            (Some(a), Some(b)) => eval_cmp(op, a, b),
            _ => None,
        },
        ExprV::AndE(l, r) => match eval_expr(*l, env) {
            Some(CelVV::Bool(false)) => Some(CelVV::Bool(false)),
            Some(CelVV::Bool(true)) => match eval_expr(*r, env) {
                Some(CelVV::Bool(y)) => Some(CelVV::Bool(y)),
                _ => None,
            },
            _ => None,
        },
        ExprV::OrE(l, r) => match eval_expr(*l, env) {
            Some(CelVV::Bool(true)) => Some(CelVV::Bool(true)),
            Some(CelVV::Bool(false)) => match eval_expr(*r, env) {
                Some(CelVV::Bool(y)) => Some(CelVV::Bool(y)),
                _ => None,
            },
            _ => None,
        },
        ExprV::StartsW(l, r) => match (eval_expr(*l, env), eval_expr(*r, env)) {
            (Some(CelVV::Str(s)), Some(CelVV::Str(p))) => Some(CelVV::Bool(is_prefix(s, p))),
            _ => None,
        },
        ExprV::ContainsS(l, r) => match (eval_expr(*l, env), eval_expr(*r, env)) {
            (Some(CelVV::Str(s)), Some(CelVV::Str(p))) => Some(
                CelVV::Bool(has_substring(s, p)),
            ),
            _ => None,
        },
    }
}

fn lex_lt_x(a: &str, b: &str) -> (r: bool)
    ensures
        r == lex_lt(a@, b@),
{
    let av = str_chars(a);
    let bv = str_chars(b);
    let na = av.len();
    let nb = bv.len();
    let mut i: usize = 0;
    proof {
        assert(a@.skip(0) =~= a@);
        assert(b@.skip(0) =~= b@);
    }
    while i < na && i < nb
        invariant
            i <= na,
            i <= nb,
            na == a@.len(),
            nb == b@.len(),
            av@ == a@,
            bv@ == b@,
            lex_lt(a@, b@) == lex_lt(a@.skip(i as int), b@.skip(i as int)),
        decreases na - i,
    {
        let ca = av[i];
        let cb = bv[i];
        proof {
            assert(a@.skip(i as int)[0] == a@[i as int]);
            assert(b@.skip(i as int)[0] == b@[i as int]);
            assert(a@.skip(i as int).drop_first() =~= a@.skip(i + 1));
            assert(b@.skip(i as int).drop_first() =~= b@.skip(i + 1));
        }
        if (ca as u32) < (cb as u32) {
            return true;
        }
        if ca != cb {
            return false;
        }
        i += 1;
    }
    proof {
        assert(a@.skip(i as int).len() == na - i);
        assert(b@.skip(i as int).len() == nb - i);
    }
    i >= na && i < nb
}

fn cel_clone(v: &CelVal) -> (r: CelVal)
    ensures
        r.view() == v.view(),
    decreases v,
{
    match v {
        CelVal::Null => CelVal::Null,
        CelVal::Bool(b) => CelVal::Bool(*b),
        CelVal::Int(n) => CelVal::Int(*n),
        CelVal::Str(s) => CelVal::Str(s.clone()),
        CelVal::Opaque(s) => CelVal::Opaque(s.clone()),
        CelVal::List(items) => {
            let mut out: Vec<CelVal> = Vec::new();
            let n = items.len();
            let mut i: usize = 0;
            #[verifier::loop_isolation(false)]
            while i < n
                invariant
                    i <= n,
                    n == items@.len(),
                    cel_views_of(out@) =~= cel_views_of(items@).take(i as int),
                decreases n - i,
            {
                out.push(cel_clone(&items[i]));
                assert(cel_views_of(out@) =~= cel_views_of(items@).take(i + 1));
                i += 1;
            }
            assert(cel_views_of(out@) =~= cel_views_of(items@));
            CelVal::List(out)
        },
        CelVal::Mapping(pairs) => {
            let mut out: Vec<(String, CelVal)> = Vec::new();
            let n = pairs.len();
            let mut i: usize = 0;
            #[verifier::loop_isolation(false)]
            while i < n
                invariant
                    i <= n,
                    n == pairs@.len(),
                    cel_pair_views_of(out@) =~= cel_pair_views_of(pairs@).take(i as int),
                decreases n - i,
            {
                out.push((pairs[i].0.clone(), cel_clone(&pairs[i].1)));
                assert(cel_pair_views_of(out@) =~= cel_pair_views_of(pairs@).take(i + 1));
                i += 1;
            }
            assert(cel_pair_views_of(out@) =~= cel_pair_views_of(pairs@));
            CelVal::Mapping(out)
        },
    }
}

fn cel_lookup(pairs: &Vec<(String, CelVal)>, k: &str) -> (r: Option<CelVal>)
    ensures
        match r {
            Some(v) => cel_lookup_spec(cel_pair_views_of(pairs@), k@) == Some(v.view()),
            None => cel_lookup_spec(cel_pair_views_of(pairs@), k@) is None,
        },
{
    let ghost pv = cel_pair_views_of(pairs@);
    let mut idx = pairs.len();
    assert(pv.take(idx as int) =~= pv);
    while idx > 0
        invariant
            idx <= pairs@.len(),
            pv == cel_pair_views_of(pairs@),
            cel_lookup_spec(pv, k@) == cel_lookup_spec(pv.take(idx as int), k@),
        decreases idx,
    {
        idx = idx - 1;
        proof {
            assert(pv.take(idx + 1).last() == (pairs@[idx as int].0@, pairs@[idx as int].1.view()));
            assert(pv.take(idx + 1).drop_last() =~= pv.take(idx as int));
        }
        if str_eq(pairs[idx].0.as_str(), k) {
            return Some(cel_clone(&pairs[idx].1));
        }
    }
    assert(pv.take(0) =~= Seq::<(Seq<char>, CelVV)>::empty());
    None
}

fn eval_cmp_x(op: &CmpOp, a: CelVal, b: CelVal) -> (r: Option<CelVal>)
    ensures
        match r {
            Some(v) => eval_cmp(*op, a.view(), b.view()) == Some(v.view()),
            None => eval_cmp(*op, a.view(), b.view()) is None,
        },
{
    let eqv: Option<bool> = match (&a, &b) {
        (CelVal::Null, CelVal::Null) => Some(true),
        (CelVal::Bool(x), CelVal::Bool(y)) => Some(*x == *y),
        (CelVal::Int(x), CelVal::Int(y)) => Some(*x == *y),
        (CelVal::Str(x), CelVal::Str(y)) => Some(str_eq(x.as_str(), y.as_str())),
        (CelVal::List(_), _) => None,
        (CelVal::Mapping(_), _) => None,
        (CelVal::Opaque(_), _) => None,
        (_, CelVal::List(_)) => None,
        (_, CelVal::Mapping(_)) => None,
        (_, CelVal::Opaque(_)) => None,
        _ => Some(false),
    };
    assert(eqv == cel_eq(a.view(), b.view()));
    let ltv: Option<bool> = match (&a, &b) {
        (CelVal::Int(x), CelVal::Int(y)) => Some(*x < *y),
        (CelVal::Str(x), CelVal::Str(y)) => Some(lex_lt_x(x.as_str(), y.as_str())),
        _ => None,
    };
    assert(ltv == cel_lt(a.view(), b.view()));
    let gtv: Option<bool> = match (&a, &b) {
        (CelVal::Int(x), CelVal::Int(y)) => Some(*y < *x),
        (CelVal::Str(x), CelVal::Str(y)) => Some(lex_lt_x(y.as_str(), x.as_str())),
        _ => None,
    };
    assert(gtv == cel_lt(b.view(), a.view()));
    match op {
        CmpOp::Eq => match eqv {
            Some(x) => Some(CelVal::Bool(x)),
            None => None,
        },
        CmpOp::Ne => match eqv {
            Some(x) => Some(CelVal::Bool(!x)),
            None => None,
        },
        CmpOp::Lt => match ltv {
            Some(x) => Some(CelVal::Bool(x)),
            None => None,
        },
        CmpOp::Ge => match ltv {
            Some(x) => Some(CelVal::Bool(!x)),
            None => None,
        },
        CmpOp::Gt => match gtv {
            Some(x) => Some(CelVal::Bool(x)),
            None => None,
        },
        CmpOp::Le => match gtv {
            Some(x) => Some(CelVal::Bool(!x)),
            None => None,
        },
    }
}

fn eval_expr_x(e: &Expr, env: &Vec<(String, CelVal)>) -> (r: Option<CelVal>)
    ensures
        match r {
            Some(v) => eval_expr(e.view(), cel_pair_views_of(env@)) == Some(v.view()),
            None => eval_expr(e.view(), cel_pair_views_of(env@)) is None,
        },
    decreases e,
{
    match e {
        Expr::LitNull => Some(CelVal::Null),
        Expr::LitBool(b) => Some(CelVal::Bool(*b)),
        Expr::LitInt(n) => Some(CelVal::Int(*n)),
        Expr::LitStr(s) => Some(CelVal::Str(s.clone())),
        Expr::Var(name) => cel_lookup(env, name.as_str()),
        Expr::Member(b, name) => match eval_expr_x(b, env) {
            Some(CelVal::Mapping(pairs)) => cel_lookup(&pairs, name.as_str()),
            _ => None,
        },
        Expr::Index(b, ix) => {
            let bv = eval_expr_x(b, env);
            let iv = eval_expr_x(ix, env);
            match (bv, iv) {
                (Some(CelVal::Mapping(pairs)), Some(CelVal::Str(k))) => cel_lookup(&pairs, k.as_str()),
                (Some(CelVal::List(items)), Some(CelVal::Int(n))) => {
                    if 0 <= n && n < items.len() as i128 {
                        let idx = n as usize;
                        assert(cel_views_of(items@)[n as int] == items@[n as int].view());
                        Some(cel_clone(&items[idx]))
                    } else {
                        None
                    }
                },
                _ => None,
            }
        },
        Expr::Neg(b) => match eval_expr_x(b, env) {
            Some(CelVal::Bool(x)) => Some(CelVal::Bool(!x)),
            _ => None,
        },
        Expr::Cmp(op, l, r) => {
            let lv = eval_expr_x(l, env);
            let rv = eval_expr_x(r, env);
            match (lv, rv) {
                (Some(a), Some(b)) => eval_cmp_x(op, a, b),
                _ => None,
            }
        },
        Expr::AndE(l, r) => match eval_expr_x(l, env) {
            Some(CelVal::Bool(false)) => Some(CelVal::Bool(false)),
            Some(CelVal::Bool(true)) => match eval_expr_x(r, env) {
                Some(CelVal::Bool(y)) => Some(CelVal::Bool(y)),
                _ => None,
            },
            _ => None,
        },
        Expr::OrE(l, r) => match eval_expr_x(l, env) {
            Some(CelVal::Bool(true)) => Some(CelVal::Bool(true)),
            Some(CelVal::Bool(false)) => match eval_expr_x(r, env) {
                Some(CelVal::Bool(y)) => Some(CelVal::Bool(y)),
                _ => None,
            },
            _ => None,
        },
        Expr::StartsW(l, r) => {
            let lv = eval_expr_x(l, env);
            let rv = eval_expr_x(r, env);
            match (lv, rv) {
                (Some(CelVal::Str(s)), Some(CelVal::Str(p))) => Some(
                    CelVal::Bool(crate::strutil::str_starts_with(s.as_str(), p.as_str())),
                ),
                _ => None,
            }
        },
        Expr::ContainsS(l, r) => {
            let lv = eval_expr_x(l, env);
            let rv = eval_expr_x(r, env);
            match (lv, rv) {
                (Some(CelVal::Str(s)), Some(CelVal::Str(p))) => Some(
                    CelVal::Bool(crate::strutil::str_contains(s.as_str(), p.as_str())),
                ),
                _ => None,
            }
        },
    }
}

// ---------------------------------------------------------------------------
// Parsing
// ---------------------------------------------------------------------------

pub open spec fn is_ident_start(c: char) -> bool {
    (65 <= c as u32 && c as u32 <= 90) || (97 <= c as u32 && c as u32 <= 122) || c == '_'
}

pub open spec fn is_ident_char(c: char) -> bool {
    is_ident_start(c) || is_digit(c)
}

/// First index at or after `i` that does not hold an identifier character.
pub open spec fn ident_end(s: Seq<char>, i: int) -> int
    decreases s.len() - i,
{
    if 0 <= i && i < s.len() && is_ident_char(s[i]) {
        ident_end(s, i + 1)
    } else {
        i
    }
}

pub proof fn lemma_ident_end_bounds(s: Seq<char>, i: int)
    requires
        0 <= i <= s.len(),
    ensures
        i <= ident_end(s, i) <= s.len(),
    decreases s.len() - i,
{
    if i < s.len() && is_ident_char(s[i]) {
        lemma_ident_end_bounds(s, i + 1);
    }
}

/// First index at or after `i` holding the quote `q`.
pub open spec fn find_quote(s: Seq<char>, q: char, i: int) -> Option<int>
    decreases s.len() - i,
{
    if !(0 <= i && i < s.len()) {
        None
    } else if s[i] == q {
        Some(i)
    } else {
        find_quote(s, q, i + 1)
    }
}

/// A primary expression: a literal, a variable, or a parenthesized
/// expression.
pub open spec fn p_prim(s: Seq<char>, i: int) -> Option<(ExprV, int)>
    decreases s.len() - i, 0int,
{
    if !(0 <= i && i < s.len()) {
        None
    } else {
        let c = s[i];
        if c == '(' {
            let j = skip_ws(s, i + 1);
            if !(i < j && j <= s.len()) {
                None
            } else {
                match p_or(s, j) {
                    Some((e, k)) => {
                        let k2 = skip_ws(s, k);
                        if 0 <= k2 && k2 < s.len() && s[k2] == ')' {
                            Some((e, k2 + 1))
                        } else {
                            None
                        }
                    },
                    None => None,
                }
            }
        } else if c == '\'' || c == '"' {
            match find_quote(s, c, i + 1) {
                Some(e) => Some((ExprV::LitStr(s.subrange(i + 1, e)), e + 1)),
                None => None,
            }
        } else if is_digit(c) {
            let e = digits_end(s, i);
            match num_as_u64(s.subrange(i, e)) {
                Some(v) => Some((ExprV::LitInt(v as i128), e)),
                None => None,
            }
        } else if c == '-' {
            if i + 1 < s.len() && is_digit(s[i + 1]) {
                let e = digits_end(s, i + 1);
                match num_as_u64(s.subrange(i + 1, e)) {
                    Some(v) => Some((ExprV::LitInt((-(v as i128)) as i128), e)),
                    None => None,
                }
            } else {
                None
            }
        } else if is_ident_start(c) {
            let e = ident_end(s, i);
            let name = s.subrange(i, e);
            if name == "true"@ {
                Some((ExprV::LitBool(true), e))
            } else if name == "false"@ {
                Some((ExprV::LitBool(false), e))
            } else if name == "null"@ {
                Some((ExprV::LitNull, e))
            } else {
                Some((ExprV::Var(name), e))
            }
        } else {
            None
        }
    }
}

/// Postfix continuations on a parsed base: member access, the two string
/// methods, and indexing.
pub open spec fn p_tail(s: Seq<char>, i: int, base: ExprV) -> Option<(ExprV, int)>
    decreases s.len() - i, 1int,
{
    if !(0 <= i && i <= s.len()) {
        None
    } else {
        let j = skip_ws(s, i);
        if j < s.len() && s[j] == '.' {
            let k = j + 1;
            if k < s.len() && is_ident_start(s[k]) {
                let e = ident_end(s, k);
                let name = s.subrange(k, e);
                let j2 = skip_ws(s, e);
                if j2 < s.len() && s[j2] == '(' {
                    if name == "startsWith"@ || name == "contains"@ {
                        let a = skip_ws(s, j2 + 1);
                        if !(i < a && a <= s.len()) {
                            None
                        } else {
                            match p_or(s, a) {
                                Some((arg, k3)) => {
                                    let k4 = skip_ws(s, k3);
                                    if 0 <= k4 && k4 < s.len() && s[k4] == ')' && i < k4 + 1 {
                                        let nb = if name == "startsWith"@ {
                                            ExprV::StartsW(Box::new(base), Box::new(arg))
                                        } else {
                                            ExprV::ContainsS(Box::new(base), Box::new(arg))
                                        };
                                        p_tail(s, k4 + 1, nb)
                                    } else {
                                        None
                                    }
                                },
                                None => None,
                            }
                        }
                    } else {
                        None
                    }
                } else if i < e && e <= s.len() {
                    p_tail(s, e, ExprV::Member(Box::new(base), name))
                } else {
                    None
                }
            } else {
                None
            }
        } else if j < s.len() && s[j] == '[' {
            let a = skip_ws(s, j + 1);
            if !(i < a && a <= s.len()) {
                None
            } else {
                match p_or(s, a) {
                    Some((ix, k3)) => {
                        let k4 = skip_ws(s, k3);
                        if 0 <= k4 && k4 < s.len() && s[k4] == ']' && i < k4 + 1 {
                            p_tail(s, k4 + 1, ExprV::Index(Box::new(base), Box::new(ix)))
                        } else {
                            None
                        }
                    },
                    None => None,
                }
            }
        } else {
            Some((base, i))
        }
    }
}

pub open spec fn p_post(s: Seq<char>, i: int) -> Option<(ExprV, int)>
    decreases s.len() - i, 2int,
{
    if !(0 <= i && i <= s.len()) {
        None
    } else {
        match p_prim(s, i) {
            Some((e, k)) => if i < k && k <= s.len() {
                p_tail(s, k, e)
            } else {
                None
            },
            None => None,
        }
    }
}

pub open spec fn p_un(s: Seq<char>, i: int) -> Option<(ExprV, int)>
    decreases s.len() - i, 3int,
{
    if !(0 <= i && i < s.len()) {
        None
    } else if s[i] == '!' {
        let j = skip_ws(s, i + 1);
        if i < j && j <= s.len() {
            match p_un(s, j) {
                Some((e, k)) => Some((ExprV::Neg(Box::new(e)), k)),
                None => None,
            }
        } else {
            None
        }
    } else {
        p_post(s, i)
    }
}

/// The comparison operator starting at `j`, with its width.
pub open spec fn cmp_op_at(s: Seq<char>, j: int) -> Option<(CmpOp, int)> {
    if 0 <= j && j + 1 < s.len() && s[j] == '=' && s[j + 1] == '=' {
        Some((CmpOp::Eq, 2))
    } else if 0 <= j && j + 1 < s.len() && s[j] == '!' && s[j + 1] == '=' {
        Some((CmpOp::Ne, 2))
    } else if 0 <= j && j + 1 < s.len() && s[j] == '<' && s[j + 1] == '=' {
        Some((CmpOp::Le, 2))
    } else if 0 <= j && j + 1 < s.len() && s[j] == '>' && s[j + 1] == '=' {
        Some((CmpOp::Ge, 2))
    } else if 0 <= j && j < s.len() && s[j] == '<' {
        Some((CmpOp::Lt, 1))
    } else if 0 <= j && j < s.len() && s[j] == '>' {
        Some((CmpOp::Gt, 1))
    } else {
        None
    }
}

pub open spec fn p_cmp(s: Seq<char>, i: int) -> Option<(ExprV, int)>
    decreases s.len() - i, 4int,
{
    if !(0 <= i && i <= s.len()) {
        None
    } else {
        match p_un(s, i) {
            Some((l, k)) => {
                let j = skip_ws(s, k);
                match cmp_op_at(s, j) {
                    Some((op, w)) => {
                        let a = skip_ws(s, j + w);
                        if i < a && a <= s.len() {
                            match p_un(s, a) {
                                Some((r, k2)) => Some(
                                    (ExprV::Cmp(op, Box::new(l), Box::new(r)), k2),
                                ),
                                None => None,
                            }
                        } else {
                            None
                        }
                    },
                    None => Some((l, k)),
                }
            },
            None => None,
        }
    }
}

pub open spec fn p_and(s: Seq<char>, i: int) -> Option<(ExprV, int)>
    decreases s.len() - i, 5int,
{
    if !(0 <= i && i <= s.len()) {
        None
    } else {
        match p_cmp(s, i) {
            Some((l, k)) => {
                let j = skip_ws(s, k);
                if j + 1 < s.len() && s[j] == '&' && s[j + 1] == '&' {
                    let a = skip_ws(s, j + 2);
                    if i < a && a <= s.len() {
                        match p_and(s, a) {
                            Some((r, k2)) => Some((ExprV::AndE(Box::new(l), Box::new(r)), k2)),
                            None => None,
                        }
                    } else {
                        None
                    }
                } else {
                    Some((l, k))
                }
            },
            None => None,
        }
    }
}

pub open spec fn p_or(s: Seq<char>, i: int) -> Option<(ExprV, int)>
    decreases s.len() - i, 6int,
{
    if !(0 <= i && i <= s.len()) {
        None
    } else {
        match p_and(s, i) {
            Some((l, k)) => {
                let j = skip_ws(s, k);
                if j + 1 < s.len() && s[j] == '|' && s[j + 1] == '|' {
                    let a = skip_ws(s, j + 2);
                    if i < a && a <= s.len() {
                        match p_or(s, a) {
                            Some((r, k2)) => Some((ExprV::OrE(Box::new(l), Box::new(r)), k2)),
                            None => None,
                        }
                    } else {
                        None
                    }
                } else {
                    Some((l, k))
                }
            },
            None => None,
        }
    }
}

/// The expression a whole text denotes, if it parses.
pub open spec fn spec_parse_pred(t: Seq<char>) -> Option<ExprV> {
    let i = skip_ws(t, 0);
    if !(0 <= i && i <= t.len()) {
        None
    } else {
        match p_or(t, i) {
            Some((e, k)) => if skip_ws(t, k) == t.len() {
                Some(e)
            } else {
                None
            },
            None => None,
        }
    }
}

fn is_ident_start_x(c: char) -> (r: bool)
    ensures
        r == is_ident_start(c),
{
    let u = c as u32;
    (65 <= u && u <= 90) || (97 <= u && u <= 122) || c == '_'
}

fn is_ident_char_x(c: char) -> (r: bool)
    ensures
        r == is_ident_char(c),
{
    let u = c as u32;
    is_ident_start_x(c) || (48 <= u && u <= 57)
}

fn ident_end_x(s: &Vec<char>, i: usize) -> (r: usize)
    requires
        i <= s@.len(),
    ensures
        r as int == ident_end(s@, i as int),
        i <= r <= s@.len(),
{
    let n = s.len();
    let mut j = i;
    while j < n && is_ident_char_x(s[j])
        invariant
            i <= j <= n,
            n == s@.len(),
            ident_end(s@, i as int) == ident_end(s@, j as int),
        decreases n - j,
    {
        j += 1;
    }
    j
}

fn find_quote_x(s: &Vec<char>, q: char, i: usize) -> (r: Option<usize>)
    requires
        i <= s@.len(),
    ensures
        match r {
            Some(e) => i <= e < s@.len() && find_quote(s@, q, i as int) == Some(e as int),
            None => find_quote(s@, q, i as int) is None,
        },
{
    let n = s.len();
    let mut j = i;
    while j < n && s[j] != q
        invariant
            i <= j <= n,
            n == s@.len(),
            find_quote(s@, q, i as int) == find_quote(s@, q, j as int),
        decreases n - j,
    {
        j += 1;
    }
    if j < n {
        Some(j)
    } else {
        None
    }
}

fn chars_range_to_string(s: &Vec<char>, b: usize, e: usize) -> (r: String)
    requires
        b <= e <= s@.len(),
    ensures
        r@ == s@.subrange(b as int, e as int),
{
    let mut out: Vec<char> = Vec::new();
    let mut j = b;
    while j < e
        invariant
            b <= j <= e <= s@.len(),
            out@ =~= s@.subrange(b as int, j as int),
        decreases e - j,
    {
        out.push(s[j]);
        assert(out@ =~= s@.subrange(b as int, j + 1 as int));
        j += 1;
    }
    chars_to_string(&out)
}

#[verifier::rlimit(60)]
fn p_prim_x(s: &Vec<char>, i: usize) -> (r: Option<(Expr, usize)>)
    requires
        i <= s@.len(),
    ensures
        match r {
            Some(p) => p_prim(s@, i as int) == Some((p.0.view(), p.1 as int)) && i < p.1
                <= s@.len(),
            None => p_prim(s@, i as int) is None,
        },
    decreases s@.len() - i, 0int,
{
    let n = s.len();
    if i >= n {
        return None;
    }
    let c = s[i];
    if c == '(' {
        let j = skip_ws_x(s, i + 1);
        match p_or_x(s, j) {
            Some((e, k)) => {
                let k2 = skip_ws_x(s, k);
                if k2 < n && s[k2] == ')' {
                    Some((e, k2 + 1))
                } else {
                    None
                }
            },
            None => None,
        }
    } else if c == '\'' || c == '"' {
        match find_quote_x(s, c, i + 1) {
            Some(e) => Some((Expr::LitStr(chars_range_to_string(s, i + 1, e)), e + 1)),
            None => None,
        }
    } else if crate::json::is_digit_x(c) {
        let e = digits_end_x(s, i);
        match digits_range_to_u64(s, i, e) {
            Some(v) => Some((Expr::LitInt(v as i128), e)),
            None => None,
        }
    } else if c == '-' {
        if i + 1 < n && crate::json::is_digit_x(s[i + 1]) {
            let e = digits_end_x(s, i + 1);
            match digits_range_to_u64(s, i + 1, e) {
                Some(v) => {
                    let vv: i128 = v as i128;
                    Some((Expr::LitInt(-vv), e))
                },
                None => None,
            }
        } else {
            None
        }
    } else if is_ident_start_x(c) {
        let e = ident_end_x(s, i);
        proof {
            assert(ident_end(s@, i as int) == ident_end(s@, i as int + 1));
            lemma_ident_end_bounds(s@, i as int + 1);
        }
        assert(i < e);
        let name = chars_range_to_string(s, i, e);
        if str_eq(name.as_str(), "true") {
            Some((Expr::LitBool(true), e))
        } else if str_eq(name.as_str(), "false") {
            Some((Expr::LitBool(false), e))
        } else if str_eq(name.as_str(), "null") {
            Some((Expr::LitNull, e))
        } else {
            Some((Expr::Var(name), e))
        }
    } else {
        None
    }
}

fn p_tail_x(s: &Vec<char>, i: usize, base: Expr) -> (r: Option<(Expr, usize)>)
    requires
        i <= s@.len(),
    ensures
        match r {
            Some(p) => p_tail(s@, i as int, base.view()) == Some((p.0.view(), p.1 as int)) && i
                <= p.1 <= s@.len(),
            None => p_tail(s@, i as int, base.view()) is None,
        },
    decreases s@.len() - i, 1int,
{
    let n = s.len();
    let j = skip_ws_x(s, i);
    if j < n && s[j] == '.' {
        let k = j + 1;
        if k < n && is_ident_start_x(s[k]) {
            let e = ident_end_x(s, k);
            let name = chars_range_to_string(s, k, e);
            let j2 = skip_ws_x(s, e);
            if j2 < n && s[j2] == '(' {
                let is_sw = str_eq(name.as_str(), "startsWith");
                let is_ct = str_eq(name.as_str(), "contains");
                if is_sw || is_ct {
                    let a = skip_ws_x(s, j2 + 1);
                    match p_or_x(s, a) {
                        Some((arg, k3)) => {
                            let k4 = skip_ws_x(s, k3);
                            if k4 < n && s[k4] == ')' {
                                let nb = if is_sw {
                                    Expr::StartsW(Box::new(base), Box::new(arg))
                                } else {
                                    Expr::ContainsS(Box::new(base), Box::new(arg))
                                };
                                p_tail_x(s, k4 + 1, nb)
                            } else {
                                None
                            }
                        },
                        None => None,
                    }
                } else {
                    None
                }
            } else {
                assert(i < e);
                p_tail_x(s, e, Expr::Member(Box::new(base), name))
            }
        } else {
            None
        }
    } else if j < n && s[j] == '[' {
        let a = skip_ws_x(s, j + 1);
        match p_or_x(s, a) {
            Some((ix, k3)) => {
                let k4 = skip_ws_x(s, k3);
                if k4 < n && s[k4] == ']' {
                    p_tail_x(s, k4 + 1, Expr::Index(Box::new(base), Box::new(ix)))
                } else {
                    None
                }
            },
            None => None,
        }
    } else {
        Some((base, i))
    }
}

fn p_post_x(s: &Vec<char>, i: usize) -> (r: Option<(Expr, usize)>)
    requires
        i <= s@.len(),
    ensures
        match r {
            Some(p) => p_post(s@, i as int) == Some((p.0.view(), p.1 as int)) && i < p.1
                <= s@.len(),
            None => p_post(s@, i as int) is None,
        },
    decreases s@.len() - i, 2int,
{
    match p_prim_x(s, i) {
        Some((e, k)) => p_tail_x(s, k, e),
        None => None,
    }
}

fn p_un_x(s: &Vec<char>, i: usize) -> (r: Option<(Expr, usize)>)
    requires
        i <= s@.len(),
    ensures
        match r {
            Some(p) => p_un(s@, i as int) == Some((p.0.view(), p.1 as int)) && i < p.1 <= s@.len(),
            None => p_un(s@, i as int) is None,
        },
    decreases s@.len() - i, 3int,
{
    let n = s.len();
    if i >= n {
        return None;
    }
    if s[i] == '!' {
        let j = skip_ws_x(s, i + 1);
        match p_un_x(s, j) {
            Some((e, k)) => Some((Expr::Neg(Box::new(e)), k)),
            None => None,
        }
    } else {
        p_post_x(s, i)
    }
}

fn cmp_op_at_x(s: &Vec<char>, j: usize) -> (r: Option<(CmpOp, usize)>)
    requires
        j <= s@.len(),
    ensures
        match r {
            Some(p) => cmp_op_at(s@, j as int) == Some((p.0, p.1 as int)) && 1 <= p.1 && j + p.1
                <= s@.len(),
            None => cmp_op_at(s@, j as int) is None,
        },
{
    let n = s.len();
    let two = j < n && n - j >= 2;
    if two && s[j] == '=' && s[j + 1] == '=' {
        Some((CmpOp::Eq, 2))
    } else if two && s[j] == '!' && s[j + 1] == '=' {
        Some((CmpOp::Ne, 2))
    } else if two && s[j] == '<' && s[j + 1] == '=' {
        Some((CmpOp::Le, 2))
    } else if two && s[j] == '>' && s[j + 1] == '=' {
        Some((CmpOp::Ge, 2))
    } else if j < n && s[j] == '<' {
        Some((CmpOp::Lt, 1))
    } else if j < n && s[j] == '>' {
        Some((CmpOp::Gt, 1))
    } else {
        None
    }
}

fn p_cmp_x(s: &Vec<char>, i: usize) -> (r: Option<(Expr, usize)>)
    requires
        i <= s@.len(),
    ensures
        match r {
            Some(p) => p_cmp(s@, i as int) == Some((p.0.view(), p.1 as int)) && i < p.1
                <= s@.len(),
            None => p_cmp(s@, i as int) is None,
        },
    decreases s@.len() - i, 4int,
{
    let n = s.len();
    match p_un_x(s, i) {
        Some((l, k)) => {
            let j = skip_ws_x(s, k);
            match cmp_op_at_x(s, j) {
                Some((op, w)) => {
                    assert(j + w <= n);
                    let a = skip_ws_x(s, j + w);
                    match p_un_x(s, a) {
                        Some((rr, k2)) => Some((Expr::Cmp(op, Box::new(l), Box::new(rr)), k2)),
                        None => None,
                    }
                },
                None => Some((l, k)),
            }
        },
        None => None,
    }
}

fn p_and_x(s: &Vec<char>, i: usize) -> (r: Option<(Expr, usize)>)
    requires
        i <= s@.len(),
    ensures
        match r {
            Some(p) => p_and(s@, i as int) == Some((p.0.view(), p.1 as int)) && i < p.1
                <= s@.len(),
            None => p_and(s@, i as int) is None,
        },
    decreases s@.len() - i, 5int,
{
    let n = s.len();
    match p_cmp_x(s, i) {
        Some((l, k)) => {
            let j = skip_ws_x(s, k);
            if j < n && n - j >= 2 && s[j] == '&' && s[j + 1] == '&' {
                let a = skip_ws_x(s, j + 2);
                match p_and_x(s, a) {
                    Some((rr, k2)) => Some((Expr::AndE(Box::new(l), Box::new(rr)), k2)),
                    None => None,
                }
            } else {
                Some((l, k))
            }
        },
        None => None,
    }
}

fn p_or_x(s: &Vec<char>, i: usize) -> (r: Option<(Expr, usize)>)
    requires
        i <= s@.len(),
    ensures
        match r {
            Some(p) => p_or(s@, i as int) == Some((p.0.view(), p.1 as int)) && i < p.1 <= s@.len(),
            None => p_or(s@, i as int) is None,
        },
    decreases s@.len() - i, 6int,
{
    let n = s.len();
    match p_and_x(s, i) {
        Some((l, k)) => {
            let j = skip_ws_x(s, k);
            if j < n && n - j >= 2 && s[j] == '|' && s[j + 1] == '|' {
                let a = skip_ws_x(s, j + 2);
                match p_or_x(s, a) {
                    Some((rr, k2)) => Some((Expr::OrE(Box::new(l), Box::new(rr)), k2)),
                    None => None,
                }
            } else {
                Some((l, k))
            }
        },
        None => None,
    }
}

/// Compile an expression text, where it parses whole.
pub fn compile_pred(text: &str) -> (r: Option<Expr>)
    ensures
        match r {
            Some(e) => spec_parse_pred(text@) == Some(e.view()),
            None => spec_parse_pred(text@) is None,
        },
{
    let s = str_chars(text);
    let i = skip_ws_x(&s, 0);
    match p_or_x(&s, i) {
        Some((e, k)) => {
            let e2 = skip_ws_x(&s, k);
            if e2 == s.len() {
                Some(e)
            } else {
                None
            }
        },
        None => None,
    }
}

// ---------------------------------------------------------------------------
// The environment of an interaction
// ---------------------------------------------------------------------------

/// A JSON value as a predicate value: plain integer tokens become integers,
/// any other number token is carried opaquely.
pub open spec fn cel_of_json(j: JsonV) -> CelVV
    decreases j, 0int,
{
    match j {
        JsonV::Null => CelVV::Null,
        JsonV::Bool(b) => CelVV::Bool(b),
        JsonV::Str(t) => CelVV::Str(t),
        JsonV::Num(tok) => match num_as_u64(tok) {
            Some(v) => CelVV::Int(v as i128),
            None => if tok.len() >= 2 && tok[0] == '-' && num_as_u64(
                tok.subrange(1, tok.len() as int),
            ) is Some {
                CelVV::Int(-(num_as_u64(tok.subrange(1, tok.len() as int))->0 as i128) as i128)
            } else {
                CelVV::Opaque(tok)
            },
        },
        JsonV::Arr(items) => CelVV::List(cel_of_json_seq(items)),
        JsonV::Obj(pairs) => CelVV::Mapping(cel_of_json_pairs(pairs)),
    }
}

pub open spec fn cel_of_json_seq(items: Seq<JsonV>) -> Seq<CelVV>
    decreases items, 1int,
{
    Seq::new(
        items.len(),
        |i: int|
            if 0 <= i < items.len() {
                cel_of_json(items[i])
            } else {
                CelVV::Null
            },
    )
}

pub open spec fn cel_of_json_pairs(pairs: Seq<(Seq<char>, JsonV)>) -> Seq<(Seq<char>, CelVV)>
    decreases pairs, 1int,
{
    Seq::new(
        pairs.len(),
        |i: int|
            if 0 <= i < pairs.len() {
                (pairs[i].0, cel_of_json(pairs[i].1))
            } else {
                (Seq::empty(), CelVV::Null)
            },
    )
}

#[verifier::loop_isolation(false)]
fn cel_from_json(j: &Json) -> (r: CelVal)
    ensures
        r.view() == cel_of_json(j.view()),
    decreases j,
{
    match j {
        Json::Null => CelVal::Null,
        Json::Bool(b) => CelVal::Bool(*b),
        Json::Str(t) => CelVal::Str(t.clone()),
        Json::Num(tok) => {
            match crate::json::digits_to_u64(tok.as_str()) {
                Some(v) => CelVal::Int(v as i128),
                None => {
                    let cs = str_chars(tok.as_str());
                    let n = cs.len();
                    if n >= 2 && cs[0] == '-' {
                        match digits_range_to_u64(&cs, 1, n) {
                            Some(v) => {
                                let vv: i128 = v as i128;
                                CelVal::Int(-vv)
                            },
                            None => CelVal::Opaque(tok.clone()),
                        }
                    } else {
                        CelVal::Opaque(tok.clone())
                    }
                },
            }
        },
        Json::Arr(items) => {
            let mut out: Vec<CelVal> = Vec::new();
            let n = items.len();
            let mut i: usize = 0;
            while i < n
                invariant
                    i <= n,
                    n == items@.len(),
                    cel_views_of(out@) =~= cel_of_json_seq(views_of(items@)).take(i as int),
                decreases n - i,
            {
                let cv = cel_from_json(&items[i]);
                assert(cv.view() == cel_of_json(views_of(items@)[i as int]));
                out.push(cv);
                assert(cel_views_of(out@) =~= cel_of_json_seq(views_of(items@)).take(i + 1));
                i += 1;
            }
            assert(cel_views_of(out@) =~= cel_of_json_seq(views_of(items@)));
            CelVal::List(out)
        },
        Json::Obj(pairs) => {
            let mut out: Vec<(String, CelVal)> = Vec::new();
            let n = pairs.len();
            let mut i: usize = 0;
            while i < n
                invariant
                    i <= n,
                    n == pairs@.len(),
                    cel_pair_views_of(out@) =~= cel_of_json_pairs(pair_views_of(pairs@)).take(
                        i as int,
                    ),
                decreases n - i,
            {
                let cv = cel_from_json(&pairs[i].1);
                assert(cv.view() == cel_of_json(pair_views_of(pairs@)[i as int].1));
                out.push((pairs[i].0.clone(), cv));
                assert(cel_pair_views_of(out@) =~= cel_of_json_pairs(pair_views_of(pairs@)).take(
                    i + 1,
                ));
                i += 1;
            }
            assert(cel_pair_views_of(out@) =~= cel_of_json_pairs(pair_views_of(pairs@)));
            CelVal::Mapping(out)
        },
    }
}

/// A header mapping as a predicate map.
pub open spec fn headers_cel(h: Seq<(Seq<char>, Seq<char>)>) -> Seq<(Seq<char>, CelVV)> {
    Seq::new(h.len(), |i: int| (h[i].0, CelVV::Str(h[i].1)))
}

fn headers_to_cel(h: &crate::headers::HeaderMap) -> (r: CelVal)
    ensures
        r.view() == CelVV::Mapping(headers_cel(h@)),
{
    let n = h.len();
    let mut out: Vec<(String, CelVal)> = Vec::new();
    let mut i: usize = 0;
    while i < n
        invariant
            i <= n,
            n == h@.len(),
            out@.len() == i,
            cel_pair_views_of(out@) =~= headers_cel(h@.take(i as int)),
        decreases n - i,
    {
        let (k, v) = h.pair(i);
        let ghost prev = out@;
        out.push((k.clone(), CelVal::Str(v.clone())));
        assert(out@.len() == i + 1);
        assert(forall|j: int| 0 <= j < prev.len() ==> out@[j] == prev[j]);
        assert(out@[i as int].0@ == h@[i as int].0);
        assert(out@[i as int].1.view() == CelVV::Str(h@[i as int].1));
        proof {
            assert_seqs_equal!(
                cel_pair_views_of(out@) == headers_cel(h@.take(i + 1)),
                j => {
                    assert(cel_pair_views_of(out@)[j] == (out@[j].0@, out@[j].1.view()));
                    if j < i {
                        assert(out@[j] == prev[j]);
                        assert(cel_pair_views_of(prev)[j] == (prev[j].0@, prev[j].1.view()));
                    }
                }
            );
        }
        i += 1;
    }
    assert(h@.take(n as int) =~= h@);
    CelVal::Mapping(out)
}

pub open spec fn u64opt_cel(o: Option<u64>) -> CelVV {
    match o {
        Some(n) => CelVV::Int(n as i128),
        None => CelVV::Null,
    }
}

pub open spec fn stropt_cel(o: Option<Seq<char>>) -> CelVV {
    match o {
        Some(t) => CelVV::Str(t),
        None => CelVV::Null,
    }
}

pub open spec fn u128_cel(n: u128) -> CelVV {
    if n <= u64::MAX {
        CelVV::Int(n as i128)
    } else {
        CelVV::Opaque(crate::json::dec_str(n as int))
    }
}

pub open spec fn u128opt_cel(o: Option<u128>) -> CelVV {
    match o {
        Some(n) => u128_cel(n),
        None => CelVV::Null,
    }
}

/// The `request` variable of an interaction.
pub open spec fn request_cel(r: crate::model::StoredRequestV) -> CelVV {
    CelVV::Mapping(
        seq![
            ("method"@, CelVV::Str(r.method)),
            ("path"@, CelVV::Str(r.path)),
            ("headers"@, CelVV::Mapping(headers_cel(r.headers))),
            ("body"@, cel_of_json(r.body)),
        ],
    )
}

/// The `response` variable of an interaction.
pub open spec fn response_cel(r: crate::model::StoredResponseV) -> CelVV {
    CelVV::Mapping(
        seq![
            ("status"@, CelVV::Int(r.status as i128)),
            ("headers"@, CelVV::Mapping(headers_cel(r.headers))),
            (
                "body"@,
                match r.body {
                    Some(v) => cel_of_json(v),
                    None => CelVV::Null,
                },
            ),
            ("streaming"@, CelVV::Bool(r.streaming)),
        ],
    )
}

/// The `metadata` variable of an interaction.
pub open spec fn metadata_cel(m: crate::model::MetadataV) -> CelVV {
    CelVV::Mapping(
        seq![
            ("provider"@, stropt_cel(m.provider)),
            ("model"@, stropt_cel(m.model)),
            ("input_tokens"@, u64opt_cel(m.input_tokens)),
            ("output_tokens"@, u64opt_cel(m.output_tokens)),
            ("total_tokens"@, u64opt_cel(m.total_tokens)),
            ("latency_ms"@, u128_cel(m.latency_ms)),
            ("latency_to_first_chunk_ms"@, u128opt_cel(m.latency_to_first_chunk_ms)),
        ],
    )
}

/// The whole environment: the three predefined variables.
pub open spec fn env_of(iv: InteractionV) -> Seq<(Seq<char>, CelVV)> {
    seq![
        ("request"@, request_cel(iv.request)),
        ("response"@, response_cel(iv.response)),
        ("metadata"@, metadata_cel(iv.metadata)),
    ]
}

fn envkey(t: &str) -> (r: String)
    ensures
        r@ == t@,
{
    String::from_str(t)
}

fn opt_string_cel(o: &Option<String>) -> (r: CelVal)
    ensures
        r.view() == stropt_cel(crate::model::opt_str_view(*o)),
{
    match o {
        Some(t) => CelVal::Str(t.clone()),
        None => CelVal::Null,
    }
}

fn opt_u64_cel(o: &Option<u64>) -> (r: CelVal)
    ensures
        r.view() == u64opt_cel(*o),
{
    match o {
        Some(n) => CelVal::Int(*n as i128),
        None => CelVal::Null,
    }
}

fn u128_to_cel(n: u128) -> (r: CelVal)
    ensures
        r.view() == u128_cel(n),
{
    if n <= u64::MAX as u128 {
        CelVal::Int(n as i128)
    } else {
        CelVal::Opaque(crate::json::u128_to_dec(n))
    }
}

fn opt_u128_cel(o: &Option<u128>) -> (r: CelVal)
    ensures
        r.view() == u128opt_cel(*o),
{
    match o {
        Some(n) => u128_to_cel(*n),
        None => CelVal::Null,
    }
}

/// The environment that an interaction denotes.
fn build_env(x: &Interaction) -> (r: Vec<(String, CelVal)>)
    ensures
        cel_pair_views_of(r@) == env_of(x@),
{
    let req = {
        let mut pairs: Vec<(String, CelVal)> = Vec::new();
        pairs.push((envkey("method"), CelVal::Str(x.request.method.clone())));
        pairs.push((envkey("path"), CelVal::Str(x.request.path.clone())));
        pairs.push((envkey("headers"), headers_to_cel(&x.request.headers)));
        pairs.push((envkey("body"), cel_from_json(&x.request.body)));
        proof {
            assert(cel_pair_views_of(pairs@) =~= seq![
                ("method"@, CelVV::Str(x@.request.method)),
                ("path"@, CelVV::Str(x@.request.path)),
                ("headers"@, CelVV::Mapping(headers_cel(x@.request.headers))),
                ("body"@, cel_of_json(x@.request.body)),
            ]);
        }
        let ghost pvs = cel_pair_views_of(pairs@);
        let r = CelVal::Mapping(pairs);
        proof {
            let p = request_cel(x@.request)->Mapping_0;
            assert(p.len() == 4);
            assert(p[0] == ("method"@, CelVV::Str(x@.request.method)));
            assert(p[1] == ("path"@, CelVV::Str(x@.request.path)));
            assert(p[2] == ("headers"@, CelVV::Mapping(headers_cel(x@.request.headers))));
            assert(p[3] == ("body"@, cel_of_json(x@.request.body)));
            assert(p =~= pvs);
        }
        assert(r.view() == request_cel(x@.request));
        r
    };
    let resp = {
        let mut pairs: Vec<(String, CelVal)> = Vec::new();
        pairs.push((envkey("status"), CelVal::Int(x.response.status as i128)));
        pairs.push((envkey("headers"), headers_to_cel(&x.response.headers)));
        pairs.push(
            (
                envkey("body"),
                match &x.response.body {
                    Some(b) => cel_from_json(b),
                    None => CelVal::Null,
                },
            ),
        );
        pairs.push((envkey("streaming"), CelVal::Bool(x.response.streaming)));
        proof {
            assert(cel_pair_views_of(pairs@) =~= seq![
                ("status"@, CelVV::Int(x@.response.status as i128)),
                ("headers"@, CelVV::Mapping(headers_cel(x@.response.headers))),
                (
                    "body"@,
                    match x@.response.body {
                        Some(v) => cel_of_json(v),
                        None => CelVV::Null,
                    },
                ),
                ("streaming"@, CelVV::Bool(x@.response.streaming)),
            ]);
        }
        let ghost pvs = cel_pair_views_of(pairs@);
        let r = CelVal::Mapping(pairs);
        proof {
            let p = response_cel(x@.response)->Mapping_0;
            assert(p.len() == 4);
            assert(p[0] == ("status"@, CelVV::Int(x@.response.status as i128)));
            assert(p[1] == ("headers"@, CelVV::Mapping(headers_cel(x@.response.headers))));
            assert(p[2] == ("body"@, match x@.response.body {
                Some(v) => cel_of_json(v),
                None => CelVV::Null,
            }));
            assert(p[3] == ("streaming"@, CelVV::Bool(x@.response.streaming)));
            assert(p =~= pvs);
        }
        assert(r.view() == response_cel(x@.response));
        r
    };
    let meta = {
        let mut pairs: Vec<(String, CelVal)> = Vec::new();
        pairs.push((envkey("provider"), opt_string_cel(&x.metadata.provider)));
        pairs.push((envkey("model"), opt_string_cel(&x.metadata.model)));
        pairs.push((envkey("input_tokens"), opt_u64_cel(&x.metadata.input_tokens)));
        pairs.push((envkey("output_tokens"), opt_u64_cel(&x.metadata.output_tokens)));
        pairs.push((envkey("total_tokens"), opt_u64_cel(&x.metadata.total_tokens)));
        pairs.push((envkey("latency_ms"), u128_to_cel(x.metadata.latency_ms)));
        pairs.push(
            (
                envkey("latency_to_first_chunk_ms"),
                opt_u128_cel(&x.metadata.latency_to_first_chunk_ms),
            ),
        );
        proof {
            assert(cel_pair_views_of(pairs@) =~= seq![
                ("provider"@, stropt_cel(x@.metadata.provider)),
                ("model"@, stropt_cel(x@.metadata.model)),
                ("input_tokens"@, u64opt_cel(x@.metadata.input_tokens)),
                ("output_tokens"@, u64opt_cel(x@.metadata.output_tokens)),
                ("total_tokens"@, u64opt_cel(x@.metadata.total_tokens)),
                ("latency_ms"@, u128_cel(x@.metadata.latency_ms)),
                ("latency_to_first_chunk_ms"@, u128opt_cel(x@.metadata.latency_to_first_chunk_ms)),
            ]);
        }
        let ghost pvs = cel_pair_views_of(pairs@);
        let r = CelVal::Mapping(pairs);
        proof {
            let p = metadata_cel(x@.metadata)->Mapping_0;
            assert(p.len() == 7);
            assert(p[0] == ("provider"@, stropt_cel(x@.metadata.provider)));
            assert(p[1] == ("model"@, stropt_cel(x@.metadata.model)));
            assert(p[2] == ("input_tokens"@, u64opt_cel(x@.metadata.input_tokens)));
            assert(p[3] == ("output_tokens"@, u64opt_cel(x@.metadata.output_tokens)));
            assert(p[4] == ("total_tokens"@, u64opt_cel(x@.metadata.total_tokens)));
            assert(p[5] == ("latency_ms"@, u128_cel(x@.metadata.latency_ms)));
            assert(p[6] == ("latency_to_first_chunk_ms"@, u128opt_cel(
                x@.metadata.latency_to_first_chunk_ms,
            )));
            assert(p =~= pvs);
        }
        assert(r.view() == metadata_cel(x@.metadata));
        r
    };
    let mut env: Vec<(String, CelVal)> = Vec::new();
    env.push((envkey("request"), req));
    env.push((envkey("response"), resp));
    env.push((envkey("metadata"), meta));
    assert(cel_pair_views_of(env@) =~= env_of(x@));
    env
}

// ---------------------------------------------------------------------------
// The evaluator's public face
// ---------------------------------------------------------------------------

/// What a predicate text yields on an interaction: the boolean value when
/// the text parses and evaluates to one, and `false` on every failure.
pub open spec fn spec_eval_pred(t: Seq<char>, iv: InteractionV) -> bool {
    match spec_parse_pred(t) {
        Some(e) => match eval_expr(e, env_of(iv)) {
            Some(CelVV::Bool(b)) => b,
            _ => false,
        },
        None => false,
    }
}

/// Evaluate a predicate text against an interaction. A text that does not
/// parse, a runtime error, or a non-boolean result all yield `false`.
pub fn evaluate_expression(expr: &str, interaction: &Interaction) -> (r: bool)
    ensures
        r == spec_eval_pred(expr@, interaction@),
{
    match compile_pred(expr) {
        Some(e) => {
            let env = build_env(interaction);
            match eval_expr_x(&e, &env) {
                Some(CelVal::Bool(b)) => b,
                _ => false,
            }
        },
        None => false,
    }
}

/// The synthetic interaction that intercept matching sees: the real request,
/// an all-empty response, empty metadata.
pub open spec fn synthetic_interaction(rv: crate::model::StoredRequestV) -> InteractionV {
    InteractionV {
        id: Seq::empty(),
        recorded_at: Seq::empty(),
        request: rv,
        response: crate::model::StoredResponseV {
            status: 0,
            headers: Seq::empty(),
            streaming: false,
            chunks: Seq::empty(),
            body: None,
        },
        metadata: crate::model::MetadataV {
            provider: None,
            model: None,
            input_tokens: None,
            output_tokens: None,
            total_tokens: None,
            latency_ms: 0,
            latency_to_first_chunk_ms: None,
        },
    }
}

/// Whether the intercept pattern matches a request, evaluated on the
/// synthetic interaction.
pub fn intercept_matches(pattern: &str, req: &crate::model::StoredRequest) -> (r: bool)
    ensures
        r == spec_eval_pred(pattern@, synthetic_interaction(req@)),
{
    let fake = Interaction {
        id: String::new(),
        recorded_at: String::new(),
        request: req.copy(),
        response: crate::model::StoredResponse {
            status: 0,
            headers: crate::headers::HeaderMap::new(),
            streaming: false,
            chunks: Vec::new(),
            body: None,
        },
        metadata: crate::model::Metadata::empty(),
    };
    assert(crate::model::chunks_view(fake.response.chunks@)
        =~= Seq::<crate::model::ChunkV>::empty());
    assert(fake@ =~= synthetic_interaction(req@));
    evaluate_expression(pattern, &fake)
}

/// Whether an interaction should be logged: an unset filter logs everything.
pub fn should_log(interaction: &Interaction, filter: &Option<String>) -> (r: bool)
    ensures
        r == match filter {
            Some(f) => spec_eval_pred(f@, interaction@),
            None => true,
        },
{
    match filter {
        Some(f) => evaluate_expression(f.as_str(), interaction),
        None => true,
    }
}

} // verus!


