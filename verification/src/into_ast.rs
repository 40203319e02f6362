//! From symbolic expressions to the abstract syntax.

use crate::ast::{
    entries_v, exprs_v, lemma_app_v, lemma_case_v, lemma_list_v, lemma_record_v, pairs_v,
    params_v, typ_v, Case, Expr, ExprV, External, FnApp, FnDef, Let, Parameter, TypeDef, Value,
    ValueV,
};
use crate::error::TypeError;
use crate::names::str_same;
use crate::sexp::{lemma_list_view, views, Sx, TypeExpr};
use crate::subtyping::{int_literal_name, is_digit, is_int_literal};
use vstd::prelude::*;

verus! {

pub const LET_KEYWORD: &'static str = "let";

pub const FN_KEYWORD: &'static str = "fn";

pub const RECORD_KEYWORD: &'static str = "record";

pub const LIST_KEYWORD: &'static str = "vec";

pub const TYPE_KEYWORD: &'static str = "type";

pub const CASE_KEYWORD: &'static str = "case";

pub const EXTERNAL_KEYWORD: &'static str = "external";

pub const INCLUDE_KEYWORD: &'static str = "include";

/// The number that the first `n` digits of `s` write.
pub open spec fn digits_value(s: Seq<char>, n: int) -> int
    decreases n,
{
    if n <= 0 {
        0
    } else {
        digits_value(s, n - 1) * 10 + (s[n - 1] as u32 - '0' as u32)
    }
}

/// `s` without the colons it starts with, from position `i` on.
pub open spec fn strip_colons(s: Seq<char>, i: int) -> Seq<char>
    decreases s.len() - i,
{
    if 0 <= i < s.len() && s[i] == ':' {
        strip_colons(s, i + 1)
    } else {
        s.skip(i)
    }
}

/// What a bare string is: a number, a quoted string, a boolean, an atom or a
/// variable.
pub open spec fn atom_ast(lit: Seq<char>) -> Result<ExprV, TypeError> {
    if lit.len() == 0 {
        Err(TypeError::Syntax)
    } else if is_int_literal(lit) {
        if digits_value(lit, lit.len() as int) <= i64::MAX {
            Ok(ExprV::Literal(ValueV::Number(digits_value(lit, lit.len() as int) as i64)))
        } else {
            Err(TypeError::Syntax)
        }
    } else if lit[0] == '\'' && lit[lit.len() - 1] == '\'' {
        if lit.len() >= 2 {
            Ok(ExprV::Literal(ValueV::Text(lit.subrange(1, lit.len() - 1))))
        } else {
            Err(TypeError::Syntax)
        }
    } else if lit == "true"@ {
        Ok(ExprV::Literal(ValueV::Bool(true)))
    } else if lit == "false"@ {
        Ok(ExprV::Literal(ValueV::Bool(false)))
    } else if lit[0] == ':' {
        Ok(ExprV::Literal(ValueV::Atom(strip_colons(lit, 0))))
    } else {
        Ok(ExprV::Variable(lit))
    }
}

/// What one parameter declaration is: a name, or `(name : type)`.
pub open spec fn param_of(s: Sx) -> Result<(Seq<char>, Option<Sx>), TypeError> {
    match s {
        Sx::Atom(n) => Ok((n, None)),
        Sx::List(p) => if p.len() == 3 && p[0] is Atom && p[1] == Sx::Atom(":"@) {
            Ok((p[0]->Atom_0, Some(p[2])))
        } else {
            Err(TypeError::Syntax)
        },
        Sx::Empty => Err(TypeError::Syntax),
    }
}

/// The parameters `l[i..end]`.
pub open spec fn params_of(l: Seq<Sx>, i: int, end: int) -> Result<
    Seq<(Seq<char>, Option<Sx>)>,
    TypeError,
>
    decreases end - i,
{
    if i < 0 || i >= end || end > l.len() {
        Ok(Seq::empty())
    } else {
        match param_of(l[i]) {
            Err(e) => Err(e),
            Ok(p) => match params_of(l, i + 1, end) {
                Err(e) => Err(e),
                Ok(rest) => Ok(seq![p] + rest),
            },
        }
    }
}

/// The expression that a symbolic expression writes. A list is read by its
/// first element: `fn`, `let`, `type`, `case`, `include`, `external`,
/// `record` and `vec` are the special forms, anything else is an application.
pub open spec fn ast_of(s: Sx) -> Result<ExprV, TypeError>
    decreases s, 0nat,
{
    match s {
        Sx::Empty => Err(TypeError::Syntax),
        Sx::Atom(lit) => atom_ast(lit),
        Sx::List(l) => if l.len() == 0 {
            Err(TypeError::Syntax)
        } else if l[0] == Sx::Atom(FN_KEYWORD@) {
            if l.len() < 2 {
                Err(TypeError::Syntax)
            } else {
                match params_of(l, 1, l.len() - 1) {
                    Err(e) => Err(e),
                    Ok(ps) => match ast_of(l[l.len() - 1]) {
                        Err(e) => Err(e),
                        Ok(b) => Ok(ExprV::FnDef { params: ps, body: Box::new(b) }),
                    },
                }
            }
        } else if l[0] == Sx::Atom(LET_KEYWORD@) {
            if l.len() == 3 && l[1] is Atom {
                match ast_of(l[2]) {
                    Err(e) => Err(e),
                    Ok(v) => Ok(ExprV::Let { name: l[1]->Atom_0, typ: None, value: Box::new(v) }),
                }
            } else if l.len() == 5 && l[1] is Atom && l[2] == Sx::Atom(":"@) {
                match ast_of(l[4]) {
                    Err(e) => Err(e),
                    Ok(v) => Ok(
                        ExprV::Let { name: l[1]->Atom_0, typ: Some(l[3]), value: Box::new(v) },
                    ),
                }
            } else {
                Err(TypeError::Syntax)
            }
        } else if l[0] == Sx::Atom(TYPE_KEYWORD@) {
            if l.len() >= 4 && l[1] is Atom && l[2] == Sx::Atom(":"@) {
                Ok(ExprV::TypeDef { name: l[1]->Atom_0, typ: l[3] })
            } else {
                Err(TypeError::Syntax)
            }
        } else if l[0] == Sx::Atom(CASE_KEYWORD@) {
            match branches_of(l, 1) {
                Err(e) => Err(e),
                Ok(b) => Ok(ExprV::Case { branches: b }),
            }
        } else if l[0] == Sx::Atom(INCLUDE_KEYWORD@) {
            if l.len() >= 2 && l[1] is Atom {
                Ok(ExprV::Include(l[1]->Atom_0))
            } else {
                Err(TypeError::Syntax)
            }
        } else if l[0] == Sx::Atom(EXTERNAL_KEYWORD@) {
            if l.len() >= 2 && l[1] is Atom {
                Ok(ExprV::Literal(ValueV::External(l[1]->Atom_0)))
            } else {
                Err(TypeError::Syntax)
            }
        } else if l[0] == Sx::Atom(RECORD_KEYWORD@) {
            match entries_of(l, 1) {
                Err(e) => Err(e),
                Ok(r) => Ok(ExprV::Literal(ValueV::Record(r))),
            }
        } else if l[0] == Sx::Atom(LIST_KEYWORD@) {
            match asts_of(l, 1) {
                Err(e) => Err(e),
                Ok(v) => Ok(ExprV::Literal(ValueV::List(v))),
            }
        } else {
            match ast_of(l[0]) {
                Err(e) => Err(e),
                Ok(f) => match asts_of(l, 1) {
                    Err(e) => Err(e),
                    Ok(v) => Ok(ExprV::FnApp { f: Box::new(f), args: v }),
                },
            }
        },
    }
}

/// The expressions that `l[i..]` write.
pub open spec fn asts_of(l: Seq<Sx>, i: int) -> Result<Seq<ExprV>, TypeError>
    decreases l, l.len() - i,
{
    if i < 0 || i >= l.len() {
        Ok(Seq::empty())
    } else {
        match ast_of(l[i]) {
            Err(e) => Err(e),
            Ok(h) => match asts_of(l, i + 1) {
                Err(e) => Err(e),
                Ok(t) => Ok(seq![h] + t),
            },
        }
    }
}

/// The branches `(guard => body)` that `l[i..]` write.
pub open spec fn branches_of(l: Seq<Sx>, i: int) -> Result<Seq<(ExprV, ExprV)>, TypeError>
    decreases l, l.len() - i,
{
    if i < 0 || i >= l.len() {
        Ok(Seq::empty())
    } else {
        match l[i] {
            Sx::List(b) => if b.len() >= 3 && b[1] == Sx::Atom("=>"@) {
                match ast_of(b[0]) {
                    Err(e) => Err(e),
                    Ok(g) => match ast_of(b[2]) {
                        Err(e) => Err(e),
                        Ok(body) => match branches_of(l, i + 1) {
                            Err(e) => Err(e),
                            Ok(t) => Ok(seq![(g, body)] + t),
                        },
                    },
                }
            } else {
                Err(TypeError::Syntax)
            },
            _ => Err(TypeError::Syntax),
        }
    }
}

/// The record entries `(label : value)` that `l[i..]` write.
pub open spec fn entries_of(l: Seq<Sx>, i: int) -> Result<Seq<(Seq<char>, ExprV)>, TypeError>
    decreases l, l.len() - i,
{
    if i < 0 || i >= l.len() {
        Ok(Seq::empty())
    } else {
        match l[i] {
            Sx::List(en) => if en.len() >= 3 && en[0] is Atom && en[1] == Sx::Atom(":"@) {
                match ast_of(en[2]) {
                    Err(e) => Err(e),
                    Ok(v) => match entries_of(l, i + 1) {
                        Err(e) => Err(e),
                        Ok(t) => Ok(seq![(en[0]->Atom_0, v)] + t),
                    },
                }
            } else {
                Err(TypeError::Syntax)
            },
            _ => Err(TypeError::Syntax),
        }
    }
}

/// Whether an executable result is the one the model gives.
pub open spec fn ast_is(r: Result<Expr, TypeError>, m: Result<ExprV, TypeError>) -> bool {
    match r {
        Ok(e) => m == Ok::<ExprV, TypeError>(e@),
        Err(x) => m == Err::<ExprV, TypeError>(x),
    }
}

/// Digits never write a negative number, and more digits never a smaller one.
pub proof fn lemma_digits_grow(s: Seq<char>, i: int, n: int)
    requires
        0 <= i <= n <= s.len(),
        forall|j: int| 0 <= j < s.len() ==> is_digit(#[trigger] s[j]),
    ensures
        0 <= digits_value(s, i) <= digits_value(s, n),
    decreases n,
{
    if i < n {
        lemma_digits_grow(s, i, n - 1);
    } else if n > 0 {
        lemma_digits_grow(s, n - 1, n - 1);
    }
}

/// Whether a string is a number as programs write them: digits only.
pub fn is_number(s: &str) -> (r: bool)
    ensures
        r == is_int_literal(s@),
{
    int_literal_name(s)
}

/// Reads a number written in digits; `None` where it is too large.
pub fn parse_number(s: &str) -> (r: Option<i64>)
    requires
        is_int_literal(s@),
    ensures
        r == if digits_value(s@, s@.len() as int) <= i64::MAX {
            Some(digits_value(s@, s@.len() as int) as i64)
        } else {
            None::<i64>
        },
{
    let n = s.unicode_len();
    let mut acc: i64 = 0;
    let mut i: usize = 0;
    while i < n
        invariant
            n == s@.len(),
            i <= n,
            is_int_literal(s@),
            acc == digits_value(s@, i as int),
            0 <= acc,
        decreases n - i,
    {
        let c = s.get_char(i) as u32;
        assert(is_digit(s@[i as int]));
        let d = (c - 48) as i64;
        if acc > (i64::MAX - d) / 10 {
            proof {
                lemma_digits_grow(s@, i + 1, n as int);
            }
            return None;
        }
        acc = acc * 10 + d;
        i = i + 1;
    }
    Some(acc)
}

/// A string without the colons it starts with.
pub fn without_colons(s: &str) -> (r: String)
    ensures
        r@ == strip_colons(s@, 0),
{
    let n = s.unicode_len();
    let mut i: usize = 0;
    while i < n && s.get_char(i) == ':'
        invariant
            n == s@.len(),
            i <= n,
            strip_colons(s@, 0) == strip_colons(s@, i as int),
        decreases n - i,
    {
        i = i + 1;
    }
    let r = s.substring_char(i, n).to_owned();
    proof {
        assert(s@.subrange(i as int, n as int) =~= s@.skip(i as int));
    }
    r
}

fn parse_atom(lit: &str) -> (r: Result<Expr, TypeError>)
    ensures
        ast_is(r, atom_ast(lit@)),
{
    let n = lit.unicode_len();
    if n == 0 {
        return Err(TypeError::Syntax);
    }
    if is_number(lit) {
        return match parse_number(lit) {
            Some(v) => Ok(Expr::Literal(Value::Number(v))),
            None => Err(TypeError::Syntax),
        };
    }
    if lit.get_char(0) == '\'' && lit.get_char(n - 1) == '\'' {
        if n >= 2 {
            return Ok(Expr::Literal(Value::String(lit.substring_char(1, n - 1).to_owned())));
        } else {
            return Err(TypeError::Syntax);
        }
    }
    if str_same(lit, "true") {
        return Ok(Expr::Literal(Value::Bool(true)));
    }
    if str_same(lit, "false") {
        return Ok(Expr::Literal(Value::Bool(false)));
    }
    if lit.get_char(0) == ':' {
        return Ok(Expr::Literal(Value::Atom(without_colons(lit))));
    }
    Ok(Expr::Variable(lit.to_owned()))
}

/// Builds a parameter from its declaration: a name, or `(name : type)`.
pub fn parse_parameter(sexp: &TypeExpr) -> (r: Result<Parameter, TypeError>)
    ensures
        match r {
            Ok(p) => param_of(sexp@) == Ok::<(Seq<char>, Option<Sx>), TypeError>(
                (p.name@, typ_v(p.typ)),
            ),
            Err(e) => param_of(sexp@) == Err::<(Seq<char>, Option<Sx>), TypeError>(e),
        },
{
    match sexp {
        TypeExpr::Atom(n) => Ok(Parameter::new(n.clone(), None)),
        TypeExpr::List(p) => {
            proof {
                lemma_list_view(*p);
            }
            if p.len() == 3 && p[1].is_atom(":") {
                match &p[0] {
                    TypeExpr::Atom(n) => Ok(Parameter::new(n.clone(), Some(p[2].duplicate()))),
                    _ => Err(TypeError::Syntax),
                }
            } else {
                Err(TypeError::Syntax)
            }
        },
        TypeExpr::Empty => Err(TypeError::Syntax),
    }
}

fn parse_parameters(l: &Vec<TypeExpr>, i: usize, end: usize) -> (r: Result<
    Vec<Parameter>,
    TypeError,
>)
    requires
        end <= l.len(),
    ensures
        match r {
            Ok(ps) => params_of(views(l@), i as int, end as int) == Ok::<
                Seq<(Seq<char>, Option<Sx>)>,
                TypeError,
            >(params_v(ps@)),
            Err(e) => params_of(views(l@), i as int, end as int) == Err::<
                Seq<(Seq<char>, Option<Sx>)>,
                TypeError,
            >(e),
        },
    decreases end - i,
{
    if i >= end {
        let out: Vec<Parameter> = Vec::new();
        assert(params_v(out@) =~= Seq::empty());
        return Ok(out);
    }
    let p = parse_parameter(&l[i])?;
    let mut rest = parse_parameters(l, i + 1, end)?;
    let ghost before = params_v(rest@);
    let ghost pv = (p.name@, typ_v(p.typ));
    rest.insert(0, p);
    assert(params_v(rest@) =~= seq![pv] + before);
    Ok(rest)
}

/// Builds the expression that a symbolic expression writes.
pub fn into_ast(sexp: &TypeExpr) -> (r: Result<Expr, TypeError>)
    ensures
        ast_is(r, ast_of(sexp@)),
    decreases sexp, 0nat, 0nat,
{
    match sexp {
        TypeExpr::Empty => Err(TypeError::Syntax),
        TypeExpr::Atom(lit) => parse_atom(lit.as_str()),
        TypeExpr::List(l) => {
            proof {
                lemma_list_view(*l);
            }
            if l.len() == 0 {
                return Err(TypeError::Syntax);
            }
            if l[0].is_atom(FN_KEYWORD) {
                if l.len() < 2 {
                    return Err(TypeError::Syntax);
                }
                let ps = parse_parameters(l, 1, l.len() - 1)?;
                let b = into_ast(&l[l.len() - 1])?;
                Ok(Expr::FnDef(FnDef::new(ps, Box::new(b))))
            } else if l[0].is_atom(LET_KEYWORD) {
                if l.len() != 3 && l.len() != 5 {
                    return Err(TypeError::Syntax);
                }
                match &l[1] {
                    TypeExpr::Atom(n) => {
                        if l.len() == 3 {
                            let v = into_ast(&l[2])?;
                            Ok(Expr::Let(Let::new(n.clone(), None, Box::new(v))))
                        } else if l[2].is_atom(":") {
                            let v = into_ast(&l[4])?;
                            Ok(Expr::Let(Let::new(n.clone(), Some(l[3].duplicate()), Box::new(v))))
                        } else {
                            Err(TypeError::Syntax)
                        }
                    },
                    _ => Err(TypeError::Syntax),
                }
            } else if l[0].is_atom(TYPE_KEYWORD) {
                if l.len() >= 4 && l[2].is_atom(":") {
                    match &l[1] {
                        TypeExpr::Atom(n) => Ok(
                            Expr::TypeDef(TypeDef::new(n.clone(), l[3].duplicate())),
                        ),
                        _ => Err(TypeError::Syntax),
                    }
                } else {
                    Err(TypeError::Syntax)
                }
            } else if l[0].is_atom(CASE_KEYWORD) {
                parse_case(l, 1)
            } else if l[0].is_atom(INCLUDE_KEYWORD) {
                if l.len() >= 2 {
                    match &l[1] {
                        TypeExpr::Atom(p) => Ok(Expr::Include(p.clone())),
                        _ => Err(TypeError::Syntax),
                    }
                } else {
                    Err(TypeError::Syntax)
                }
            } else if l[0].is_atom(EXTERNAL_KEYWORD) {
                if l.len() >= 2 {
                    match &l[1] {
                        TypeExpr::Atom(n) => Ok(
                            Expr::Literal(Value::External(External(n.clone()))),
                        ),
                        _ => Err(TypeError::Syntax),
                    }
                } else {
                    Err(TypeError::Syntax)
                }
            } else if l[0].is_atom(RECORD_KEYWORD) {
                let r = parse_record(l, 1)?;
                proof {
                    lemma_record_v(r);
                }
                Ok(Expr::Literal(Value::Record(r)))
            } else if l[0].is_atom(LIST_KEYWORD) {
                let v = parse_list(l, 1)?;
                proof {
                    lemma_list_v(v);
                }
                Ok(Expr::Literal(Value::List(v)))
            } else {
                let f = into_ast(&l[0])?;
                let v = parse_list(l, 1)?;
                let fb = Box::new(f);
                proof {
                    lemma_app_v(fb, v);
                }
                Ok(Expr::FnApp(FnApp(fb, v)))
            }
        },
    }
}

fn parse_list(l: &Vec<TypeExpr>, i: usize) -> (r: Result<Vec<Expr>, TypeError>)
    ensures
        match r {
            Ok(v) => asts_of(views(l@), i as int) == Ok::<Seq<ExprV>, TypeError>(exprs_v(v@)),
            Err(e) => asts_of(views(l@), i as int) == Err::<Seq<ExprV>, TypeError>(e),
        },
    decreases l, 0nat, l.len() - i,
{
    if i >= l.len() {
        let out: Vec<Expr> = Vec::new();
        assert(exprs_v(out@) =~= Seq::empty());
        return Ok(out);
    }
    let h = into_ast(&l[i])?;
    let mut t = parse_list(l, i + 1)?;
    let ghost before = exprs_v(t@);
    let ghost hv = h@;
    t.insert(0, h);
    assert(exprs_v(t@) =~= seq![hv] + before);
    Ok(t)
}

/// Builds a `case` from its branches `l[i..]`, each `(guard => body)`.
pub fn parse_case(l: &Vec<TypeExpr>, i: usize) -> (r: Result<Expr, TypeError>)
    ensures
        match r {
            Ok(e) => branches_of(views(l@), i as int) matches Ok(b) && e@ == (ExprV::Case {
                branches: b,
            }),
            Err(e) => branches_of(views(l@), i as int) == Err::<Seq<(ExprV, ExprV)>, TypeError>(
                e,
            ),
        },
    decreases l, 1nat, 0nat,
{
    let b = parse_branches(l, i)?;
    proof {
        lemma_case_v(b);
    }
    Ok(Expr::Case(Case { branches: b }))
}

fn parse_branches(l: &Vec<TypeExpr>, i: usize) -> (r: Result<Vec<(Expr, Expr)>, TypeError>)
    ensures
        match r {
            Ok(v) => branches_of(views(l@), i as int) == Ok::<Seq<(ExprV, ExprV)>, TypeError>(
                pairs_v(v@),
            ),
            Err(e) => branches_of(views(l@), i as int) == Err::<Seq<(ExprV, ExprV)>, TypeError>(
                e,
            ),
        },
    decreases l, 0nat, l.len() - i,
{
    if i >= l.len() {
        let out: Vec<(Expr, Expr)> = Vec::new();
        assert(pairs_v(out@) =~= Seq::empty());
        return Ok(out);
    }
    match &l[i] {
        TypeExpr::List(b) => {
            proof {
                lemma_list_view(*b);
            }
            if b.len() >= 3 && b[1].is_atom("=>") {
                let g = into_ast(&b[0])?;
                let body = into_ast(&b[2])?;
                let mut t = parse_branches(l, i + 1)?;
                let ghost before = pairs_v(t@);
                let ghost hv = (g@, body@);
                t.insert(0, (g, body));
                assert(pairs_v(t@) =~= seq![hv] + before);
                Ok(t)
            } else {
                Err(TypeError::Syntax)
            }
        },
        _ => Err(TypeError::Syntax),
    }
}

fn parse_record(l: &Vec<TypeExpr>, i: usize) -> (r: Result<Vec<(String, Expr)>, TypeError>)
    ensures
        match r {
            Ok(v) => entries_of(views(l@), i as int) == Ok::<
                Seq<(Seq<char>, ExprV)>,
                TypeError,
            >(entries_v(v@)),
            Err(e) => entries_of(views(l@), i as int) == Err::<
                Seq<(Seq<char>, ExprV)>,
                TypeError,
            >(e),
        },
    decreases l, 0nat, l.len() - i,
{
    if i >= l.len() {
        let out: Vec<(String, Expr)> = Vec::new();
        assert(entries_v(out@) =~= Seq::empty());
        return Ok(out);
    }
    match &l[i] {
        TypeExpr::List(en) => {
            proof {
                lemma_list_view(*en);
            }
            if en.len() >= 3 && en[1].is_atom(":") {
                match &en[0] {
                    TypeExpr::Atom(k) => {
                        let v = into_ast(&en[2])?;
                        let mut t = parse_record(l, i + 1)?;
                        let ghost before = entries_v(t@);
                        let ghost hv = (k@, v@);
                        t.insert(0, (k.clone(), v));
                        assert(entries_v(t@) =~= seq![hv] + before);
                        Ok(t)
                    },
                    _ => Err(TypeError::Syntax),
                }
            } else {
                Err(TypeError::Syntax)
            }
        },
        _ => Err(TypeError::Syntax),
    }
}

} // verus!
