//! The abstract syntax of programs, and its mathematical model.

use crate::error::TypeError;
use crate::sexp::{Sx, TypeExpr};
use vstd::prelude::*;

verus! {

/// Model of a literal value.
pub enum ValueV {
    External(Seq<char>),
    Bool(bool),
    Number(i64),
    Atom(Seq<char>),
    Text(Seq<char>),
    Record(Seq<(Seq<char>, ExprV)>),
    List(Seq<ExprV>),
}

/// Model of an expression.
pub enum ExprV {
    Literal(ValueV),
    Variable(Seq<char>),
    Let { name: Seq<char>, typ: Option<Sx>, value: Box<ExprV> },
    FnApp { f: Box<ExprV>, args: Seq<ExprV> },
    FnDef { params: Seq<(Seq<char>, Option<Sx>)>, body: Box<ExprV> },
    TypeDef { name: Seq<char>, typ: Sx },
    Case { branches: Seq<(ExprV, ExprV)> },
    Include(Seq<char>),
}

/// A parameter of a function, with its declared type if it has one.
#[derive(Debug, PartialEq)]
pub struct Parameter {
    pub name: String,
    pub typ: Option<TypeExpr>,
}

/// An application: a function and its arguments.
#[derive(Debug, PartialEq)]
pub struct FnApp(pub Box<Expr>, pub Vec<Expr>);

/// A function definition.
#[derive(Debug, PartialEq)]
pub struct FnDef {
    pub args: Vec<Parameter>,
    pub body: Box<Expr>,
}

/// A binding of a name to a value, with a declared type if it has one.
#[derive(Debug, PartialEq)]
pub struct Let {
    pub name: String,
    pub typ: Option<TypeExpr>,
    pub value: Box<Expr>,
}

/// A type alias.
#[derive(Debug, PartialEq)]
pub struct TypeDef {
    pub name: String,
    pub typ: TypeExpr,
}

/// The name of an external primitive.
#[derive(Debug, PartialEq)]
pub struct External(pub String);

/// A literal value.
#[derive(Debug, PartialEq)]
pub enum Value {
    External(External),
    Bool(bool),
    Number(i64),
    Atom(String),
    String(String),
    Record(Vec<(String, Expr)>),
    List(Vec<Expr>),
}

/// A multi-way conditional: guards and bodies.
#[derive(Debug, PartialEq)]
pub struct Case {
    pub branches: Vec<(Expr, Expr)>,
}

/// An expression.
#[derive(Debug, PartialEq)]
pub enum Expr {
    Literal(Value),
    Variable(String),
    Let(Let),
    FnApp(FnApp),
    FnDef(FnDef),
    TypeDef(TypeDef),
    Case(Case),
    Include(String),
}

/// A program: expressions evaluated one after the other.
#[derive(Debug)]
pub struct Program(pub Vec<Expr>);

/// The model of an optional type annotation.
pub open spec fn typ_v(t: Option<TypeExpr>) -> Option<Sx> {
    match t {
        Some(t) => Some(t@),
        None => None,
    }
}

/// The model of a parameter list.
pub open spec fn params_v(ps: Seq<Parameter>) -> Seq<(Seq<char>, Option<Sx>)> {
    Seq::new(ps.len(), |i: int| (ps[i].name@, typ_v(ps[i].typ)))
}

/// The model of an expression.
pub open spec fn expr_v(e: Expr) -> ExprV
    decreases e,
{
    match e {
        Expr::Literal(v) => ExprV::Literal(
            match v {
                Value::External(x) => ValueV::External(x.0@),
                Value::Bool(b) => ValueV::Bool(b),
                Value::Number(n) => ValueV::Number(n),
                Value::Atom(a) => ValueV::Atom(a@),
                Value::String(s) => ValueV::Text(s@),
                Value::Record(r) => ValueV::Record(
                    Seq::new(
                        r@.len(),
                        |i: int|
                            if 0 <= i < r@.len() {
                                (r@[i].0@, expr_v(r@[i].1))
                            } else {
                                (Seq::empty(), ExprV::Include(Seq::empty()))
                            },
                    ),
                ),
                Value::List(l) => ValueV::List(
                    Seq::new(
                        l@.len(),
                        |i: int|
                            if 0 <= i < l@.len() {
                                expr_v(l@[i])
                            } else {
                                ExprV::Include(Seq::empty())
                            },
                    ),
                ),
            },
        ),
        Expr::Variable(n) => ExprV::Variable(n@),
        Expr::Let(l) => ExprV::Let {
            name: l.name@,
            typ: typ_v(l.typ),
            value: Box::new(expr_v(*l.value)),
        },
        Expr::FnApp(a) => ExprV::FnApp {
            f: Box::new(expr_v(*a.0)),
            args: Seq::new(
                a.1@.len(),
                |i: int|
                    if 0 <= i < a.1@.len() {
                        expr_v(a.1@[i])
                    } else {
                        ExprV::Include(Seq::empty())
                    },
            ),
        },
        Expr::FnDef(d) => ExprV::FnDef { params: params_v(d.args@), body: Box::new(expr_v(*d.body)) },
        Expr::TypeDef(t) => ExprV::TypeDef { name: t.name@, typ: t.typ@ },
        Expr::Case(c) => ExprV::Case {
            branches: Seq::new(
                c.branches@.len(),
                |i: int|
                    if 0 <= i < c.branches@.len() {
                        (expr_v(c.branches@[i].0), expr_v(c.branches@[i].1))
                    } else {
                        (ExprV::Include(Seq::empty()), ExprV::Include(Seq::empty()))
                    },
            ),
        },
        Expr::Include(p) => ExprV::Include(p@),
    }
}

impl View for Expr {
    type V = ExprV;

    open spec fn view(&self) -> ExprV {
        expr_v(*self)
    }
}

/// The models of a sequence of expressions.
pub open spec fn exprs_v(v: Seq<Expr>) -> Seq<ExprV> {
    Seq::new(v.len(), |i: int| v[i]@)
}

/// The models of a sequence of labelled expressions.
pub open spec fn entries_v(v: Seq<(String, Expr)>) -> Seq<(Seq<char>, ExprV)> {
    Seq::new(v.len(), |i: int| (v[i].0@, v[i].1@))
}

/// The models of a sequence of pairs of expressions.
pub open spec fn pairs_v(v: Seq<(Expr, Expr)>) -> Seq<(ExprV, ExprV)> {
    Seq::new(v.len(), |i: int| (v[i].0@, v[i].1@))
}

/// The model of a list literal is the list of the models of its elements.
pub proof fn lemma_list_v(l: Vec<Expr>)
    ensures
        Expr::Literal(Value::List(l))@ == ExprV::Literal(ValueV::List(exprs_v(l@))),
{
    assert(Expr::Literal(Value::List(l))@->Literal_0->List_0 =~= exprs_v(l@));
}

/// The model of a record literal is the list of its labelled models.
pub proof fn lemma_record_v(r: Vec<(String, Expr)>)
    ensures
        Expr::Literal(Value::Record(r))@ == ExprV::Literal(ValueV::Record(entries_v(r@))),
{
    assert(Expr::Literal(Value::Record(r))@->Literal_0->Record_0 =~= entries_v(r@));
}

/// The model of an application is the models of its parts.
pub proof fn lemma_app_v(f: Box<Expr>, args: Vec<Expr>)
    ensures
        Expr::FnApp(FnApp(f, args))@ == (ExprV::FnApp { f: Box::new((*f)@), args: exprs_v(args@) }),
{
    assert(Expr::FnApp(FnApp(f, args))@->FnApp_args =~= exprs_v(args@));
}

/// The model of a `case` is the list of the models of its branches.
pub proof fn lemma_case_v(b: Vec<(Expr, Expr)>)
    ensures
        Expr::Case(Case { branches: b })@ == (ExprV::Case { branches: pairs_v(b@) }),
{
    assert(Expr::Case(Case { branches: b })@->Case_branches =~= pairs_v(b@));
}

/// A deep copy of an expression.
pub fn dup_expr(e: &Expr) -> (r: Expr)
    ensures
        r@ == e@,
    decreases e, 0nat,
{
    match e {
        Expr::Literal(v) => match v {
            Value::External(x) => Expr::Literal(Value::External(External(x.0.clone()))),
            Value::Bool(b) => Expr::Literal(Value::Bool(*b)),
            Value::Number(n) => Expr::Literal(Value::Number(*n)),
            Value::Atom(a) => Expr::Literal(Value::Atom(a.clone())),
            Value::String(s) => Expr::Literal(Value::String(s.clone())),
            Value::Record(r) => {
                let c = dup_entries(r, 0);
                proof {
                    lemma_record_v(*r);
                    lemma_record_v(c);
                    assert(entries_v(r@).skip(0) =~= entries_v(r@));
                }
                Expr::Literal(Value::Record(c))
            },
            Value::List(l) => {
                let c = dup_exprs(l, 0);
                proof {
                    lemma_list_v(*l);
                    lemma_list_v(c);
                    assert(exprs_v(l@).skip(0) =~= exprs_v(l@));
                }
                Expr::Literal(Value::List(c))
            },
        },
        Expr::Variable(n) => Expr::Variable(n.clone()),
        Expr::Let(l) => Expr::Let(
            Let {
                name: l.name.clone(),
                typ: dup_typ(&l.typ),
                value: Box::new(dup_expr(&l.value)),
            },
        ),
        Expr::FnApp(a) => {
            let f = Box::new(dup_expr(&a.0));
            let c = dup_exprs(&a.1, 0);
            proof {
                lemma_app_v(a.0, a.1);
                lemma_app_v(f, c);
                assert(exprs_v(a.1@).skip(0) =~= exprs_v(a.1@));
            }
            Expr::FnApp(FnApp(f, c))
        },
        Expr::FnDef(d) => Expr::FnDef(
            FnDef { args: dup_params(&d.args), body: Box::new(dup_expr(&d.body)) },
        ),
        Expr::TypeDef(t) => Expr::TypeDef(TypeDef { name: t.name.clone(), typ: t.typ.duplicate() }),
        Expr::Case(c) => {
            let b = dup_pairs(&c.branches, 0);
            proof {
                lemma_case_v(c.branches);
                lemma_case_v(b);
                assert(pairs_v(c.branches@).skip(0) =~= pairs_v(c.branches@));
            }
            Expr::Case(Case { branches: b })
        },
        Expr::Include(p) => Expr::Include(p.clone()),
    }
}

/// A copy of an optional type annotation.
pub fn dup_typ(t: &Option<TypeExpr>) -> (r: Option<TypeExpr>)
    ensures
        typ_v(r) == typ_v(*t),
{
    match t {
        Some(t) => Some(t.duplicate()),
        None => None,
    }
}

/// A copy of a parameter list.
pub fn dup_params(ps: &Vec<Parameter>) -> (r: Vec<Parameter>)
    ensures
        params_v(r@) == params_v(ps@),
{
    let mut out: Vec<Parameter> = Vec::new();
    let mut i: usize = 0;
    while i < ps.len()
        invariant
            i <= ps.len(),
            out@.len() == i,
            forall|j: int|
                0 <= j < i ==> (#[trigger] out@[j]).name@ == ps@[j].name@ && typ_v(out@[j].typ)
                    == typ_v(ps@[j].typ),
        decreases ps.len() - i,
    {
        out.push(Parameter { name: ps[i].name.clone(), typ: dup_typ(&ps[i].typ) });
        i = i + 1;
    }
    proof {
        assert(params_v(out@) =~= params_v(ps@));
    }
    out
}

/// Copies of `v[i..]`.
pub fn dup_exprs(v: &Vec<Expr>, i: usize) -> (r: Vec<Expr>)
    requires
        i <= v.len(),
    ensures
        exprs_v(r@) == exprs_v(v@).skip(i as int),
    decreases v, v.len() - i,
{
    if i >= v.len() {
        let out: Vec<Expr> = Vec::new();
        assert(exprs_v(out@) =~= exprs_v(v@).skip(i as int));
        return out;
    }
    let h = dup_expr(&v[i]);
    let mut t = dup_exprs(v, i + 1);
    let ghost before = exprs_v(t@);
    let ghost hv = h@;
    t.insert(0, h);
    assert(exprs_v(t@) =~= seq![hv] + before);
    assert(seq![hv] + before =~= exprs_v(v@).skip(i as int));
    t
}

/// Copies of the entries `v[i..]`.
pub fn dup_entries(v: &Vec<(String, Expr)>, i: usize) -> (r: Vec<(String, Expr)>)
    requires
        i <= v.len(),
    ensures
        entries_v(r@) == entries_v(v@).skip(i as int),
    decreases v, v.len() - i,
{
    if i >= v.len() {
        let out: Vec<(String, Expr)> = Vec::new();
        assert(entries_v(out@) =~= entries_v(v@).skip(i as int));
        return out;
    }
    let h = dup_expr(&v[i].1);
    let mut t = dup_entries(v, i + 1);
    let ghost before = entries_v(t@);
    let ghost hv = (v@[i as int].0@, h@);
    t.insert(0, (v[i].0.clone(), h));
    assert(entries_v(t@) =~= seq![hv] + before);
    assert(seq![hv] + before =~= entries_v(v@).skip(i as int));
    t
}

/// Copies of the pairs `v[i..]`.
pub fn dup_pairs(v: &Vec<(Expr, Expr)>, i: usize) -> (r: Vec<(Expr, Expr)>)
    requires
        i <= v.len(),
    ensures
        pairs_v(r@) == pairs_v(v@).skip(i as int),
    decreases v, v.len() - i,
{
    if i >= v.len() {
        let out: Vec<(Expr, Expr)> = Vec::new();
        assert(pairs_v(out@) =~= pairs_v(v@).skip(i as int));
        return out;
    }
    let a = dup_expr(&v[i].0);
    let b = dup_expr(&v[i].1);
    let mut t = dup_pairs(v, i + 1);
    let ghost before = pairs_v(t@);
    let ghost hv = (a@, b@);
    t.insert(0, (a, b));
    assert(pairs_v(t@) =~= seq![hv] + before);
    assert(seq![hv] + before =~= pairs_v(v@).skip(i as int));
    t
}

impl Parameter {
    /// A parameter of the given name and declared type.
    pub fn new(name: String, typ: Option<TypeExpr>) -> (r: Parameter)
        ensures
            r.name == name,
            r.typ == typ,
    {
        Parameter { name, typ }
    }
}

impl FnApp {
    /// The application of `f` to `values`.
    pub fn new(f: Expr, values: Vec<Expr>) -> (r: FnApp)
        ensures
            *r.0 == f,
            r.1 == values,
    {
        FnApp(Box::new(f), values)
    }
}

impl FnDef {
    /// The function of the given parameters and body.
    pub fn new(args: Vec<Parameter>, body: Box<Expr>) -> (r: FnDef)
        ensures
            r.args == args,
            r.body == body,
    {
        FnDef { args, body }
    }
}

impl Let {
    /// The binding of `name` to `value`.
    pub fn new(name: String, typ: Option<TypeExpr>, value: Box<Expr>) -> (r: Let)
        ensures
            r.name == name,
            r.typ == typ,
            r.value == value,
    {
        Let { name, typ, value }
    }
}

impl TypeDef {
    /// The alias `name` for the type `typ`.
    pub fn new(name: String, typ: TypeExpr) -> (r: TypeDef)
        ensures
            r.name == name,
            r.typ == typ,
    {
        TypeDef { name, typ }
    }
}

impl Case {
    /// The conditional over the given branches.
    pub fn new(branches: Vec<(Expr, Expr)>) -> (r: Case)
        ensures
            r.branches == branches,
    {
        Case { branches }
    }
}

impl Value {
    /// The boolean that the value is.
    pub fn boolean(&self) -> (r: Result<bool, TypeError>)
        ensures
            r == match *self {
                Value::Bool(b) => Ok::<bool, TypeError>(b),
                _ => Err::<bool, TypeError>(TypeError::BadArgument),
            },
    {
        match self {
            Value::Bool(b) => Ok(*b),
            _ => Err(TypeError::BadArgument),
        }
    }

    /// The number that the value is.
    pub fn number(&self) -> (r: Result<i64, TypeError>)
        ensures
            r == match *self {
                Value::Number(n) => Ok::<i64, TypeError>(n),
                _ => Err::<i64, TypeError>(TypeError::BadArgument),
            },
    {
        match self {
            Value::Number(n) => Ok(*n),
            _ => Err(TypeError::BadArgument),
        }
    }

    /// The string that the value is.
    pub fn string(&self) -> (r: Result<String, TypeError>)
        ensures
            match *self {
                Value::String(s) => r matches Ok(t) && t@ == s@,
                _ => r matches Err(e) && e == TypeError::BadArgument,
            },
    {
        match self {
            Value::String(s) => Ok(s.clone()),
            _ => Err(TypeError::BadArgument),
        }
    }

    /// The name of the atom that the value is.
    pub fn atom(&self) -> (r: Result<String, TypeError>)
        ensures
            match *self {
                Value::Atom(s) => r matches Ok(t) && t@ == s@,
                _ => r matches Err(e) && e == TypeError::BadArgument,
            },
    {
        match self {
            Value::Atom(s) => Ok(s.clone()),
            _ => Err(TypeError::BadArgument),
        }
    }

    /// The fields of the record that the value is.
    pub fn record(&self) -> (r: Result<&Vec<(String, Expr)>, TypeError>)
        ensures
            match *self {
                Value::Record(f) => r matches Ok(g) && *g == f,
                _ => r matches Err(e) && e == TypeError::BadArgument,
            },
    {
        match self {
            Value::Record(f) => Ok(f),
            _ => Err(TypeError::BadArgument),
        }
    }

    /// The elements of the list that the value is.
    pub fn list(&self) -> (r: Result<&Vec<Expr>, TypeError>)
        ensures
            match *self {
                Value::List(l) => r matches Ok(g) && *g == l,
                _ => r matches Err(e) && e == TypeError::BadArgument,
            },
    {
        match self {
            Value::List(l) => Ok(l),
            _ => Err(TypeError::BadArgument),
        }
    }
}

impl Expr {
    /// Whether the expression introduces bindings.
    pub fn has_context(&self) -> (r: bool)
        ensures
            r == (*self is Let || *self is FnDef),
    {
        match self {
            Expr::Let(_) => true,
            Expr::FnDef(_) => true,
            _ => false,
        }
    }

    /// The name of the variable that the expression is.
    pub fn name(&self) -> (r: Result<String, TypeError>)
        ensures
            match *self {
                Expr::Variable(s) => r matches Ok(t) && t@ == s@,
                _ => r matches Err(e) && e == TypeError::BadArgument,
            },
    {
        match self {
            Expr::Variable(s) => Ok(s.clone()),
            _ => Err(TypeError::BadArgument),
        }
    }

    /// The literal that the expression is.
    pub fn literal(&self) -> (r: Result<&Value, TypeError>)
        ensures
            match *self {
                Expr::Literal(v) => r matches Ok(w) && *w == v,
                _ => r matches Err(e) && e == TypeError::BadArgument,
            },
    {
        match self {
            Expr::Literal(v) => Ok(v),
            _ => Err(TypeError::BadArgument),
        }
    }
}

/// The literal that an expression is.
pub fn from_expr(expr: &Expr) -> (r: Result<&Value, TypeError>)
    ensures
        match *expr {
            Expr::Literal(v) => r matches Ok(w) && *w == v,
            _ => r matches Err(e) && e == TypeError::BadArgument,
        },
{
    expr.literal()
}

} // verus!
