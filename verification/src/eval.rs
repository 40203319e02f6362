//! The evaluator: a walk over the syntax under a chain of scopes.

use crate::ast::{
    dup_expr,
    entries_v,
    exprs_v,
    lemma_app_v,
    lemma_case_v,
    lemma_list_v,
    lemma_record_v,
    pairs_v,
    params_v,
    Expr,
    ExprV,
    External,
    FnApp,
    FnDef,
    Parameter,
    Program,
    Value,
    ValueV,
};
use crate::environment::{lookup_v, Environment};
use crate::error::TypeError;
use crate::infer::TcState;
use crate::names::{assoc, str_same};
use crate::sexp::{rendered_text, Sx, TypeExpr};
use crate::type_env::TypeEnv;
use crate::types::{Type, TypeV};
use vstd::prelude::*;

verus! {

/// The function that stands for an external primitive of `n` arguments: its
/// body is the reference to the primitive.
pub open spec fn wrapper_v(x: Seq<char>, n: nat) -> ExprV {
    ExprV::FnDef {
        params: Seq::new(n, |i: int| ("_"@, None::<Sx>)),
        body: Box::new(ExprV::Literal(ValueV::External(x))),
    }
}

/// The number of arguments of the function type that `t` was interned as.
pub open spec fn arity_in(tc: TcState, t: Sx) -> Result<nat, TypeError> {
    match assoc(tc.ids, rendered_text(t)) {
        None => Err(TypeError::NameNotFound),
        Some(id) => if id < tc.arena.len() {
            match tc.arena[id as int] {
                TypeV::Function { args, .. } => Ok(args.len()),
                _ => Err(TypeError::NotFunction),
            }
        } else {
            Err(TypeError::IdNotFound(id))
        },
    }
}

/// The scope in which a function's body runs: the parameters `params[i..]`
/// bound to the arguments `vs[i..]`, as far as both go.
pub open spec fn bound(
    env: Seq<(Seq<char>, ExprV)>,
    params: Seq<(Seq<char>, Option<Sx>)>,
    vs: Seq<ExprV>,
    i: int,
) -> Seq<(Seq<char>, ExprV)>
    decreases params.len() - i,
{
    if i < 0 || i >= params.len() || i >= vs.len() {
        env
    } else {
        bound(env.push((params[i].0, vs[i])), params, vs, i + 1)
    }
}

/// The `i`-th argument as a number.
pub open spec fn num_arg(args: Seq<ExprV>, i: int) -> Result<i64, TypeError> {
    if 0 <= i < args.len() {
        match args[i] {
            ExprV::Literal(ValueV::Number(n)) => Ok(n),
            _ => Err(TypeError::BadArgument),
        }
    } else {
        Err(TypeError::BadArgument)
    }
}

/// The `i`-th argument as a boolean.
pub open spec fn bool_arg(args: Seq<ExprV>, i: int) -> Result<bool, TypeError> {
    if 0 <= i < args.len() {
        match args[i] {
            ExprV::Literal(ValueV::Bool(b)) => Ok(b),
            _ => Err(TypeError::BadArgument),
        }
    } else {
        Err(TypeError::BadArgument)
    }
}

/// A number as a value, if it is a 64-bit integer.
pub open spec fn number_v(n: int) -> Result<ExprV, TypeError> {
    if i64::MIN <= n <= i64::MAX {
        Ok(ExprV::Literal(ValueV::Number(n as i64)))
    } else {
        Err(TypeError::Overflow)
    }
}

/// A boolean as a value.
pub open spec fn bool_v(b: bool) -> ExprV {
    ExprV::Literal(ValueV::Bool(b))
}

/// The remainder of `a` by `b`, which takes the sign of `a`.
pub open spec fn rem_of(a: int, b: int) -> int
    recommends
        b != 0,
{
    let m = if b < 0 {
        -b
    } else {
        b
    };
    if a >= 0 {
        a % m
    } else {
        -((-a) % m)
    }
}

/// The numbers from `start` up to, not including, `end`.
pub open spec fn range_v(start: i64, end: i64) -> Seq<ExprV> {
    Seq::new(
        if end > start {
            (end - start) as nat
        } else {
            0
        },
        |i: int| ExprV::Literal(ValueV::Number((start + i) as i64)),
    )
}

/// What an external primitive returns for the evaluated arguments `args`.
pub open spec fn external(
    tc: TcState,
    name: Seq<char>,
    args: Seq<ExprV>,
    env: Seq<(Seq<char>, ExprV)>,
    fuel: nat,
) -> Result<ExprV, TypeError>
    decreases fuel, 3nat, 0nat,
{
    if name == "dbg"@ || name == "id"@ {
        if args.len() >= 1 {
            Ok(args[0])
        } else {
            Err(TypeError::BadArgument)
        }
    } else if name == "+"@ || name == "-"@ || name == "%"@ || name == "=="@ || name == "!="@ {
        match (num_arg(args, 0), num_arg(args, 1)) {
            (Ok(a), Ok(b)) => if name == "+"@ {
                number_v(a + b)
            } else if name == "-"@ {
                number_v(a - b)
            } else if name == "%"@ {
                if b == 0 {
                    Err(TypeError::BadArgument)
                } else {
                    number_v(rem_of(a as int, b as int))
                }
            } else if name == "=="@ {
                Ok(bool_v(a == b))
            } else {
                Ok(bool_v(a != b))
            },
            _ => Err(TypeError::BadArgument),
        }
    } else if name == "not"@ {
        match bool_arg(args, 0) {
            Ok(a) => Ok(bool_v(!a)),
            Err(e) => Err(e),
        }
    } else if name == "&"@ || name == "|"@ {
        match (bool_arg(args, 0), bool_arg(args, 1)) {
            (Ok(a), Ok(b)) => if name == "&"@ {
                Ok(bool_v(a && b))
            } else {
                Ok(bool_v(a || b))
            },
            _ => Err(TypeError::BadArgument),
        }
    } else if name == "[]"@ {
        if args.len() >= 2 {
            match (args[0], args[1]) {
                (
                    ExprV::Literal(ValueV::Record(fs)),
                    ExprV::Literal(ValueV::Atom(k)),
                ) => match lookup_v(fs, k) {
                    Some(v) => Ok(v),
                    None => Err(TypeError::BadArgument),
                },
                _ => Err(TypeError::BadArgument),
            }
        } else {
            Err(TypeError::BadArgument)
        }
    } else if name == "map"@ || name == "filter"@ {
        if args.len() >= 2 {
            match args[1] {
                ExprV::Literal(ValueV::List(es)) => match each(
                    tc,
                    args[0],
                    es,
                    env,
                    name == "filter"@,
                    0,
                    fuel,
                ) {
                    Ok(vs) => Ok(ExprV::Literal(ValueV::List(vs))),
                    Err(e) => Err(e),
                },
                _ => Err(TypeError::BadArgument),
            }
        } else {
            Err(TypeError::BadArgument)
        }
    } else if name == "to_string"@ {
        if args.len() >= 1 {
            Ok(ExprV::Literal(ValueV::Text(crate::show::shown(args[0]))))
        } else {
            Err(TypeError::BadArgument)
        }
    } else if name == "range"@ {
        match (num_arg(args, 0), num_arg(args, 1)) {
            (Ok(a), Ok(b)) => Ok(ExprV::Literal(ValueV::List(range_v(a, b)))),
            _ => Err(TypeError::BadArgument),
        }
    } else {
        Err(TypeError::UnknownExternal)
    }
}

/// The function `f` applied to each of `es[i..]`: the results, or, when
/// filtering, the elements on which the result is true.
pub open spec fn each(
    tc: TcState,
    f: ExprV,
    es: Seq<ExprV>,
    env: Seq<(Seq<char>, ExprV)>,
    keep: bool,
    i: int,
    fuel: nat,
) -> Result<Seq<ExprV>, TypeError>
    decreases fuel, 2nat, es.len() - i,
{
    if i < 0 || i >= es.len() {
        Ok(Seq::empty())
    } else {
        match run(tc, ExprV::FnApp { f: Box::new(f), args: seq![es[i]] }, env, fuel) {
            Err(e) => Err(e),
            Ok((v, _)) => if keep && !(v is Literal && v->Literal_0 is Bool) {
                Err(TypeError::BadArgument)
            } else {
                match each(tc, f, es, env, keep, i + 1, fuel) {
                    Err(e) => Err(e),
                    Ok(rest) => if !keep {
                        Ok(seq![v] + rest)
                    } else if v == bool_v(true) {
                        Ok(seq![es[i]] + rest)
                    } else {
                        Ok(rest)
                    },
                }
            },
        }
    }
}

/// The value of an expression under the bindings `env`, and the bindings
/// after it, in at most `fuel` nested steps.
pub open spec fn run(tc: TcState, e: ExprV, env: Seq<(Seq<char>, ExprV)>, fuel: nat) -> Result<
    (ExprV, Seq<(Seq<char>, ExprV)>),
    TypeError,
>
    decreases fuel, 0nat, 0nat,
{
    if fuel == 0 {
        Err(TypeError::OutOfFuel)
    } else {
        let less = (fuel - 1) as nat;
        match e {
            ExprV::Literal(ValueV::Record(fs)) => match run_entries(tc, fs, env, 0, less) {
                Err(x) => Err(x),
                Ok(vs) => Ok((ExprV::Literal(ValueV::Record(vs)), env)),
            },
            ExprV::Literal(ValueV::List(es)) => match run_list(tc, es, env, 0, less) {
                Err(x) => Err(x),
                Ok(vs) => Ok((ExprV::Literal(ValueV::List(vs)), env)),
            },
            ExprV::Literal(_) => Ok((e, env)),
            ExprV::Variable(n) => match lookup_v(env, n) {
                Some(v) => Ok((v, env)),
                None => Err(TypeError::UnboundVariable),
            },
            ExprV::Let { name, typ, value } => match run(tc, *value, env, less) {
                Err(x) => Err(x),
                Ok((v, env1)) => match v {
                    ExprV::Literal(ValueV::External(x)) => match typ {
                        None => Err(TypeError::Untypable),
                        Some(t) => match arity_in(tc, t) {
                            Err(e) => Err(e),
                            Ok(n) => Ok((v, env1.push((name, wrapper_v(x, n))))),
                        },
                    },
                    _ => Ok((v, env1.push((name, v)))),
                },
            },
            ExprV::FnDef { .. } => Ok((e, env)),
            ExprV::TypeDef { .. } => Ok((e, env)),
            ExprV::Include(_) => Ok((ExprV::Literal(ValueV::Text(Seq::empty())), env)),
            ExprV::Case { branches } => run_case(tc, branches, env, 0, less),
            ExprV::FnApp { f, args } => match run(tc, *f, env, less) {
                Err(x) => Err(x),
                Ok((fv, env1)) => match fv {
                    ExprV::FnDef { params, body } => match run_list(tc, args, env1, 0, less) {
                        Err(x) => Err(x),
                        Ok(vs) => {
                            let child = bound(env1, params, vs, 0);
                            match *body {
                                ExprV::Literal(ValueV::External(x)) => match external(
                                    tc,
                                    x,
                                    vs,
                                    child,
                                    less,
                                ) {
                                    Err(e) => Err(e),
                                    Ok(r) => Ok((r, child)),
                                },
                                _ => run(tc, *body, child, less),
                            }
                        },
                    },
                    ExprV::Literal(ValueV::External(x)) => match run_list(tc, args, env1, 0, less) {
                        Err(e) => Err(e),
                        Ok(vs) => match external(tc, x, vs, env1, less) {
                            Err(e) => Err(e),
                            Ok(r) => Ok((r, env1)),
                        },
                    },
                    _ => Err(TypeError::NotFunction),
                },
            },
        }
    }
}

/// The values of `es[i..]`, left to right, each under `env`.
pub open spec fn run_list(
    tc: TcState,
    es: Seq<ExprV>,
    env: Seq<(Seq<char>, ExprV)>,
    i: int,
    fuel: nat,
) -> Result<Seq<ExprV>, TypeError>
    decreases fuel, 1nat, es.len() - i,
{
    if i < 0 || i >= es.len() {
        Ok(Seq::empty())
    } else {
        match run(tc, es[i], env, fuel) {
            Err(x) => Err(x),
            Ok((v, _)) => match run_list(tc, es, env, i + 1, fuel) {
                Err(x) => Err(x),
                Ok(rest) => Ok(seq![v] + rest),
            },
        }
    }
}

/// The values of the record entries `fs[i..]`, each under `env`.
pub open spec fn run_entries(
    tc: TcState,
    fs: Seq<(Seq<char>, ExprV)>,
    env: Seq<(Seq<char>, ExprV)>,
    i: int,
    fuel: nat,
) -> Result<Seq<(Seq<char>, ExprV)>, TypeError>
    decreases fuel, 1nat, fs.len() - i,
{
    if i < 0 || i >= fs.len() {
        Ok(Seq::empty())
    } else {
        match run(tc, fs[i].1, env, fuel) {
            Err(x) => Err(x),
            Ok((v, _)) => match run_entries(tc, fs, env, i + 1, fuel) {
                Err(x) => Err(x),
                Ok(rest) => Ok(seq![(fs[i].0, v)] + rest),
            },
        }
    }
}

/// The body of the first of the branches `bs[i..]` whose guard is true.
pub open spec fn run_case(
    tc: TcState,
    bs: Seq<(ExprV, ExprV)>,
    env: Seq<(Seq<char>, ExprV)>,
    i: int,
    fuel: nat,
) -> Result<(ExprV, Seq<(Seq<char>, ExprV)>), TypeError>
    decreases fuel, 1nat, bs.len() - i,
{
    if i < 0 || i >= bs.len() {
        Err(TypeError::NoMatchingCase)
    } else {
        match run(tc, bs[i].0, env, fuel) {
            Err(x) => Err(x),
            Ok((g, _)) => if g == bool_v(true) {
                run(tc, bs[i].1, env, fuel)
            } else {
                run_case(tc, bs, env, i + 1, fuel)
            },
        }
    }
}

/// The value of a program: that of its last expression, each run under the
/// bindings the one before left; `last` where there is none.
pub open spec fn run_program(
    tc: TcState,
    es: Seq<ExprV>,
    env: Seq<(Seq<char>, ExprV)>,
    i: int,
    last: ExprV,
    fuel: nat,
) -> Result<(ExprV, Seq<(Seq<char>, ExprV)>), TypeError>
    decreases es.len() - i,
{
    if i < 0 || i >= es.len() {
        Ok((last, env))
    } else {
        match run(tc, es[i], env, fuel) {
            Err(x) => Err(x),
            Ok((v, env1)) => run_program(tc, es, env1, i + 1, v, fuel),
        }
    }
}

/// Evaluation applies functions and primitives only: where an application
/// has a value, what stood in function position evaluated to a function
/// definition or to a reference to a primitive.
pub proof fn lemma_applies_functions_only(
    tc: TcState,
    f: ExprV,
    args: Seq<ExprV>,
    env: Seq<(Seq<char>, ExprV)>,
    fuel: nat,
)
    requires
        run(tc, ExprV::FnApp { f: Box::new(f), args }, env, fuel) is Ok,
    ensures
        fuel > 0,
        run(tc, f, env, (fuel - 1) as nat) matches Ok((fv, _)) && (fv is FnDef || (fv is Literal
            && fv->Literal_0 is External)),
{
}

/// Whether an executable outcome is the one the model gives.
pub open spec fn outcome_is(
    r: Result<(Expr, Environment), TypeError>,
    m: Result<(ExprV, Seq<(Seq<char>, ExprV)>), TypeError>,
) -> bool {
    match r {
        Ok((v, env)) => m == Ok::<(ExprV, Seq<(Seq<char>, ExprV)>), TypeError>((v@, env@)),
        Err(x) => m == Err::<(ExprV, Seq<(Seq<char>, ExprV)>), TypeError>(x),
    }
}

/// Whether an executable list of values is the one the model gives.
pub open spec fn values_are(r: Result<Vec<Expr>, TypeError>, m: Result<Seq<ExprV>, TypeError>) -> bool {
    match r {
        Ok(v) => m == Ok::<Seq<ExprV>, TypeError>(exprs_v(v@)),
        Err(x) => m == Err::<Seq<ExprV>, TypeError>(x),
    }
}

/// Whether an executable value is the one the model gives.
pub open spec fn value_is(r: Result<Expr, TypeError>, m: Result<ExprV, TypeError>) -> bool {
    match r {
        Ok(v) => m == Ok::<ExprV, TypeError>(v@),
        Err(x) => m == Err::<ExprV, TypeError>(x),
    }
}

/// An expression is a reference to a primitive just when its model is one.
pub proof fn lemma_external_v(e: Expr)
    ensures
        match e {
            Expr::Literal(Value::External(x)) => e@ == ExprV::Literal(ValueV::External(x.0@)),
            _ => !(e@ is Literal && e@->Literal_0 is External),
        },
{
}

/// The function that stands for an external primitive of `n` arguments.
pub fn wrapper(x: &str, n: usize) -> (r: Expr)
    ensures
        r@ == wrapper_v(x@, n as nat),
{
    let mut ps: Vec<Parameter> = Vec::new();
    let mut i: usize = 0;
    while i < n
        invariant
            i <= n,
            ps@.len() == i,
            forall|j: int| 0 <= j < i ==> (#[trigger] ps@[j]).name@ == "_"@ && ps@[j].typ is None,
        decreases n - i,
    {
        ps.push(Parameter { name: "_".to_owned(), typ: None });
        i = i + 1;
    }
    proof {
        assert forall|j: int| 0 <= j < n implies #[trigger] params_v(ps@)[j] == ("_"@, None::<Sx>) by {
            assert(ps@[j].typ is None);
        }
        assert(params_v(ps@) =~= Seq::new(n as nat, |i: int| ("_"@, None::<Sx>)));
    }
    let body = Expr::Literal(Value::External(External(x.to_owned())));
    assert(body@ == ExprV::Literal(ValueV::External(x@)));
    let r = Expr::FnDef(FnDef { args: ps, body: Box::new(body) });
    assert(r@ == (ExprV::FnDef { params: params_v(ps@), body: Box::new(body@) }));
    r
}

/// The number of arguments of the function type that `t` was interned as.
pub fn arity(t_env: &TypeEnv, t: &TypeExpr) -> (r: Result<usize, TypeError>)
    ensures
        match r {
            Ok(n) => arity_in(t_env.tc(), t@) == Ok::<nat, TypeError>(n as nat),
            Err(e) => arity_in(t_env.tc(), t@) == Err::<nat, TypeError>(e),
        },
{
    let id = t_env.get(t)?;
    if id < t_env.alloc.len() {
        match t_env.alloc.node(id) {
            Type::Function { args, .. } => Ok(args.len()),
            _ => Err(TypeError::NotFunction),
        }
    } else {
        Err(TypeError::IdNotFound(id))
    }
}

/// Binds the parameters `params[i..]` to the arguments `vs[i..]`.
pub fn bind_parameters(env: &mut Environment, params: &Vec<Parameter>, vs: &Vec<Expr>, i: usize)
    ensures
        final(env)@ == bound(old(env)@, params_v(params@), exprs_v(vs@), i as int),
        final(env).parent == old(env).parent,
    decreases params.len() - i,
{
    if i >= params.len() || i >= vs.len() {
        return ;
    }
    env.insert(params[i].name.as_str(), dup_expr(&vs[i]));
    bind_parameters(env, params, vs, i + 1);
}

/// Evaluates an expression under an environment, in at most `fuel` nested
/// steps.
pub fn eval_expr(e: &Expr, t_env: &TypeEnv, env: Environment, fuel: usize) -> (r: Result<
    (Expr, Environment),
    TypeError,
>)
    ensures
        outcome_is(r, run(t_env.tc(), e@, env@, fuel as nat)),
    decreases fuel, 0nat, 0nat,
{
    if fuel == 0 {
        return Err(TypeError::OutOfFuel);
    }
    let less = fuel - 1;
    match e {
        Expr::Literal(Value::Record(fs)) => {
            proof {
                lemma_record_v(*fs);
            }
            let vs = eval_entries(fs, t_env, &env, 0, less)?;
            proof {
                lemma_record_v(vs);
            }
            Ok((Expr::Literal(Value::Record(vs)), env))
        },
        Expr::Literal(Value::List(es)) => {
            proof {
                lemma_list_v(*es);
            }
            let vs = eval_list(es, t_env, &env, 0, less)?;
            proof {
                lemma_list_v(vs);
            }
            Ok((Expr::Literal(Value::List(vs)), env))
        },
        Expr::Literal(_) => Ok((dup_expr(e), env)),
        Expr::Variable(n) => {
            let v = dup_expr(env.get(n.as_str())?);
            Ok((v, env))
        },
        Expr::Let(l) => {
            let (v, env1) = eval_expr(&l.value, t_env, env, less)?;
            let mut env1 = env1;
            match &v {
                Expr::Literal(Value::External(x)) => match &l.typ {
                    None => Err(TypeError::Untypable),
                    Some(t) => {
                        let n = arity(t_env, t)?;
                        env1.insert(l.name.as_str(), wrapper(x.0.as_str(), n));
                        Ok((v, env1))
                    },
                },
                _ => {
                    env1.insert(l.name.as_str(), dup_expr(&v));
                    Ok((v, env1))
                },
            }
        },
        Expr::FnDef(_) => Ok((dup_expr(e), env)),
        Expr::TypeDef(_) => Ok((dup_expr(e), env)),
        Expr::Include(_) => Ok((Expr::Literal(Value::String(String::new())), env)),
        Expr::Case(c) => {
            proof {
                lemma_case_v(c.branches);
            }
            eval_case(&c.branches, t_env, env, 0, less)
        },
        Expr::FnApp(a) => {
            proof {
                lemma_app_v(a.0, a.1);
            }
            let (fv, env1) = eval_expr(&a.0, t_env, env, less)?;
            match fv {
                Expr::FnDef(d) => {
                    let vs = eval_list(&a.1, t_env, &env1, 0, less)?;
                    let mut child = Environment::new(Some(Box::new(env1)));
                    bind_parameters(&mut child, &d.args, &vs, 0);
                    proof {
                        lemma_external_v(*d.body);
                    }
                    match &*d.body {
                        Expr::Literal(Value::External(x)) => {
                            let r = eval_externals(t_env, &child, x.0.as_str(), &vs, less)?;
                            Ok((r, child))
                        },
                        _ => eval_expr(&d.body, t_env, child, less),
                    }
                },
                Expr::Literal(Value::External(x)) => {
                    let vs = eval_list(&a.1, t_env, &env1, 0, less)?;
                    let r = eval_externals(t_env, &env1, x.0.as_str(), &vs, less)?;
                    Ok((r, env1))
                },
                _ => Err(TypeError::NotFunction),
            }
        },
    }
}

fn eval_list(es: &Vec<Expr>, t_env: &TypeEnv, env: &Environment, i: usize, fuel: usize) -> (r:
    Result<Vec<Expr>, TypeError>)
    ensures
        values_are(r, run_list(t_env.tc(), exprs_v(es@), env@, i as int, fuel as nat)),
    decreases fuel, 1nat, es.len() - i,
{
    if i >= es.len() {
        let out: Vec<Expr> = Vec::new();
        assert(exprs_v(out@) =~= Seq::empty());
        return Ok(out);
    }
    let (v, _) = eval_expr(&es[i], t_env, env.duplicate(), fuel)?;
    let mut rest = eval_list(es, t_env, env, i + 1, fuel)?;
    let ghost before = exprs_v(rest@);
    let ghost hv = v@;
    rest.insert(0, v);
    assert(exprs_v(rest@) =~= seq![hv] + before);
    Ok(rest)
}

fn eval_entries(
    fs: &Vec<(String, Expr)>,
    t_env: &TypeEnv,
    env: &Environment,
    i: usize,
    fuel: usize,
) -> (r: Result<Vec<(String, Expr)>, TypeError>)
    ensures
        match r {
            Ok(v) => run_entries(t_env.tc(), entries_v(fs@), env@, i as int, fuel as nat) == Ok::<
                Seq<(Seq<char>, ExprV)>,
                TypeError,
            >(entries_v(v@)),
            Err(x) => run_entries(t_env.tc(), entries_v(fs@), env@, i as int, fuel as nat) == Err::<
                Seq<(Seq<char>, ExprV)>,
                TypeError,
            >(x),
        },
    decreases fuel, 1nat, fs.len() - i,
{
    if i >= fs.len() {
        let out: Vec<(String, Expr)> = Vec::new();
        assert(entries_v(out@) =~= Seq::empty());
        return Ok(out);
    }
    let (v, _) = eval_expr(&fs[i].1, t_env, env.duplicate(), fuel)?;
    let mut rest = eval_entries(fs, t_env, env, i + 1, fuel)?;
    let ghost before = entries_v(rest@);
    let ghost hv = (fs@[i as int].0@, v@);
    rest.insert(0, (fs[i].0.clone(), v));
    assert(entries_v(rest@) =~= seq![hv] + before);
    Ok(rest)
}

fn eval_case(bs: &Vec<(Expr, Expr)>, t_env: &TypeEnv, env: Environment, i: usize, fuel: usize) -> (r:
    Result<(Expr, Environment), TypeError>)
    ensures
        outcome_is(r, run_case(t_env.tc(), pairs_v(bs@), env@, i as int, fuel as nat)),
    decreases fuel, 1nat, bs.len() - i,
{
    if i >= bs.len() {
        return Err(TypeError::NoMatchingCase);
    }
    let (g, _) = eval_expr(&bs[i].0, t_env, env.duplicate(), fuel)?;
    let yes = match g {
        Expr::Literal(Value::Bool(true)) => true,
        _ => false,
    };
    if yes {
        eval_expr(&bs[i].1, t_env, env, fuel)
    } else {
        eval_case(bs, t_env, env, i + 1, fuel)
    }
}

/// The `i`-th argument as a number.
pub fn number_at(args: &Vec<Expr>, i: usize) -> (r: Result<i64, TypeError>)
    ensures
        r == num_arg(exprs_v(args@), i as int),
{
    if i < args.len() {
        match &args[i] {
            Expr::Literal(Value::Number(n)) => Ok(*n),
            _ => Err(TypeError::BadArgument),
        }
    } else {
        Err(TypeError::BadArgument)
    }
}

/// The `i`-th argument as a boolean.
pub fn boolean_at(args: &Vec<Expr>, i: usize) -> (r: Result<bool, TypeError>)
    ensures
        r == bool_arg(exprs_v(args@), i as int),
{
    if i < args.len() {
        match &args[i] {
            Expr::Literal(Value::Bool(b)) => Ok(*b),
            _ => Err(TypeError::BadArgument),
        }
    } else {
        Err(TypeError::BadArgument)
    }
}

/// The remainder of `a` by `b`, which takes the sign of `a`.
pub fn remainder(a: i64, b: i64) -> (r: i64)
    requires
        b != 0,
    ensures
        r == rem_of(a as int, b as int),
{
    let m: u64 = if b < 0 {
        (-(b as i128)) as u64
    } else {
        b as u64
    };
    if a >= 0 {
        ((a as u64) % m) as i64
    } else {
        let n: u64 = (-(a as i128)) as u64;
        -((n % m) as i64)
    }
}

/// The numbers from `start` up to, not including, `end`.
pub fn range(start: i64, end: i64) -> (r: Vec<Expr>)
    ensures
        exprs_v(r@) == range_v(start, end),
{
    let mut out: Vec<Expr> = Vec::new();
    let mut i: i64 = start;
    while i < end
        invariant
            start <= i,
            i <= end || i == start,
            out@.len() == i - start,
            forall|j: int|
                0 <= j < out@.len() ==> (#[trigger] out@[j])@ == ExprV::Literal(
                    ValueV::Number((start + j) as i64),
                ),
        decreases end - i,
    {
        out.push(Expr::Literal(Value::Number(i)));
        i = i + 1;
    }
    proof {
        assert(i >= end);
        assert(out@.len() == i - start);
        assert(exprs_v(out@).len() == out@.len());
        if end > start {
            assert(i == end);
            assert(range_v(start, end).len() == (end - start) as nat);
        } else {
            assert(i == start);
            assert(range_v(start, end).len() == 0);
        }
        assert(exprs_v(out@).len() == range_v(start, end).len());
        assert forall|j: int| 0 <= j < out@.len() implies exprs_v(out@)[j] == range_v(
            start,
            end,
        )[j] by {
            assert(out@[j]@ == ExprV::Literal(ValueV::Number((start + j) as i64)));
        }
        assert(exprs_v(out@) =~= range_v(start, end));
    }
    out
}

/// The value that the last binding of `k` among the fields gives.
pub fn field_value(fs: &Vec<(String, Expr)>, k: &str) -> (r: Option<Expr>)
    ensures
        match r {
            Some(v) => lookup_v(entries_v(fs@), k@) == Some(v@),
            None => lookup_v(entries_v(fs@), k@) is None,
        },
{
    let mut i: usize = fs.len();
    proof {
        assert(entries_v(fs@).take(i as int) =~= entries_v(fs@));
    }
    while i > 0
        invariant
            i <= fs.len(),
            lookup_v(entries_v(fs@), k@) == lookup_v(entries_v(fs@).take(i as int), k@),
        decreases i,
    {
        proof {
            assert(entries_v(fs@).take(i as int).drop_last() =~= entries_v(fs@).take(i - 1));
        }
        if str_same(fs[i - 1].0.as_str(), k) {
            return Some(dup_expr(&fs[i - 1].1));
        }
        i = i - 1;
    }
    None
}

/// Applies the external primitive `name` to the evaluated arguments.
pub fn eval_externals(
    t_env: &TypeEnv,
    env: &Environment,
    name: &str,
    args: &Vec<Expr>,
    fuel: usize,
) -> (r: Result<Expr, TypeError>)
    ensures
        value_is(r, external(t_env.tc(), name@, exprs_v(args@), env@, fuel as nat)),
    decreases fuel, 3nat, 0nat,
{
    if str_same(name, "dbg") || str_same(name, "id") {
        if args.len() >= 1 {
            Ok(dup_expr(&args[0]))
        } else {
            Err(TypeError::BadArgument)
        }
    } else if str_same(name, "+") || str_same(name, "-") || str_same(name, "%") || str_same(
        name,
        "==",
    ) || str_same(name, "!=") {
        let a = match number_at(args, 0) {
            Ok(a) => a,
            Err(_) => {
                return Err(TypeError::BadArgument);
            },
        };
        let b = match number_at(args, 1) {
            Ok(b) => b,
            Err(_) => {
                return Err(TypeError::BadArgument);
            },
        };
        if str_same(name, "+") {
            match a.checked_add(b) {
                Some(n) => Ok(Expr::Literal(Value::Number(n))),
                None => Err(TypeError::Overflow),
            }
        } else if str_same(name, "-") {
            match a.checked_sub(b) {
                Some(n) => Ok(Expr::Literal(Value::Number(n))),
                None => Err(TypeError::Overflow),
            }
        } else if str_same(name, "%") {
            if b == 0 {
                Err(TypeError::BadArgument)
            } else {
                Ok(Expr::Literal(Value::Number(remainder(a, b))))
            }
        } else if str_same(name, "==") {
            Ok(Expr::Literal(Value::Bool(a == b)))
        } else {
            Ok(Expr::Literal(Value::Bool(a != b)))
        }
    } else if str_same(name, "not") {
        let a = boolean_at(args, 0)?;
        Ok(Expr::Literal(Value::Bool(!a)))
    } else if str_same(name, "&") || str_same(name, "|") {
        let a = match boolean_at(args, 0) {
            Ok(a) => a,
            Err(_) => {
                return Err(TypeError::BadArgument);
            },
        };
        let b = match boolean_at(args, 1) {
            Ok(b) => b,
            Err(_) => {
                return Err(TypeError::BadArgument);
            },
        };
        if str_same(name, "&") {
            Ok(Expr::Literal(Value::Bool(a && b)))
        } else {
            Ok(Expr::Literal(Value::Bool(a || b)))
        }
    } else if str_same(name, "[]") {
        if args.len() >= 2 {
            match (&args[0], &args[1]) {
                (Expr::Literal(Value::Record(fs)), Expr::Literal(Value::Atom(k))) => {
                    proof {
                        lemma_record_v(*fs);
                    }
                    match field_value(fs, k.as_str()) {
                        Some(v) => Ok(v),
                        None => Err(TypeError::BadArgument),
                    }
                },
                _ => Err(TypeError::BadArgument),
            }
        } else {
            Err(TypeError::BadArgument)
        }
    } else if str_same(name, "map") || str_same(name, "filter") {
        if args.len() >= 2 {
            match &args[1] {
                Expr::Literal(Value::List(es)) => {
                    proof {
                        lemma_list_v(*es);
                    }
                    let vs = apply_each(
                        &args[0],
                        es,
                        t_env,
                        env,
                        str_same(name, "filter"),
                        0,
                        fuel,
                    )?;
                    proof {
                        lemma_list_v(vs);
                    }
                    Ok(Expr::Literal(Value::List(vs)))
                },
                _ => Err(TypeError::BadArgument),
            }
        } else {
            Err(TypeError::BadArgument)
        }
    } else if str_same(name, "to_string") {
        if args.len() >= 1 {
            Ok(Expr::Literal(Value::String(crate::show::show(&args[0]))))
        } else {
            Err(TypeError::BadArgument)
        }
    } else if str_same(name, "range") {
        let a = match number_at(args, 0) {
            Ok(a) => a,
            Err(_) => {
                return Err(TypeError::BadArgument);
            },
        };
        let b = match number_at(args, 1) {
            Ok(b) => b,
            Err(_) => {
                return Err(TypeError::BadArgument);
            },
        };
        let vs = range(a, b);
        proof {
            lemma_list_v(vs);
        }
        Ok(Expr::Literal(Value::List(vs)))
    } else {
        Err(TypeError::UnknownExternal)
    }
}

fn apply_each(
    f: &Expr,
    es: &Vec<Expr>,
    t_env: &TypeEnv,
    env: &Environment,
    keep: bool,
    i: usize,
    fuel: usize,
) -> (r: Result<Vec<Expr>, TypeError>)
    ensures
        values_are(r, each(t_env.tc(), f@, exprs_v(es@), env@, keep, i as int, fuel as nat)),
    decreases fuel, 2nat, es.len() - i,
{
    if i >= es.len() {
        let out: Vec<Expr> = Vec::new();
        assert(exprs_v(out@) =~= Seq::empty());
        return Ok(out);
    }
    let fb = Box::new(dup_expr(f));
    let mut one: Vec<Expr> = Vec::new();
    one.push(dup_expr(&es[i]));
    proof {
        lemma_app_v(fb, one);
        assert(exprs_v(one@) =~= seq![es@[i as int]@]);
    }
    let app = Expr::FnApp(FnApp(fb, one));
    let (v, _) = eval_expr(&app, t_env, env.duplicate(), fuel)?;
    let verdict = match &v {
        Expr::Literal(Value::Bool(b)) => Some(*b),
        _ => None,
    };
    if keep && verdict.is_none() {
        return Err(TypeError::BadArgument);
    }
    let mut rest = apply_each(f, es, t_env, env, keep, i + 1, fuel)?;
    let ghost before = exprs_v(rest@);
    if !keep {
        let ghost hv = v@;
        rest.insert(0, v);
        assert(exprs_v(rest@) =~= seq![hv] + before);
    } else if verdict == Some(true) {
        rest.insert(0, dup_expr(&es[i]));
        assert(exprs_v(rest@) =~= seq![es@[i as int]@] + before);
    }
    Ok(rest)
}

/// Things that can be evaluated.
pub trait Eval {
    /// The value under the environment, and the environment after, in at
    /// most `fuel` nested steps.
    fn eval(&self, t_env: &TypeEnv, env: Environment, fuel: usize) -> (r: Result<
        (Expr, Environment),
        TypeError,
    >);
}

impl Eval for Expr {
    fn eval(&self, t_env: &TypeEnv, env: Environment, fuel: usize) -> (r: Result<
        (Expr, Environment),
        TypeError,
    >)
        ensures
            outcome_is(r, run(t_env.tc(), self@, env@, fuel as nat)),
    {
        eval_expr(self, t_env, env, fuel)
    }
}

impl Eval for Program {
    fn eval(&self, t_env: &TypeEnv, env: Environment, fuel: usize) -> (r: Result<
        (Expr, Environment),
        TypeError,
    >)
        ensures
            outcome_is(
                r,
                run_program(
                    t_env.tc(),
                    exprs_v(self.0@),
                    env@,
                    0,
                    ExprV::Literal(ValueV::Number(0)),
                    fuel as nat,
                ),
            ),
    {
        let ghost start = env@;
        let mut cur = env;
        let mut last = Expr::Literal(Value::Number(0));
        let mut i: usize = 0;
        while i < self.0.len()
            invariant
                i <= self.0.len(),
                start == env@,
                run_program(
                    t_env.tc(),
                    exprs_v(self.0@),
                    start,
                    0,
                    ExprV::Literal(ValueV::Number(0)),
                    fuel as nat,
                ) == run_program(t_env.tc(), exprs_v(self.0@), cur@, i as int, last@, fuel as nat),
            decreases self.0.len() - i,
        {
            let ghost before = cur@;
            let ghost prev = last@;
            proof {
                assert(exprs_v(self.0@)[i as int] == self.0@[i as int]@);
                assert(run_program(
                    t_env.tc(),
                    exprs_v(self.0@),
                    before,
                    i as int,
                    prev,
                    fuel as nat,
                ) == match run(t_env.tc(), self.0@[i as int]@, before, fuel as nat) {
                    Err(x) => Err(x),
                    Ok((v, env1)) => run_program(
                        t_env.tc(),
                        exprs_v(self.0@),
                        env1,
                        i + 1,
                        v,
                        fuel as nat,
                    ),
                });
            }
            match eval_expr(&self.0[i], t_env, cur, fuel) {
                Err(x) => {
                    return Err(x);
                },
                Ok((v, env1)) => {
                    cur = env1;
                    last = v;
                },
            }
            i = i + 1;
        }
        Ok((last, cur))
    }
}

} // verus!
