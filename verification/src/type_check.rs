//! The type checker: inference, declared types, and subtyping where a value
//! meets a declaration.

use crate::ast::{
    entries_v,
    exprs_v,
    lemma_app_v,
    lemma_case_v,
    lemma_list_v,
    lemma_record_v,
    pairs_v,
    Expr,
    ExprV,
    Program,
    Value,
    ValueV,
};
use crate::error::TypeError;
use crate::infer::{
    declare_parameters,
    declared,
    infer_expr,
    inferred,
    st_arena,
    st_bind,
    st_intern,
    st_push,
    TcState,
};
use crate::names::assoc;
use crate::sexp::{Sx, TypeExpr};
use crate::subtyping::{depth_for, nominal_of, resolve, search_depth, subtype};
use crate::type_alloc::{all_below, generic};
use crate::type_env::{lemma_put_field_below, put_field, put_field_at, TypeEnv};
use crate::type_eval::{ensure_subtype, evaluated, type_eval};
use crate::types::{copy_ids, field_ids, fields_view, Id, Type, TypeV};
use vstd::prelude::*;

verus! {

/// The first of `ts[i..]` that differs from `ts[0]`.
pub open spec fn first_other(ts: Seq<Id>, i: int) -> Option<int>
    decreases ts.len() - i,
{
    if i < 1 || i >= ts.len() {
        None
    } else if ts[i] != ts[0] {
        Some(i)
    } else {
        first_other(ts, i + 1)
    }
}

/// The one type that all of `ts` are, if they are one type.
pub open spec fn uniform(ts: Seq<Id>) -> Result<Id, TypeError> {
    if ts.len() == 0 {
        Err(TypeError::Untypable)
    } else {
        match first_other(ts, 1) {
            Some(j) => Err(TypeError::NotUniform(ts[0], ts[j])),
            None => Ok(ts[0]),
        }
    }
}

/// The outcome of requiring `a <: b` in a state.
pub open spec fn required(st: TcState, a: Id, b: Id) -> Result<(), TypeError> {
    match subtype(st.arena, nominal_of(st.ids), a, b, depth_for(st.arena.len())) {
        Ok(true) => Ok(()),
        Ok(false) => Err(TypeError::NotSubtype(a, b)),
        Err(e) => Err(e),
    }
}

/// Normalising a type in a state.
pub open spec fn st_eval(st: TcState, id: Id) -> (Result<Id, TypeError>, TcState) {
    let r = evaluated(st.arena, id, depth_for(st.arena.len()));
    (r.0, st_arena(st, r.1))
}

/// The type that checking gives an expression, with the variables that occur
/// in the types `ng` kept as they are, and the state after it.
pub open spec fn checked(st: TcState, e: ExprV, ng: Seq<Id>) -> (Result<Id, TypeError>, TcState)
    decreases e, 1nat, 0nat,
{
    match e {
        ExprV::Literal(ValueV::Record(fs)) => {
            let (r, s1) = checked_fields(st, fs, ng, 0, Seq::empty());
            match r {
                Err(x) => (Err(x), s1),
                Ok(fields) => (
                    Ok(s1.arena.len() as Id),
                    st_push(s1, TypeV::Record { id: s1.arena.len() as Id, fields }),
                ),
            }
        },
        ExprV::Literal(ValueV::List(es)) => {
            let (h, s1) = st_intern(st, Sx::Atom("vec"@));
            match h {
                Err(x) => (Err(x), s1),
                Ok(h) => {
                    let (ts, s2) = checked_list(s1, es, ng, 0);
                    match ts {
                        Err(x) => (Err(x), s2),
                        Ok(ts) => match uniform(ts) {
                            Err(x) => (Err(x), s2),
                            Ok(t) => (
                                Ok(s2.arena.len() as Id),
                                st_push(
                                    s2,
                                    TypeV::Container {
                                        id: s2.arena.len() as Id,
                                        head: h,
                                        elements: seq![t],
                                    },
                                ),
                            ),
                        },
                    }
                },
            }
        },
        ExprV::Literal(_) => inferred(st, e, ng),
        ExprV::Variable(n) => (
            match assoc(st.vars, n) {
                Some(id) => if id < st.arena.len() {
                    Ok(id)
                } else {
                    Err(TypeError::IdNotFound(id))
                },
                None => Err(TypeError::NameNotFound),
            },
            st,
        ),
        ExprV::Let { name, typ, value } => {
            let ext = *value is Literal && (*value)->Literal_0 is External;
            match typ {
                None => if ext {
                    (Err(TypeError::Untypable), st)
                } else {
                    let (t, s1) = inferred(st, *value, ng);
                    match t {
                        Err(x) => (Err(x), s1),
                        Ok(t) => (Ok(t), st_bind(s1, name, t)),
                    }
                },
                Some(ty) => {
                    let (d, s1) = st_intern(st, ty);
                    match d {
                        Err(x) => (Err(x), s1),
                        Ok(d) => {
                            let (d2, s2) = st_eval(s1, d);
                            match d2 {
                                Err(x) => (Err(x), s2),
                                Ok(d2) => if ext {
                                    (Ok(d2), st_bind(s2, name, d2))
                                } else {
                                    let (v, s3) = checked(s2, *value, ng);
                                    match v {
                                        Err(x) => (Err(x), s3),
                                        Ok(v) => match required(s3, v, d2) {
                                            Err(x) => (Err(x), s3),
                                            Ok(_) => (Ok(d2), st_bind(s3, name, d2)),
                                        },
                                    }
                                },
                            }
                        },
                    }
                },
            }
        },
        ExprV::FnApp { f, args } => {
            let (r, s1) = inferred(st, e, ng);
            match r {
                Err(x) => (Err(x), s1),
                Ok(r) => {
                    let (ft, s2) = checked(s1, *f, ng);
                    match ft {
                        Err(x) => (Err(x), s2),
                        Ok(ft) => match resolve(s2.arena, ft, depth_for(s2.arena.len())) {
                            Err(x) => (Err(x), s2),
                            Ok(rf) => match s2.arena[rf as int] {
                                TypeV::Function { args: ps, .. } => {
                                    let (c, s3) = checked_args(s2, args, ps, ng, 0);
                                    match c {
                                        Err(x) => (Err(x), s3),
                                        Ok(_) => (resolve(s3.arena, r, depth_for(s3.arena.len())), s3),
                                    }
                                },
                                TypeV::Variable { .. } => (
                                    resolve(s2.arena, r, depth_for(s2.arena.len())),
                                    s2,
                                ),
                                _ => (Err(TypeError::NotApplicable(ft)), s2),
                            },
                        },
                    }
                },
            }
        },
        ExprV::FnDef { params, body } => {
            let (ps, s1) = declared(st, params, 0);
            match ps {
                Err(x) => (Err(x), s1),
                Ok(ps) => {
                    let (r, s2) = checked(s1, *body, ng + ps);
                    match r {
                        Err(x) => (Err(x), s2),
                        Ok(r) => (
                            Ok(s2.arena.len() as Id),
                            st_push(
                                s2,
                                TypeV::Function { id: s2.arena.len() as Id, args: ps, ret: r },
                            ),
                        ),
                    }
                },
            }
        },
        ExprV::TypeDef { name, typ } => {
            let (d, s1) = st_intern(st, typ);
            match d {
                Err(x) => (Err(x), s1),
                Ok(d) => {
                    let (d2, s2) = st_eval(s1, d);
                    match d2 {
                        Err(x) => (Err(x), s2),
                        Ok(d2) => (
                            Ok(d2),
                            TcState { arena: s2.arena, ids: s2.ids.push((name, d2)), vars: s2.vars },
                        ),
                    }
                },
            }
        },
        ExprV::Case { branches } => {
            let (ts, s1) = checked_branches(st, branches, ng, 0);
            match ts {
                Err(x) => (Err(x), s1),
                Ok(ts) => (uniform(ts), s1),
            }
        },
        ExprV::Include(_) => st_intern(st, Sx::Atom("str"@)),
    }
}

/// The checked types of `es[i..]`, left to right.
pub open spec fn checked_list(st: TcState, es: Seq<ExprV>, ng: Seq<Id>, i: int) -> (
    Result<Seq<Id>, TypeError>,
    TcState,
)
    decreases es, 0nat, es.len() - i,
{
    if i < 0 || i >= es.len() {
        (Ok(Seq::empty()), st)
    } else {
        let (h, s1) = checked(st, es[i], ng);
        match h {
            Err(x) => (Err(x), s1),
            Ok(h) => {
                let (t, s2) = checked_list(s1, es, ng, i + 1);
                match t {
                    Err(x) => (Err(x), s2),
                    Ok(t) => (Ok(seq![h] + t), s2),
                }
            },
        }
    }
}

/// The record fields that checking the entries `fs[i..]` gives, added to
/// `acc`.
pub open spec fn checked_fields(
    st: TcState,
    fs: Seq<(Seq<char>, ExprV)>,
    ng: Seq<Id>,
    i: int,
    acc: Seq<(Seq<char>, Id)>,
) -> (Result<Seq<(Seq<char>, Id)>, TypeError>, TcState)
    decreases fs, 0nat, fs.len() - i,
{
    if i < 0 || i >= fs.len() {
        (Ok(acc), st)
    } else {
        let (t, s1) = checked(st, fs[i].1, ng);
        match t {
            Err(x) => (Err(x), s1),
            Ok(t) => checked_fields(s1, fs, ng, i + 1, put_field_at(acc, fs[i].0, t, 0)),
        }
    }
}

/// Checks the arguments `args[i..]` against the parameter types `ps[i..]`: an
/// argument's type must be a subtype of a parameter type that is not generic.
pub open spec fn checked_args(st: TcState, args: Seq<ExprV>, ps: Seq<Id>, ng: Seq<Id>, i: int) -> (
    Result<(), TypeError>,
    TcState,
)
    decreases args, 0nat, args.len() - i,
{
    if i < 0 || i >= args.len() || i >= ps.len() {
        (Ok(()), st)
    } else {
        let (v, s1) = checked(st, args[i], ng);
        match v {
            Err(x) => (Err(x), s1),
            Ok(v) => if ps[i] >= s1.arena.len() {
                (Err(TypeError::IdNotFound(ps[i])), s1)
            } else if generic(s1.arena, ps[i]) {
                checked_args(s1, args, ps, ng, i + 1)
            } else {
                match required(s1, v, ps[i]) {
                    Err(x) => (Err(x), s1),
                    Ok(_) => checked_args(s1, args, ps, ng, i + 1),
                }
            },
        }
    }
}

/// The types of the bodies of the branches `bs[i..]`, each guard being
/// `bool`.
pub open spec fn checked_branches(st: TcState, bs: Seq<(ExprV, ExprV)>, ng: Seq<Id>, i: int) -> (
    Result<Seq<Id>, TypeError>,
    TcState,
)
    decreases bs, 0nat, bs.len() - i,
{
    if i < 0 || i >= bs.len() {
        (Ok(Seq::empty()), st)
    } else {
        let (g, s1) = checked(st, bs[i].0, ng);
        match g {
            Err(x) => (Err(x), s1),
            Ok(g) => {
                let (b, s2) = st_intern(s1, Sx::Atom("bool"@));
                match b {
                    Err(x) => (Err(x), s2),
                    Ok(b) => if g != b {
                        (Err(TypeError::GuardNotBool(g)), s2)
                    } else {
                        let (t, s3) = checked(s2, bs[i].1, ng);
                        match t {
                            Err(x) => (Err(x), s3),
                            Ok(t) => {
                                let (rest, s4) = checked_branches(s3, bs, ng, i + 1);
                                match rest {
                                    Err(x) => (Err(x), s4),
                                    Ok(rest) => (Ok(seq![t] + rest), s4),
                                }
                            },
                        }
                    },
                }
            },
        }
    }
}

/// The type of a program: that of its last expression, each checked in the
/// state the one before left.
pub open spec fn checked_program(st: TcState, es: Seq<ExprV>, i: int, last: Option<Id>) -> (
    Result<Id, TypeError>,
    TcState,
)
    decreases es.len() - i,
{
    if i < 0 || i >= es.len() {
        match last {
            Some(t) => (Ok(t), st),
            None => (Err(TypeError::Untypable), st),
        }
    } else {
        let (t, s1) = checked(st, es[i], Seq::empty());
        match t {
            Err(x) => (Err(x), s1),
            Ok(t) => checked_program(s1, es, i + 1, Some(t)),
        }
    }
}

/// The one type that all of `ts` are.
pub fn uniform_type(ts: &Vec<Id>) -> (r: Result<Id, TypeError>)
    ensures
        r == uniform(ts@),
        r matches Ok(t) ==> ts@.len() > 0 && t == ts@[0],
{
    if ts.len() == 0 {
        return Err(TypeError::Untypable);
    }
    let mut i: usize = 1;
    while i < ts.len()
        invariant
            1 <= i <= ts.len(),
            first_other(ts@, 1) == first_other(ts@, i as int),
        decreases ts.len() - i,
    {
        if ts[i] != ts[0] {
            return Err(TypeError::NotUniform(ts[0], ts[i]));
        }
        i = i + 1;
    }
    Ok(ts[0])
}

/// Checks an expression and gives its type.
#[verifier::rlimit(60)]
pub fn check_expr(e: &Expr, env: &mut TypeEnv, ng: &Vec<Id>) -> (r: Result<Id, TypeError>)
    requires
        old(env).wf(),
    ensures
        final(env).wf(),
        old(env).alloc@.len() <= final(env).alloc@.len(),
        r == checked(old(env).tc(), e@, ng@).0,
        final(env).tc() == checked(old(env).tc(), e@, ng@).1,
        r matches Ok(t) ==> t < final(env).alloc@.len(),
    decreases e, 1nat, 0nat,
{
    match e {
        Expr::Literal(Value::Record(fs)) => {
            proof {
                lemma_record_v(*fs);
            }
            let acc: Vec<(String, Id)> = Vec::new();
            assert(fields_view(acc@) =~= Seq::<(Seq<char>, Id)>::empty());
            let fields = check_fields(fs, env, ng, 0, acc)?;
            let id = env.alloc.issue_id();
            Ok(env.push_node(Type::record(id, fields)))
        },
        Expr::Literal(Value::List(es)) => {
            proof {
                lemma_list_v(*es);
            }
            let h = env.new_type(&TypeExpr::atom("vec"))?;
            let ts = check_list(es, env, ng, 0)?;
            let t = uniform_type(&ts)?;
            let id = env.alloc.issue_id();
            let mut els: Vec<Id> = Vec::new();
            els.push(t);
            assert(els@ =~= seq![t]);
            Ok(env.push_node(Type::container(id, h, els)))
        },
        Expr::Literal(_) => infer_expr(e, env, ng),
        Expr::Variable(n) => {
            let id = env.get_variable(n.as_str())?;
            if id < env.alloc.len() {
                Ok(id)
            } else {
                Err(TypeError::IdNotFound(id))
            }
        },
        Expr::Let(l) => {
            let ext = match &*l.value {
                Expr::Literal(Value::External(_)) => true,
                _ => false,
            };
            match &l.typ {
                None => {
                    if ext {
                        return Err(TypeError::Untypable);
                    }
                    let t = infer_expr(&l.value, env, ng)?;
                    env.set_variable(l.name.as_str(), t);
                    Ok(t)
                },
                Some(ty) => {
                    let d = env.new_type(ty)?;
                    let d2 = type_eval(env, d)?;
                    if !ext {
                        let v = check_expr(&l.value, env, ng)?;
                        ensure_subtype(env, v, d2)?;
                    }
                    env.set_variable(l.name.as_str(), d2);
                    Ok(d2)
                },
            }
        },
        Expr::FnApp(a) => {
            proof {
                lemma_app_v(a.0, a.1);
            }
            let r = infer_expr(e, env, ng)?;
            let ft = check_expr(&a.0, env, ng)?;
            let rf = env.alloc.resolve(ft, search_depth(env.alloc.len()))?;
            let ps = match env.alloc.node(rf) {
                Type::Function { args, .. } => Some(copy_ids(args)),
                Type::Variable { .. } => None,
                _ => {
                    return Err(TypeError::NotApplicable(ft));
                },
            };
            match ps {
                Some(ps) => {
                    check_args(&a.1, env, &ps, ng, 0)?;
                },
                None => {},
            }
            env.alloc.resolve(r, search_depth(env.alloc.len()))
        },
        Expr::FnDef(d) => {
            let ps = declare_parameters(env, &d.args, 0)?;
            let mut all = copy_ids(ng);
            let mut more = copy_ids(&ps);
            all.append(&mut more);
            assert(all@ =~= ng@ + ps@);
            let r = check_expr(&d.body, env, &all)?;
            let id = env.alloc.issue_id();
            Ok(env.push_node(Type::function(id, ps, r)))
        },
        Expr::TypeDef(t) => {
            let d = env.new_type(&t.typ)?;
            let d2 = type_eval(env, d)?;
            env.new_alias(t.name.as_str(), d2);
            Ok(d2)
        },
        Expr::Case(c) => {
            proof {
                lemma_case_v(c.branches);
            }
            let ts = check_branches(&c.branches, env, ng, 0)?;
            uniform_type(&ts)
        },
        Expr::Include(_) => env.new_type(&TypeExpr::atom("str")),
    }
}

fn check_list(es: &Vec<Expr>, env: &mut TypeEnv, ng: &Vec<Id>, i: usize) -> (r: Result<
    Vec<Id>,
    TypeError,
>)
    requires
        old(env).wf(),
    ensures
        final(env).wf(),
        old(env).alloc@.len() <= final(env).alloc@.len(),
        crate::infer::ids_are(r, checked_list(old(env).tc(), exprs_v(es@), ng@, i as int).0),
        final(env).tc() == checked_list(old(env).tc(), exprs_v(es@), ng@, i as int).1,
        r matches Ok(v) ==> all_below(v@, final(env).alloc@.len() as int),
    decreases es, 0nat, es.len() - i,
{
    if i >= es.len() {
        return Ok(Vec::new());
    }
    let h = check_expr(&es[i], env, ng)?;
    let mut t = check_list(es, env, ng, i + 1)?;
    let ghost before = t@;
    t.insert(0, h);
    assert(t@ =~= seq![h] + before);
    Ok(t)
}

fn check_fields(
    fs: &Vec<(String, Expr)>,
    env: &mut TypeEnv,
    ng: &Vec<Id>,
    i: usize,
    acc: Vec<(String, Id)>,
) -> (r: Result<Vec<(String, Id)>, TypeError>)
    requires
        old(env).wf(),
        all_below(field_ids(fields_view(acc@)), old(env).alloc@.len() as int),
    ensures
        final(env).wf(),
        old(env).alloc@.len() <= final(env).alloc@.len(),
        match r {
            Ok(v) => checked_fields(old(env).tc(), entries_v(fs@), ng@, i as int, fields_view(acc@)).0
                == Ok::<Seq<(Seq<char>, Id)>, TypeError>(fields_view(v@)) && all_below(
                field_ids(fields_view(v@)),
                final(env).alloc@.len() as int,
            ),
            Err(x) => checked_fields(old(env).tc(), entries_v(fs@), ng@, i as int, fields_view(acc@)).0
                == Err::<Seq<(Seq<char>, Id)>, TypeError>(x),
        },
        final(env).tc() == checked_fields(
            old(env).tc(),
            entries_v(fs@),
            ng@,
            i as int,
            fields_view(acc@),
        ).1,
    decreases fs, 0nat, fs.len() - i,
{
    if i >= fs.len() {
        return Ok(acc);
    }
    let t = check_expr(&fs[i].1, env, ng)?;
    let mut acc = acc;
    let ghost before = fields_view(acc@);
    put_field(&mut acc, fs[i].0.clone(), t);
    proof {
        lemma_put_field_below(before, fs[i as int].0@, t, 0, env.alloc@.len() as int);
    }
    check_fields(fs, env, ng, i + 1, acc)
}

fn check_args(args: &Vec<Expr>, env: &mut TypeEnv, ps: &Vec<Id>, ng: &Vec<Id>, i: usize) -> (r:
    Result<(), TypeError>)
    requires
        old(env).wf(),
    ensures
        final(env).wf(),
        old(env).alloc@.len() <= final(env).alloc@.len(),
        r == checked_args(old(env).tc(), exprs_v(args@), ps@, ng@, i as int).0,
        final(env).tc() == checked_args(old(env).tc(), exprs_v(args@), ps@, ng@, i as int).1,
    decreases args, 0nat, args.len() - i,
{
    if i >= args.len() || i >= ps.len() {
        return Ok(());
    }
    let v = check_expr(&args[i], env, ng)?;
    if !env.alloc.is_generic(ps[i])? {
        ensure_subtype(env, v, ps[i])?;
    }
    check_args(args, env, ps, ng, i + 1)
}

fn check_branches(bs: &Vec<(Expr, Expr)>, env: &mut TypeEnv, ng: &Vec<Id>, i: usize) -> (r:
    Result<Vec<Id>, TypeError>)
    requires
        old(env).wf(),
    ensures
        final(env).wf(),
        old(env).alloc@.len() <= final(env).alloc@.len(),
        crate::infer::ids_are(r, checked_branches(old(env).tc(), pairs_v(bs@), ng@, i as int).0),
        final(env).tc() == checked_branches(old(env).tc(), pairs_v(bs@), ng@, i as int).1,
        r matches Ok(v) ==> all_below(v@, final(env).alloc@.len() as int),
    decreases bs, 0nat, bs.len() - i,
{
    if i >= bs.len() {
        return Ok(Vec::new());
    }
    let g = check_expr(&bs[i].0, env, ng)?;
    let b = env.new_type(&TypeExpr::atom("bool"))?;
    if g != b {
        return Err(TypeError::GuardNotBool(g));
    }
    let t = check_expr(&bs[i].1, env, ng)?;
    let mut rest = check_branches(bs, env, ng, i + 1)?;
    let ghost before = rest@;
    rest.insert(0, t);
    assert(rest@ =~= seq![t] + before);
    Ok(rest)
}

/// Things that can be type-checked.
pub trait TypeCheck {
    /// Checks the thing under the environment and gives its type.
    fn type_check(&self, env: &mut TypeEnv) -> (r: Result<Id, TypeError>)
        requires
            old(env).wf(),
        ensures
            final(env).wf(),
    ;
}

impl TypeCheck for Expr {
    fn type_check(&self, env: &mut TypeEnv) -> (r: Result<Id, TypeError>)
        ensures
            r == checked(old(env).tc(), self@, Seq::empty()).0,
            final(env).tc() == checked(old(env).tc(), self@, Seq::empty()).1,
    {
        let none: Vec<Id> = Vec::new();
        assert(none@ =~= Seq::<Id>::empty());
        check_expr(self, env, &none)
    }
}

impl TypeCheck for Program {
    fn type_check(&self, env: &mut TypeEnv) -> (r: Result<Id, TypeError>)
        ensures
            r == checked_program(old(env).tc(), exprs_v(self.0@), 0, None).0,
            final(env).tc() == checked_program(old(env).tc(), exprs_v(self.0@), 0, None).1,
    {
        let none: Vec<Id> = Vec::new();
        assert(none@ =~= Seq::<Id>::empty());
        let mut last: Option<Id> = None;
        let mut i: usize = 0;
        while i < self.0.len()
            invariant
                env.wf(),
                none@ == Seq::<Id>::empty(),
                i <= self.0.len(),
                checked_program(old(env).tc(), exprs_v(self.0@), 0, None) == checked_program(
                    env.tc(),
                    exprs_v(self.0@),
                    i as int,
                    last,
                ),
            decreases self.0.len() - i,
        {
            let t = check_expr(&self.0[i], env, &none)?;
            last = Some(t);
            i = i + 1;
        }
        match last {
            Some(t) => Ok(t),
            None => Err(TypeError::Untypable),
        }
    }
}

} // verus!
