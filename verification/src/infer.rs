//! Type inference over the abstract syntax.

use crate::ast::{
    entries_v,
    exprs_v,
    lemma_app_v,
    lemma_case_v,
    lemma_list_v,
    lemma_record_v,
    pairs_v,
    params_v,
    Expr,
    ExprV,
    Parameter,
    Value,
    ValueV,
};
use crate::error::TypeError;
use crate::names::assoc;
use crate::sexp::{Sx, TypeExpr};
use crate::subtyping::{depth_for, search_depth};
use crate::type_alloc::{all_below, node_fits};
use crate::type_env::{intern, lemma_put_field_below, put_field, put_field_at, EnvV, TypeEnv};
use crate::types::{copy_ids, field_ids, fields_view, Id, Type, TypeV};
use crate::unify::{chain_end, fresh, freshened, unified, unify};
use vstd::prelude::*;

verus! {

/// What inference and checking read and change of an environment.
pub struct TcState {
    pub arena: Seq<TypeV>,
    pub ids: Seq<(Seq<char>, Id)>,
    pub vars: Seq<(Seq<char>, Id)>,
}

/// The state with `node` appended to the arena.
pub open spec fn st_push(st: TcState, node: TypeV) -> TcState {
    TcState { arena: st.arena.push(node), ids: st.ids, vars: st.vars }
}

/// The state with another arena.
pub open spec fn st_arena(st: TcState, arena: Seq<TypeV>) -> TcState {
    TcState { arena, ids: st.ids, vars: st.vars }
}

/// The state with the term variable `name` given the type `id`.
pub open spec fn st_bind(st: TcState, name: Seq<char>, id: Id) -> TcState {
    TcState { arena: st.arena, ids: st.ids, vars: st.vars.push((name, id)) }
}

/// Interning in a state.
pub open spec fn st_intern(st: TcState, e: Sx) -> (Result<Id, TypeError>, TcState) {
    let (r, s1) = intern(EnvV { arena: st.arena, ids: st.ids }, e);
    (r, TcState { arena: s1.arena, ids: s1.ids, vars: st.vars })
}

/// The node that a name stands for.
pub open spec fn st_named(st: TcState, name: Seq<char>) -> Result<Id, TypeError> {
    match assoc(st.ids, name) {
        None => Err(TypeError::NameNotFound),
        Some(id) => if id < st.arena.len() {
            Ok(id)
        } else {
            Err(TypeError::IdNotFound(id))
        },
    }
}

/// A new unbound variable.
pub open spec fn st_var(st: TcState) -> (Result<Id, TypeError>, TcState) {
    (
        Ok(st.arena.len() as Id),
        st_push(st, TypeV::Variable { id: st.arena.len() as Id, instance: None }),
    )
}

/// The name of the singleton type of an atom.
pub open spec fn atom_type_name(a: Seq<char>) -> Seq<char> {
    seq![':'] + a
}

/// The types of the parameters `params[i..]`, each bound to its name: the
/// declared type, or a new variable.
pub open spec fn declared(st: TcState, params: Seq<(Seq<char>, Option<Sx>)>, i: int) -> (
    Result<Seq<Id>, TypeError>,
    TcState,
)
    decreases params.len() - i,
{
    if i < 0 || i >= params.len() {
        (Ok(Seq::empty()), st)
    } else {
        let (t, s1) = match params[i].1 {
            Some(ty) => st_intern(st, ty),
            None => st_var(st),
        };
        match t {
            Err(e) => (Err(e), s1),
            Ok(t) => {
                let (rest, s2) = declared(st_bind(s1, params[i].0, t), params, i + 1);
                match rest {
                    Err(e) => (Err(e), s2),
                    Ok(rest) => (Ok(seq![t] + rest), s2),
                }
            },
        }
    }
}

/// The type that inference gives an expression, with the variables that occur
/// in the types `ng` kept as they are, and the state after it.
pub open spec fn inferred(st: TcState, e: ExprV, ng: Seq<Id>) -> (Result<Id, TypeError>, TcState)
    decreases e, 0nat, 0nat,
{
    match e {
        ExprV::Literal(v) => match v {
            ValueV::External(_) => (Err(TypeError::Untypable), st),
            ValueV::Bool(_) => (st_named(st, "bool"@), st),
            ValueV::Number(_) => (st_named(st, "int"@), st),
            ValueV::Atom(a) => st_intern(st, Sx::Atom(atom_type_name(a))),
            ValueV::Text(_) => (st_named(st, "str"@), st),
            ValueV::Record(fs) => {
                let (r, s1) = inferred_fields(st, fs, ng, 0, Seq::empty());
                match r {
                    Err(x) => (Err(x), s1),
                    Ok(fields) => (
                        Ok(s1.arena.len() as Id),
                        st_push(s1, TypeV::Record { id: s1.arena.len() as Id, fields }),
                    ),
                }
            },
            ValueV::List(es) => {
                let (t, s1) = if es.len() == 0 {
                    st_var(st)
                } else {
                    inferred(st, es[0], ng)
                };
                match t {
                    Err(x) => (Err(x), s1),
                    Ok(t) => match st_named(s1, "vec"@) {
                        Err(x) => (Err(x), s1),
                        Ok(h) => (
                            Ok(s1.arena.len() as Id),
                            st_push(
                                s1,
                                TypeV::Container {
                                    id: s1.arena.len() as Id,
                                    head: h,
                                    elements: seq![t],
                                },
                            ),
                        ),
                    },
                }
            },
        },
        ExprV::Variable(n) => match assoc(st.vars, n) {
            None => (Err(TypeError::NameNotFound), st),
            Some(id) => {
                let f = freshened(st.arena, Seq::empty(), id, ng, depth_for(st.arena.len()));
                (f.0, st_arena(st, f.1))
            },
        },
        ExprV::FnApp { f, args } => {
            let (ft, s1) = inferred(st, *f, ng);
            match ft {
                Err(x) => (Err(x), s1),
                Ok(ft) => {
                    let (ats, s2) = inferred_list(s1, args, ng, 0);
                    match ats {
                        Err(x) => (Err(x), s2),
                        Ok(ats) => {
                            let ret = s2.arena.len() as Id;
                            let s3 = st_push(s2, TypeV::Variable { id: ret, instance: None });
                            let nf = s3.arena.len() as Id;
                            let s4 = st_push(s3, TypeV::Function { id: nf, args: ats, ret });
                            let u = unified(s4.arena, nf, ft, depth_for(s4.arena.len()));
                            match u.0 {
                                Err(x) => (Err(x), st_arena(s4, u.1)),
                                Ok(_) => (chain_end(u.1, ret, u.1.len()), st_arena(s4, u.1)),
                            }
                        },
                    }
                },
            }
        },
        ExprV::FnDef { params, body } => {
            let (ps, s1) = declared(st, params, 0);
            match ps {
                Err(x) => (Err(x), s1),
                Ok(ps) => {
                    let (r, s2) = inferred(s1, *body, ng + ps);
                    match r {
                        Err(x) => (Err(x), s2),
                        Ok(r) => (
                            Ok(s2.arena.len() as Id),
                            st_push(
                                s2,
                                TypeV::Function { id: s2.arena.len() as Id, args: ps, ret: r },
                            ),
                        ),
                    }
                },
            }
        },
        ExprV::Let { typ, value, .. } => match typ {
            Some(t) => st_intern(st, t),
            None => inferred(st, *value, ng),
        },
        ExprV::TypeDef { typ, .. } => st_intern(st, typ),
        ExprV::Case { branches } => if branches.len() == 0 {
            (Err(TypeError::Untypable), st)
        } else {
            inferred_branches(st, branches, ng, 0, None)
        },
        ExprV::Include(_) => st_intern(st, Sx::Atom("str"@)),
    }
}

/// The inferred types of `es[i..]`, left to right.
pub open spec fn inferred_list(st: TcState, es: Seq<ExprV>, ng: Seq<Id>, i: int) -> (
    Result<Seq<Id>, TypeError>,
    TcState,
)
    decreases es, 0nat, es.len() - i,
{
    if i < 0 || i >= es.len() {
        (Ok(Seq::empty()), st)
    } else {
        let (h, s1) = inferred(st, es[i], ng);
        match h {
            Err(x) => (Err(x), s1),
            Ok(h) => {
                let (t, s2) = inferred_list(s1, es, ng, i + 1);
                match t {
                    Err(x) => (Err(x), s2),
                    Ok(t) => (Ok(seq![h] + t), s2),
                }
            },
        }
    }
}

/// The record fields that the entries `fs[i..]` give, added to `acc`.
pub open spec fn inferred_fields(
    st: TcState,
    fs: Seq<(Seq<char>, ExprV)>,
    ng: Seq<Id>,
    i: int,
    acc: Seq<(Seq<char>, Id)>,
) -> (Result<Seq<(Seq<char>, Id)>, TypeError>, TcState)
    decreases fs, 0nat, fs.len() - i,
{
    if i < 0 || i >= fs.len() {
        (Ok(acc), st)
    } else {
        let (t, s1) = inferred(st, fs[i].1, ng);
        match t {
            Err(x) => (Err(x), s1),
            Ok(t) => inferred_fields(s1, fs, ng, i + 1, put_field_at(acc, fs[i].0, t, 0)),
        }
    }
}

/// The common type of the bodies of `bs[i..]`: each is unified with the
/// first.
pub open spec fn inferred_branches(
    st: TcState,
    bs: Seq<(ExprV, ExprV)>,
    ng: Seq<Id>,
    i: int,
    first: Option<Id>,
) -> (Result<Id, TypeError>, TcState)
    decreases bs, 0nat, bs.len() - i,
{
    if i < 0 || i >= bs.len() {
        match first {
            Some(t) => (Ok(t), st),
            None => (Err(TypeError::Untypable), st),
        }
    } else {
        let (b, s1) = inferred(st, bs[i].1, ng);
        match b {
            Err(x) => (Err(x), s1),
            Ok(b) => match first {
                None => inferred_branches(s1, bs, ng, i + 1, Some(b)),
                Some(t) => {
                    let u = unified(s1.arena, t, b, depth_for(s1.arena.len()));
                    match u.0 {
                        Err(x) => (Err(x), st_arena(s1, u.1)),
                        Ok(_) => inferred_branches(st_arena(s1, u.1), bs, ng, i + 1, first),
                    }
                },
            },
        }
    }
}

impl TypeEnv {
    /// What inference and checking see of the environment.
    pub open spec fn tc(&self) -> TcState {
        TcState { arena: self.alloc@, ids: self.id_map@, vars: self.variables@ }
    }

    /// The node that a name stands for.
    pub fn named(&self, name: &str) -> (r: Result<Id, TypeError>)
        ensures
            r == st_named(self.tc(), name@),
    {
        match self.id_map.get(name) {
            None => Err(TypeError::NameNotFound),
            Some(id) => if id < self.alloc.len() {
                Ok(id)
            } else {
                Err(TypeError::IdNotFound(id))
            },
        }
    }

    /// Adds an unbound variable.
    pub fn new_variable(&mut self) -> (r: Id)
        requires
            old(self).wf(),
        ensures
            final(self).wf(),
            final(self).tc() == st_var(old(self).tc()).1,
            Ok::<Id, TypeError>(r) == st_var(old(self).tc()).0,
            r < final(self).alloc@.len(),
    {
        let id = self.alloc.issue_id();
        self.alloc.insert(Type::variable(id));
        id
    }

    /// Adds a node.
    pub fn push_node(&mut self, node: Type) -> (r: Id)
        requires
            old(self).wf(),
            node_fits(node@, old(self).alloc@.len() as int, old(self).alloc@.len() as int + 1),
            all_below(node@.children(), old(self).alloc@.len() as int),
        ensures
            final(self).wf(),
            final(self).tc() == st_push(old(self).tc(), node@),
            r == old(self).alloc@.len(),
    {
        let id = self.alloc.issue_id();
        self.alloc.insert(node);
        id
    }
}

/// The parameter types of a function definition, each bound to its name.
pub fn declare_parameters(env: &mut TypeEnv, params: &Vec<Parameter>, i: usize) -> (r: Result<
    Vec<Id>,
    TypeError,
>)
    requires
        old(env).wf(),
    ensures
        final(env).wf(),
        old(env).alloc@.len() <= final(env).alloc@.len(),
        final(env).tc() == declared(old(env).tc(), params_v(params@), i as int).1,
        match r {
            Ok(v) => declared(old(env).tc(), params_v(params@), i as int).0 == Ok::<
                Seq<Id>,
                TypeError,
            >(v@) && all_below(v@, final(env).alloc@.len() as int),
            Err(x) => declared(old(env).tc(), params_v(params@), i as int).0 == Err::<
                Seq<Id>,
                TypeError,
            >(x),
        },
    decreases params.len() - i,
{
    if i >= params.len() {
        return Ok(Vec::new());
    }
    let t = match &params[i].typ {
        Some(ty) => env.new_type(ty)?,
        None => env.new_variable(),
    };
    env.set_variable(params[i].name.as_str(), t);
    let mut rest = declare_parameters(env, params, i + 1)?;
    let ghost before = rest@;
    rest.insert(0, t);
    assert(rest@ =~= seq![t] + before);
    Ok(rest)
}

/// Whether an executable result is the one the model gives.
pub open spec fn ids_are(r: Result<Vec<Id>, TypeError>, m: Result<Seq<Id>, TypeError>) -> bool {
    match r {
        Ok(v) => m == Ok::<Seq<Id>, TypeError>(v@),
        Err(x) => m == Err::<Seq<Id>, TypeError>(x),
    }
}

/// Infers the type of an expression.
pub fn infer_expr(e: &Expr, env: &mut TypeEnv, ng: &Vec<Id>) -> (r: Result<Id, TypeError>)
    requires
        old(env).wf(),
    ensures
        final(env).wf(),
        old(env).alloc@.len() <= final(env).alloc@.len(),
        r == inferred(old(env).tc(), e@, ng@).0,
        final(env).tc() == inferred(old(env).tc(), e@, ng@).1,
        r matches Ok(t) ==> t < final(env).alloc@.len(),
    decreases e, 0nat, 0nat,
{
    match e {
        Expr::Literal(v) => match v {
            Value::External(_) => Err(TypeError::Untypable),
            Value::Bool(_) => env.named("bool"),
            Value::Number(_) => env.named("int"),
            Value::Atom(a) => {
                let mut name = ":".to_owned();
                name.append(a.as_str());
                proof {
                    reveal_strlit(":");
                    assert(name@ =~= atom_type_name(a@));
                }
                env.new_type(&TypeExpr::Atom(name))
            },
            Value::String(_) => env.named("str"),
            Value::Record(fs) => {
                proof {
                    lemma_record_v(*fs);
                }
                let acc: Vec<(String, Id)> = Vec::new();
                assert(fields_view(acc@) =~= Seq::<(Seq<char>, Id)>::empty());
                let fields = infer_fields(fs, env, ng, 0, acc)?;
                let id = env.alloc.issue_id();
                Ok(env.push_node(Type::record(id, fields)))
            },
            Value::List(es) => {
                proof {
                    lemma_list_v(*es);
                }
                let t = if es.len() == 0 {
                    env.new_variable()
                } else {
                    infer_expr(&es[0], env, ng)?
                };
                let h = env.named("vec")?;
                let id = env.alloc.issue_id();
                let mut els: Vec<Id> = Vec::new();
                els.push(t);
                assert(els@ =~= seq![t]);
                Ok(env.push_node(Type::container(id, h, els)))
            },
        },
        Expr::Variable(n) => {
            let id = env.get_variable(n.as_str())?;
            fresh(env, id, ng)
        },
        Expr::FnApp(a) => {
            proof {
                lemma_app_v(a.0, a.1);
            }
            let ft = infer_expr(&a.0, env, ng)?;
            let ats = infer_list(&a.1, env, ng, 0)?;
            let ret = env.new_variable();
            let nf = env.alloc.issue_id();
            env.push_node(Type::function(nf, ats, ret));
            unify(env, nf, ft)?;
            env.alloc.find(ret)
        },
        Expr::FnDef(d) => {
            let ps = declare_parameters(env, &d.args, 0)?;
            let mut all = copy_ids(ng);
            let mut more = copy_ids(&ps);
            all.append(&mut more);
            assert(all@ =~= ng@ + ps@);
            let r = infer_expr(&d.body, env, &all)?;
            let id = env.alloc.issue_id();
            Ok(env.push_node(Type::function(id, ps, r)))
        },
        Expr::Let(l) => match &l.typ {
            Some(t) => env.new_type(t),
            None => infer_expr(&l.value, env, ng),
        },
        Expr::TypeDef(t) => env.new_type(&t.typ),
        Expr::Case(c) => {
            proof {
                lemma_case_v(c.branches);
            }
            if c.branches.len() == 0 {
                Err(TypeError::Untypable)
            } else {
                infer_branches(&c.branches, env, ng, 0, None)
            }
        },
        Expr::Include(_) => env.new_type(&TypeExpr::atom("str")),
    }
}

fn infer_list(es: &Vec<Expr>, env: &mut TypeEnv, ng: &Vec<Id>, i: usize) -> (r: Result<
    Vec<Id>,
    TypeError,
>)
    requires
        old(env).wf(),
    ensures
        final(env).wf(),
        old(env).alloc@.len() <= final(env).alloc@.len(),
        ids_are(r, inferred_list(old(env).tc(), exprs_v(es@), ng@, i as int).0),
        final(env).tc() == inferred_list(old(env).tc(), exprs_v(es@), ng@, i as int).1,
        r matches Ok(v) ==> all_below(v@, final(env).alloc@.len() as int),
    decreases es, 0nat, es.len() - i,
{
    if i >= es.len() {
        return Ok(Vec::new());
    }
    let h = infer_expr(&es[i], env, ng)?;
    let mut t = infer_list(es, env, ng, i + 1)?;
    let ghost before = t@;
    t.insert(0, h);
    assert(t@ =~= seq![h] + before);
    Ok(t)
}

fn infer_fields(
    fs: &Vec<(String, Expr)>,
    env: &mut TypeEnv,
    ng: &Vec<Id>,
    i: usize,
    acc: Vec<(String, Id)>,
) -> (r: Result<Vec<(String, Id)>, TypeError>)
    requires
        old(env).wf(),
        all_below(field_ids(fields_view(acc@)), old(env).alloc@.len() as int),
    ensures
        final(env).wf(),
        old(env).alloc@.len() <= final(env).alloc@.len(),
        match r {
            Ok(v) => inferred_fields(
                old(env).tc(),
                entries_v(fs@),
                ng@,
                i as int,
                fields_view(acc@),
            ).0 == Ok::<Seq<(Seq<char>, Id)>, TypeError>(fields_view(v@)) && all_below(
                field_ids(fields_view(v@)),
                final(env).alloc@.len() as int,
            ),
            Err(x) => inferred_fields(
                old(env).tc(),
                entries_v(fs@),
                ng@,
                i as int,
                fields_view(acc@),
            ).0 == Err::<Seq<(Seq<char>, Id)>, TypeError>(x),
        },
        final(env).tc() == inferred_fields(
            old(env).tc(),
            entries_v(fs@),
            ng@,
            i as int,
            fields_view(acc@),
        ).1,
    decreases fs, 0nat, fs.len() - i,
{
    if i >= fs.len() {
        return Ok(acc);
    }
    let t = infer_expr(&fs[i].1, env, ng)?;
    let mut acc = acc;
    let ghost before = fields_view(acc@);
    put_field(&mut acc, fs[i].0.clone(), t);
    proof {
        lemma_put_field_below(before, fs[i as int].0@, t, 0, env.alloc@.len() as int);
    }
    infer_fields(fs, env, ng, i + 1, acc)
}

fn infer_branches(
    bs: &Vec<(Expr, Expr)>,
    env: &mut TypeEnv,
    ng: &Vec<Id>,
    i: usize,
    first: Option<Id>,
) -> (r: Result<Id, TypeError>)
    requires
        old(env).wf(),
        first matches Some(t) ==> t < old(env).alloc@.len(),
    ensures
        final(env).wf(),
        old(env).alloc@.len() <= final(env).alloc@.len(),
        r == inferred_branches(old(env).tc(), pairs_v(bs@), ng@, i as int, first).0,
        final(env).tc() == inferred_branches(old(env).tc(), pairs_v(bs@), ng@, i as int, first).1,
        r matches Ok(t) ==> t < final(env).alloc@.len(),
    decreases bs, 0nat, bs.len() - i,
{
    if i >= bs.len() {
        return match first {
            Some(t) => Ok(t),
            None => Err(TypeError::Untypable),
        };
    }
    let b = infer_expr(&bs[i].1, env, ng)?;
    match first {
        None => infer_branches(bs, env, ng, i + 1, Some(b)),
        Some(t) => {
            unify(env, t, b)?;
            infer_branches(bs, env, ng, i + 1, first)
        },
    }
}

/// Types that can be inferred.
pub trait InferType {
    /// The type that inference gives under the environment, with the
    /// variables of the types `non_generic` kept as they are.
    fn infer_type(&self, env: &mut TypeEnv, non_generic: &Vec<Id>) -> (r: Result<Id, TypeError>)
        requires
            old(env).wf(),
        ensures
            final(env).wf(),
            r matches Ok(t) ==> t < final(env).alloc@.len(),
    ;
}

impl InferType for Expr {
    fn infer_type(&self, env: &mut TypeEnv, non_generic: &Vec<Id>) -> (r: Result<Id, TypeError>)
        ensures
            r == inferred(old(env).tc(), self@, non_generic@).0,
            final(env).tc() == inferred(old(env).tc(), self@, non_generic@).1,
    {
        infer_expr(self, env, non_generic)
    }
}

} // verus!
