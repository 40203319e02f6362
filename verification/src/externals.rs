//! The external primitives: their names and declared types.

use crate::ast::ExprV;
use crate::environment::Environment;
use crate::error::TypeError;
use crate::eval::{wrapper, wrapper_v};
use crate::infer::{st_bind, st_intern, TcState};
use crate::sexp::{views, Sx, TypeExpr};
use crate::type_env::{arrow, container, TypeEnv};
use crate::types::FN_TYPE_KEYWORD;
use vstd::prelude::*;

verus! {

/// The type expression of a function.
pub open spec fn arrow_sx(args: Seq<Sx>, ret: Sx) -> Sx {
    Sx::List(seq![Sx::List(args), Sx::Atom(FN_TYPE_KEYWORD@), ret])
}

/// The type and value environments, side by side.
pub struct World {
    pub tc: TcState,
    pub env: Seq<(Seq<char>, ExprV)>,
}

/// Declares one primitive: its type is interned and given to its name, and
/// its name is bound to the function that stands for it.
pub open spec fn declared_one(w: World, name: Seq<char>, args: Seq<Sx>, ret: Sx) -> (
    Result<(), TypeError>,
    World,
) {
    let (r, s1) = st_intern(w.tc, arrow_sx(args, ret));
    match r {
        Err(e) => (Err(e), World { tc: s1, env: w.env }),
        Ok(id) => (
            Ok(()),
            World {
                tc: st_bind(s1, name, id),
                env: w.env.push((name, wrapper_v(name, args.len()))),
            },
        ),
    }
}

/// Declares the next primitive where nothing has failed so far.
pub open spec fn and_then_one(
    before: (Result<(), TypeError>, World),
    name: Seq<char>,
    args: Seq<Sx>,
    ret: Sx,
) -> (Result<(), TypeError>, World) {
    match before.0 {
        Err(_) => before,
        Ok(_) => declared_one(before.1, name, args, ret),
    }
}

/// Declares all primitives, in this order: arithmetic, comparison, logic,
/// identity, conversion, record access and the list functions.
pub open spec fn declared_all(w: World) -> (Result<(), TypeError>, World) {
    let r = (Ok::<(), TypeError>(()), w);
    let r = and_then_one(r, "+"@, seq![Sx::Atom("int"@), Sx::Atom("int"@)], Sx::Atom("int"@));
    let r = and_then_one(r, "-"@, seq![Sx::Atom("int"@), Sx::Atom("int"@)], Sx::Atom("int"@));
    let r = and_then_one(r, "%"@, seq![Sx::Atom("int"@), Sx::Atom("int"@)], Sx::Atom("int"@));
    let r = and_then_one(r, "=="@, seq![Sx::Atom("int"@), Sx::Atom("int"@)], Sx::Atom("bool"@));
    let r = and_then_one(r, "!="@, seq![Sx::Atom("int"@), Sx::Atom("int"@)], Sx::Atom("bool"@));
    let r = and_then_one(r, "not"@, seq![Sx::Atom("bool"@)], Sx::Atom("bool"@));
    let r = and_then_one(r, "&"@, seq![Sx::Atom("bool"@), Sx::Atom("bool"@)], Sx::Atom("bool"@));
    let r = and_then_one(r, "|"@, seq![Sx::Atom("bool"@), Sx::Atom("bool"@)], Sx::Atom("bool"@));
    let r = and_then_one(r, "id"@, seq![Sx::Atom("a"@)], Sx::Atom("a"@));
    let r = and_then_one(r, "dbg"@, seq![Sx::Atom("a"@)], Sx::Atom("a"@));
    let r = and_then_one(r, "to_string"@, seq![Sx::Atom("a"@)], Sx::Atom("str"@));
    let r = and_then_one(r, "[]"@, seq![Sx::Atom("a"@), Sx::Atom("b"@)], Sx::List(seq![Sx::Atom("[]"@), Sx::Atom("a"@), Sx::Atom("b"@)]));
    let r = and_then_one(r, "map"@, seq![arrow_sx(seq![Sx::Atom("a"@)], Sx::Atom("b"@)), Sx::List(seq![Sx::Atom("vec"@), Sx::Atom("a"@)])], Sx::List(seq![Sx::Atom("vec"@), Sx::Atom("b"@)]));
    let r = and_then_one(r, "filter"@, seq![arrow_sx(seq![Sx::Atom("a"@)], Sx::Atom("bool"@)), Sx::List(seq![Sx::Atom("vec"@), Sx::Atom("a"@)])], Sx::List(seq![Sx::Atom("vec"@), Sx::Atom("a"@)]));
    let r = and_then_one(r, "range"@, seq![Sx::Atom("int"@), Sx::Atom("int"@)], Sx::List(seq![Sx::Atom("vec"@), Sx::Atom("int"@)]));
    r
}

fn list_of(element: &str) -> (e: TypeExpr)
    ensures
        e@ == Sx::List(seq![Sx::Atom("vec"@), Sx::Atom(element@)]),
{
    let mut els: Vec<TypeExpr> = Vec::new();
    els.push(TypeExpr::atom(element));
    assert(views(els@) =~= seq![Sx::Atom(element@)]);
    let e = container("vec".to_owned(), els);
    assert(e@->List_0 =~= seq![Sx::Atom("vec"@), Sx::Atom(element@)]);
    e
}

fn three(head: &str, a: &str, b: &str) -> (e: TypeExpr)
    ensures
        e@ == Sx::List(seq![Sx::Atom(head@), Sx::Atom(a@), Sx::Atom(b@)]),
{
    let mut els: Vec<TypeExpr> = Vec::new();
    els.push(TypeExpr::atom(a));
    els.push(TypeExpr::atom(b));
    assert(views(els@) =~= seq![Sx::Atom(a@), Sx::Atom(b@)]);
    let e = container(head.to_owned(), els);
    assert(e@->List_0 =~= seq![Sx::Atom(head@), Sx::Atom(a@), Sx::Atom(b@)]);
    e
}

fn unary(a: &str, b: &str) -> (e: TypeExpr)
    ensures
        e@ == arrow_sx(seq![Sx::Atom(a@)], Sx::Atom(b@)),
{
    let mut args: Vec<TypeExpr> = Vec::new();
    args.push(TypeExpr::atom(a));
    assert(views(args@) =~= seq![Sx::Atom(a@)]);
    arrow(args, TypeExpr::atom(b))
}

fn one(a: TypeExpr) -> (r: Vec<TypeExpr>)
    ensures
        views(r@) == seq![a@],
{
    let mut v: Vec<TypeExpr> = Vec::new();
    let ghost av = a@;
    v.push(a);
    assert(views(v@) =~= seq![av]);
    v
}

fn two(a: TypeExpr, b: TypeExpr) -> (r: Vec<TypeExpr>)
    ensures
        views(r@) == seq![a@, b@],
{
    let mut v: Vec<TypeExpr> = Vec::new();
    let ghost av = a@;
    let ghost bv = b@;
    v.push(a);
    v.push(b);
    assert(views(v@) =~= seq![av, bv]);
    v
}

/// The two environments as one value of the model.
pub open spec fn world(type_env: &TypeEnv, env: &Environment) -> World {
    World { tc: type_env.tc(), env: env@ }
}

/// Declares one primitive.
pub fn declare(
    type_env: &mut TypeEnv,
    env: &mut Environment,
    name: &str,
    args: Vec<TypeExpr>,
    ret: TypeExpr,
) -> (r: Result<(), TypeError>)
    requires
        old(type_env).wf(),
    ensures
        final(type_env).wf(),
        (r, world(final(type_env), final(env))) == declared_one(
            world(old(type_env), old(env)),
            name@,
            views(args@),
            ret@,
        ),
{
    let n = args.len();
    let ty = arrow(args, ret);
    let id = type_env.new_type(&ty)?;
    type_env.set_variable(name, id);
    env.insert(name, wrapper(name, n));
    Ok(())
}

/// Declares every primitive in both environments. Stops at the first that
/// cannot be declared.
pub fn define_externals(type_env: &mut TypeEnv, env: &mut Environment) -> (r: Result<
    (),
    TypeError,
>)
    requires
        old(type_env).wf(),
    ensures
        final(type_env).wf(),
        (r, world(final(type_env), final(env))) == declared_all(world(old(type_env), old(env))),
{
    declare(type_env, env, "+", two(TypeExpr::atom("int"), TypeExpr::atom("int")), TypeExpr::atom("int"))?;
    declare(type_env, env, "-", two(TypeExpr::atom("int"), TypeExpr::atom("int")), TypeExpr::atom("int"))?;
    declare(type_env, env, "%", two(TypeExpr::atom("int"), TypeExpr::atom("int")), TypeExpr::atom("int"))?;
    declare(type_env, env, "==", two(TypeExpr::atom("int"), TypeExpr::atom("int")), TypeExpr::atom("bool"))?;
    declare(type_env, env, "!=", two(TypeExpr::atom("int"), TypeExpr::atom("int")), TypeExpr::atom("bool"))?;
    declare(type_env, env, "not", one(TypeExpr::atom("bool")), TypeExpr::atom("bool"))?;
    declare(type_env, env, "&", two(TypeExpr::atom("bool"), TypeExpr::atom("bool")), TypeExpr::atom("bool"))?;
    declare(type_env, env, "|", two(TypeExpr::atom("bool"), TypeExpr::atom("bool")), TypeExpr::atom("bool"))?;
    declare(type_env, env, "id", one(TypeExpr::atom("a")), TypeExpr::atom("a"))?;
    declare(type_env, env, "dbg", one(TypeExpr::atom("a")), TypeExpr::atom("a"))?;
    declare(type_env, env, "to_string", one(TypeExpr::atom("a")), TypeExpr::atom("str"))?;
    declare(type_env, env, "[]", two(TypeExpr::atom("a"), TypeExpr::atom("b")), three("[]", "a", "b"))?;
    declare(type_env, env, "map", two(unary("a", "b"), list_of("a")), list_of("b"))?;
    declare(type_env, env, "filter", two(unary("a", "bool"), list_of("a")), list_of("a"))?;
    declare(type_env, env, "range", two(TypeExpr::atom("int"), TypeExpr::atom("int")), list_of("int"))?;
    Ok(())
}

} // verus!
