//! The type arena: an append-only table of type nodes addressed by `Id`.

use crate::error::TypeError;
use crate::issuer::{issue, letter, slot, Issuer};
use crate::sexp::{lemma_list_view, views, Sx, TypeExpr};
use crate::types::{
    copy_ids, field_ids, fields_view, Id, Type, TypeV, FN_TYPE_KEYWORD, RECORD_TYPE_KEYWORD,
    UNION_TYPE_KEYWORD,
};
use crate::chains::{lemma_chain_extends, lemma_chain_is_short};
use crate::unify::{
    chain_end, is_bound, lemma_bind_redirects, lemma_chain_end_more_fuel,
    lemma_compress_keeps_ends, rebound,
};
use vstd::prelude::*;

verus! {

/// How deep a rendering goes before it gives the type up as cyclic.
pub const RENDER_DEPTH: usize = 11;

/// The models of a sequence of nodes.
pub open spec fn arena_view(nodes: Seq<Type>) -> Seq<TypeV> {
    Seq::new(nodes.len(), |i: int| nodes[i]@)
}

/// `after` is `before` with more at its end: nothing that was there is
/// changed or gone.
pub open spec fn grown<T>(before: Seq<T>, after: Seq<T>) -> bool {
    before.len() <= after.len() && forall|i: int|
        0 <= i < before.len() ==> #[trigger] after[i] == before[i]
}

/// Every id in `ids` is below `bound`.
pub open spec fn all_below(ids: Seq<Id>, bound: int) -> bool {
    forall|i: int| 0 <= i < ids.len() ==> (#[trigger] ids[i]) < bound
}

/// Whether `node` may stand at position `at` of an arena: it carries that id,
/// and what it refers to is there already. A variable may be bound to any node
/// of the arena, `len` long; every other node refers to earlier nodes only.
pub open spec fn node_fits(node: TypeV, at: int, len: int) -> bool {
    &&& node.id() == at
    &&& match node {
        TypeV::Variable { instance, .. } => all_below(node.children(), len),
        _ => all_below(node.children(), at),
    }
}

/// Ids never dangle and never alias.
pub open spec fn arena_wf(arena: Seq<TypeV>) -> bool {
    forall|i: int| 0 <= i < arena.len() ==> node_fits(#[trigger] arena[i], i, arena.len() as int)
}

/// No chain of instances runs in a circle: from every node the chain ends.
pub open spec fn chains_end(arena: Seq<TypeV>) -> bool {
    forall|x: Id| x < arena.len() ==> (#[trigger] chain_end(arena, x, arena.len())) is Ok
}

/// Whether the structure of type `id` holds a variable. Bound variables count.
pub open spec fn generic(arena: Seq<TypeV>, id: Id) -> bool
    recommends
        arena_wf(arena),
        id < arena.len(),
    decreases id, 1nat, 0nat,
{
    if id >= arena.len() {
        false
    } else {
        match arena[id as int] {
            TypeV::Primitive { .. } => false,
            TypeV::Variable { .. } => true,
            node => generic_any(arena, node.children(), id, 0),
        }
    }
}

/// Whether one of `ids[i..]`, all below `bound`, is generic.
pub open spec fn generic_any(arena: Seq<TypeV>, ids: Seq<Id>, bound: Id, i: int) -> bool
    decreases bound, 0nat, ids.len() - i,
{
    if i < 0 || i >= ids.len() {
        false
    } else if ids[i] >= bound {
        false
    } else {
        generic(arena, ids[i]) || generic_any(arena, ids, bound, i + 1)
    }
}

/// The name `->` that stands between a function type's arguments and result.
pub open spec fn arrow_atom() -> Sx {
    Sx::Atom(FN_TYPE_KEYWORD@)
}

/// One rendered record field: `(label : type)`.
pub open spec fn field_sx(label: Seq<char>, ty: Sx) -> Sx {
    Sx::List(seq![Sx::Atom(label), Sx::Atom(":"@), ty])
}

/// Rendered fields from labels and rendered types.
pub open spec fn fields_sx(fields: Seq<(Seq<char>, Id)>, tys: Seq<Sx>) -> Seq<Sx> {
    Seq::new(fields.len(), |i: int| field_sx(fields[i].0, tys[i]))
}

/// The rendering of type `id` with `depth` levels left, and the variable names
/// in use after it. Bound variables render as what they stand for; unbound
/// ones get single letters in the order they are met.
pub open spec fn render(arena: Seq<TypeV>, id: Id, names: Seq<Id>, depth: nat) -> (
    Result<Sx, TypeError>,
    Seq<Id>,
)
    decreases depth, 0nat,
{
    if depth == 0 {
        (Err(TypeError::Cyclic), names)
    } else if id >= arena.len() {
        (Err(TypeError::IdNotFound(id)), names)
    } else {
        match arena[id as int] {
            TypeV::Primitive { name, .. } => (Ok(Sx::Atom(name)), names),
            TypeV::Variable { instance: Some(inst), .. } => render(
                arena,
                inst,
                names,
                (depth - 1) as nat,
            ),
            TypeV::Variable { id: v, instance: None } => if slot(names, v) < 26 {
                (Ok(Sx::Atom(letter(slot(names, v)))), issue(names, v))
            } else {
                (Err(TypeError::TooManyVariables), issue(names, v))
            },
            TypeV::Function { args, ret, .. } => {
                let (a, n1) = render_list(arena, args, 0, names, (depth - 1) as nat);
                match a {
                    Err(e) => (Err(e), n1),
                    Ok(a) => {
                        let (r, n2) = render(arena, ret, n1, (depth - 1) as nat);
                        match r {
                            Err(e) => (Err(e), n2),
                            Ok(r) => (Ok(Sx::List(seq![Sx::List(a), arrow_atom(), r])), n2),
                        }
                    },
                }
            },
            TypeV::Record { fields, .. } => {
                let (f, n1) = render_list(arena, field_ids(fields), 0, names, (depth - 1) as nat);
                match f {
                    Err(e) => (Err(e), n1),
                    Ok(f) => (
                        Ok(Sx::List(seq![Sx::Atom(RECORD_TYPE_KEYWORD@)] + fields_sx(fields, f))),
                        n1,
                    ),
                }
            },
            TypeV::Container { head, elements, .. } => {
                let (l, n1) = render_list(
                    arena,
                    seq![head] + elements,
                    0,
                    names,
                    (depth - 1) as nat,
                );
                match l {
                    Err(e) => (Err(e), n1),
                    Ok(l) => (Ok(Sx::List(l)), n1),
                }
            },
            TypeV::Union { types, .. } => {
                let (l, n1) = render_list(arena, types, 0, names, (depth - 1) as nat);
                match l {
                    Err(e) => (Err(e), n1),
                    Ok(l) => (Ok(Sx::List(seq![Sx::Atom(UNION_TYPE_KEYWORD@)] + l)), n1),
                }
            },
        }
    }
}

/// The renderings of `ids[i..]`, left to right, sharing the variable names.
pub open spec fn render_list(
    arena: Seq<TypeV>,
    ids: Seq<Id>,
    i: int,
    names: Seq<Id>,
    depth: nat,
) -> (Result<Seq<Sx>, TypeError>, Seq<Id>)
    decreases depth, 1 + ids.len() - i,
{
    if i < 0 || i >= ids.len() {
        (Ok(Seq::empty()), names)
    } else {
        let (h, n1) = render(arena, ids[i], names, depth);
        match h {
            Err(e) => (Err(e), n1),
            Ok(h) => {
                let (t, n2) = render_list(arena, ids, i + 1, n1, depth);
                match t {
                    Err(e) => (Err(e), n2),
                    Ok(t) => (Ok(seq![h] + t), n2),
                }
            },
        }
    }
}

/// The rendering of a type as a whole.
pub open spec fn type_sx(arena: Seq<TypeV>, id: Id) -> Result<Sx, TypeError> {
    render(arena, id, Seq::empty(), RENDER_DEPTH as nat).0
}

/// The first position at or after `i` whose node renders as `e`.
pub open spec fn first_rendered(arena: Seq<TypeV>, e: Sx, i: int) -> Option<Id>
    decreases arena.len() - i,
{
    if i < 0 || i >= arena.len() {
        None
    } else if type_sx(arena, arena[i].id()) == Ok::<Sx, TypeError>(e) {
        Some(arena[i].id())
    } else {
        first_rendered(arena, e, i + 1)
    }
}

/// Whether an executable rendering result is the one the model gives.
pub open spec fn rendered_as(r: Result<TypeExpr, TypeError>, m: Result<Sx, TypeError>) -> bool {
    match r {
        Ok(e) => m == Ok::<Sx, TypeError>(e@),
        Err(e) => m == Err::<Sx, TypeError>(e),
    }
}

/// The same for a list of renderings.
pub open spec fn rendered_all_as(
    r: Result<Vec<TypeExpr>, TypeError>,
    m: Result<Seq<Sx>, TypeError>,
) -> bool {
    match r {
        Ok(v) => m == Ok::<Seq<Sx>, TypeError>(views(v@)),
        Err(e) => m == Err::<Seq<Sx>, TypeError>(e),
    }
}

/// A list renders, if at all, to as many expressions as it has ids left.
pub proof fn lemma_render_list_len(
    arena: Seq<TypeV>,
    ids: Seq<Id>,
    i: int,
    names: Seq<Id>,
    depth: nat,
)
    requires
        0 <= i <= ids.len(),
    ensures
        render_list(arena, ids, i, names, depth).0 matches Ok(l) ==> l.len() == ids.len() - i,
    decreases ids.len() - i,
{
    if i < ids.len() {
        let (h, n1) = render(arena, ids[i], names, depth);
        if h is Ok {
            lemma_render_list_len(arena, ids, i + 1, n1, depth);
        }
    }
}

/// Looking a type up by its own rendering gives the type back, unless an
/// earlier node renders the same: where `id` renders as `e` and none of the
/// nodes from `i` up to `id` does, the first node from `i` on that renders as
/// `e` is `id`.
pub proof fn lemma_rendering_roundtrip(arena: Seq<TypeV>, e: Sx, i: int, id: Id)
    requires
        arena_wf(arena),
        0 <= i <= id < arena.len(),
        type_sx(arena, id) == Ok::<Sx, TypeError>(e),
        forall|j: Id| i <= j < id ==> #[trigger] type_sx(arena, j) != Ok::<Sx, TypeError>(e),
    ensures
        first_rendered(arena, e, i) == Some(id),
    decreases id - i,
{
    assert(node_fits(arena[i], i, arena.len() as int));
    if i < id {
        assert(type_sx(arena, i as Id) != Ok::<Sx, TypeError>(e));
        lemma_rendering_roundtrip(arena, e, i + 1, id);
    }
}

/// The arena of type nodes. Nodes are only ever added, and variables bound.
pub struct TypeAlloc {
    alloc: Vec<Type>,
}

impl View for TypeAlloc {
    type V = Seq<TypeV>;

    closed spec fn view(&self) -> Seq<TypeV> {
        arena_view(self.alloc@)
    }
}

impl Default for TypeAlloc {
    fn default() -> (r: TypeAlloc)
        ensures
            r@ == Seq::<TypeV>::empty(),
    {
        TypeAlloc::new()
    }
}

impl TypeAlloc {
    /// The arena's invariant: ids never dangle and never alias, and the
    /// instance chain of every variable ends.
    pub open spec fn wf(&self) -> bool {
        arena_wf(self@) && chains_end(self@)
    }

    /// The empty arena.
    pub fn new() -> (r: TypeAlloc)
        ensures
            r@ == Seq::<TypeV>::empty(),
            r.wf(),
    {
        let r = TypeAlloc { alloc: Vec::new() };
        proof {
            assert(r@ =~= Seq::<TypeV>::empty());
        }
        r
    }

    /// Number of nodes.
    pub fn len(&self) -> (r: usize)
        ensures
            r == self@.len(),
    {
        self.alloc.len()
    }

    /// A copy of node `id`.
    pub fn get(&self, id: Id) -> (r: Result<Type, TypeError>)
        ensures
            id < self@.len() ==> (r matches Ok(t) && t@ == self@[id as int]),
            id >= self@.len() ==> r == Err::<Type, TypeError>(TypeError::IdNotFound(id)),
    {
        if id < self.alloc.len() {
            Ok(self.alloc[id].duplicate())
        } else {
            Err(TypeError::IdNotFound(id))
        }
    }

    /// Node `id`, to be changed in place. What is written there is the
    /// caller's to keep fitting.
    pub fn get_mut(&mut self, id: Id) -> (r: Result<&mut Type, TypeError>)
        ensures
            match r {
                Ok(t) => id < old(self)@.len() && (*t)@ == old(self)@[id as int] && final(self)@
                    == old(self)@.update(id as int, (*final(t))@),
                Err(e) => id >= old(self)@.len() && e == TypeError::IdNotFound(id) && final(self)@
                    == old(self)@,
            },
    {
        if id < self.alloc.len() {
            let ghost before = self.alloc@;
            let t = &mut self.alloc[id];
            proof {
                assert(arena_view(before.update(id as int, *final(t))) =~= arena_view(
                    before,
                ).update(id as int, (*final(t))@));
            }
            Ok(t)
        } else {
            Err(TypeError::IdNotFound(id))
        }
    }

    /// Node `id` itself.
    pub fn node(&self, id: Id) -> (r: &Type)
        requires
            id < self@.len(),
        ensures
            r@ == self@[id as int],
    {
        &self.alloc[id]
    }

    /// The id that the next inserted node must carry.
    pub fn issue_id(&self) -> (r: Id)
        ensures
            r == self@.len(),
    {
        self.alloc.len()
    }

    /// Appends a node. It must carry the id issued for it and refer to nodes
    /// that are in the arena already.
    pub fn insert(&mut self, ty: Type)
        requires
            old(self).wf(),
            node_fits(ty@, old(self)@.len() as int, old(self)@.len() as int + 1),
            all_below(ty@.children(), old(self)@.len() as int),
        ensures
            final(self)@ == old(self)@.push(ty@),
            final(self).wf(),
    {
        self.alloc.push(ty);
        proof {
            let before = old(self)@;
            let after = final(self)@;
            assert(after =~= before.push(ty@));
            assert forall|i: int| 0 <= i < after.len() implies node_fits(
                #[trigger] after[i],
                i,
                after.len() as int,
            ) by {
                if i < before.len() {
                    assert(node_fits(before[i], i, before.len() as int));
                }
            }
            assert forall|x: Id| x < after.len() implies (#[trigger] chain_end(
                after,
                x,
                after.len(),
            )) is Ok by {
                if x < before.len() {
                    assert(chain_end(before, x, before.len()) is Ok);
                    lemma_chain_extends(before, ty@, x, before.len());
                    lemma_chain_end_more_fuel(after, x, before.len(), after.len());
                } else if is_bound(after, x) {
                    let inst = ty@->Variable_instance->Some_0;
                    assert(ty@.children()[0] == inst);
                    assert(chain_end(before, inst, before.len()) is Ok);
                    lemma_chain_extends(before, ty@, inst, before.len());
                }
            }
        }
    }

    /// Binds variable `id` to `target`, a type that stands for itself: an
    /// unbound variable to another type, or a bound one to its
    /// representative.
    pub fn bind(&mut self, id: Id, target: Id)
        requires
            old(self).wf(),
            id < old(self)@.len(),
            target < old(self)@.len(),
            old(self)@[id as int] is Variable,
            target != id,
            !is_bound(old(self)@, target),
            is_bound(old(self)@, id) ==> chain_end(old(self)@, id, old(self)@.len()) == Ok::<
                Id,
                TypeError,
            >(target),
        ensures
            final(self)@ == old(self)@.update(
                id as int,
                TypeV::Variable { id, instance: Some(target) },
            ),
            final(self).wf(),
    {
        let node = Type::Variable { id, instance: Some(target) };
        self.alloc.set(id, node);
        proof {
            let before = old(self)@;
            let after = final(self)@;
            assert(after =~= before.update(
                id as int,
                TypeV::Variable { id, instance: Some(target) },
            ));
            assert(node_fits(before[id as int], id as int, before.len() as int));
            assert(after =~= rebound(before, id, target));
            assert forall|i: int| 0 <= i < after.len() implies node_fits(
                #[trigger] after[i],
                i,
                after.len() as int,
            ) by {
                assert(node_fits(before[i], i, before.len() as int));
            }
            assert forall|x: Id| x < after.len() implies (#[trigger] chain_end(
                after,
                x,
                after.len(),
            )) is Ok by {
                assert(chain_end(before, x, before.len()) is Ok);
                if is_bound(before, id) {
                    lemma_compress_keeps_ends(before, id, target, before.len(), x, before.len());
                } else {
                    lemma_chain_is_short(before, x, before.len());
                    lemma_bind_redirects(before, id, target, x, (before.len() - 1) as nat);
                }
            }
        }
    }

    /// Whether the arena's invariant holds.
    pub fn is_well_formed(&self) -> (r: bool)
        ensures
            r == self.wf(),
    {
        let n = self.alloc.len();
        let mut i: usize = 0;
        while i < n
            invariant
                n == self@.len(),
                i <= n,
                forall|j: int| 0 <= j < i ==> node_fits(#[trigger] self@[j], j, n as int),
            decreases n - i,
        {
            let node = &self.alloc[i];
            let ids = children_of(node);
            let bound = match node {
                Type::Variable { .. } => n,
                _ => i,
            };
            let ok = node.id() == i && ids_below(&ids, bound);
            if !ok {
                proof {
                    assert(!node_fits(self@[i as int], i as int, n as int));
                }
                return false;
            }
            i = i + 1;
        }
        let mut x: usize = 0;
        while x < n
            invariant
                n == self@.len(),
                x <= n,
                arena_wf(self@),
                forall|y: Id| y < x ==> (#[trigger] chain_end(self@, y, n as nat)) is Ok,
            decreases n - x,
        {
            if self.follow(x).is_err() {
                return false;
            }
            x = x + 1;
        }
        true
    }

    /// Follows the chain of instances from `t`, as many of them as the arena
    /// has nodes.
    pub fn follow(&self, t: Id) -> (r: Result<Id, TypeError>)
        ensures
            r == chain_end(self@, t, self@.len()),
    {
        let mut cur = t;
        let mut fuel = self.alloc.len();
        loop
            invariant
                fuel <= self@.len(),
                chain_end(self@, t, self@.len()) == chain_end(self@, cur, fuel as nat),
            decreases fuel,
        {
            if cur >= self.alloc.len() {
                return Ok(cur);
            }
            match &self.alloc[cur] {
                Type::Variable { instance: Some(inst), .. } => {
                    if fuel == 0 {
                        return Err(TypeError::Cyclic);
                    }
                    cur = *inst;
                    fuel = fuel - 1;
                },
                _ => {
                    return Ok(cur);
                },
            }
        }
    }

    /// Whether the structure of type `id` holds a variable.
    pub fn is_generic(&self, id: Id) -> (r: Result<bool, TypeError>)
        requires
            self.wf(),
        ensures
            id < self@.len() ==> r == Ok::<bool, TypeError>(generic(self@, id)),
            id >= self@.len() ==> r == Err::<bool, TypeError>(TypeError::IdNotFound(id)),
        decreases id, 1nat, 0nat,
    {
        if id >= self.alloc.len() {
            return Err(TypeError::IdNotFound(id));
        }
        assert(node_fits(self@[id as int], id as int, self@.len() as int));
        match &self.alloc[id] {
            Type::Primitive { .. } => Ok(false),
            Type::Variable { .. } => Ok(true),
            Type::Function { args, ret, .. } => {
                let mut ids = copy_ids(args);
                ids.push(*ret);
                Ok(self.any_generic(&ids, id, 0))
            },
            Type::Record { fields, .. } => {
                let ids = ids_of_fields(fields);
                Ok(self.any_generic(&ids, id, 0))
            },
            Type::Container { head, elements, .. } => {
                let mut ids = copy_ids(elements);
                ids.insert(0, *head);
                assert(ids@ =~= seq![*head] + elements@);
                Ok(self.any_generic(&ids, id, 0))
            },
            Type::Union { types, .. } => Ok(self.any_generic(types, id, 0)),
        }
    }

    /// Renders a type: bound variables as what they stand for, unbound ones
    /// as `a`, `b`, ... in the order they are met.
    pub fn as_sexp(&self, id: Id) -> (r: Result<TypeExpr, TypeError>)
        ensures
            rendered_as(r, type_sx(self@, id)),
    {
        let mut issuer = Issuer::default();
        self.as_sexp_rec(id, &mut issuer, RENDER_DEPTH)
    }

    fn as_sexp_rec(&self, id: Id, issuer: &mut Issuer, depth: usize) -> (r: Result<
        TypeExpr,
        TypeError,
    >)
        ensures
            rendered_as(r, render(self@, id, old(issuer)@, depth as nat).0),
            final(issuer)@ == render(self@, id, old(issuer)@, depth as nat).1,
        decreases depth, 0nat,
    {
        if depth == 0 {
            return Err(TypeError::Cyclic);
        }
        if id >= self.alloc.len() {
            return Err(TypeError::IdNotFound(id));
        }
        match &self.alloc[id] {
            Type::Primitive { name, .. } => Ok(TypeExpr::Atom(name.clone())),
            Type::Variable { instance: Some(inst), .. } => self.as_sexp_rec(
                *inst,
                issuer,
                depth - 1,
            ),
            Type::Variable { id: v, instance: None } => {
                match issuer.name(*v) {
                    Some(n) => Ok(TypeExpr::Atom(n)),
                    None => Err(TypeError::TooManyVariables),
                }
            },
            Type::Function { args, ret, .. } => {
                let a = self.as_sexp_list(args, 0, issuer, depth - 1)?;
                let r = self.as_sexp_rec(*ret, issuer, depth - 1)?;
                let mut out: Vec<TypeExpr> = Vec::new();
                proof {
                    lemma_list_view(a);
                }
                out.push(TypeExpr::List(a));
                out.push(TypeExpr::atom(FN_TYPE_KEYWORD));
                out.push(r);
                proof {
                    lemma_list_view(out);
                    assert(views(out@) =~= seq![Sx::List(views(a@)), arrow_atom(), r@]);
                }
                Ok(TypeExpr::List(out))
            },
            Type::Record { fields, .. } => {
                let ids = ids_of_fields(fields);
                let tys = self.as_sexp_list(&ids, 0, issuer, depth - 1)?;
                assert(tys@.len() == fields@.len()) by {
                    lemma_render_list_len(self@, ids@, 0, old(issuer)@, (depth - 1) as nat);
                }
                let mut out: Vec<TypeExpr> = Vec::new();
                out.push(TypeExpr::atom(RECORD_TYPE_KEYWORD));
                let mut i: usize = 0;
                while i < fields.len()
                    invariant
                        i <= fields.len(),
                        tys@.len() == fields@.len(),
                        out@.len() == i + 1,
                        out@[0]@ == Sx::Atom(RECORD_TYPE_KEYWORD@),
                        forall|j: int|
                            0 <= j < i ==> (#[trigger] out@[j + 1])@ == field_sx(
                                fields@[j].0@,
                                tys@[j]@,
                            ),
                    decreases fields.len() - i,
                {
                    let mut f: Vec<TypeExpr> = Vec::new();
                    f.push(TypeExpr::Atom(fields[i].0.clone()));
                    f.push(TypeExpr::atom(":"));
                    f.push(tys[i].duplicate());
                    proof {
                        lemma_list_view(f);
                        assert(views(f@) =~= seq![
                            Sx::Atom(fields@[i as int].0@),
                            Sx::Atom(":"@),
                            tys@[i as int]@,
                        ]);
                    }
                    out.push(TypeExpr::List(f));
                    i = i + 1;
                }
                proof {
                    lemma_list_view(out);
                    assert(views(out@) =~= seq![Sx::Atom(RECORD_TYPE_KEYWORD@)] + fields_sx(
                        fields_view(fields@),
                        views(tys@),
                    )) by {
                        assert forall|k: int| 0 <= k < out@.len() implies views(out@)[k] == (seq![
                            Sx::Atom(RECORD_TYPE_KEYWORD@),
                        ] + fields_sx(fields_view(fields@), views(tys@)))[k] by {
                            if k > 0 {
                                assert(out@[(k - 1) + 1]@ == field_sx(
                                    fields@[k - 1].0@,
                                    tys@[k - 1]@,
                                ));
                            }
                        }
                    }
                }
                Ok(TypeExpr::List(out))
            },
            Type::Container { head, elements, .. } => {
                let mut ids = copy_ids(elements);
                ids.insert(0, *head);
                assert(ids@ =~= seq![*head] + elements@);
                let l = self.as_sexp_list(&ids, 0, issuer, depth - 1)?;
                proof {
                    lemma_list_view(l);
                }
                Ok(TypeExpr::List(l))
            },
            Type::Union { types, .. } => {
                let mut l = self.as_sexp_list(types, 0, issuer, depth - 1)?;
                let ghost before = views(l@);
                l.insert(0, TypeExpr::atom(UNION_TYPE_KEYWORD));
                proof {
                    lemma_list_view(l);
                    assert(views(l@) =~= seq![Sx::Atom(UNION_TYPE_KEYWORD@)] + before);
                }
                Ok(TypeExpr::List(l))
            },
        }
    }

    fn as_sexp_list(&self, ids: &Vec<Id>, i: usize, issuer: &mut Issuer, depth: usize) -> (r:
        Result<Vec<TypeExpr>, TypeError>)
        ensures
            rendered_all_as(r, render_list(self@, ids@, i as int, old(issuer)@, depth as nat).0),
            final(issuer)@ == render_list(self@, ids@, i as int, old(issuer)@, depth as nat).1,
        decreases depth, 1 + ids.len() - i,
    {
        if i >= ids.len() {
            let out: Vec<TypeExpr> = Vec::new();
            assert(views(out@) =~= Seq::<Sx>::empty());
            return Ok(out);
        }
        let h = self.as_sexp_rec(ids[i], issuer, depth)?;
        let mut t = self.as_sexp_list(ids, i + 1, issuer, depth)?;
        let ghost before = views(t@);
        let ghost hv = h@;
        t.insert(0, h);
        proof {
            assert(views(t@) =~= seq![hv] + before);
        }
        Ok(t)
    }

    /// The first node, in arena order, that renders as `expr`.
    pub fn from_sexp(&self, expr: &TypeExpr) -> (r: Result<Id, TypeError>)
        ensures
            match first_rendered(self@, expr@, 0) {
                Some(id) => r == Ok::<Id, TypeError>(id),
                None => r == Err::<Id, TypeError>(TypeError::NameNotFound),
            },
    {
        let mut i: usize = 0;
        while i < self.alloc.len()
            invariant
                i <= self.alloc.len(),
                first_rendered(self@, expr@, 0) == first_rendered(self@, expr@, i as int),
            decreases self.alloc.len() - i,
        {
            let id = self.alloc[i].id();
            match self.as_sexp(id) {
                Ok(e) => {
                    if e.same(expr) {
                        return Ok(id);
                    }
                },
                Err(_) => {},
            }
            i = i + 1;
        }
        Err(TypeError::NameNotFound)
    }

    fn any_generic(&self, ids: &Vec<Id>, bound: Id, i: usize) -> (r: bool)
        requires
            self.wf(),
            bound <= self@.len(),
        ensures
            r == generic_any(self@, ids@, bound, i as int),
        decreases bound, 0nat, ids.len() - i,
    {
        if i >= ids.len() {
            false
        } else if ids[i] >= bound {
            false
        } else {
            match self.is_generic(ids[i]) {
                Ok(true) => true,
                _ => self.any_generic(ids, bound, i + 1),
            }
        }
    }
}

/// The ids that a node refers to.
pub fn children_of(node: &Type) -> (r: Vec<Id>)
    ensures
        r@ == node@.children(),
{
    match node {
        Type::Primitive { .. } => Vec::new(),
        Type::Variable { instance, .. } => {
            let mut ids: Vec<Id> = Vec::new();
            match instance {
                Some(t) => {
                    ids.push(*t);
                    assert(ids@ =~= seq![*t]);
                },
                None => {},
            }
            ids
        },
        Type::Function { args, ret, .. } => {
            let mut ids = copy_ids(args);
            ids.push(*ret);
            ids
        },
        Type::Record { fields, .. } => ids_of_fields(fields),
        Type::Container { head, elements, .. } => {
            let mut ids = copy_ids(elements);
            ids.insert(0, *head);
            assert(ids@ =~= seq![*head] + elements@);
            ids
        },
        Type::Union { types, .. } => copy_ids(types),
    }
}

/// Whether every id of the list is below `bound`.
pub fn ids_below(ids: &Vec<Id>, bound: usize) -> (r: bool)
    ensures
        r == all_below(ids@, bound as int),
        !r ==> exists|k: int| 0 <= k < ids@.len() && ids@[k] >= bound,
{
    let mut i: usize = 0;
    while i < ids.len()
        invariant
            i <= ids.len(),
            forall|j: int| 0 <= j < i ==> (#[trigger] ids@[j]) < bound,
        decreases ids.len() - i,
    {
        if ids[i] >= bound {
            return false;
        }
        i = i + 1;
    }
    true
}

/// The type ids of a field list.
pub fn ids_of_fields(fields: &Vec<(String, Id)>) -> (r: Vec<Id>)
    ensures
        r@ == field_ids(fields_view(fields@)),
{
    let mut out: Vec<Id> = Vec::new();
    let mut i: usize = 0;
    while i < fields.len()
        invariant
            i <= fields.len(),
            out@.len() == i,
            forall|j: int| 0 <= j < i ==> out@[j] == fields@[j].1,
        decreases fields.len() - i,
    {
        out.push(fields[i].1);
        i = i + 1;
    }
    proof {
        assert(out@ =~= field_ids(fields_view(fields@)));
    }
    out
}

} // verus!
