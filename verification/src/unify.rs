//! Unification on the arena: representatives, the occurs check, unifying two
//! types, and renaming the generic variables of a type.

use crate::error::TypeError;
use crate::subtyping::{depth_for, search_depth};
use crate::type_alloc::{all_below, ids_of_fields, node_fits, TypeAlloc};
use crate::type_env::{id_set, ids_to_set, lemma_id_set_below, TypeEnv};
use crate::types::{copy_ids, field_ids, fields_view, Id, Type, TypeV};
use vstd::prelude::*;

verus! {

/// The representative of type `t`: the node at the end of the chain of
/// instances that starts at `t`, following at most `fuel` of them.
pub open spec fn chain_end(arena: Seq<TypeV>, t: Id, fuel: nat) -> Result<Id, TypeError>
    decreases fuel,
{
    if t >= arena.len() {
        Ok(t)
    } else {
        match arena[t as int] {
            TypeV::Variable { instance: Some(inst), .. } => if fuel == 0 {
                Err(TypeError::Cyclic)
            } else {
                chain_end(arena, inst, (fuel - 1) as nat)
            },
            _ => Ok(t),
        }
    }
}

/// Whether node `t` is a variable bound to something.
pub open spec fn is_bound(arena: Seq<TypeV>, t: Id) -> bool {
    t < arena.len() && arena[t as int] is Variable && arena[t as int]->Variable_instance is Some
}

/// The arena after the variable `t` was pointed at `root`.
pub open spec fn rebound(arena: Seq<TypeV>, t: Id, root: Id) -> Seq<TypeV> {
    arena.update(t as int, TypeV::Variable { id: arena[t as int].id(), instance: Some(root) })
}

/// Whether variable `v` occurs in type `t`: it is the representative of `t`
/// or occurs in one of the types that the representative refers to.
pub open spec fn occurs(arena: Seq<TypeV>, v: Id, t: Id, fuel: nat) -> Result<bool, TypeError>
    decreases fuel, 0nat,
{
    if fuel == 0 {
        Err(TypeError::Cyclic)
    } else {
        match chain_end(arena, t, arena.len()) {
            Err(e) => Err(e),
            Ok(p) => if p == v {
                Ok(true)
            } else if p >= arena.len() {
                Ok(false)
            } else {
                match arena[p as int] {
                    TypeV::Variable { .. } => Ok(false),
                    node => occurs_any(arena, v, node.children(), 0, (fuel - 1) as nat),
                }
            },
        }
    }
}

/// Whether variable `v` occurs in one of `types[i..]`.
pub open spec fn occurs_any(arena: Seq<TypeV>, v: Id, types: Seq<Id>, i: int, fuel: nat) -> Result<
    bool,
    TypeError,
>
    decreases fuel, 1nat, types.len() - i,
{
    if i < 0 || i >= types.len() {
        Ok(false)
    } else {
        match occurs(arena, v, types[i], fuel) {
            Err(e) => Err(e),
            Ok(true) => Ok(true),
            Ok(false) => occurs_any(arena, v, types, i + 1, fuel),
        }
    }
}

/// The labels of two field lists agree, position by position.
pub open spec fn same_labels(fa: Seq<(Seq<char>, Id)>, fb: Seq<(Seq<char>, Id)>) -> bool {
    fa.len() == fb.len() && forall|i: int| 0 <= i < fa.len() ==> (#[trigger] fa[i]).0 == fb[i].0
}

/// The fields of `fa` with the types `tys` in place of their own.
pub open spec fn retyped(fa: Seq<(Seq<char>, Id)>, tys: Seq<Id>) -> Seq<(Seq<char>, Id)> {
    Seq::new(fa.len(), |i: int| (fa[i].0, tys[i]))
}

/// What unifying `t` and `s` returns, and the arena after it. Equal
/// representatives are left alone. An unbound variable is bound to the other
/// side unless it occurs there. Two functions, two records or two containers
/// of the same shape are unified part by part, and a node over the unified
/// parts is added. Anything else does not unify.
pub open spec fn unified(arena: Seq<TypeV>, t: Id, s: Id, fuel: nat) -> (
    Result<Id, TypeError>,
    Seq<TypeV>,
)
    decreases fuel, 0nat,
{
    match (chain_end(arena, t, arena.len()), chain_end(arena, s, arena.len())) {
        (Err(e), _) => (Err(e), arena),
        (_, Err(e)) => (Err(e), arena),
        (Ok(a), Ok(b)) => if a == b {
            (Ok(a), arena)
        } else if a >= arena.len() {
            (Err(TypeError::IdNotFound(a)), arena)
        } else if b >= arena.len() {
            (Err(TypeError::IdNotFound(b)), arena)
        } else if fuel == 0 {
            (Err(TypeError::Cyclic), arena)
        } else if arena[a as int] is Variable {
            match occurs(arena, a, b, depth_for(arena.len())) {
                Err(e) => (Err(e), arena),
                Ok(true) => (Err(TypeError::Recursive), arena),
                Ok(false) => (Ok(b), rebound(arena, a, b)),
            }
        } else if arena[b as int] is Variable {
            match occurs(arena, b, a, depth_for(arena.len())) {
                Err(e) => (Err(e), arena),
                Ok(true) => (Err(TypeError::Recursive), arena),
                Ok(false) => (Ok(a), rebound(arena, b, a)),
            }
        } else {
            match (arena[a as int], arena[b as int]) {
                (
                    TypeV::Function { args: xs, ret: x, .. },
                    TypeV::Function { args: ys, ret: y, .. },
                ) => if xs.len() != ys.len() {
                    (Err(TypeError::Mismatch(a, b)), arena)
                } else {
                    let (r, a1) = unified_all(arena, xs.push(x), ys.push(y), 0, (fuel - 1) as nat);
                    match r {
                        Err(e) => (Err(e), a1),
                        Ok(ids) => (
                            Ok(a1.len() as Id),
                            a1.push(
                                TypeV::Function {
                                    id: a1.len() as Id,
                                    args: ids.drop_last(),
                                    ret: ids.last(),
                                },
                            ),
                        ),
                    }
                },
                (TypeV::Record { fields: fa, .. }, TypeV::Record { fields: fb, .. }) => if
                    !same_labels(fa, fb) {
                    (Err(TypeError::Mismatch(a, b)), arena)
                } else {
                    let (r, a1) = unified_all(
                        arena,
                        field_ids(fa),
                        field_ids(fb),
                        0,
                        (fuel - 1) as nat,
                    );
                    match r {
                        Err(e) => (Err(e), a1),
                        Ok(ids) => (
                            Ok(a1.len() as Id),
                            a1.push(TypeV::Record { id: a1.len() as Id, fields: retyped(fa, ids) }),
                        ),
                    }
                },
                (
                    TypeV::Container { head: ha, elements: xs, .. },
                    TypeV::Container { head: hb, elements: ys, .. },
                ) => if xs.len() != ys.len() {
                    (Err(TypeError::Mismatch(a, b)), arena)
                } else {
                    let (r, a1) = unified_all(
                        arena,
                        seq![ha] + xs,
                        seq![hb] + ys,
                        0,
                        (fuel - 1) as nat,
                    );
                    match r {
                        Err(e) => (Err(e), a1),
                        Ok(ids) => (
                            Ok(a1.len() as Id),
                            a1.push(
                                TypeV::Container {
                                    id: a1.len() as Id,
                                    head: ids[0],
                                    elements: ids.skip(1),
                                },
                            ),
                        ),
                    }
                },
                _ => (Err(TypeError::Mismatch(a, b)), arena),
            }
        },
    }
}

/// Unifies `xs[j]` with `ys[j]` for `j` from `i` on, left to right.
pub open spec fn unified_all(arena: Seq<TypeV>, xs: Seq<Id>, ys: Seq<Id>, i: int, fuel: nat) -> (
    Result<Seq<Id>, TypeError>,
    Seq<TypeV>,
)
    decreases fuel, 1nat, xs.len() - i,
{
    if i < 0 || i >= xs.len() || i >= ys.len() {
        (Ok(Seq::empty()), arena)
    } else {
        let (h, a1) = unified(arena, xs[i], ys[i], fuel);
        match h {
            Err(e) => (Err(e), a1),
            Ok(h) => {
                let (t, a2) = unified_all(a1, xs, ys, i + 1, fuel);
                match t {
                    Err(e) => (Err(e), a2),
                    Ok(t) => (Ok(seq![h] + t), a2),
                }
            },
        }
    }
}

/// The fresh variable that stands for `p` in `map[i..]`, if one was made.
pub open spec fn mapped(map: Seq<(Id, Id)>, p: Id, i: int) -> Option<Id>
    decreases map.len() - i,
{
    if i < 0 || i >= map.len() {
        None
    } else if map[i].0 == p {
        Some(map[i].1)
    } else {
        mapped(map, p, i + 1)
    }
}

/// Every fresh variable in `map` is below `bound`.
pub open spec fn map_below(map: Seq<(Id, Id)>, bound: int) -> bool {
    forall|i: int| 0 <= i < map.len() ==> (#[trigger] map[i]).1 < bound
}

/// A copy of type `tp` in which every variable that occurs in none of the
/// types `ng` is replaced by a fresh one, the same variable by the same fresh
/// one throughout. Returns the copy, the arena and the renaming after it.
/// Primitives and the variables that may not be generalised stay themselves;
/// every other node is rebuilt over its renamed parts.
pub open spec fn freshened(
    arena: Seq<TypeV>,
    map: Seq<(Id, Id)>,
    tp: Id,
    ng: Seq<Id>,
    fuel: nat,
) -> (Result<Id, TypeError>, Seq<TypeV>, Seq<(Id, Id)>)
    decreases fuel, 0nat,
{
    if fuel == 0 {
        (Err(TypeError::Cyclic), arena, map)
    } else {
        match chain_end(arena, tp, arena.len()) {
            Err(e) => (Err(e), arena, map),
            Ok(p) => if p >= arena.len() {
                (Err(TypeError::IdNotFound(p)), arena, map)
            } else {
                match arena[p as int] {
                    TypeV::Variable { .. } => match occurs_any(
                        arena,
                        p,
                        ng,
                        0,
                        depth_for(arena.len()),
                    ) {
                        Err(e) => (Err(e), arena, map),
                        Ok(true) => (Ok(p), arena, map),
                        Ok(false) => match mapped(map, p, 0) {
                            Some(q) => (Ok(q), arena, map),
                            None => (
                                Ok(arena.len() as Id),
                                arena.push(
                                    TypeV::Variable { id: arena.len() as Id, instance: None },
                                ),
                                map.push((p, arena.len() as Id)),
                            ),
                        },
                    },
                    TypeV::Primitive { .. } => (Ok(p), arena, map),
                    TypeV::Function { args, ret, .. } => {
                        let (r, a1, m1) = freshened_all(
                            arena,
                            map,
                            args.push(ret),
                            ng,
                            0,
                            (fuel - 1) as nat,
                        );
                        match r {
                            Err(e) => (Err(e), a1, m1),
                            Ok(ids) => (
                                Ok(a1.len() as Id),
                                a1.push(
                                    TypeV::Function {
                                        id: a1.len() as Id,
                                        args: ids.drop_last(),
                                        ret: ids.last(),
                                    },
                                ),
                                m1,
                            ),
                        }
                    },
                    TypeV::Record { fields, .. } => {
                        let (r, a1, m1) = freshened_all(
                            arena,
                            map,
                            field_ids(fields),
                            ng,
                            0,
                            (fuel - 1) as nat,
                        );
                        match r {
                            Err(e) => (Err(e), a1, m1),
                            Ok(ids) => (
                                Ok(a1.len() as Id),
                                a1.push(
                                    TypeV::Record {
                                        id: a1.len() as Id,
                                        fields: retyped(fields, ids),
                                    },
                                ),
                                m1,
                            ),
                        }
                    },
                    TypeV::Container { head, elements, .. } => {
                        let (r, a1, m1) = freshened_all(
                            arena,
                            map,
                            elements,
                            ng,
                            0,
                            (fuel - 1) as nat,
                        );
                        match r {
                            Err(e) => (Err(e), a1, m1),
                            Ok(ids) => (
                                Ok(a1.len() as Id),
                                a1.push(
                                    TypeV::Container { id: a1.len() as Id, head, elements: ids },
                                ),
                                m1,
                            ),
                        }
                    },
                    TypeV::Union { types, .. } => {
                        let (r, a1, m1) = freshened_all(
                            arena,
                            map,
                            types,
                            ng,
                            0,
                            (fuel - 1) as nat,
                        );
                        match r {
                            Err(e) => (Err(e), a1, m1),
                            Ok(ids) => (
                                Ok(a1.len() as Id),
                                a1.push(
                                    TypeV::Union {
                                        id: a1.len() as Id,
                                        types: id_set(ids, ids.len() as int),
                                    },
                                ),
                                m1,
                            ),
                        }
                    },
                }
            },
        }
    }
}

/// The copies of `types[i..]`, left to right, under one renaming.
pub open spec fn freshened_all(
    arena: Seq<TypeV>,
    map: Seq<(Id, Id)>,
    types: Seq<Id>,
    ng: Seq<Id>,
    i: int,
    fuel: nat,
) -> (Result<Seq<Id>, TypeError>, Seq<TypeV>, Seq<(Id, Id)>)
    decreases fuel, 1nat, types.len() - i,
{
    if i < 0 || i >= types.len() {
        (Ok(Seq::empty()), arena, map)
    } else {
        let (h, a1, m1) = freshened(arena, map, types[i], ng, fuel);
        match h {
            Err(e) => (Err(e), a1, m1),
            Ok(h) => {
                let (t, a2, m2) = freshened_all(a1, m1, types, ng, i + 1, fuel);
                match t {
                    Err(e) => (Err(e), a2, m2),
                    Ok(t) => (Ok(seq![h] + t), a2, m2),
                }
            },
        }
    }
}

/// Whether two field lists carry the same labels in the same order.
pub fn labels_agree(fa: &Vec<(String, Id)>, fb: &Vec<(String, Id)>) -> (r: bool)
    ensures
        r == same_labels(fields_view(fa@), fields_view(fb@)),
{
    if fa.len() != fb.len() {
        return false;
    }
    let mut i: usize = 0;
    while i < fa.len()
        invariant
            i <= fa.len(),
            fa.len() == fb.len(),
            forall|j: int| 0 <= j < i ==> (#[trigger] fields_view(fa@)[j]).0 == fields_view(fb@)[j].0,
        decreases fa.len() - i,
    {
        if !(fa[i].0 == fb[i].0) {
            assert(fields_view(fa@)[i as int].0 != fields_view(fb@)[i as int].0);
            return false;
        }
        i = i + 1;
    }
    true
}

/// The fields of `fa` with the types `tys`.
pub fn retype_fields(fa: &Vec<(String, Id)>, tys: &Vec<Id>) -> (r: Vec<(String, Id)>)
    requires
        fa.len() == tys.len(),
    ensures
        fields_view(r@) == retyped(fields_view(fa@), tys@),
{
    let mut out: Vec<(String, Id)> = Vec::new();
    let mut i: usize = 0;
    while i < fa.len()
        invariant
            i <= fa.len(),
            fa.len() == tys.len(),
            out@.len() == i,
            forall|j: int|
                0 <= j < i ==> (#[trigger] out@[j]).0@ == fa@[j].0@ && out@[j].1 == tys@[j],
        decreases fa.len() - i,
    {
        out.push((fa[i].0.clone(), tys[i]));
        i = i + 1;
    }
    proof {
        assert(fields_view(out@) =~= retyped(fields_view(fa@), tys@));
    }
    out
}

impl TypeAlloc {
    /// The representative of `t`, without changing anything. There always
    /// is one.
    pub fn find(&self, t: Id) -> (r: Result<Id, TypeError>)
        requires
            self.wf(),
        ensures
            r == chain_end(self@, t, self@.len()),
            r is Ok,
            r matches Ok(p) ==> (t < self@.len() ==> p < self@.len()) && !is_bound(self@, p),
    {
        proof {
            if t < self@.len() {
                assert(chain_end(self@, t, self@.len()) is Ok);
            }
            lemma_chain_end_unbound(self@, t, self@.len());
            if t < self@.len() {
                lemma_chain_end_within(self@, t, self@.len());
            }
        }
        self.follow(t)
    }

    /// Whether variable `v` occurs in type `t`.
    pub fn occurs_in(&self, v: Id, t: Id, fuel: usize) -> (r: Result<bool, TypeError>)
        requires
            self.wf(),
        ensures
            r == occurs(self@, v, t, fuel as nat),
        decreases fuel, 0nat,
    {
        if fuel == 0 {
            return Err(TypeError::Cyclic);
        }
        let p = self.find(t)?;
        if p == v {
            return Ok(true);
        }
        if p >= self.len() {
            return Ok(false);
        }
        match self.node(p) {
            Type::Variable { .. } => Ok(false),
            Type::Primitive { .. } => {
                let ids: Vec<Id> = Vec::new();
                assert(ids@ =~= self@[p as int].children());
                self.occurs_in_any(v, &ids, 0, fuel - 1)
            },
            Type::Function { args, ret, .. } => {
                let mut ids = copy_ids(args);
                ids.push(*ret);
                self.occurs_in_any(v, &ids, 0, fuel - 1)
            },
            Type::Record { fields, .. } => {
                let ids = ids_of_fields(fields);
                self.occurs_in_any(v, &ids, 0, fuel - 1)
            },
            Type::Container { head, elements, .. } => {
                let mut ids = copy_ids(elements);
                ids.insert(0, *head);
                assert(ids@ =~= seq![*head] + elements@);
                self.occurs_in_any(v, &ids, 0, fuel - 1)
            },
            Type::Union { types, .. } => self.occurs_in_any(v, types, 0, fuel - 1),
        }
    }

    fn occurs_in_any(&self, v: Id, types: &Vec<Id>, i: usize, fuel: usize) -> (r: Result<
        bool,
        TypeError,
    >)
        requires
            self.wf(),
        ensures
            r == occurs_any(self@, v, types@, i as int, fuel as nat),
        decreases fuel, 1nat, types.len() - i,
    {
        if i >= types.len() {
            return Ok(false);
        }
        if self.occurs_in(v, types[i], fuel)? {
            return Ok(true);
        }
        self.occurs_in_any(v, types, i + 1, fuel)
    }

    /// Unifies `t` and `s`, descending at most `fuel` levels.
    pub fn unify_in(&mut self, t: Id, s: Id, fuel: usize) -> (r: Result<Id, TypeError>)
        requires
            old(self).wf(),
        ensures
            final(self).wf(),
            r == unified(old(self)@, t, s, fuel as nat).0,
            final(self)@ == unified(old(self)@, t, s, fuel as nat).1,
            old(self)@.len() <= final(self)@.len(),
            r matches Ok(u) ==> ((t < old(self)@.len() && s < old(self)@.len()) ==> u
                < final(self)@.len()),
        decreases fuel, 0nat,
    {
        let a = self.find(t)?;
        let b = self.find(s)?;
        if a == b {
            return Ok(a);
        }
        if a >= self.len() {
            return Err(TypeError::IdNotFound(a));
        }
        if b >= self.len() {
            return Err(TypeError::IdNotFound(b));
        }
        if fuel == 0 {
            return Err(TypeError::Cyclic);
        }
        let a_var = match self.node(a) {
            Type::Variable { .. } => true,
            _ => false,
        };
        let b_var = match self.node(b) {
            Type::Variable { .. } => true,
            _ => false,
        };
        if a_var {
            if self.occurs_in(a, b, search_depth(self.len()))? {
                return Err(TypeError::Recursive);
            }
            proof {
                assert(node_fits(self@[a as int], a as int, self@.len() as int));
            }
            self.bind(a, b);
            return Ok(b);
        }
        if b_var {
            if self.occurs_in(b, a, search_depth(self.len()))? {
                return Err(TypeError::Recursive);
            }
            proof {
                assert(node_fits(self@[b as int], b as int, self@.len() as int));
            }
            self.bind(b, a);
            return Ok(a);
        }
        proof {
            assert(node_fits(self@[a as int], a as int, self@.len() as int));
            assert(node_fits(self@[b as int], b as int, self@.len() as int));
        }
        let na = self.node(a).duplicate();
        let nb = self.node(b).duplicate();
        match (na, nb) {
            (Type::Function { args: xs, ret: x, .. }, Type::Function { args: ys, ret: y, .. }) => {
                if xs.len() != ys.len() {
                    return Err(TypeError::Mismatch(a, b));
                }
                let mut xs = xs;
                let mut ys = ys;
                xs.push(x);
                ys.push(y);
                let mut ids = self.unify_all(&xs, &ys, 0, fuel - 1)?;
                proof {
                    lemma_unified_all_len(old(self)@, xs@, ys@, 0, (fuel - 1) as nat);
                }
                let ghost all = ids@;
                let ret = ids.pop().unwrap();
                assert(ids@ =~= all.drop_last());
                let id = self.issue_id();
                self.insert(Type::function(id, ids, ret));
                Ok(id)
            },
            (Type::Record { fields: fa, .. }, Type::Record { fields: fb, .. }) => {
                if !labels_agree(&fa, &fb) {
                    return Err(TypeError::Mismatch(a, b));
                }
                let xs = ids_of_fields(&fa);
                let ys = ids_of_fields(&fb);
                let ids = self.unify_all(&xs, &ys, 0, fuel - 1)?;
                proof {
                    lemma_unified_all_len(old(self)@, xs@, ys@, 0, (fuel - 1) as nat);
                }
                let fields = retype_fields(&fa, &ids);
                assert(field_ids(fields_view(fields@)) =~= ids@);
                let id = self.issue_id();
                self.insert(Type::record(id, fields));
                Ok(id)
            },
            (
                Type::Container { head: ha, elements: xs, .. },
                Type::Container { head: hb, elements: ys, .. },
            ) => {
                if xs.len() != ys.len() {
                    return Err(TypeError::Mismatch(a, b));
                }
                let mut xs = xs;
                let mut ys = ys;
                let ghost xv = xs@;
                let ghost yv = ys@;
                xs.insert(0, ha);
                ys.insert(0, hb);
                assert(xs@ =~= seq![ha] + xv);
                assert(ys@ =~= seq![hb] + yv);
                let mut ids = self.unify_all(&xs, &ys, 0, fuel - 1)?;
                proof {
                    lemma_unified_all_len(old(self)@, xs@, ys@, 0, (fuel - 1) as nat);
                }
                let ghost all = ids@;
                let head = ids.remove(0);
                assert(ids@ =~= all.skip(1));
                let id = self.issue_id();
                self.insert(Type::container(id, head, ids));
                Ok(id)
            },
            _ => Err(TypeError::Mismatch(a, b)),
        }
    }

    fn unify_all(&mut self, xs: &Vec<Id>, ys: &Vec<Id>, i: usize, fuel: usize) -> (r: Result<
        Vec<Id>,
        TypeError,
    >)
        requires
            old(self).wf(),
            all_below(xs@, old(self)@.len() as int),
            all_below(ys@, old(self)@.len() as int),
        ensures
            final(self).wf(),
            match r {
                Ok(v) => unified_all(old(self)@, xs@, ys@, i as int, fuel as nat).0 == Ok::<
                    Seq<Id>,
                    TypeError,
                >(v@) && all_below(v@, final(self)@.len() as int),
                Err(e) => unified_all(old(self)@, xs@, ys@, i as int, fuel as nat).0 == Err::<
                    Seq<Id>,
                    TypeError,
                >(e),
            },
            final(self)@ == unified_all(old(self)@, xs@, ys@, i as int, fuel as nat).1,
            old(self)@.len() <= final(self)@.len(),
        decreases fuel, 1nat, xs.len() - i,
    {
        if i >= xs.len() || i >= ys.len() {
            return Ok(Vec::new());
        }
        let h = self.unify_in(xs[i], ys[i], fuel)?;
        let mut t = self.unify_all(xs, ys, i + 1, fuel)?;
        let ghost before = t@;
        t.insert(0, h);
        assert(t@ =~= seq![h] + before);
        Ok(t)
    }
}

/// Unifying two lists of one length gives, if anything, as many types as are
/// left of them.
pub proof fn lemma_unified_all_len(arena: Seq<TypeV>, xs: Seq<Id>, ys: Seq<Id>, i: int, fuel: nat)
    requires
        xs.len() == ys.len(),
        0 <= i <= xs.len(),
    ensures
        unified_all(arena, xs, ys, i, fuel).0 matches Ok(ids) ==> ids.len() == xs.len() - i,
    decreases xs.len() - i,
{
    if i < xs.len() {
        let (h, a1) = unified(arena, xs[i], ys[i], fuel);
        if h is Ok {
            lemma_unified_all_len(a1, xs, ys, i + 1, fuel);
        }
    }
}

/// The fresh variable recorded for `p`.
pub fn lookup_fresh(map: &Vec<(Id, Id)>, p: Id) -> (r: Option<Id>)
    ensures
        r == mapped(map@, p, 0),
        r matches Some(q) ==> exists|i: int| 0 <= i < map@.len() && (#[trigger] map@[i]).1 == q,
{
    let mut i: usize = 0;
    while i < map.len()
        invariant
            i <= map.len(),
            mapped(map@, p, 0) == mapped(map@, p, i as int),
        decreases map.len() - i,
    {
        if map[i].0 == p {
            return Some(map[i].1);
        }
        i = i + 1;
    }
    None
}

impl TypeAlloc {
    /// Copies type `tp`, renaming its generic variables as `map` says and
    /// extending `map` by the variables met for the first time.
    pub fn fresh_rec(&mut self, tp: Id, map: &mut Vec<(Id, Id)>, ng: &Vec<Id>, fuel: usize) -> (r:
        Result<Id, TypeError>)
        requires
            old(self).wf(),
            map_below(old(map)@, old(self)@.len() as int),
        ensures
            final(self).wf(),
            map_below(final(map)@, final(self)@.len() as int),
            old(self)@.len() <= final(self)@.len(),
            r == freshened(old(self)@, old(map)@, tp, ng@, fuel as nat).0,
            final(self)@ == freshened(old(self)@, old(map)@, tp, ng@, fuel as nat).1,
            final(map)@ == freshened(old(self)@, old(map)@, tp, ng@, fuel as nat).2,
            r matches Ok(q) ==> q < final(self)@.len(),
        decreases fuel, 0nat,
    {
        if fuel == 0 {
            return Err(TypeError::Cyclic);
        }
        let p = self.find(tp)?;
        if p >= self.len() {
            return Err(TypeError::IdNotFound(p));
        }
        proof {
            assert(node_fits(self@[p as int], p as int, self@.len() as int));
        }
        match self.node(p).duplicate() {
            Type::Variable { .. } => {
                if self.occurs_in_any(p, ng, 0, search_depth(self.len()))? {
                    return Ok(p);
                }
                match lookup_fresh(map, p) {
                    Some(q) => Ok(q),
                    None => {
                        let id = self.issue_id();
                        self.insert(Type::variable(id));
                        map.push((p, id));
                        Ok(id)
                    },
                }
            },
            Type::Primitive { .. } => Ok(p),
            Type::Function { args, ret, .. } => {
                let mut all = args;
                all.push(ret);
                let mut ids = self.fresh_all(&all, map, ng, 0, fuel - 1)?;
                proof {
                    lemma_freshened_all_len(old(self)@, old(map)@, all@, ng@, 0, (fuel - 1) as nat);
                }
                let ghost whole = ids@;
                let ret = ids.pop().unwrap();
                assert(ids@ =~= whole.drop_last());
                let id = self.issue_id();
                self.insert(Type::function(id, ids, ret));
                Ok(id)
            },
            Type::Record { fields, .. } => {
                let tys = ids_of_fields(&fields);
                let ids = self.fresh_all(&tys, map, ng, 0, fuel - 1)?;
                proof {
                    lemma_freshened_all_len(old(self)@, old(map)@, tys@, ng@, 0, (fuel - 1) as nat);
                }
                let out = retype_fields(&fields, &ids);
                assert(field_ids(fields_view(out@)) =~= ids@);
                let id = self.issue_id();
                self.insert(Type::record(id, out));
                Ok(id)
            },
            Type::Container { head, elements, .. } => {
                let ids = self.fresh_all(&elements, map, ng, 0, fuel - 1)?;
                let id = self.issue_id();
                proof {
                    assert forall|k: int| 0 <= k < (seq![head] + ids@).len() implies (#[trigger] (
                    seq![head] + ids@)[k]) < id by {
                        assert(old(self)@[p as int].children()[0] == head);
                        if k > 0 {
                            assert(ids@[k - 1] < id);
                        }
                    }
                }
                self.insert(Type::container(id, head, ids));
                Ok(id)
            },
            Type::Union { types, .. } => {
                let ids = self.fresh_all(&types, map, ng, 0, fuel - 1)?;
                let set = ids_to_set(&ids);
                proof {
                    lemma_id_set_below(ids@, ids@.len() as int, self@.len() as int);
                }
                let id = self.issue_id();
                self.insert(Type::union(id, set));
                Ok(id)
            },
        }
    }

    fn fresh_all(
        &mut self,
        types: &Vec<Id>,
        map: &mut Vec<(Id, Id)>,
        ng: &Vec<Id>,
        i: usize,
        fuel: usize,
    ) -> (r: Result<Vec<Id>, TypeError>)
        requires
            old(self).wf(),
            map_below(old(map)@, old(self)@.len() as int),
        ensures
            final(self).wf(),
            map_below(final(map)@, final(self)@.len() as int),
            old(self)@.len() <= final(self)@.len(),
            match r {
                Ok(v) => freshened_all(
                    old(self)@,
                    old(map)@,
                    types@,
                    ng@,
                    i as int,
                    fuel as nat,
                ).0 == Ok::<Seq<Id>, TypeError>(v@) && all_below(v@, final(self)@.len() as int),
                Err(e) => freshened_all(
                    old(self)@,
                    old(map)@,
                    types@,
                    ng@,
                    i as int,
                    fuel as nat,
                ).0 == Err::<Seq<Id>, TypeError>(e),
            },
            final(self)@ == freshened_all(
                old(self)@,
                old(map)@,
                types@,
                ng@,
                i as int,
                fuel as nat,
            ).1,
            final(map)@ == freshened_all(
                old(self)@,
                old(map)@,
                types@,
                ng@,
                i as int,
                fuel as nat,
            ).2,
        decreases fuel, 1nat, types.len() - i,
    {
        if i >= types.len() {
            return Ok(Vec::new());
        }
        let h = self.fresh_rec(types[i], map, ng, fuel)?;
        let mut t = self.fresh_all(types, map, ng, i + 1, fuel)?;
        let ghost before = t@;
        t.insert(0, h);
        assert(t@ =~= seq![h] + before);
        Ok(t)
    }
}

/// A list is copied, if at all, to as many types as are left of it.
pub proof fn lemma_freshened_all_len(
    arena: Seq<TypeV>,
    map: Seq<(Id, Id)>,
    types: Seq<Id>,
    ng: Seq<Id>,
    i: int,
    fuel: nat,
)
    requires
        0 <= i <= types.len(),
    ensures
        freshened_all(arena, map, types, ng, i, fuel).0 matches Ok(ids) ==> ids.len()
            == types.len() - i,
    decreases types.len() - i,
{
    if i < types.len() {
        let (h, a1, m1) = freshened(arena, map, types[i], ng, fuel);
        if h is Ok {
            lemma_freshened_all_len(a1, m1, types, ng, i + 1, fuel);
        }
    }
}

/// An instance of type `id`: a copy in which the variables that occur in
/// none of the `non_generic` types are replaced by fresh ones.
pub fn fresh(env: &mut TypeEnv, id: Id, non_generic: &Vec<Id>) -> (r: Result<Id, TypeError>)
    requires
        old(env).wf(),
    ensures
        final(env).wf(),
        r == freshened(
            old(env).alloc@,
            Seq::<(Id, Id)>::empty(),
            id,
            non_generic@,
            depth_for(old(env).alloc@.len()),
        ).0,
        final(env).alloc@ == freshened(
            old(env).alloc@,
            Seq::<(Id, Id)>::empty(),
            id,
            non_generic@,
            depth_for(old(env).alloc@.len()),
        ).1,
        final(env).id_map == old(env).id_map,
        final(env).variables == old(env).variables,
        old(env).alloc@.len() <= final(env).alloc@.len(),
        r matches Ok(q) ==> q < final(env).alloc@.len(),
{
    let mut map: Vec<(Id, Id)> = Vec::new();
    env.alloc.fresh_rec(id, &mut map, non_generic, search_depth(env.alloc.len()))
}

/// The representative of `t`. A bound variable at `t` is pointed straight at
/// it, so that the next search from `t` takes one step.
pub fn prune(alloc: &mut TypeAlloc, t: Id) -> (r: Result<Id, TypeError>)
    requires
        old(alloc).wf(),
    ensures
        final(alloc).wf(),
        r == chain_end(old(alloc)@, t, old(alloc)@.len()),
        r is Ok,
        final(alloc)@ == match r {
            Ok(root) => if is_bound(old(alloc)@, t) {
                rebound(old(alloc)@, t, root)
            } else {
                old(alloc)@
            },
            Err(_) => old(alloc)@,
        },
{
    let root = alloc.find(t)?;
    if t < alloc.len() {
        let bound = match alloc.node(t) {
            Type::Variable { instance: Some(_), .. } => true,
            _ => false,
        };
        if bound {
            proof {
                assert(node_fits(alloc@[t as int], t as int, alloc@.len() as int));
            }
            alloc.bind(t, root);
        }
    }
    Ok(root)
}

/// Unifies two types of the environment. A type unifies with itself, and
/// with any type of the same representative, and nothing changes by it.
pub fn unify(env: &mut TypeEnv, t: Id, s: Id) -> (r: Result<Id, TypeError>)
    requires
        old(env).wf(),
    ensures
        final(env).wf(),
        r == unified(old(env).alloc@, t, s, depth_for(old(env).alloc@.len())).0,
        final(env).alloc@ == unified(old(env).alloc@, t, s, depth_for(old(env).alloc@.len())).1,
        final(env).id_map == old(env).id_map,
        final(env).variables == old(env).variables,
        old(env).alloc@.len() <= final(env).alloc@.len(),
        chain_end(old(env).alloc@, t, old(env).alloc@.len()) == chain_end(
            old(env).alloc@,
            s,
            old(env).alloc@.len(),
        ) ==> r is Ok && final(env).alloc@ == old(env).alloc@,
{
    proof {
        lemma_unify_same(old(env).alloc@, t, depth_for(old(env).alloc@.len()));
        if t < old(env).alloc@.len() {
            assert(chain_end(old(env).alloc@, t, old(env).alloc@.len()) is Ok);
        }
    }
    env.alloc.unify_in(t, s, search_depth(env.alloc.len()))
}

/// Whether variable `v` occurs in type `t`.
pub fn occurs_in_type(alloc: &TypeAlloc, v: Id, t: Id) -> (r: Result<bool, TypeError>)
    requires
        alloc.wf(),
    ensures
        r == occurs(alloc@, v, t, depth_for(alloc@.len())),
{
    alloc.occurs_in(v, t, search_depth(alloc.len()))
}

/// Whether variable `id` occurs in one of `types`.
pub fn occurs_in(alloc: &TypeAlloc, id: Id, types: &Vec<Id>) -> (r: Result<bool, TypeError>)
    requires
        alloc.wf(),
    ensures
        r == occurs_any(alloc@, id, types@, 0, depth_for(alloc@.len())),
{
    alloc.occurs_in_any(id, types, 0, search_depth(alloc.len()))
}

/// Whether variable `id` may be generalised: it occurs in none of the
/// `non_generic` types.
pub fn is_generic(alloc: &TypeAlloc, id: Id, non_generic: &Vec<Id>) -> (r: Result<bool, TypeError>)
    requires
        alloc.wf(),
    ensures
        r == match occurs_any(alloc@, id, non_generic@, 0, depth_for(alloc@.len())) {
            Ok(b) => Ok::<bool, TypeError>(!b),
            Err(e) => Err::<bool, TypeError>(e),
        },
{
    Ok(!occurs_in(alloc, id, non_generic)?)
}

/// Unifying a type with itself changes nothing and gives its representative;
/// in an arena whose chains end it succeeds.
pub proof fn lemma_unify_same(arena: Seq<TypeV>, t: Id, fuel: nat)
    ensures
        unified(arena, t, t, fuel).1 == arena,
        chain_end(arena, t, arena.len()) matches Ok(p) ==> unified(arena, t, t, fuel).0 == Ok::<
            Id,
            TypeError,
        >(p),
        crate::type_alloc::chains_end(arena) ==> unified(arena, t, t, fuel).0 is Ok,
{
    if crate::type_alloc::chains_end(arena) && t < arena.len() {
        assert(chain_end(arena, t, arena.len()) is Ok);
    }
}

/// A chain that starts in the arena ends in it.
pub proof fn lemma_chain_end_within(arena: Seq<TypeV>, t: Id, fuel: nat)
    requires
        crate::type_alloc::arena_wf(arena),
        t < arena.len(),
    ensures
        chain_end(arena, t, fuel) matches Ok(p) ==> p < arena.len(),
    decreases fuel,
{
    if is_bound(arena, t) && fuel > 0 {
        let inst = arena[t as int]->Variable_instance->Some_0;
        assert(node_fits(arena[t as int], t as int, arena.len() as int));
        assert(arena[t as int].children()[0] == inst);
        lemma_chain_end_within(arena, inst, (fuel - 1) as nat);
    }
}

/// The end of a chain is bound to nothing.
pub proof fn lemma_chain_end_unbound(arena: Seq<TypeV>, t: Id, fuel: nat)
    ensures
        chain_end(arena, t, fuel) matches Ok(p) ==> !is_bound(arena, p),
    decreases fuel,
{
    if t < arena.len() && is_bound(arena, t) && fuel > 0 {
        lemma_chain_end_unbound(arena, arena[t as int]->Variable_instance->Some_0, (fuel - 1) as nat);
    }
}

/// A chain that ends within some number of steps ends in the same node
/// within any larger number.
pub proof fn lemma_chain_end_more_fuel(arena: Seq<TypeV>, t: Id, f1: nat, f2: nat)
    requires
        chain_end(arena, t, f1) is Ok,
        f1 <= f2,
    ensures
        chain_end(arena, t, f2) == chain_end(arena, t, f1),
    decreases f1,
{
    if t < arena.len() && is_bound(arena, t) {
        lemma_chain_end_more_fuel(
            arena,
            arena[t as int]->Variable_instance->Some_0,
            (f1 - 1) as nat,
            (f2 - 1) as nat,
        );
    }
}

/// Pointing a bound variable straight at its representative changes no
/// representative: a chain that ended in `y` still ends in `y`.
pub proof fn lemma_compress_keeps_ends(
    arena: Seq<TypeV>,
    t: Id,
    root: Id,
    f0: nat,
    x: Id,
    fuel: nat,
)
    requires
        is_bound(arena, t),
        chain_end(arena, t, f0) == Ok::<Id, TypeError>(root),
        chain_end(arena, x, fuel) is Ok,
    ensures
        chain_end(rebound(arena, t, root), x, fuel) == chain_end(arena, x, fuel),
    decreases fuel,
{
    let after = rebound(arena, t, root);
    if x >= arena.len() {
    } else if x == t {
        lemma_chain_end_unbound(arena, t, f0);
        if f0 <= fuel {
            lemma_chain_end_more_fuel(arena, t, f0, fuel);
        } else {
            lemma_chain_end_more_fuel(arena, t, fuel, f0);
        }
        assert(chain_end(after, root, (fuel - 1) as nat) == Ok::<Id, TypeError>(root));
    } else if is_bound(arena, x) {
        lemma_compress_keeps_ends(
            arena,
            t,
            root,
            f0,
            arena[x as int]->Variable_instance->Some_0,
            (fuel - 1) as nat,
        );
    }
}

/// Binding the unbound variable `a` to `b`, itself bound to nothing, sends
/// every chain that ended in `a` on to `b`, with one more step, and leaves
/// every other chain as it was.
pub proof fn lemma_bind_redirects(arena: Seq<TypeV>, a: Id, b: Id, t: Id, fuel: nat)
    requires
        a < arena.len(),
        arena[a as int] is Variable,
        !is_bound(arena, a),
        !is_bound(arena, b),
        a != b,
        chain_end(arena, t, fuel) is Ok,
    ensures
        chain_end(rebound(arena, a, b), t, fuel + 1) == if chain_end(arena, t, fuel) == Ok::<
            Id,
            TypeError,
        >(a) {
            Ok::<Id, TypeError>(b)
        } else {
            chain_end(arena, t, fuel)
        },
    decreases fuel,
{
    let after = rebound(arena, a, b);
    if t >= arena.len() {
    } else if t == a {
        assert(chain_end(after, b, fuel) == Ok::<Id, TypeError>(b));
    } else if is_bound(arena, t) {
        let inst = arena[t as int]->Variable_instance->Some_0;
        lemma_bind_redirects(arena, a, b, inst, (fuel - 1) as nat);
    } else {
    }
}

/// After two types were unified by binding a variable, they have one
/// representative: where the representative of `t` or of `s` is an unbound
/// variable and unification succeeds, both chains end in what it returned.
pub proof fn lemma_unify_joins(arena: Seq<TypeV>, t: Id, s: Id, fuel: nat)
    requires
        unified(arena, t, s, fuel).0 is Ok,
        chain_end(arena, t, arena.len()) matches Ok(a) && chain_end(arena, s, arena.len()) matches Ok(
            b,
        ) && a != b && a < arena.len() && b < arena.len() && (arena[a as int] is Variable
            || arena[b as int] is Variable),
    ensures
        ({
            let (r, after) = unified(arena, t, s, fuel);
            &&& chain_end(after, t, arena.len() + 1) == r
            &&& chain_end(after, s, arena.len() + 1) == r
        }),
{
    let a = chain_end(arena, t, arena.len())->Ok_0;
    let b = chain_end(arena, s, arena.len())->Ok_0;
    lemma_chain_end_unbound(arena, t, arena.len());
    lemma_chain_end_unbound(arena, s, arena.len());
    if arena[a as int] is Variable {
        lemma_bind_redirects(arena, a, b, t, arena.len());
        lemma_bind_redirects(arena, a, b, s, arena.len());
    } else {
        lemma_bind_redirects(arena, b, a, t, arena.len());
        lemma_bind_redirects(arena, b, a, s, arena.len());
    }
}

} // verus!
