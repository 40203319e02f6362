//! Subtyping is transitive.

use crate::error::TypeError;
use crate::subtyping::{
    field_at, is_atom_literal, is_getter, is_int_literal, is_str_literal, labels_within,
    lemma_subtype_all_each, resolve, subtype, subtype_all, subtype_any, subtype_fields,
    subtype_nodes, Nominal,
};
use crate::type_alloc::{arena_wf, node_fits};
use crate::types::{Id, TypeV};
use vstd::prelude::*;

verus! {

/// `a <: b` holds within `f` levels.
pub open spec fn holds(arena: Seq<TypeV>, nom: Nominal, a: Id, b: Id, f: nat) -> bool {
    subtype(arena, nom, a, b, f) == Ok::<bool, TypeError>(true)
}

/// The rules hold of the two nodes within `f` levels.
pub open spec fn holds_nodes(arena: Seq<TypeV>, nom: Nominal, a: Id, b: Id, f: nat) -> bool {
    subtype_nodes(arena, nom, a, b, f) == Ok::<bool, TypeError>(true)
}

/// A node that stands for itself: neither a bound variable nor a projection.
pub open spec fn settled(arena: Seq<TypeV>, r: Id) -> bool {
    &&& r < arena.len()
    &&& match arena[r as int] {
        TypeV::Variable { instance: Some(_), .. } => false,
        TypeV::Container { head, elements, .. } => !(is_getter(arena, head) && elements.len() == 2),
        _ => true,
    }
}

/// The environment names a top type that is what it is called: the name
/// `any` stands for a primitive that is no literal.
pub open spec fn has_top(arena: Seq<TypeV>, nom: Nominal) -> bool {
    &&& arena_wf(arena)
    &&& nom.any matches Some(any) && any < arena.len() && arena[any as int] is Primitive && {
        let name = arena[any as int]->Primitive_name;
        !is_atom_literal(name) && !is_int_literal(name) && !is_str_literal(name)
    }
}

/// A type whose chain of instances ends in a node that stands for itself
/// stands for that node.
pub proof fn lemma_resolve_follows_chain(arena: Seq<TypeV>, t: Id, f: nat)
    requires
        arena_wf(arena),
        t < arena.len(),
        f >= 1,
        crate::unify::chain_end(arena, t, (f - 1) as nat) matches Ok(p) && settled(arena, p),
    ensures
        resolve(arena, t, f) == crate::unify::chain_end(arena, t, (f - 1) as nat),
    decreases f,
{
    if crate::unify::is_bound(arena, t) {
        let inst = arena[t as int]->Variable_instance->Some_0;
        assert(node_fits(arena[t as int], t as int, arena.len() as int));
        assert(arena[t as int].children()[0] == inst);
        lemma_resolve_follows_chain(arena, inst, (f - 1) as nat);
    }
}

/// Whether the representative of `a` stands for itself: it is neither a
/// projection nor out of the arena.
pub open spec fn stands_clear(arena: Seq<TypeV>, a: Id) -> bool {
    a < arena.len() && (crate::unify::chain_end(arena, a, arena.len()) matches Ok(p) && settled(
        arena,
        p,
    ))
}

/// What a type stands for stands for itself.
pub proof fn lemma_resolve_settled(arena: Seq<TypeV>, id: Id, f: nat)
    ensures
        resolve(arena, id, f) matches Ok(r) ==> settled(arena, r),
    decreases f,
{
    if f > 0 && id < arena.len() {
        match arena[id as int] {
            TypeV::Variable { instance: Some(inst), .. } => {
                lemma_resolve_settled(arena, inst, (f - 1) as nat);
            },
            TypeV::Container { head, elements, .. } => {
                if is_getter(arena, head) && elements.len() == 2 {
                    lemma_resolve_settled(arena, elements[0], (f - 1) as nat);
                    lemma_resolve_settled(arena, elements[1], (f - 1) as nat);
                    match resolve(arena, elements[0], (f - 1) as nat) {
                        Ok(r) => match arena[r as int] {
                            TypeV::Record { fields, .. } => match resolve(
                                arena,
                                elements[1],
                                (f - 1) as nat,
                            ) {
                                Ok(k) => match arena[k as int] {
                                    TypeV::Primitive { name, .. } => match field_at(
                                        fields,
                                        crate::subtyping::atom_label(name),
                                        0,
                                    ) {
                                        Some(t) => {
                                            lemma_resolve_settled(arena, t, (f - 1) as nat);
                                        },
                                        None => {},
                                    },
                                    _ => {},
                                },
                                _ => {},
                            },
                            _ => {},
                        },
                        _ => {},
                    }
                }
            },
            _ => {},
        }
    }
}

/// What a type stands for within some levels, it stands for within more.
pub proof fn lemma_resolve_more_fuel(arena: Seq<TypeV>, id: Id, f1: nat, f2: nat)
    requires
        resolve(arena, id, f1) is Ok,
        f1 <= f2,
    ensures
        resolve(arena, id, f2) == resolve(arena, id, f1),
    decreases f1,
{
    if f1 > 0 && id < arena.len() {
        let g1 = (f1 - 1) as nat;
        let g2 = (f2 - 1) as nat;
        match arena[id as int] {
            TypeV::Variable { instance: Some(inst), .. } => {
                lemma_resolve_more_fuel(arena, inst, g1, g2);
            },
            TypeV::Container { head, elements, .. } => {
                if is_getter(arena, head) && elements.len() == 2 {
                    lemma_resolve_more_fuel(arena, elements[0], g1, g2);
                    let r = resolve(arena, elements[0], g1)->Ok_0;
                    match arena[r as int] {
                        TypeV::Record { fields, .. } => {
                            lemma_resolve_more_fuel(arena, elements[1], g1, g2);
                            let k = resolve(arena, elements[1], g1)->Ok_0;
                            match arena[k as int] {
                                TypeV::Primitive { name, .. } => match field_at(
                                    fields,
                                    crate::subtyping::atom_label(name),
                                    0,
                                ) {
                                    Some(t) => {
                                        lemma_resolve_more_fuel(arena, t, g1, g2);
                                    },
                                    None => {},
                                },
                                _ => {},
                            }
                        },
                        _ => {},
                    }
                }
            },
            _ => {},
        }
    }
}

/// What holds within some levels holds within more.
pub proof fn lemma_sub_mono(arena: Seq<TypeV>, nom: Nominal, a: Id, b: Id, f1: nat, f2: nat)
    requires
        holds(arena, nom, a, b, f1),
        f1 <= f2,
    ensures
        holds(arena, nom, a, b, f2),
    decreases f1, 0nat, 0nat,
{
    if a != b {
        lemma_resolve_more_fuel(arena, a, f1, f2);
        lemma_resolve_more_fuel(arena, b, f1, f2);
        let ra = resolve(arena, a, f1)->Ok_0;
        let rb = resolve(arena, b, f1)->Ok_0;
        if ra != rb {
            lemma_nodes_mono(arena, nom, ra, rb, (f1 - 1) as nat, (f2 - 1) as nat);
        }
    }
}

/// The rules on two nodes hold within more levels once they hold within some.
pub proof fn lemma_nodes_mono(arena: Seq<TypeV>, nom: Nominal, ra: Id, rb: Id, f1: nat, f2: nat)
    requires
        holds_nodes(arena, nom, ra, rb, f1),
        f1 <= f2,
    ensures
        holds_nodes(arena, nom, ra, rb, f2),
    decreases f1, 2nat, 0nat,
{
    match (arena[ra as int], arena[rb as int]) {
        (_, TypeV::Union { types, .. }) => {
            lemma_any_mono(arena, nom, ra, types, 0, f1, f2);
        },
        (TypeV::Function { args: xs, ret: x, .. }, TypeV::Function { args: ys, ret: y, .. }) => {
            lemma_all_mono(arena, nom, ys, xs, 0, f1, f2);
            lemma_sub_mono(arena, nom, x, y, f1, f2);
        },
        (TypeV::Record { fields: fa, .. }, TypeV::Record { fields: fb, .. }) => {
            lemma_fields_mono(arena, nom, fa, fb, 0, f1, f2);
        },
        (
            TypeV::Container { head: ha, elements: xs, .. },
            TypeV::Container { head: hb, elements: ys, .. },
        ) => {
            lemma_all_mono(arena, nom, xs, ys, 0, f1, f2);
        },
        (TypeV::Variable { .. }, TypeV::Variable { .. }) => {},
        (_, TypeV::Primitive { id, .. }) if nom.any == Some(id) => {},
        (TypeV::Primitive { name, .. }, _) => {
            if is_atom_literal(name) {
                lemma_sub_mono(arena, nom, nom.atom->Some_0, rb, f1, f2);
            } else if is_int_literal(name) {
                lemma_sub_mono(arena, nom, nom.integer->Some_0, rb, f1, f2);
            } else if is_str_literal(name) {
                lemma_sub_mono(arena, nom, nom.text->Some_0, rb, f1, f2);
            }
        },
        _ => {},
    }
}

/// A supertype among the members stays one within more levels.
pub proof fn lemma_any_mono(
    arena: Seq<TypeV>,
    nom: Nominal,
    a: Id,
    types: Seq<Id>,
    i: int,
    f1: nat,
    f2: nat,
)
    requires
        subtype_any(arena, nom, a, types, i, f1),
        f1 <= f2,
    ensures
        subtype_any(arena, nom, a, types, i, f2),
    decreases f1, 1nat, types.len() - i,
{
    if 0 <= i < types.len() {
        if holds(arena, nom, a, types[i], f1) {
            lemma_sub_mono(arena, nom, a, types[i], f1, f2);
        } else {
            lemma_any_mono(arena, nom, a, types, i + 1, f1, f2);
        }
    }
}

/// A list comparison that holds within some levels holds within more.
pub proof fn lemma_all_mono(
    arena: Seq<TypeV>,
    nom: Nominal,
    xs: Seq<Id>,
    ys: Seq<Id>,
    i: int,
    f1: nat,
    f2: nat,
)
    requires
        subtype_all(arena, nom, xs, ys, i, f1) == Ok::<bool, TypeError>(true),
        f1 <= f2,
    ensures
        subtype_all(arena, nom, xs, ys, i, f2) == Ok::<bool, TypeError>(true),
    decreases f1, 1nat, xs.len() - i,
{
    if 0 <= i < xs.len() && i < ys.len() {
        lemma_sub_mono(arena, nom, xs[i], ys[i], f1, f2);
        lemma_all_mono(arena, nom, xs, ys, i + 1, f1, f2);
    }
}

/// A field comparison that holds within some levels holds within more.
pub proof fn lemma_fields_mono(
    arena: Seq<TypeV>,
    nom: Nominal,
    fa: Seq<(Seq<char>, Id)>,
    fb: Seq<(Seq<char>, Id)>,
    i: int,
    f1: nat,
    f2: nat,
)
    requires
        subtype_fields(arena, nom, fa, fb, i, f1),
        f1 <= f2,
    ensures
        subtype_fields(arena, nom, fa, fb, i, f2),
    decreases f1, 1nat, fa.len() - i,
{
    if 0 <= i < fa.len() {
        let t = field_at(fb, fa[i].0, 0)->Some_0;
        lemma_sub_mono(arena, nom, fa[i].1, t, f1, f2);
        lemma_fields_mono(arena, nom, fa, fb, i + 1, f1, f2);
    }
}

/// A union is a supertype just when one of its members is.
pub proof fn lemma_any_witness(
    arena: Seq<TypeV>,
    nom: Nominal,
    a: Id,
    types: Seq<Id>,
    i: int,
    f: nat,
) -> (j: int)
    requires
        subtype_any(arena, nom, a, types, i, f),
    ensures
        0 <= i <= j < types.len(),
        holds(arena, nom, a, types[j], f),
    decreases types.len() - i,
{
    if holds(arena, nom, a, types[i], f) {
        i
    } else {
        lemma_any_witness(arena, nom, a, types, i + 1, f)
    }
}

/// A member that is a supertype makes the union one.
pub proof fn lemma_any_intro(
    arena: Seq<TypeV>,
    nom: Nominal,
    a: Id,
    types: Seq<Id>,
    i: int,
    j: int,
    f: nat,
)
    requires
        0 <= i <= j < types.len(),
        holds(arena, nom, a, types[j], f),
    ensures
        subtype_any(arena, nom, a, types, i, f),
    decreases j - i,
{
    if i < j {
        lemma_any_intro(arena, nom, a, types, i + 1, j, f);
    }
}

/// A list comparison holds where every pair does.
pub proof fn lemma_all_intro(
    arena: Seq<TypeV>,
    nom: Nominal,
    xs: Seq<Id>,
    ys: Seq<Id>,
    i: int,
    f: nat,
)
    requires
        xs.len() == ys.len(),
        0 <= i,
        forall|j: int| i <= j < xs.len() ==> holds(arena, nom, #[trigger] xs[j], ys[j], f),
    ensures
        subtype_all(arena, nom, xs, ys, i, f) == Ok::<bool, TypeError>(true),
    decreases xs.len() - i,
{
    if i < xs.len() {
        assert(holds(arena, nom, xs[i], ys[i], f));
        lemma_all_intro(arena, nom, xs, ys, i + 1, f);
    }
}

/// The first field of a label is a field.
pub proof fn lemma_field_at_index(fields: Seq<(Seq<char>, Id)>, label: Seq<char>, i: int) -> (j:
    int)
    requires
        0 <= i,
        field_at(fields, label, i) is Some,
    ensures
        i <= j < fields.len(),
        fields[j].0 == label,
        fields[j].1 == field_at(fields, label, i)->Some_0,
    decreases fields.len() - i,
{
    if fields[i].0 == label {
        i
    } else {
        lemma_field_at_index(fields, label, i + 1)
    }
}

/// Where the labels of one list are within another, each of them is.
pub proof fn lemma_labels_each(
    a: Seq<(Seq<char>, Id)>,
    b: Seq<(Seq<char>, Id)>,
    i: int,
    k: int,
)
    requires
        0 <= i <= k < a.len(),
        labels_within(a, b, i),
    ensures
        field_at(b, a[k].0, 0) is Some,
    decreases a.len() - i,
{
    if i < k {
        lemma_labels_each(a, b, i + 1, k);
    }
}

/// The labels of a list are within another where each of them is.
pub proof fn lemma_labels_intro(a: Seq<(Seq<char>, Id)>, b: Seq<(Seq<char>, Id)>, i: int)
    requires
        0 <= i,
        forall|k: int| i <= k < a.len() ==> field_at(b, (#[trigger] a[k]).0, 0) is Some,
    ensures
        labels_within(a, b, i),
    decreases a.len() - i,
{
    if i < a.len() {
        assert(field_at(b, a[i].0, 0) is Some);
        lemma_labels_intro(a, b, i + 1);
    }
}

/// Where a field comparison holds, it holds of each field.
pub proof fn lemma_fields_each(
    arena: Seq<TypeV>,
    nom: Nominal,
    fa: Seq<(Seq<char>, Id)>,
    fb: Seq<(Seq<char>, Id)>,
    i: int,
    k: int,
    f: nat,
)
    requires
        0 <= i <= k < fa.len(),
        subtype_fields(arena, nom, fa, fb, i, f),
    ensures
        field_at(fb, fa[k].0, 0) matches Some(t) && holds(arena, nom, fa[k].1, t, f),
    decreases fa.len() - i,
{
    if i < k {
        lemma_fields_each(arena, nom, fa, fb, i + 1, k, f);
    }
}

/// A field comparison holds where it holds of each field.
pub proof fn lemma_fields_intro(
    arena: Seq<TypeV>,
    nom: Nominal,
    fa: Seq<(Seq<char>, Id)>,
    fb: Seq<(Seq<char>, Id)>,
    i: int,
    f: nat,
)
    requires
        0 <= i,
        forall|k: int|
            i <= k < fa.len() ==> (field_at(fb, (#[trigger] fa[k]).0, 0) matches Some(t) && holds(
                arena,
                nom,
                fa[k].1,
                t,
                f,
            )),
    ensures
        subtype_fields(arena, nom, fa, fb, i, f),
    decreases fa.len() - i,
{
    if i < fa.len() {
        assert(field_at(fb, fa[i].0, 0) matches Some(t) && holds(arena, nom, fa[i].1, t, f));
        lemma_fields_intro(arena, nom, fa, fb, i + 1, f);
    }
}

/// What holds of a type holds of what it stands for, on the left.
pub proof fn lemma_left_resolved(arena: Seq<TypeV>, nom: Nominal, a: Id, x: Id, f: nat)
    requires
        nom.any is Some,
        holds(arena, nom, a, x, f),
        resolve(arena, a, f) is Ok,
    ensures
        holds(arena, nom, resolve(arena, a, f)->Ok_0, x, f),
{
    lemma_resolve_settled(arena, a, f);
}

/// What holds of a type holds of what it stands for, on the right.
pub proof fn lemma_right_resolved(arena: Seq<TypeV>, nom: Nominal, x: Id, c: Id, f: nat)
    requires
        nom.any is Some,
        holds(arena, nom, x, c, f),
        resolve(arena, c, f) is Ok,
    ensures
        holds(arena, nom, x, resolve(arena, c, f)->Ok_0, f),
{
    lemma_resolve_settled(arena, c, f);
}

/// Subtyping is transitive: where `a <: b` holds within `f1` levels and
/// `b <: c` within `f2`, `a <: c` holds within `f1 + f2`.
pub proof fn lemma_subtype_transitive(
    arena: Seq<TypeV>,
    nom: Nominal,
    a: Id,
    b: Id,
    c: Id,
    f1: nat,
    f2: nat,
)
    requires
        has_top(arena, nom),
        holds(arena, nom, a, b, f1),
        holds(arena, nom, b, c, f2),
    ensures
        holds(arena, nom, a, c, f1 + f2),
    decreases f1 + f2,
{
    let f = f1 + f2;
    if a == c {
    } else if a == b {
        lemma_sub_mono(arena, nom, b, c, f2, f);
    } else if b == c {
        lemma_sub_mono(arena, nom, a, b, f1, f);
    } else {
        let ra = resolve(arena, a, f1)->Ok_0;
        let rb = resolve(arena, b, f1)->Ok_0;
        let rc = resolve(arena, c, f2)->Ok_0;
        lemma_resolve_more_fuel(arena, a, f1, f);
        lemma_resolve_more_fuel(arena, b, f1, f);
        lemma_resolve_more_fuel(arena, b, f2, f);
        lemma_resolve_more_fuel(arena, c, f2, f);
        lemma_resolve_settled(arena, a, f1);
        lemma_resolve_settled(arena, b, f1);
        lemma_resolve_settled(arena, c, f2);
        assert(resolve(arena, b, f2) == Ok::<Id, TypeError>(rb));
        let g1 = (f1 - 1) as nat;
        let g2 = (f2 - 1) as nat;
        let g = (f - 1) as nat;
        let any = nom.any->Some_0;
        assert(node_fits(arena[any as int], any as int, arena.len() as int));
        assert(node_fits(arena[rc as int], rc as int, arena.len() as int));
        assert(node_fits(arena[rb as int], rb as int, arena.len() as int));
        if ra == rc {
        } else if ra == rb {
            lemma_nodes_mono(arena, nom, rb, rc, g2, g);
        } else if rb == rc {
            lemma_nodes_mono(arena, nom, ra, rb, g1, g);
        } else {
            let na = arena[ra as int];
            let nb = arena[rb as int];
            let nc = arena[rc as int];
            if nc is Union {
                let types = nc->Union_types;
                let j = lemma_any_witness(arena, nom, rb, types, 0, g2);
                // a <: rb and rb <: types[j]
                lemma_right_resolved(arena, nom, a, b, f1);
                lemma_subtype_transitive(arena, nom, a, rb, types[j], f1, g2);
                lemma_resolve_more_fuel(arena, a, f1, f1 + g2);
                lemma_left_resolved(arena, nom, a, types[j], f1 + g2);
                lemma_any_intro(arena, nom, ra, types, 0, j, g);
            } else if nb is Union {
                // only `any` is above a union
            } else if rc == any {
            } else if na is Primitive {
                let name = na->Primitive_name;
                let n = if is_atom_literal(name) {
                    nom.atom->Some_0
                } else if is_int_literal(name) {
                    nom.integer->Some_0
                } else {
                    nom.text->Some_0
                };
                // the nominal type of the literal is below rb, and rb below c
                lemma_left_resolved(arena, nom, b, c, f2);
                lemma_subtype_transitive(arena, nom, n, rb, c, g1, f2);
                lemma_resolve_more_fuel(arena, c, f2, g1 + f2);
                lemma_right_resolved(arena, nom, n, c, g1 + f2);
            } else {
                match (na, nb, nc) {
                    (
                        TypeV::Function { args: xs, ret: x, .. },
                        TypeV::Function { args: ys, ret: y, .. },
                        TypeV::Function { args: zs, ret: z, .. },
                    ) => {
                        assert forall|k: int| 0 <= k < zs.len() implies holds(
                            arena,
                            nom,
                            #[trigger] zs[k],
                            xs[k],
                            g,
                        ) by {
                            lemma_subtype_all_each(arena, nom, zs, ys, 0, g2, k);
                            lemma_subtype_all_each(arena, nom, ys, xs, 0, g1, k);
                            lemma_subtype_transitive(arena, nom, zs[k], ys[k], xs[k], g2, g1);
                            lemma_sub_mono(arena, nom, zs[k], xs[k], g2 + g1, g);
                        }
                        lemma_all_intro(arena, nom, zs, xs, 0, g);
                        lemma_subtype_transitive(arena, nom, x, y, z, g1, g2);
                        lemma_sub_mono(arena, nom, x, z, g1 + g2, g);
                    },
                    (
                        TypeV::Container { head: ha, elements: xs, .. },
                        TypeV::Container { head: hb, elements: ys, .. },
                        TypeV::Container { head: hc, elements: zs, .. },
                    ) => {
                        assert forall|k: int| 0 <= k < xs.len() implies holds(
                            arena,
                            nom,
                            #[trigger] xs[k],
                            zs[k],
                            g,
                        ) by {
                            lemma_subtype_all_each(arena, nom, xs, ys, 0, g1, k);
                            lemma_subtype_all_each(arena, nom, ys, zs, 0, g2, k);
                            lemma_subtype_transitive(arena, nom, xs[k], ys[k], zs[k], g1, g2);
                            lemma_sub_mono(arena, nom, xs[k], zs[k], g1 + g2, g);
                        }
                        lemma_all_intro(arena, nom, xs, zs, 0, g);
                    },
                    (
                        TypeV::Record { fields: fa, .. },
                        TypeV::Record { fields: fb, .. },
                        TypeV::Record { fields: fc, .. },
                    ) => {
                        assert forall|k: int| 0 <= k < fa.len() implies (field_at(
                            fc,
                            (#[trigger] fa[k]).0,
                            0,
                        ) matches Some(t) && holds(arena, nom, fa[k].1, t, g)) by {
                            lemma_fields_each(arena, nom, fa, fb, 0, k, g1);
                            let tb = field_at(fb, fa[k].0, 0)->Some_0;
                            let j = lemma_field_at_index(fb, fa[k].0, 0);
                            lemma_fields_each(arena, nom, fb, fc, 0, j, g2);
                            let tc = field_at(fc, fa[k].0, 0)->Some_0;
                            lemma_subtype_transitive(arena, nom, fa[k].1, tb, tc, g1, g2);
                            lemma_sub_mono(arena, nom, fa[k].1, tc, g1 + g2, g);
                        }
                        lemma_fields_intro(arena, nom, fa, fc, 0, g);
                        assert forall|k: int| 0 <= k < fa.len() implies field_at(
                            fc,
                            (#[trigger] fa[k]).0,
                            0,
                        ) is Some by {
                            lemma_labels_each(fa, fb, 0, k);
                            let j = lemma_field_at_index(fb, fa[k].0, 0);
                            lemma_labels_each(fb, fc, 0, j);
                        }
                        lemma_labels_intro(fa, fc, 0);
                        assert forall|k: int| 0 <= k < fc.len() implies field_at(
                            fa,
                            (#[trigger] fc[k]).0,
                            0,
                        ) is Some by {
                            lemma_labels_each(fc, fb, 0, k);
                            let j = lemma_field_at_index(fb, fc[k].0, 0);
                            lemma_labels_each(fb, fa, 0, j);
                        }
                        lemma_labels_intro(fc, fa, 0);
                    },
                    _ => {},
                }
            }
        }
    }
}

/// Transitivity at the depth that `is_subtype` works at: where `a <: b` and
/// `b <: c` each hold within half the levels that a comparison in this arena
/// descends, `a <: c` holds at the full depth, which is what `is_subtype`
/// returns.
pub proof fn lemma_subtype_transitive_at_depth(
    arena: Seq<TypeV>,
    nom: Nominal,
    a: Id,
    b: Id,
    c: Id,
)
    requires
        has_top(arena, nom),
        2 * arena.len() + 2 <= usize::MAX,
        holds(arena, nom, a, b, arena.len() + 1),
        holds(arena, nom, b, c, arena.len() + 1),
    ensures
        holds(arena, nom, a, c, crate::subtyping::depth_for(arena.len())),
{
    lemma_subtype_transitive(arena, nom, a, b, c, arena.len() + 1, arena.len() + 1);
}

} // verus!
