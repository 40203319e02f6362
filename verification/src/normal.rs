//! Normalising a type twice gives what normalising it once gives.

use crate::error::TypeError;
use crate::laws::{lemma_resolve_settled, settled};
use crate::subtyping::{is_getter, resolve};
use crate::type_alloc::{arena_wf, node_fits};
use crate::type_env::{id_set, put_id_at};
use crate::type_eval::{evaluated, first_union, flat, flat_list};
use crate::types::{Id, TypeV};
use vstd::prelude::*;

verus! {

/// A node that normalising leaves alone inside a union: it stands for itself
/// and is no union.
pub open spec fn leaf(arena: Seq<TypeV>, x: Id) -> bool {
    settled(arena, x) && !(arena[x as int] is Union)
}

/// Every id of the list is a leaf.
pub open spec fn leaves(arena: Seq<TypeV>, ids: Seq<Id>) -> bool {
    forall|i: int| 0 <= i < ids.len() ==> leaf(arena, #[trigger] ids[i])
}

/// Ascending, nothing twice.
pub open spec fn ascending(ids: Seq<Id>) -> bool {
    forall|i: int, j: int| 0 <= i < j < ids.len() ==> ids[i] < ids[j]
}

/// Flattening gives leaves only.
pub proof fn lemma_flat_leaves(arena: Seq<TypeV>, id: Id, f: nat)
    ensures
        flat(arena, id, f) matches Ok(raw) ==> leaves(arena, raw),
    decreases f, 0nat,
{
    if f > 0 {
        lemma_resolve_settled(arena, id, f);
        match resolve(arena, id, f) {
            Ok(r) => {
                if r < arena.len() && arena[r as int] is Union {
                    lemma_flat_list_leaves(arena, arena[r as int]->Union_types, 0, (f - 1) as nat);
                }
            },
            Err(_) => {},
        }
    }
}

/// Flattening a list gives leaves only.
pub proof fn lemma_flat_list_leaves(arena: Seq<TypeV>, types: Seq<Id>, i: int, f: nat)
    ensures
        flat_list(arena, types, i, f) matches Ok(raw) ==> leaves(arena, raw),
    decreases f, 1nat, types.len() - i,
{
    if 0 <= i < types.len() {
        lemma_flat_leaves(arena, types[i], f);
        lemma_flat_list_leaves(arena, types, i + 1, f);
    }
}

/// Putting an id into an ascending list of leaves leaves such a list, which
/// holds the id.
pub proof fn lemma_put_id_ascending(arena: Seq<TypeV>, ids: Seq<Id>, x: Id, i: int)
    requires
        ascending(ids),
        leaves(arena, ids),
        leaf(arena, x),
        0 <= i <= ids.len(),
        forall|k: int| 0 <= k < i ==> ids[k] < x,
    ensures
        ascending(put_id_at(ids, x, i)),
        leaves(arena, put_id_at(ids, x, i)),
    decreases ids.len() - i,
{
    if i < ids.len() && ids[i] != x && !(x < ids[i]) {
        lemma_put_id_ascending(arena, ids, x, i + 1);
    }
}

/// The set of a list of leaves is an ascending list of leaves.
pub proof fn lemma_id_set_ascending(arena: Seq<TypeV>, m: Seq<Id>, n: int)
    requires
        leaves(arena, m),
        0 <= n <= m.len(),
    ensures
        ascending(id_set(m, n)),
        leaves(arena, id_set(m, n)),
    decreases n,
{
    if n > 0 {
        lemma_id_set_ascending(arena, m, n - 1);
        lemma_put_id_ascending(arena, id_set(m, n - 1), m[n - 1], 0);
    }
}

/// Putting an id above all of an ascending list appends it.
pub proof fn lemma_put_id_last(ids: Seq<Id>, x: Id, i: int)
    requires
        0 <= i <= ids.len(),
        forall|k: int| 0 <= k < ids.len() ==> ids[k] < x,
    ensures
        put_id_at(ids, x, i) == ids.push(x),
    decreases ids.len() - i,
{
    if i < ids.len() {
        lemma_put_id_last(ids, x, i + 1);
    }
}

/// The set of an ascending list is the list.
pub proof fn lemma_id_set_of_ascending(m: Seq<Id>, n: int)
    requires
        ascending(m),
        0 <= n <= m.len(),
    ensures
        id_set(m, n) == m.take(n),
    decreases n,
{
    if n > 0 {
        lemma_id_set_of_ascending(m, n - 1);
        lemma_put_id_last(m.take(n - 1), m[n - 1], 0);
        assert(m.take(n - 1).push(m[n - 1]) =~= m.take(n));
    } else {
        assert(m.take(0) =~= Seq::<Id>::empty());
    }
}

/// Flattening a list of leaves gives the list.
pub proof fn lemma_flat_list_of_leaves(arena: Seq<TypeV>, types: Seq<Id>, i: int, f: nat)
    requires
        leaves(arena, types),
        0 <= i <= types.len(),
        f >= 1,
    ensures
        flat_list(arena, types, i, f) == Ok::<Seq<Id>, TypeError>(types.skip(i)),
    decreases types.len() - i,
{
    if i < types.len() {
        assert(leaf(arena, types[i]));
        assert(flat(arena, types[i], f) == Ok::<Seq<Id>, TypeError>(seq![types[i]]));
        lemma_flat_list_of_leaves(arena, types, i + 1, f);
        assert(seq![types[i]] + types.skip(i + 1) =~= types.skip(i));
    } else {
        assert(types.skip(i) =~= Seq::<Id>::empty());
    }
}

/// A leaf of an arena is a leaf of the arena with a node added.
pub proof fn lemma_leaf_extends(arena: Seq<TypeV>, node: TypeV, x: Id)
    requires
        arena_wf(arena),
        leaf(arena, x),
    ensures
        leaf(arena.push(node), x),
{
    assert(node_fits(arena[x as int], x as int, arena.len() as int));
    match arena[x as int] {
        TypeV::Container { head, elements, .. } => {
            assert(arena[x as int].children()[0] == head);
        },
        _ => {},
    }
}

/// The first union over some members, from `i` on, is the same in the arena
/// with a node added, where there is one; where there is none, it is the
/// added node if that is such a union.
pub proof fn lemma_first_union_extends(arena: Seq<TypeV>, node: TypeV, members: Seq<Id>, i: int)
    requires
        0 <= i <= arena.len(),
        arena.len() < usize::MAX,
    ensures
        first_union(arena.push(node), members, i) == match first_union(arena, members, i) {
            Some(u) => Some(u),
            None => if node is Union && node->Union_types == members {
                Some(arena.len() as Id)
            } else {
                None
            },
        },
    decreases arena.len() - i,
{
    let after = arena.push(node);
    if i < arena.len() {
        assert(after[i] == arena[i]);
        lemma_first_union_extends(arena, node, members, i + 1);
    } else {
        assert(after[i] == node);
        assert(first_union(after, members, i + 1) is None);
    }
}

/// The first union over some members is a union over them.
pub proof fn lemma_first_union_found(arena: Seq<TypeV>, members: Seq<Id>, i: int)
    requires
        0 <= i,
        arena.len() <= usize::MAX,
    ensures
        first_union(arena, members, i) matches Some(u) ==> i <= u < arena.len()
            && arena[u as int] is Union && arena[u as int]->Union_types == members,
    decreases arena.len() - i,
{
    if i < arena.len() && !(arena[i] is Union && arena[i]->Union_types == members) {
        lemma_first_union_found(arena, members, i + 1);
    }
}

/// Normalisation is idempotent: the normal form of a type is its own normal
/// form, and finding that adds nothing to the arena.
pub proof fn lemma_type_eval_idempotent(arena: Seq<TypeV>, id: Id, f: nat)
    requires
        arena_wf(arena),
        arena.len() < usize::MAX,
        f >= 2,
        evaluated(arena, id, f).0 is Ok,
    ensures
        ({
            let (r, after) = evaluated(arena, id, f);
            evaluated(after, r->Ok_0, f) == (r, after)
        }),
{
    lemma_resolve_settled(arena, id, f);
    let rr = resolve(arena, id, f)->Ok_0;
    if arena[rr as int] is Union {
        let raw = flat(arena, rr, f)->Ok_0;
        lemma_flat_leaves(arena, rr, f);
        let members = id_set(raw, raw.len() as int);
        lemma_id_set_ascending(arena, raw, raw.len() as int);
        lemma_id_set_of_ascending(members, members.len() as int);
        assert(members.take(members.len() as int) =~= members);
        lemma_first_union_found(arena, members, 0);
        let (r, after) = evaluated(arena, id, f);
        let u = r->Ok_0;
        match first_union(arena, members, 0) {
            Some(_) => {
                lemma_flat_list_of_leaves(arena, members, 0, (f - 1) as nat);
                assert(members.skip(0) =~= members);
                assert(flat(after, u, f) == Ok::<Seq<Id>, TypeError>(members));
            },
            None => {
                let node = TypeV::Union { id: arena.len() as Id, types: members };
                assert(after == arena.push(node));
                assert forall|i: int| 0 <= i < members.len() implies leaf(
                    after,
                    #[trigger] members[i],
                ) by {
                    lemma_leaf_extends(arena, node, members[i]);
                }
                lemma_flat_list_of_leaves(after, members, 0, (f - 1) as nat);
                assert(members.skip(0) =~= members);
                lemma_first_union_extends(arena, node, members, 0);
                assert(after[u as int] == node);
                assert(resolve(after, u, f) == Ok::<Id, TypeError>(u));
                assert(flat(after, u, f) == Ok::<Seq<Id>, TypeError>(members));
            },
        }
    }
}

} // verus!
