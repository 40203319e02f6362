//! Chains of instances that end are short: none is longer than the arena.

use crate::error::TypeError;
use crate::type_alloc::{arena_wf, node_fits};
use crate::types::{Id, TypeV};
use crate::unify::{chain_end, is_bound, lemma_chain_end_more_fuel};
use vstd::prelude::*;
use vstd::set_lib::{lemma_int_range, lemma_len_subset, set_int_range};

verus! {

/// What the bound variable `x` is bound to.
pub open spec fn instance_of(arena: Seq<TypeV>, x: Id) -> Id {
    arena[x as int]->Variable_instance->Some_0
}

/// The number of instances followed from `x`, at most `f` of them.
pub open spec fn steps(arena: Seq<TypeV>, x: Id, f: nat) -> nat
    decreases f,
{
    if is_bound(arena, x) && f > 0 {
        1 + steps(arena, instance_of(arena, x), (f - 1) as nat)
    } else {
        0
    }
}

/// The nodes met from `x`, following at most `f` instances.
pub open spec fn visited(arena: Seq<TypeV>, x: Id, f: nat) -> Set<int>
    decreases f,
{
    if is_bound(arena, x) && f > 0 {
        visited(arena, instance_of(arena, x), (f - 1) as nat).insert(x as int)
    } else {
        set![x as int]
    }
}

/// A chain that ends takes exactly `steps` instances: it ends within that
/// many, and from a bound variable not within fewer.
pub proof fn lemma_steps_exact(arena: Seq<TypeV>, x: Id, f: nat)
    requires
        chain_end(arena, x, f) is Ok,
    ensures
        steps(arena, x, f) <= f,
        chain_end(arena, x, steps(arena, x, f)) == chain_end(arena, x, f),
        is_bound(arena, x) ==> steps(arena, x, f) >= 1 && chain_end(
            arena,
            x,
            (steps(arena, x, f) - 1) as nat,
        ) is Err,
    decreases f,
{
    if is_bound(arena, x) {
        let inst = instance_of(arena, x);
        lemma_steps_exact(arena, inst, (f - 1) as nat);
    }
}

/// The nodes met on a chain that ends are as many as its instances and one,
/// all of the arena, and from each the chain ends within as many instances.
pub proof fn lemma_visited(arena: Seq<TypeV>, x: Id, f: nat)
    requires
        arena_wf(arena),
        x < arena.len(),
        chain_end(arena, x, f) is Ok,
    ensures
        visited(arena, x, f).finite(),
        visited(arena, x, f).len() == steps(arena, x, f) + 1,
        forall|y: int| #[trigger]
            visited(arena, x, f).contains(y) ==> 0 <= y < arena.len() && chain_end(
                arena,
                y as Id,
                steps(arena, x, f),
            ) is Ok,
    decreases f,
{
    lemma_steps_exact(arena, x, f);
    if is_bound(arena, x) {
        let inst = instance_of(arena, x);
        let k = steps(arena, inst, (f - 1) as nat);
        assert(node_fits(arena[x as int], x as int, arena.len() as int));
        assert(arena[x as int].children()[0] == inst);
        lemma_visited(arena, inst, (f - 1) as nat);
        let before = visited(arena, inst, (f - 1) as nat);
        assert(!before.contains(x as int));
        assert forall|y: int| #[trigger] visited(arena, x, f).contains(y) implies 0 <= y
            < arena.len() && chain_end(arena, y as Id, steps(arena, x, f)) is Ok by {
            if y != x as int {
                assert(before.contains(y));
                lemma_chain_end_more_fuel(arena, y as Id, k, k + 1);
            }
        }
    }
}

/// A chain that ends at all ends within one instance less than the arena
/// has nodes.
pub proof fn lemma_chain_is_short(arena: Seq<TypeV>, x: Id, f: nat)
    requires
        arena_wf(arena),
        x < arena.len(),
        chain_end(arena, x, f) is Ok,
    ensures
        chain_end(arena, x, (arena.len() - 1) as nat) == chain_end(arena, x, f),
{
    lemma_steps_exact(arena, x, f);
    lemma_visited(arena, x, f);
    let met = visited(arena, x, f);
    let all = set_int_range(0, arena.len() as int);
    lemma_int_range(0, arena.len() as int);
    assert(met.subset_of(all));
    lemma_len_subset(met, all);
    lemma_chain_end_more_fuel(arena, x, steps(arena, x, f), (arena.len() - 1) as nat);
}

/// A chain of an arena is the same chain in the arena with a node added.
pub proof fn lemma_chain_extends(arena: Seq<TypeV>, node: TypeV, x: Id, f: nat)
    requires
        arena_wf(arena),
        x < arena.len(),
        chain_end(arena, x, f) is Ok,
    ensures
        chain_end(arena.push(node), x, f) == chain_end(arena, x, f),
    decreases f,
{
    let after = arena.push(node);
    assert(after[x as int] == arena[x as int]);
    if is_bound(arena, x) {
        let inst = instance_of(arena, x);
        assert(node_fits(arena[x as int], x as int, arena.len() as int));
        assert(arena[x as int].children()[0] == inst);
        lemma_chain_extends(arena, node, inst, (f - 1) as nat);
    }
}

} // verus!
