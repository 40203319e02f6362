//! Normalising types: bound variables and record projections are replaced by
//! what they stand for, and unions are flattened.

use crate::error::TypeError;
use crate::subtyping::{depth_for, nominal_of, resolve, search_depth, subtype};
use crate::type_alloc::{all_below, TypeAlloc};
use crate::type_env::{id_set, ids_to_set, lemma_id_set_below, TypeEnv};
use crate::types::{Id, Type, TypeV};
use vstd::prelude::*;

verus! {

/// The members of the union that `id` stands for, nested unions opened up, in
/// the order met. What is no union is its own single member.
pub open spec fn flat(arena: Seq<TypeV>, id: Id, fuel: nat) -> Result<Seq<Id>, TypeError>
    decreases fuel, 0nat,
{
    if fuel == 0 {
        Err(TypeError::Cyclic)
    } else {
        match resolve(arena, id, fuel) {
            Err(e) => Err(e),
            Ok(r) => if r < arena.len() && arena[r as int] is Union {
                flat_list(arena, arena[r as int]->Union_types, 0, (fuel - 1) as nat)
            } else {
                Ok(seq![r])
            },
        }
    }
}

/// The members of `types[i..]`, each opened up, one after the other.
pub open spec fn flat_list(arena: Seq<TypeV>, types: Seq<Id>, i: int, fuel: nat) -> Result<
    Seq<Id>,
    TypeError,
>
    decreases fuel, 1nat, types.len() - i,
{
    if i < 0 || i >= types.len() {
        Ok(Seq::empty())
    } else {
        match flat(arena, types[i], fuel) {
            Err(e) => Err(e),
            Ok(h) => match flat_list(arena, types, i + 1, fuel) {
                Err(e) => Err(e),
                Ok(t) => Ok(h + t),
            },
        }
    }
}

/// The first node at or after `i` that is a union of exactly `members`.
pub open spec fn first_union(arena: Seq<TypeV>, members: Seq<Id>, i: int) -> Option<Id>
    decreases arena.len() - i,
{
    if i < 0 || i >= arena.len() {
        None
    } else if arena[i] is Union && arena[i]->Union_types == members {
        Some(i as Id)
    } else {
        first_union(arena, members, i + 1)
    }
}

/// The normal form of type `id`, and the arena after it was found. A union
/// becomes the first union node over its flattened members, in ascending
/// order and without repetition; that node is added where there is none.
pub open spec fn evaluated(arena: Seq<TypeV>, id: Id, fuel: nat) -> (
    Result<Id, TypeError>,
    Seq<TypeV>,
) {
    match resolve(arena, id, fuel) {
        Err(e) => (Err(e), arena),
        Ok(r) => if r < arena.len() && arena[r as int] is Union {
            match flat(arena, r, fuel) {
                Err(e) => (Err(e), arena),
                Ok(raw) => {
                    let members = id_set(raw, raw.len() as int);
                    match first_union(arena, members, 0) {
                        Some(u) => (Ok(u), arena),
                        None => (
                            Ok(arena.len() as Id),
                            arena.push(TypeV::Union { id: arena.len() as Id, types: members }),
                        ),
                    }
                },
            }
        } else {
            (Ok(r), arena)
        },
    }
}

/// Whether two lists of ids are the same.
pub fn same_ids(a: &Vec<Id>, b: &Vec<Id>) -> (r: bool)
    ensures
        r == (a@ == b@),
{
    if a.len() != b.len() {
        return false;
    }
    let mut i: usize = 0;
    while i < a.len()
        invariant
            i <= a.len(),
            a.len() == b.len(),
            forall|j: int| 0 <= j < i ==> a@[j] == b@[j],
        decreases a.len() - i,
    {
        if a[i] != b[i] {
            return false;
        }
        i = i + 1;
    }
    proof {
        assert(a@ =~= b@);
    }
    true
}

impl TypeAlloc {
    fn flat_of(&self, id: Id, fuel: usize) -> (r: Result<Vec<Id>, TypeError>)
        requires
            self.wf(),
        ensures
            match r {
                Ok(v) => flat(self@, id, fuel as nat) == Ok::<Seq<Id>, TypeError>(v@) && all_below(
                    v@,
                    self@.len() as int,
                ),
                Err(e) => flat(self@, id, fuel as nat) == Err::<Seq<Id>, TypeError>(e),
            },
        decreases fuel, 0nat,
    {
        if fuel == 0 {
            return Err(TypeError::Cyclic);
        }
        let r = self.resolve(id, fuel)?;
        match self.node(r) {
            Type::Union { types, .. } => self.flat_list_of(types, 0, fuel - 1),
            _ => {
                let mut out: Vec<Id> = Vec::new();
                out.push(r);
                assert(out@ =~= seq![r]);
                Ok(out)
            },
        }
    }

    fn flat_list_of(&self, types: &Vec<Id>, i: usize, fuel: usize) -> (r: Result<
        Vec<Id>,
        TypeError,
    >)
        requires
            self.wf(),
        ensures
            match r {
                Ok(v) => flat_list(self@, types@, i as int, fuel as nat) == Ok::<
                    Seq<Id>,
                    TypeError,
                >(v@) && all_below(v@, self@.len() as int),
                Err(e) => flat_list(self@, types@, i as int, fuel as nat) == Err::<
                    Seq<Id>,
                    TypeError,
                >(e),
            },
        decreases fuel, 1nat, types.len() - i,
    {
        if i >= types.len() {
            return Ok(Vec::new());
        }
        let mut h = self.flat_of(types[i], fuel)?;
        let mut t = self.flat_list_of(types, i + 1, fuel)?;
        let ghost hv = h@;
        let ghost tv = t@;
        h.append(&mut t);
        assert(h@ =~= hv + tv);
        Ok(h)
    }

    fn find_union(&self, members: &Vec<Id>) -> (r: Option<Id>)
        ensures
            r == first_union(self@, members@, 0),
            r matches Some(u) ==> u < self@.len(),
    {
        let mut i: usize = 0;
        while i < self.len()
            invariant
                i <= self@.len(),
                first_union(self@, members@, 0) == first_union(self@, members@, i as int),
            decreases self@.len() - i,
        {
            match self.node(i) {
                Type::Union { types, .. } => {
                    if same_ids(types, members) {
                        return Some(i);
                    }
                },
                _ => {},
            }
            i = i + 1;
        }
        None
    }

    /// The normal form of type `id`, following at most `fuel` links.
    pub fn normal_form(&mut self, id: Id, fuel: usize) -> (r: Result<Id, TypeError>)
        requires
            old(self).wf(),
        ensures
            final(self).wf(),
            r == evaluated(old(self)@, id, fuel as nat).0,
            final(self)@ == evaluated(old(self)@, id, fuel as nat).1,
            r matches Ok(t) ==> t < final(self)@.len(),
    {
        let r = self.resolve(id, fuel)?;
        let is_union = match self.node(r) {
            Type::Union { .. } => true,
            _ => false,
        };
        if !is_union {
            return Ok(r);
        }
        let raw = self.flat_of(r, fuel)?;
        let members = ids_to_set(&raw);
        proof {
            lemma_id_set_below(raw@, raw@.len() as int, self@.len() as int);
        }
        match self.find_union(&members) {
            Some(u) => Ok(u),
            None => {
                let u = self.issue_id();
                self.insert(Type::union(u, members));
                Ok(u)
            },
        }
    }
}

/// Normalises type `id`: what a bound variable or a projection stands for,
/// and for a union the one union node over its flattened members.
pub fn type_eval(env: &mut TypeEnv, id: Id) -> (r: Result<Id, TypeError>)
    requires
        old(env).wf(),
    ensures
        final(env).wf(),
        r == evaluated(old(env).alloc@, id, depth_for(old(env).alloc@.len())).0,
        final(env).alloc@ == evaluated(old(env).alloc@, id, depth_for(old(env).alloc@.len())).1,
        final(env).id_map == old(env).id_map,
        final(env).variables == old(env).variables,
        r matches Ok(t) ==> t < final(env).alloc@.len(),
{
    env.alloc.normal_form(id, search_depth(env.alloc.len()))
}

/// Succeeds where `a` is a subtype of `b`; the error names the two types
/// where it is not.
pub fn ensure_subtype(env: &TypeEnv, a: Id, b: Id) -> (r: Result<(), TypeError>)
    requires
        env.wf(),
    ensures
        r == match subtype(env.alloc@, nominal_of(env.id_map@), a, b, depth_for(env.alloc@.len())) {
            Ok(true) => Ok::<(), TypeError>(()),
            Ok(false) => Err::<(), TypeError>(TypeError::NotSubtype(a, b)),
            Err(e) => Err::<(), TypeError>(e),
        },
{
    if !env.is_subtype(a, b)? {
        return Err(TypeError::NotSubtype(a, b));
    }
    Ok(())
}

} // verus!
