//! Structural subtyping over the arena.

use crate::error::TypeError;
use crate::names::{assoc, str_same};
use crate::type_alloc::TypeAlloc;
use crate::type_env::TypeEnv;
use crate::types::{fields_view, Id, Type, TypeV, GETTER_TYPE_KEYWORD};
use vstd::prelude::*;

verus! {

/// How many levels a traversal of an arena of `n` nodes descends before it
/// gives the type up as cyclic: twice as many as there are nodes, and two,
/// as far as that is a machine number.
pub open spec fn depth_for(n: nat) -> nat {
    if 2 * n + 2 <= usize::MAX {
        2 * n + 2
    } else {
        usize::MAX as nat
    }
}

/// The depth for an arena of `n` nodes.
pub fn search_depth(n: usize) -> (r: usize)
    ensures
        r == depth_for(n as nat),
{
    if n <= (usize::MAX - 2) / 2 {
        2 * n + 2
    } else {
        usize::MAX
    }
}

/// The nominal types that the rules name, as far as the environment has them.
#[derive(Clone, Copy, Debug)]
pub struct Nominal {
    pub any: Option<Id>,
    pub atom: Option<Id>,
    pub integer: Option<Id>,
    pub text: Option<Id>,
}

/// The nominal types of an environment's names.
pub open spec fn nominal_of(ids: Seq<(Seq<char>, Id)>) -> Nominal {
    Nominal {
        any: assoc(ids, "any"@),
        atom: assoc(ids, "atom"@),
        integer: assoc(ids, "int"@),
        text: assoc(ids, "str"@),
    }
}

/// The type of the first field of `fields[i..]` that carries `label`.
pub open spec fn field_at(fields: Seq<(Seq<char>, Id)>, label: Seq<char>, i: int) -> Option<Id>
    decreases fields.len() - i,
{
    if i < 0 || i >= fields.len() {
        None
    } else if fields[i].0 == label {
        Some(fields[i].1)
    } else {
        field_at(fields, label, i + 1)
    }
}

/// The label that an atom literal's name selects: the name without its colon.
pub open spec fn atom_label(name: Seq<char>) -> Seq<char> {
    if name.len() > 0 && name[0] == ':' {
        name.skip(1)
    } else {
        name
    }
}

/// Whether `head` is the projection operator `[]`.
pub open spec fn is_getter(arena: Seq<TypeV>, head: Id) -> bool {
    head < arena.len() && arena[head as int] == (TypeV::Primitive {
        id: arena[head as int].id(),
        name: GETTER_TYPE_KEYWORD@,
    })
}

/// The type that `id` stands for: a bound variable stands for what its
/// instance stands for, and a projection `([] r k)` for what the type of field
/// `k` of the record that `r` stands for stands for. Anything else stands
/// for itself.
pub open spec fn resolve(arena: Seq<TypeV>, id: Id, fuel: nat) -> Result<Id, TypeError>
    decreases fuel,
{
    if fuel == 0 {
        Err(TypeError::Cyclic)
    } else if id >= arena.len() {
        Err(TypeError::IdNotFound(id))
    } else {
        match arena[id as int] {
            TypeV::Variable { instance: Some(inst), .. } => resolve(arena, inst, (fuel - 1) as nat),
            TypeV::Container { head, elements, .. } => if is_getter(arena, head) && elements.len()
                == 2 {
                match resolve(arena, elements[0], (fuel - 1) as nat) {
                    Err(e) => Err(e),
                    Ok(r) => match arena[r as int] {
                        TypeV::Record { fields, .. } => match resolve(
                            arena,
                            elements[1],
                            (fuel - 1) as nat,
                        ) {
                            Err(e) => Err(e),
                            Ok(k) => match arena[k as int] {
                                TypeV::Primitive { name, .. } => match field_at(
                                    fields,
                                    atom_label(name),
                                    0,
                                ) {
                                    Some(t) => resolve(arena, t, (fuel - 1) as nat),
                                    None => Err(TypeError::FieldNotFound(r, k)),
                                },
                                _ => Err(TypeError::NotAtom(k)),
                            },
                        },
                        _ => Err(TypeError::NotRecord(r)),
                    },
                }
            } else {
                Ok(id)
            },
            _ => Ok(id),
        }
    }
}

/// A decimal digit.
pub open spec fn is_digit(c: char) -> bool {
    '0' as u32 <= c as u32 && c as u32 <= '9' as u32
}

/// The name of an atom literal type: it starts with a colon.
pub open spec fn is_atom_literal(name: Seq<char>) -> bool {
    name.len() > 0 && name[0] == ':'
}

/// The name of an integer literal type: digits only.
pub open spec fn is_int_literal(name: Seq<char>) -> bool {
    name.len() > 0 && forall|i: int| 0 <= i < name.len() ==> is_digit(#[trigger] name[i])
}

/// The name of a string literal type: it stands in single quotes.
pub open spec fn is_str_literal(name: Seq<char>) -> bool {
    name.len() > 0 && name[0] == '\'' && name[name.len() - 1] == '\''
}

/// Every label of `a[i..]` is a label of `b`.
pub open spec fn labels_within(a: Seq<(Seq<char>, Id)>, b: Seq<(Seq<char>, Id)>, i: int) -> bool
    decreases a.len() - i,
{
    if i < 0 || i >= a.len() {
        true
    } else {
        field_at(b, a[i].0, 0) is Some && labels_within(a, b, i + 1)
    }
}

/// Whether type `a` is a subtype of type `b`, descending at most `fuel`
/// levels. The rules, in order, on what the two stand for: the same node; a
/// union on the right, one of whose members is a supertype; two functions, the
/// arguments the other way round and the results the same way; two records of
/// the same labels, field by field; two containers of one head, element by
/// element; two variables, never; `any` on the right; a literal on the left,
/// as its nominal type; otherwise not.
pub open spec fn subtype(arena: Seq<TypeV>, nom: Nominal, a: Id, b: Id, fuel: nat) -> Result<
    bool,
    TypeError,
>
    decreases fuel, 0nat,
{
    if a == b {
        Ok(true)
    } else if nom.any is None {
        Err(TypeError::NameNotFound)
    } else if fuel == 0 {
        Err(TypeError::Cyclic)
    } else {
        match (resolve(arena, a, fuel), resolve(arena, b, fuel)) {
            (Err(e), _) => Err(e),
            (_, Err(e)) => Err(e),
            (Ok(ra), Ok(rb)) => if ra == rb {
                Ok(true)
            } else if ra >= arena.len() || rb >= arena.len() {
                Err(TypeError::IdNotFound(if ra >= arena.len() {
                    ra
                } else {
                    rb
                }))
            } else {
                subtype_nodes(arena, nom, ra, rb, (fuel - 1) as nat)
            },
        }
    }
}

/// The rules on two different nodes of the arena.
pub open spec fn subtype_nodes(arena: Seq<TypeV>, nom: Nominal, ra: Id, rb: Id, fuel: nat) -> Result<
    bool,
    TypeError,
>
    recommends
        ra < arena.len(),
        rb < arena.len(),
    decreases fuel, 2nat, 0nat,
{
    match (arena[ra as int], arena[rb as int]) {
        (_, TypeV::Union { types, .. }) => Ok(subtype_any(arena, nom, ra, types, 0, fuel)),
        (TypeV::Function { args: xs, ret: x, .. }, TypeV::Function { args: ys, ret: y, .. }) => {
            if xs.len() != ys.len() {
                Ok(false)
            } else {
                match subtype_all(arena, nom, ys, xs, 0, fuel) {
                    Err(e) => Err(e),
                    Ok(false) => Ok(false),
                    Ok(true) => subtype(arena, nom, x, y, fuel),
                }
            }
        },
        (TypeV::Record { fields: fa, .. }, TypeV::Record { fields: fb, .. }) => Ok(
            labels_within(fa, fb, 0) && labels_within(fb, fa, 0) && subtype_fields(
                arena,
                nom,
                fa,
                fb,
                0,
                fuel,
            ),
        ),
        (
            TypeV::Container { head: ha, elements: xs, .. },
            TypeV::Container { head: hb, elements: ys, .. },
        ) => {
            if ha != hb || xs.len() != ys.len() {
                Ok(false)
            } else {
                subtype_all(arena, nom, xs, ys, 0, fuel)
            }
        },
        (TypeV::Variable { .. }, TypeV::Variable { .. }) => Ok(false),
        (_, TypeV::Primitive { id, .. }) if nom.any == Some(id) => Ok(true),
        (TypeV::Primitive { name, .. }, _) => if is_atom_literal(name) {
            match nom.atom {
                None => Err(TypeError::NameNotFound),
                Some(atom) => subtype(arena, nom, atom, rb, fuel),
            }
        } else if is_int_literal(name) {
            match nom.integer {
                None => Err(TypeError::NameNotFound),
                Some(n) => subtype(arena, nom, n, rb, fuel),
            }
        } else if is_str_literal(name) {
            match nom.text {
                None => Err(TypeError::NameNotFound),
                Some(text) => subtype(arena, nom, text, rb, fuel),
            }
        } else {
            Ok(false)
        },
        _ => Ok(false),
    }
}

/// Whether `a` is a subtype of one of `types[i..]`. A member on which the
/// comparison fails does not count.
pub open spec fn subtype_any(
    arena: Seq<TypeV>,
    nom: Nominal,
    a: Id,
    types: Seq<Id>,
    i: int,
    fuel: nat,
) -> bool
    decreases fuel, 1nat, types.len() - i,
{
    if i < 0 || i >= types.len() {
        false
    } else {
        subtype(arena, nom, a, types[i], fuel) == Ok::<bool, TypeError>(true) || subtype_any(
            arena,
            nom,
            a,
            types,
            i + 1,
            fuel,
        )
    }
}

/// Whether `xs[j]` is a subtype of `ys[j]` for every `j` from `i` on. The
/// first comparison that fails decides the error.
pub open spec fn subtype_all(
    arena: Seq<TypeV>,
    nom: Nominal,
    xs: Seq<Id>,
    ys: Seq<Id>,
    i: int,
    fuel: nat,
) -> Result<bool, TypeError>
    decreases fuel, 1nat, xs.len() - i,
{
    if i < 0 || i >= xs.len() || i >= ys.len() {
        Ok(true)
    } else {
        match subtype(arena, nom, xs[i], ys[i], fuel) {
            Err(e) => Err(e),
            Ok(v) => match subtype_all(arena, nom, xs, ys, i + 1, fuel) {
                Err(e) => Err(e),
                Ok(rest) => Ok(v && rest),
            },
        }
    }
}

/// Whether each field of `fa[i..]` is a subtype of the field of `fb` with the
/// same label. A field on which the comparison fails does not count.
pub open spec fn subtype_fields(
    arena: Seq<TypeV>,
    nom: Nominal,
    fa: Seq<(Seq<char>, Id)>,
    fb: Seq<(Seq<char>, Id)>,
    i: int,
    fuel: nat,
) -> bool
    decreases fuel, 1nat, fa.len() - i,
{
    if i < 0 || i >= fa.len() {
        true
    } else {
        match field_at(fb, fa[i].0, 0) {
            None => false,
            Some(t) => subtype(arena, nom, fa[i].1, t, fuel) == Ok::<bool, TypeError>(true)
                && subtype_fields(arena, nom, fa, fb, i + 1, fuel),
        }
    }
}

/// The type of the field `label`, if the list has one.
pub fn find_field(fields: &Vec<(String, Id)>, label: &str) -> (r: Option<Id>)
    ensures
        r == field_at(fields_view(fields@), label@, 0),
{
    let mut i: usize = 0;
    while i < fields.len()
        invariant
            i <= fields.len(),
            field_at(fields_view(fields@), label@, 0) == field_at(
                fields_view(fields@),
                label@,
                i as int,
            ),
        decreases fields.len() - i,
    {
        if str_same(fields[i].0.as_str(), label) {
            return Some(fields[i].1);
        }
        i = i + 1;
    }
    None
}

/// Whether every label of `a` is a label of `b`.
pub fn has_labels_of(b: &Vec<(String, Id)>, a: &Vec<(String, Id)>) -> (r: bool)
    ensures
        r == labels_within(fields_view(a@), fields_view(b@), 0),
{
    let mut i: usize = 0;
    while i < a.len()
        invariant
            i <= a.len(),
            labels_within(fields_view(a@), fields_view(b@), 0) == labels_within(
                fields_view(a@),
                fields_view(b@),
                i as int,
            ),
        decreases a.len() - i,
    {
        if find_field(b, a[i].0.as_str()).is_none() {
            return false;
        }
        i = i + 1;
    }
    true
}

/// Whether a name is that of an atom literal.
pub fn atom_literal_name(name: &str) -> (r: bool)
    ensures
        r == is_atom_literal(name@),
{
    name.unicode_len() > 0 && name.get_char(0) == ':'
}

/// Whether a name is that of an integer literal.
pub fn int_literal_name(name: &str) -> (r: bool)
    ensures
        r == is_int_literal(name@),
{
    let n = name.unicode_len();
    if n == 0 {
        return false;
    }
    let mut i: usize = 0;
    while i < n
        invariant
            n == name@.len(),
            i <= n,
            forall|j: int| 0 <= j < i ==> is_digit(#[trigger] name@[j]),
        decreases n - i,
    {
        let c = name.get_char(i) as u32;
        if !(48 <= c && c <= 57) {
            return false;
        }
        i = i + 1;
    }
    true
}

/// Whether a name is that of a string literal.
pub fn str_literal_name(name: &str) -> (r: bool)
    ensures
        r == is_str_literal(name@),
{
    let n = name.unicode_len();
    n > 0 && name.get_char(0) == '\'' && name.get_char(n - 1) == '\''
}

/// The label that an atom literal's name selects.
pub fn label_of_atom(name: &str) -> (r: String)
    ensures
        r@ == atom_label(name@),
{
    let n = name.unicode_len();
    if n > 0 && name.get_char(0) == ':' {
        let r = name.substring_char(1, n).to_owned();
        proof {
            assert(name@.subrange(1, n as int) =~= name@.skip(1));
        }
        r
    } else {
        name.to_owned()
    }
}

impl TypeAlloc {
    /// Whether `head` is the projection operator.
    pub fn is_getter_head(&self, head: Id) -> (r: bool)
        ensures
            r == is_getter(self@, head),
    {
        if head >= self.len() {
            return false;
        }
        match self.node(head) {
            Type::Primitive { name, .. } => str_same(name.as_str(), GETTER_TYPE_KEYWORD),
            _ => false,
        }
    }

    /// The type that `id` stands for, following at most `fuel` links.
    pub fn resolve(&self, id: Id, fuel: usize) -> (r: Result<Id, TypeError>)
        requires
            self.wf(),
        ensures
            r == resolve(self@, id, fuel as nat),
            r matches Ok(t) ==> t < self@.len(),
        decreases fuel,
    {
        if fuel == 0 {
            return Err(TypeError::Cyclic);
        }
        if id >= self.len() {
            return Err(TypeError::IdNotFound(id));
        }
        match self.node(id) {
            Type::Variable { instance: Some(inst), .. } => self.resolve(*inst, fuel - 1),
            Type::Container { head, elements, .. } => {
                if self.is_getter_head(*head) && elements.len() == 2 {
                    let r = self.resolve(elements[0], fuel - 1)?;
                    match self.node(r) {
                        Type::Record { fields, .. } => {
                            let k = self.resolve(elements[1], fuel - 1)?;
                            match self.node(k) {
                                Type::Primitive { name, .. } => {
                                    let label = label_of_atom(name.as_str());
                                    match find_field(fields, label.as_str()) {
                                        Some(t) => {
                                            proof {
                                                lemma_field_at_member(
                                                    fields_view(fields@),
                                                    label@,
                                                    0,
                                                );
                                                assert(crate::type_alloc::node_fits(
                                                    self@[r as int],
                                                    r as int,
                                                    self@.len() as int,
                                                ));
                                            }
                                            self.resolve(t, fuel - 1)
                                        },
                                        None => Err(TypeError::FieldNotFound(r, k)),
                                    }
                                },
                                _ => Err(TypeError::NotAtom(k)),
                            }
                        },
                        _ => Err(TypeError::NotRecord(r)),
                    }
                } else {
                    Ok(id)
                }
            },
            _ => Ok(id),
        }
    }

    /// Decides `a <: b` under the nominal types `nom`, descending at most
    /// `fuel` levels.
    pub fn subtype_of(&self, nom: &Nominal, a: Id, b: Id, fuel: usize) -> (r: Result<
        bool,
        TypeError,
    >)
        requires
            self.wf(),
        ensures
            r == subtype(self@, *nom, a, b, fuel as nat),
        decreases fuel, 0nat,
    {
        if a == b {
            return Ok(true);
        }
        if nom.any.is_none() {
            return Err(TypeError::NameNotFound);
        }
        if fuel == 0 {
            return Err(TypeError::Cyclic);
        }
        let ra = self.resolve(a, fuel)?;
        let rb = self.resolve(b, fuel)?;
        if ra == rb {
            return Ok(true);
        }
        self.subtype_nodes_of(nom, ra, rb, fuel - 1)
    }

    fn subtype_nodes_of(&self, nom: &Nominal, ra: Id, rb: Id, fuel: usize) -> (r: Result<
        bool,
        TypeError,
    >)
        requires
            self.wf(),
            ra < self@.len(),
            rb < self@.len(),
        ensures
            r == subtype_nodes(self@, *nom, ra, rb, fuel as nat),
        decreases fuel, 2nat, 0nat,
    {
        let na = self.node(ra);
        let nb = self.node(rb);
        match nb {
            Type::Union { types, .. } => {
                return Ok(self.subtype_any_of(nom, ra, types, 0, fuel));
            },
            _ => {},
        }
        match (na, nb) {
            (Type::Function { args: xs, ret: x, .. }, Type::Function { args: ys, ret: y, .. }) => {
                if xs.len() != ys.len() {
                    Ok(false)
                } else {
                    match self.subtype_all_of(nom, ys, xs, 0, fuel) {
                        Err(e) => Err(e),
                        Ok(false) => Ok(false),
                        Ok(true) => self.subtype_of(nom, *x, *y, fuel),
                    }
                }
            },
            (Type::Record { fields: fa, .. }, Type::Record { fields: fb, .. }) => Ok(
                has_labels_of(fb, fa) && has_labels_of(fa, fb) && self.subtype_fields_of(
                    nom,
                    fa,
                    fb,
                    0,
                    fuel,
                ),
            ),
            (
                Type::Container { head: ha, elements: xs, .. },
                Type::Container { head: hb, elements: ys, .. },
            ) => {
                if *ha != *hb || xs.len() != ys.len() {
                    Ok(false)
                } else {
                    self.subtype_all_of(nom, xs, ys, 0, fuel)
                }
            },
            (Type::Variable { .. }, Type::Variable { .. }) => Ok(false),
            _ => {
                let top = match nb {
                    Type::Primitive { id, .. } => match nom.any {
                        Some(any) => any == *id,
                        None => false,
                    },
                    _ => false,
                };
                if top {
                    return Ok(true);
                }
                match na {
                    Type::Primitive { name, .. } => {
                        if atom_literal_name(name.as_str()) {
                            match nom.atom {
                                None => Err(TypeError::NameNotFound),
                                Some(atom) => self.subtype_of(nom, atom, rb, fuel),
                            }
                        } else if int_literal_name(name.as_str()) {
                            match nom.integer {
                                None => Err(TypeError::NameNotFound),
                                Some(n) => self.subtype_of(nom, n, rb, fuel),
                            }
                        } else if str_literal_name(name.as_str()) {
                            match nom.text {
                                None => Err(TypeError::NameNotFound),
                                Some(text) => self.subtype_of(nom, text, rb, fuel),
                            }
                        } else {
                            Ok(false)
                        }
                    },
                    _ => Ok(false),
                }
            },
        }
    }

    fn subtype_any_of(&self, nom: &Nominal, a: Id, types: &Vec<Id>, i: usize, fuel: usize) -> (r:
        bool)
        requires
            self.wf(),
        ensures
            r == subtype_any(self@, *nom, a, types@, i as int, fuel as nat),
        decreases fuel, 1nat, types.len() - i,
    {
        if i >= types.len() {
            false
        } else {
            match self.subtype_of(nom, a, types[i], fuel) {
                Ok(true) => true,
                _ => self.subtype_any_of(nom, a, types, i + 1, fuel),
            }
        }
    }

    fn subtype_all_of(&self, nom: &Nominal, xs: &Vec<Id>, ys: &Vec<Id>, i: usize, fuel: usize) -> (r:
        Result<bool, TypeError>)
        requires
            self.wf(),
        ensures
            r == subtype_all(self@, *nom, xs@, ys@, i as int, fuel as nat),
        decreases fuel, 1nat, xs.len() - i,
    {
        if i >= xs.len() || i >= ys.len() {
            Ok(true)
        } else {
            let v = self.subtype_of(nom, xs[i], ys[i], fuel)?;
            let rest = self.subtype_all_of(nom, xs, ys, i + 1, fuel)?;
            Ok(v && rest)
        }
    }

    fn subtype_fields_of(
        &self,
        nom: &Nominal,
        fa: &Vec<(String, Id)>,
        fb: &Vec<(String, Id)>,
        i: usize,
        fuel: usize,
    ) -> (r: bool)
        requires
            self.wf(),
        ensures
            r == subtype_fields(
                self@,
                *nom,
                fields_view(fa@),
                fields_view(fb@),
                i as int,
                fuel as nat,
            ),
        decreases fuel, 1nat, fa.len() - i,
    {
        if i >= fa.len() {
            true
        } else {
            match find_field(fb, fa[i].0.as_str()) {
                None => false,
                Some(t) => {
                    match self.subtype_of(nom, fa[i].1, t, fuel) {
                        Ok(true) => self.subtype_fields_of(nom, fa, fb, i + 1, fuel),
                        _ => false,
                    }
                },
            }
        }
    }
}

/// A field found by label is one of the fields.
pub proof fn lemma_field_at_member(fields: Seq<(Seq<char>, Id)>, label: Seq<char>, i: int)
    requires
        0 <= i,
    ensures
        field_at(fields, label, i) matches Some(t) ==> exists|j: int|
            0 <= j < fields.len() && #[trigger] crate::types::field_ids(fields)[j] == t,
    decreases fields.len() - i,
{
    if i < fields.len() {
        if fields[i].0 == label {
            assert(crate::types::field_ids(fields)[i] == fields[i].1);
        } else {
            lemma_field_at_member(fields, label, i + 1);
        }
    }
}

impl TypeEnv {
    /// The nominal types as this environment names them.
    pub fn nominal(&self) -> (r: Nominal)
        ensures
            r == nominal_of(self.id_map@),
    {
        Nominal {
            any: self.id_map.get("any"),
            atom: self.id_map.get("atom"),
            integer: self.id_map.get("int"),
            text: self.id_map.get("str"),
        }
    }

    /// Decides whether type `a` is a subtype of type `b`. Where `b` is the
    /// primitive that the name `any` stands for, every type that stands for
    /// something is a subtype: every type whose representative is no
    /// projection, and a projection where what it stands for is found.
    pub fn is_subtype(&self, a: Id, b: Id) -> (r: Result<bool, TypeError>)
        requires
            self.wf(),
        ensures
            r == subtype(
                self.alloc@,
                nominal_of(self.id_map@),
                a,
                b,
                depth_for(self.alloc@.len()),
            ),
            (nominal_of(self.id_map@).any == Some(b) && b < self.alloc@.len()
                && self.alloc@[b as int] is Primitive && (resolve(
                self.alloc@,
                a,
                depth_for(self.alloc@.len()),
            ) is Ok || crate::laws::stands_clear(self.alloc@, a))) ==> r == Ok::<bool, TypeError>(
                true,
            ),
    {
        let nom = self.nominal();
        let n = self.alloc.len();
        proof {
            let arena = self.alloc@;
            let depth = depth_for(arena.len());
            if nom.any == Some(b) && b < arena.len() && arena[b as int] is Primitive {
                if crate::laws::stands_clear(arena, a) {
                    crate::chains::lemma_chain_is_short(arena, a, arena.len());
                    crate::unify::lemma_chain_end_more_fuel(
                        arena,
                        a,
                        (arena.len() - 1) as nat,
                        (depth - 1) as nat,
                    );
                    crate::laws::lemma_resolve_follows_chain(arena, a, depth);
                }
                if resolve(arena, a, depth) is Ok {
                    assert(crate::type_alloc::node_fits(
                        arena[b as int],
                        b as int,
                        arena.len() as int,
                    ));
                    crate::laws::lemma_resolve_settled(arena, a, depth);
                    lemma_any_is_top(arena, nom, a, b, depth);
                }
            }
        }
        self.alloc.subtype_of(&nom, a, b, search_depth(n))
    }
}

/// `any` is the top: whatever a type stands for is a subtype of it.
pub proof fn lemma_any_is_top(arena: Seq<TypeV>, nom: Nominal, t: Id, any: Id, fuel: nat)
    requires
        fuel > 0,
        nom.any == Some(any),
        any < arena.len(),
        arena[any as int] is Primitive,
        arena[any as int].id() == any,
        resolve(arena, t, fuel) matches Ok(rt) && rt < arena.len(),
    ensures
        subtype(arena, nom, t, any, fuel) == Ok::<bool, TypeError>(true),
{
}

/// Where every pair of a list comparison is decided, and the whole holds,
/// each pair holds.
pub proof fn lemma_subtype_all_each(
    arena: Seq<TypeV>,
    nom: Nominal,
    xs: Seq<Id>,
    ys: Seq<Id>,
    i: int,
    fuel: nat,
    j: int,
)
    requires
        xs.len() == ys.len(),
        0 <= i <= j < xs.len(),
        subtype_all(arena, nom, xs, ys, i, fuel) == Ok::<bool, TypeError>(true),
    ensures
        subtype(arena, nom, xs[j], ys[j], fuel) == Ok::<bool, TypeError>(true),
    decreases xs.len() - i,
{
    if i < j {
        lemma_subtype_all_each(arena, nom, xs, ys, i + 1, fuel, j);
    }
}

/// Function subtyping is contravariant in the arguments: where one function
/// type is a subtype of another, each argument type of the second is a
/// subtype of the corresponding one of the first.
pub proof fn lemma_function_contravariant(
    arena: Seq<TypeV>,
    nom: Nominal,
    f: Id,
    g: Id,
    fuel: nat,
    j: int,
)
    requires
        f < arena.len(),
        g < arena.len(),
        arena[f as int] is Function,
        arena[g as int] is Function,
        subtype(arena, nom, f, g, fuel) == Ok::<bool, TypeError>(true),
        0 <= j < arena[g as int]->Function_args.len(),
    ensures
        arena[f as int]->Function_args.len() == arena[g as int]->Function_args.len(),
        subtype(
            arena,
            nom,
            arena[g as int]->Function_args[j],
            arena[f as int]->Function_args[j],
            (fuel - 1) as nat,
        ) == Ok::<bool, TypeError>(true),
{
    if f != g {
        let xs = arena[f as int]->Function_args;
        let ys = arena[g as int]->Function_args;
        assert(resolve(arena, f, fuel) == Ok::<Id, TypeError>(f));
        assert(resolve(arena, g, fuel) == Ok::<Id, TypeError>(g));
        assert(subtype_nodes(arena, nom, f, g, (fuel - 1) as nat) == Ok::<bool, TypeError>(true));
        lemma_subtype_all_each(arena, nom, ys, xs, 0, (fuel - 1) as nat, j);
    }
}

} // verus!
