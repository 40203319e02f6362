//! Type nodes of the arena and their mathematical model.

use vstd::prelude::*;

verus! {

/// Index of a type node in the arena.
pub type Id = usize;

pub const RECORD_TYPE_KEYWORD: &'static str = "record";

pub const LIST_TYPE_KEYWORD: &'static str = "vec";

pub const GETTER_TYPE_KEYWORD: &'static str = "[]";

pub const FN_TYPE_KEYWORD: &'static str = "->";

pub const UNION_TYPE_KEYWORD: &'static str = "|";

pub const SUBTYPE_KEYWORD: &'static str = "<:";

/// Mathematical model of a type node.
pub enum TypeV {
    Primitive { id: Id, name: Seq<char> },
    Variable { id: Id, instance: Option<Id> },
    Function { id: Id, args: Seq<Id>, ret: Id },
    Record { id: Id, fields: Seq<(Seq<char>, Id)> },
    Container { id: Id, head: Id, elements: Seq<Id> },
    Union { id: Id, types: Seq<Id> },
}

impl TypeV {
    /// The id the node carries.
    pub open spec fn id(self) -> Id {
        match self {
            TypeV::Primitive { id, .. } => id,
            TypeV::Variable { id, .. } => id,
            TypeV::Function { id, .. } => id,
            TypeV::Record { id, .. } => id,
            TypeV::Container { id, .. } => id,
            TypeV::Union { id, .. } => id,
        }
    }

    /// The ids the node refers to, in order: what a traversal visits next.
    pub open spec fn children(self) -> Seq<Id> {
        match self {
            TypeV::Primitive { .. } => Seq::empty(),
            TypeV::Variable { instance, .. } => match instance {
                Some(i) => seq![i],
                None => Seq::empty(),
            },
            TypeV::Function { args, ret, .. } => args.push(ret),
            TypeV::Record { fields, .. } => field_ids(fields),
            TypeV::Container { head, elements, .. } => seq![head] + elements,
            TypeV::Union { types, .. } => types,
        }
    }
}

/// The type ids of a record's fields, in field order.
pub open spec fn field_ids(fields: Seq<(Seq<char>, Id)>) -> Seq<Id> {
    Seq::new(fields.len(), |i: int| fields[i].1)
}

/// The model of a field list: labels by their characters.
pub open spec fn fields_view(fields: Seq<(String, Id)>) -> Seq<(Seq<char>, Id)> {
    Seq::new(fields.len(), |i: int| (fields[i].0@, fields[i].1))
}

/// A type node. Nodes refer to each other by `Id` only.
#[derive(Debug)]
pub enum Type {
    Primitive { id: Id, name: String },
    Variable { id: Id, instance: Option<Id> },
    Function { id: Id, args: Vec<Id>, ret: Id },
    Record { id: Id, fields: Vec<(String, Id)> },
    Container { id: Id, head: Id, elements: Vec<Id> },
    Union { id: Id, types: Vec<Id> },
}

impl View for Type {
    type V = TypeV;

    open spec fn view(&self) -> TypeV {
        match self {
            Type::Primitive { id, name } => TypeV::Primitive { id: *id, name: name@ },
            Type::Variable { id, instance } => TypeV::Variable { id: *id, instance: *instance },
            Type::Function { id, args, ret } => TypeV::Function { id: *id, args: args@, ret: *ret },
            Type::Record { id, fields } => TypeV::Record { id: *id, fields: fields_view(fields@) },
            Type::Container { id, head, elements } => TypeV::Container {
                id: *id,
                head: *head,
                elements: elements@,
            },
            Type::Union { id, types } => TypeV::Union { id: *id, types: types@ },
        }
    }
}

/// Copies a list of ids.
pub fn copy_ids(v: &Vec<Id>) -> (r: Vec<Id>)
    ensures
        r@ == v@,
{
    let mut out: Vec<Id> = Vec::new();
    let mut i: usize = 0;
    while i < v.len()
        invariant
            i <= v.len(),
            out@ == v@.take(i as int),
        decreases v.len() - i,
    {
        out.push(v[i]);
        proof {
            assert(v@.take(i as int).push(v@[i as int]) =~= v@.take(i + 1));
        }
        i = i + 1;
    }
    proof {
        assert(v@.take(v@.len() as int) =~= v@);
    }
    out
}

/// Copies a field list.
pub fn copy_fields(v: &Vec<(String, Id)>) -> (r: Vec<(String, Id)>)
    ensures
        fields_view(r@) == fields_view(v@),
{
    let mut out: Vec<(String, Id)> = Vec::new();
    let mut i: usize = 0;
    while i < v.len()
        invariant
            i <= v.len(),
            out@.len() == i,
            forall|j: int| 0 <= j < i ==> out@[j].0@ == v@[j].0@ && out@[j].1 == v@[j].1,
        decreases v.len() - i,
    {
        out.push((v[i].0.clone(), v[i].1));
        i = i + 1;
    }
    proof {
        assert(fields_view(out@) =~= fields_view(v@));
    }
    out
}

impl Type {
    /// The id the node carries.
    pub fn id(&self) -> (r: Id)
        ensures
            r == self@.id(),
    {
        match self {
            Type::Primitive { id, .. } => *id,
            Type::Variable { id, .. } => *id,
            Type::Function { id, .. } => *id,
            Type::Record { id, .. } => *id,
            Type::Container { id, .. } => *id,
            Type::Union { id, .. } => *id,
        }
    }

    /// A built-in or literal type of the given name.
    pub fn primitive(id: Id, name: &str) -> (r: Type)
        ensures
            r@ == (TypeV::Primitive { id, name: name@ }),
    {
        Type::Primitive { id, name: name.to_string() }
    }

    /// A unification variable that stands for nothing yet.
    pub fn variable(id: Id) -> (r: Type)
        ensures
            r@ == (TypeV::Variable { id, instance: None }),
    {
        Type::Variable { id, instance: None }
    }

    /// Binds a variable to `target`. Only a variable can be bound.
    pub fn set_instance(&mut self, target: Id)
        requires
            old(self)@ is Variable,
        ensures
            final(self)@ == (TypeV::Variable { id: old(self)@.id(), instance: Some(target) }),
    {
        let id = self.id();
        *self = Type::Variable { id, instance: Some(target) };
    }

    /// A function type.
    pub fn function(id: Id, args: Vec<Id>, ret: Id) -> (r: Type)
        ensures
            r@ == (TypeV::Function { id, args: args@, ret }),
    {
        Type::Function { id, args, ret }
    }

    /// A record type over the given fields, kept in the order given.
    pub fn record(id: Id, fields: Vec<(String, Id)>) -> (r: Type)
        ensures
            r@ == (TypeV::Record { id, fields: fields_view(fields@) }),
    {
        Type::Record { id, fields }
    }

    /// A container type: a head applied to element types.
    pub fn container(id: Id, head: Id, elements: Vec<Id>) -> (r: Type)
        ensures
            r@ == (TypeV::Container { id, head, elements: elements@ }),
    {
        Type::Container { id, head, elements }
    }

    /// A union type over the given members.
    pub fn union(id: Id, types: Vec<Id>) -> (r: Type)
        ensures
            r@ == (TypeV::Union { id, types: types@ }),
    {
        Type::Union { id, types }
    }

    /// A copy of the node.
    pub fn duplicate(&self) -> (r: Type)
        ensures
            r@ == self@,
    {
        match self {
            Type::Primitive { id, name } => Type::Primitive { id: *id, name: name.clone() },
            Type::Variable { id, instance } => Type::Variable { id: *id, instance: *instance },
            Type::Function { id, args, ret } => Type::Function {
                id: *id,
                args: copy_ids(args),
                ret: *ret,
            },
            Type::Record { id, fields } => Type::Record { id: *id, fields: copy_fields(fields) },
            Type::Container { id, head, elements } => Type::Container {
                id: *id,
                head: *head,
                elements: copy_ids(elements),
            },
            Type::Union { id, types } => Type::Union { id: *id, types: copy_ids(types) },
        }
    }
}

} // verus!
