//! The type environment: interned type expressions, type aliases, and the
//! types of term variables.

use crate::error::TypeError;
use crate::names::{assoc, label_before, label_lt, NameMap};
use crate::sexp::{lemma_list_view, parsed_text, rendered_text, views, Sx, TypeExpr};
use crate::type_alloc::{all_below, grown, node_fits, type_sx, TypeAlloc};
use crate::types::{
    fields_view, Id, Type, TypeV, FN_TYPE_KEYWORD, GETTER_TYPE_KEYWORD, LIST_TYPE_KEYWORD,
    RECORD_TYPE_KEYWORD, SUBTYPE_KEYWORD, UNION_TYPE_KEYWORD,
};
use vstd::prelude::*;

verus! {

/// The part of an environment that interning reads and changes.
pub struct EnvV {
    pub arena: Seq<TypeV>,
    pub ids: Seq<(Seq<char>, Id)>,
}

/// An ASCII letter.
pub open spec fn is_letter(c: char) -> bool {
    ('a' as u32 <= c as u32 && c as u32 <= 'z' as u32) || ('A' as u32 <= c as u32 && c as u32
        <= 'Z' as u32)
}

/// A type parameter is written as one letter.
pub open spec fn is_var_name(s: Seq<char>) -> bool {
    s.len() == 1 && is_letter(s[0])
}

/// `ids` with `x` put in its place: ascending, nothing twice.
pub open spec fn put_id_at(ids: Seq<Id>, x: Id, i: int) -> Seq<Id>
    decreases ids.len() - i,
{
    if i < 0 || i >= ids.len() {
        ids.push(x)
    } else if ids[i] == x {
        ids
    } else if x < ids[i] {
        ids.insert(i, x)
    } else {
        put_id_at(ids, x, i + 1)
    }
}

/// The set of the first `n` of `m`, as an ascending list.
pub open spec fn id_set(m: Seq<Id>, n: int) -> Seq<Id>
    decreases n,
{
    if n <= 0 || n > m.len() {
        Seq::empty()
    } else {
        put_id_at(id_set(m, n - 1), m[n - 1], 0)
    }
}

/// `fields` with `label` bound to `id`: in label order, a later binding of a
/// label in place of the earlier one.
pub open spec fn put_field_at(
    fields: Seq<(Seq<char>, Id)>,
    label: Seq<char>,
    id: Id,
    i: int,
) -> Seq<(Seq<char>, Id)>
    decreases fields.len() - i,
{
    if i < 0 || i >= fields.len() {
        fields.push((label, id))
    } else if fields[i].0 == label {
        fields.update(i, (label, id))
    } else if label_lt(label, fields[i].0) {
        fields.insert(i, (label, id))
    } else {
        put_field_at(fields, label, id, i + 1)
    }
}

/// Appends `node` under the next id and records that `e` stands for it.
pub open spec fn register(st: EnvV, e: Sx, node: TypeV) -> (Result<Id, TypeError>, EnvV) {
    (
        Ok(st.arena.len() as Id),
        EnvV {
            arena: st.arena.push(node),
            ids: st.ids.push((rendered_text(e), st.arena.len() as Id)),
        },
    )
}

/// A name that may stand for a bounded variable: it starts with a letter.
pub open spec fn is_bounded_name(s: Seq<char>) -> bool {
    s.len() > 0 && is_letter(s[0])
}

/// Interning a bounded variable `(v <: bound)`, written `e`. The expression
/// is recorded for the next id first. Then the bound must stand for a type
/// already, and a variable that stands for the bound is added under that id.
/// Where the bound is unknown the record stays and no node is added.
pub open spec fn bounded(st: EnvV, e: Sx, v: Sx, bound: Sx) -> (Result<Id, TypeError>, EnvV) {
    let next = st.arena.len() as Id;
    match v {
        Sx::Atom(s) => if is_bounded_name(s) {
            let ids = st.ids.push((rendered_text(e), next));
            match assoc(ids, rendered_text(bound)) {
                None => (Err(TypeError::NameNotFound), EnvV { arena: st.arena, ids }),
                Some(b) => if b < st.arena.len() {
                    (
                        Ok(next),
                        EnvV {
                            arena: st.arena.push(TypeV::Variable { id: next, instance: Some(b) }),
                            ids,
                        },
                    )
                } else {
                    (Err(TypeError::IdNotFound(b)), EnvV { arena: st.arena, ids })
                },
            }
        } else {
            (Err(TypeError::Unsupported), st)
        },
        _ => (Err(TypeError::Unsupported), st),
    }
}

/// What interning a type expression returns, and the environment after it.
/// An expression whose printed form is known stands for the id recorded for
/// it. Otherwise its parts are interned, left to right, and a node is added:
/// a variable for a single letter, a primitive for any other bare string, and
/// for a list what its keyword says; `(v <: bound)` is a bounded variable.
pub open spec fn intern(st: EnvV, e: Sx) -> (Result<Id, TypeError>, EnvV)
    decreases e, 0nat,
{
    let next = st.arena.len() as Id;
    match assoc(st.ids, rendered_text(e)) {
        Some(id) => if id < st.arena.len() {
            (Ok(id), st)
        } else {
            (Err(TypeError::IdNotFound(id)), st)
        },
        None => match e {
            Sx::Atom(s) => if is_var_name(s) {
                register(st, e, TypeV::Variable { id: next, instance: None })
            } else {
                register(st, e, TypeV::Primitive { id: next, name: s })
            },
            Sx::Empty => (Err(TypeError::Unsupported), st),
            Sx::List(l) => if l.len() == 3 && l[1] == Sx::Atom(FN_TYPE_KEYWORD@) {
                match l[0] {
                    Sx::List(args) => {
                        let (a, s1) = intern_list(st, args, 0);
                        match a {
                            Err(x) => (Err(x), s1),
                            Ok(a) => {
                                let (r, s2) = intern(s1, l[2]);
                                match r {
                                    Err(x) => (Err(x), s2),
                                    Ok(r) => register(
                                        s2,
                                        e,
                                        TypeV::Function {
                                            id: s2.arena.len() as Id,
                                            args: a,
                                            ret: r,
                                        },
                                    ),
                                }
                            },
                        }
                    },
                    _ => (Err(TypeError::Unsupported), st),
                }
            } else if l.len() >= 1 && l[0] == Sx::Atom(RECORD_TYPE_KEYWORD@) {
                let (f, s1) = intern_fields(st, l, 1, Seq::empty());
                match f {
                    Err(x) => (Err(x), s1),
                    Ok(f) => register(
                        s1,
                        e,
                        TypeV::Record { id: s1.arena.len() as Id, fields: f },
                    ),
                }
            } else if l.len() >= 1 && l[0] == Sx::Atom(LIST_TYPE_KEYWORD@) {
                let (els, s1) = intern_list(st, l, 1);
                match els {
                    Err(x) => (Err(x), s1),
                    Ok(els) => {
                        let (h, s2) = intern(s1, l[0]);
                        match h {
                            Err(x) => (Err(x), s2),
                            Ok(h) => register(
                                s2,
                                e,
                                TypeV::Container {
                                    id: s2.arena.len() as Id,
                                    head: h,
                                    elements: els,
                                },
                            ),
                        }
                    },
                }
            } else if l.len() == 3 && l[0] == Sx::Atom(GETTER_TYPE_KEYWORD@) {
                let (h, s1) = intern(st, l[0]);
                match h {
                    Err(x) => (Err(x), s1),
                    Ok(h) => {
                        let (els, s2) = intern_list(s1, l, 1);
                        match els {
                            Err(x) => (Err(x), s2),
                            Ok(els) => register(
                                s2,
                                e,
                                TypeV::Container {
                                    id: s2.arena.len() as Id,
                                    head: h,
                                    elements: els,
                                },
                            ),
                        }
                    },
                }
            } else if l.len() >= 1 && l[0] == Sx::Atom(UNION_TYPE_KEYWORD@) {
                let (m, s1) = intern_list(st, l, 1);
                match m {
                    Err(x) => (Err(x), s1),
                    Ok(m) => register(
                        s1,
                        e,
                        TypeV::Union { id: s1.arena.len() as Id, types: id_set(m, m.len() as int) },
                    ),
                }
            } else if l.len() == 3 && l[1] == Sx::Atom(SUBTYPE_KEYWORD@) {
                bounded(st, e, l[0], l[2])
            } else {
                (Err(TypeError::Unsupported), st)
            },
        },
    }
}

/// Interns `l[i..]`, left to right.
pub open spec fn intern_list(st: EnvV, l: Seq<Sx>, i: int) -> (Result<Seq<Id>, TypeError>, EnvV)
    decreases l, l.len() - i,
{
    if i < 0 || i >= l.len() {
        (Ok(Seq::empty()), st)
    } else {
        let (h, s1) = intern(st, l[i]);
        match h {
            Err(x) => (Err(x), s1),
            Ok(h) => {
                let (t, s2) = intern_list(s1, l, i + 1);
                match t {
                    Err(x) => (Err(x), s2),
                    Ok(t) => (Ok(seq![h] + t), s2),
                }
            },
        }
    }
}

/// Interns the field declarations `l[i..]`, each of the form `(label : type)`,
/// adding them to `acc`.
pub open spec fn intern_fields(st: EnvV, l: Seq<Sx>, i: int, acc: Seq<(Seq<char>, Id)>) -> (
    Result<Seq<(Seq<char>, Id)>, TypeError>,
    EnvV,
)
    decreases l, l.len() - i,
{
    if i < 0 || i >= l.len() {
        (Ok(acc), st)
    } else {
        match l[i] {
            Sx::List(f) => if f.len() == 3 && f[0] is Atom && f[1] == Sx::Atom(":"@) {
                let (t, s1) = intern(st, f[2]);
                match t {
                    Err(x) => (Err(x), s1),
                    Ok(t) => intern_fields(s1, l, i + 1, put_field_at(acc, f[0]->Atom_0, t, 0)),
                }
            } else {
                (Err(TypeError::Unsupported), st)
            },
            _ => (Err(TypeError::Unsupported), st),
        }
    }
}

/// Puts `x` into an ascending list of distinct ids.
pub fn put_id(ids: &mut Vec<Id>, x: Id)
    ensures
        final(ids)@ == put_id_at(old(ids)@, x, 0),
{
    let mut i: usize = 0;
    while i < ids.len()
        invariant
            *ids == *old(ids),
            i <= ids.len(),
            put_id_at(ids@, x, 0) == put_id_at(ids@, x, i as int),
        decreases ids.len() - i,
    {
        if ids[i] == x {
            return ;
        }
        if x < ids[i] {
            ids.insert(i, x);
            return ;
        }
        i = i + 1;
    }
    ids.push(x);
}

/// The set of `m` as an ascending list.
pub fn ids_to_set(m: &Vec<Id>) -> (r: Vec<Id>)
    ensures
        r@ == id_set(m@, m@.len() as int),
{
    let mut out: Vec<Id> = Vec::new();
    let mut i: usize = 0;
    while i < m.len()
        invariant
            i <= m.len(),
            out@ == id_set(m@, i as int),
        decreases m.len() - i,
    {
        put_id(&mut out, m[i]);
        i = i + 1;
    }
    out
}

/// Binds `label` to `id` in a field list kept in label order.
pub fn put_field(fields: &mut Vec<(String, Id)>, label: String, id: Id)
    ensures
        fields_view(final(fields)@) == put_field_at(fields_view(old(fields)@), label@, id, 0),
{
    let mut i: usize = 0;
    while i < fields.len()
        invariant
            *fields == *old(fields),
            i <= fields.len(),
            put_field_at(fields_view(fields@), label@, id, 0) == put_field_at(
                fields_view(fields@),
                label@,
                id,
                i as int,
            ),
        decreases fields.len() - i,
    {
        if fields[i].0 == label {
            fields.set(i, (label, id));
            proof {
                assert(fields_view(fields@) =~= fields_view(old(fields)@).update(
                    i as int,
                    (label@, id),
                ));
            }
            return ;
        }
        if label_before(label.as_str(), fields[i].0.as_str()) {
            fields.insert(i, (label, id));
            proof {
                assert(fields_view(fields@) =~= fields_view(old(fields)@).insert(
                    i as int,
                    (label@, id),
                ));
            }
            return ;
        }
        i = i + 1;
    }
    fields.push((label, id));
    proof {
        assert(fields_view(fields@) =~= fields_view(old(fields)@).push((label@, id)));
    }
}

/// Whether a string starts with an ASCII letter.
pub fn is_bounded_variable(s: &str) -> (r: bool)
    ensures
        r == is_bounded_name(s@),
{
    if s.unicode_len() == 0 {
        return false;
    }
    let n = s.get_char(0) as u32;
    (97 <= n && n <= 122) || (65 <= n && n <= 90)
}

/// Whether a string is one ASCII letter.
pub fn is_type_variable(s: &str) -> (r: bool)
    ensures
        r == is_var_name(s@),
{
    if s.unicode_len() != 1 {
        return false;
    }
    let c = s.get_char(0);
    let n = c as u32;
    (97 <= n && n <= 122) || (65 <= n && n <= 90)
}

/// The type expression of a function: `((args...) -> ret)`.
pub fn arrow(args: Vec<TypeExpr>, ret: TypeExpr) -> (e: TypeExpr)
    ensures
        e@ == Sx::List(seq![Sx::List(views(args@)), Sx::Atom(FN_TYPE_KEYWORD@), ret@]),
{
    let mut out: Vec<TypeExpr> = Vec::new();
    out.push(TypeExpr::list(args));
    out.push(TypeExpr::atom(FN_TYPE_KEYWORD));
    out.push(ret);
    proof {
        assert(views(out@) =~= seq![Sx::List(views(args@)), Sx::Atom(FN_TYPE_KEYWORD@), ret@]);
    }
    TypeExpr::list(out)
}

/// The type expression of a container: `(name elements...)`.
pub fn container(name: String, elements: Vec<TypeExpr>) -> (e: TypeExpr)
    ensures
        e@ == Sx::List(seq![Sx::Atom(name@)] + views(elements@)),
{
    let mut out = elements;
    out.insert(0, TypeExpr::Atom(name));
    proof {
        assert(views(out@) =~= seq![Sx::Atom(name@)] + views(elements@));
    }
    TypeExpr::list(out)
}

/// The rendered fields of a record type expression.
pub open spec fn field_exprs(fields: Seq<(String, TypeExpr)>) -> Seq<Sx> {
    Seq::new(
        fields.len(),
        |i: int| Sx::List(seq![Sx::Atom(fields[i].0@), Sx::Atom(":"@), fields[i].1@]),
    )
}

/// The type expression of a record: `(record (label : type)...)`, the fields
/// in the order given.
pub fn record(fields: Vec<(String, TypeExpr)>) -> (e: TypeExpr)
    ensures
        e@ == Sx::List(seq![Sx::Atom(RECORD_TYPE_KEYWORD@)] + field_exprs(fields@)),
{
    let mut out: Vec<TypeExpr> = Vec::new();
    out.push(TypeExpr::atom(RECORD_TYPE_KEYWORD));
    let mut i: usize = 0;
    while i < fields.len()
        invariant
            i <= fields.len(),
            out@.len() == i + 1,
            out@[0]@ == Sx::Atom(RECORD_TYPE_KEYWORD@),
            forall|j: int| 0 <= j < i ==> (#[trigger] out@[j + 1])@ == field_exprs(fields@)[j],
        decreases fields.len() - i,
    {
        let mut f: Vec<TypeExpr> = Vec::new();
        f.push(TypeExpr::Atom(fields[i].0.clone()));
        f.push(TypeExpr::atom(":"));
        f.push(fields[i].1.duplicate());
        proof {
            assert(views(f@) =~= seq![
                Sx::Atom(fields@[i as int].0@),
                Sx::Atom(":"@),
                fields@[i as int].1@,
            ]);
        }
        out.push(TypeExpr::list(f));
        i = i + 1;
    }
    proof {
        assert forall|k: int| 0 <= k < out@.len() implies views(out@)[k] == (seq![
            Sx::Atom(RECORD_TYPE_KEYWORD@),
        ] + field_exprs(fields@))[k] by {
            if k > 0 {
                assert(out@[(k - 1) + 1]@ == field_exprs(fields@)[k - 1]);
            }
        }
        assert(views(out@) =~= seq![Sx::Atom(RECORD_TYPE_KEYWORD@)] + field_exprs(fields@));
    }
    TypeExpr::list(out)
}

/// The first name among the bindings `s[i..]` that stands for `id` now: a
/// binding counts only while no later binding of its name hides it.
pub open spec fn first_name(s: Seq<(Seq<char>, Id)>, id: Id, i: int) -> Option<Seq<char>>
    decreases s.len() - i,
{
    if i < 0 || i >= s.len() {
        None
    } else if s[i].1 == id && assoc(s, s[i].0) == Some(id) {
        Some(s[i].0)
    } else {
        first_name(s, id, i + 1)
    }
}

/// The name found for an id stands for that id.
pub proof fn lemma_first_name_live(s: Seq<(Seq<char>, Id)>, id: Id, i: int)
    requires
        0 <= i,
    ensures
        first_name(s, id, i) matches Some(k) ==> assoc(s, k) == Some(id),
    decreases s.len() - i,
{
    if i < s.len() && !(s[i].1 == id && assoc(s, s[i].0) == Some(id)) {
        lemma_first_name_live(s, id, i + 1);
    }
}

/// What a name stands for is what one of the bindings says.
pub proof fn lemma_assoc_index(s: Seq<(Seq<char>, Id)>, name: Seq<char>) -> (j: int)
    requires
        assoc(s, name) is Some,
    ensures
        0 <= j < s.len(),
        s[j] == (name, assoc(s, name)->Some_0),
    decreases s.len(),
{
    if s.last().0 == name {
        s.len() - 1
    } else {
        let j = lemma_assoc_index(s.drop_last(), name);
        assert(s.drop_last()[j] == s[j]);
        j
    }
}

/// Where a binding from `i` on stands for `id` now, a name is found.
pub proof fn lemma_first_name_found(s: Seq<(Seq<char>, Id)>, id: Id, i: int, j: int)
    requires
        0 <= i <= j < s.len(),
        s[j].1 == id,
        assoc(s, s[j].0) == Some(id),
    ensures
        first_name(s, id, i) is Some,
    decreases j - i,
{
    if i < j && !(s[i].1 == id && assoc(s, s[i].0) == Some(id)) {
        lemma_first_name_found(s, id, i + 1, j);
    }
}

/// What an error is called, whatever types it is about.
pub open spec fn kind_text(err: TypeError) -> Seq<char> {
    match err {
        TypeError::IdNotFound(_) => "type id not found"@,
        TypeError::Cyclic => "cyclic type"@,
        TypeError::TooManyVariables => "too many type variables"@,
        TypeError::NameNotFound => "name not found"@,
        TypeError::Unsupported => "unsupported type"@,
        TypeError::Syntax => "syntax error"@,
        TypeError::NotRecord(_) => "not a record type"@,
        TypeError::NotAtom(_) => "not an atom type"@,
        TypeError::FieldNotFound(_, _) => "key not found in record"@,
        TypeError::Mismatch(_, _) => "type mismatch"@,
        TypeError::Recursive => "recursive unification"@,
        TypeError::NotSubtype(_, _) => "not a subtype"@,
        TypeError::NotApplicable(_) => "not an appliable type"@,
        TypeError::GuardNotBool(_) => "pattern must be bool"@,
        TypeError::NotUniform(_, _) => "elements must have the same type"@,
        TypeError::Untypable => "expression has no type"@,
        TypeError::NotFunction => "not a function"@,
        TypeError::UnboundVariable => "variable not found"@,
        TypeError::NoMatchingCase => "unreachable in case"@,
        TypeError::BadArgument => "bad argument"@,
        TypeError::UnknownExternal => "not an external"@,
        TypeError::Overflow => "number out of range"@,
        TypeError::OutOfFuel => "out of steps"@,
    }
}

/// The two types that an error compares, and what stands between them in
/// its message.
pub open spec fn compared(err: TypeError) -> Option<(Id, Id, Seq<char>)> {
    match err {
        TypeError::NotSubtype(a, b) => Some((a, b, " is not subtype of "@)),
        TypeError::Mismatch(a, b) => Some((a, b, " != "@)),
        TypeError::NotUniform(a, b) => Some((a, b, " and "@)),
        TypeError::FieldNotFound(a, b) => Some((b, a, " not in "@)),
        _ => None,
    }
}

/// The one type that an error is about.
pub open spec fn subject(err: TypeError) -> Option<Id> {
    match err {
        TypeError::NotRecord(a) => Some(a),
        TypeError::NotAtom(a) => Some(a),
        TypeError::NotApplicable(a) => Some(a),
        TypeError::GuardNotBool(a) => Some(a),
        _ => None,
    }
}

/// The message for an error that arose over an arena. An error that compares
/// two types shows both, rendered; one that is about one type names the kind
/// of error and shows the type; any other, and one whose types do not render,
/// names the kind of error.
pub open spec fn error_text(arena: Seq<TypeV>, err: TypeError) -> Seq<char> {
    match compared(err) {
        Some((a, b, mid)) => match (type_sx(arena, a), type_sx(arena, b)) {
            (Ok(x), Ok(y)) => rendered_text(x) + mid + rendered_text(y),
            _ => kind_text(err),
        },
        None => match subject(err) {
            Some(a) => match type_sx(arena, a) {
                Ok(x) => kind_text(err) + ": "@ + rendered_text(x),
                _ => kind_text(err),
            },
            None => kind_text(err),
        },
    }
}

/// What an error is called.
pub fn kind_name(err: TypeError) -> (r: String)
    ensures
        r@ == kind_text(err),
{
    match err {
        TypeError::IdNotFound(_) => "type id not found".to_owned(),
        TypeError::Cyclic => "cyclic type".to_owned(),
        TypeError::TooManyVariables => "too many type variables".to_owned(),
        TypeError::NameNotFound => "name not found".to_owned(),
        TypeError::Unsupported => "unsupported type".to_owned(),
        TypeError::Syntax => "syntax error".to_owned(),
        TypeError::NotRecord(_) => "not a record type".to_owned(),
        TypeError::NotAtom(_) => "not an atom type".to_owned(),
        TypeError::FieldNotFound(_, _) => "key not found in record".to_owned(),
        TypeError::Mismatch(_, _) => "type mismatch".to_owned(),
        TypeError::Recursive => "recursive unification".to_owned(),
        TypeError::NotSubtype(_, _) => "not a subtype".to_owned(),
        TypeError::NotApplicable(_) => "not an appliable type".to_owned(),
        TypeError::GuardNotBool(_) => "pattern must be bool".to_owned(),
        TypeError::NotUniform(_, _) => "elements must have the same type".to_owned(),
        TypeError::Untypable => "expression has no type".to_owned(),
        TypeError::NotFunction => "not a function".to_owned(),
        TypeError::UnboundVariable => "variable not found".to_owned(),
        TypeError::NoMatchingCase => "unreachable in case".to_owned(),
        TypeError::BadArgument => "bad argument".to_owned(),
        TypeError::UnknownExternal => "not an external".to_owned(),
        TypeError::Overflow => "number out of range".to_owned(),
        TypeError::OutOfFuel => "out of steps".to_owned(),
    }
}

/// A type environment. Every type expression it has interned stands for one
/// node of its arena.
pub struct TypeEnv {
    pub alloc: TypeAlloc,
    pub variables: NameMap,
    pub id_map: NameMap,
}

/// A name that no binding carries is bound to nothing.
pub proof fn lemma_assoc_absent(s: Seq<(Seq<char>, Id)>, name: Seq<char>)
    requires
        forall|i: int| 0 <= i < s.len() ==> (#[trigger] s[i]).0 != name,
    ensures
        assoc(s, name) is None,
    decreases s.len(),
{
    if s.len() > 0 {
        lemma_assoc_absent(s.drop_last(), name);
    }
}

/// The arena of a fresh environment: the built-in types, in this order.
pub open spec fn builtin_arena() -> Seq<TypeV> {
    seq![
        TypeV::Primitive { id: 0, name: "any"@ },
        TypeV::Primitive { id: 1, name: "int"@ },
        TypeV::Primitive { id: 2, name: "bool"@ },
        TypeV::Primitive { id: 3, name: "atom"@ },
        TypeV::Primitive { id: 4, name: "str"@ },
        TypeV::Primitive { id: 5, name: "vec"@ },
    ]
}

/// The names of a fresh environment.
pub open spec fn builtin_names() -> Seq<(Seq<char>, Id)> {
    seq![
        ("any"@, 0usize),
        ("int"@, 1usize),
        ("bool"@, 2usize),
        ("atom"@, 3usize),
        ("str"@, 4usize),
        ("vec"@, 5usize),
    ]
}

impl Default for TypeEnv {
    /// The environment every session starts from: it knows the built-in
    /// types and nothing else.
    fn default() -> (r: TypeEnv)
        ensures
            r.wf(),
            r.alloc@ == builtin_arena(),
            r.id_map@ == builtin_names(),
            r.variables@ == Seq::<(Seq<char>, Id)>::empty(),
    {
        let mut env = TypeEnv::new();
        proof {
            reveal_strlit("any");
            reveal_strlit("int");
            reveal_strlit("bool");
            reveal_strlit("atom");
            reveal_strlit("str");
            reveal_strlit("vec");
        }
        let any = env.new_type(&TypeExpr::atom("any"));
        assert(env.id_map@ =~= seq![("any"@, 0usize)]);
        proof {
            assert("int"@[0] != "any"@[0]);
            assert("atom"@[0] != "bool"@[0]);
            assert("str"@[0] != "any"@[0] && "str"@[0] != "int"@[0]);
            assert("vec"@[0] != "any"@[0] && "vec"@[0] != "int"@[0] && "vec"@[0] != "str"@[0]);
            lemma_assoc_absent(env.id_map@, "int"@);
        }
        let n = env.new_type(&TypeExpr::atom("int"));
        assert(env.id_map@ =~= seq![("any"@, 0usize), ("int"@, 1usize)]);
        proof {
            lemma_assoc_absent(env.id_map@, "bool"@);
        }
        let b = env.new_type(&TypeExpr::atom("bool"));
        assert(env.id_map@ =~= seq![("any"@, 0usize), ("int"@, 1usize), ("bool"@, 2usize)]);
        proof {
            lemma_assoc_absent(env.id_map@, "atom"@);
        }
        let atom = env.new_type(&TypeExpr::atom("atom"));
        assert(env.id_map@ =~= seq![
            ("any"@, 0usize),
            ("int"@, 1usize),
            ("bool"@, 2usize),
            ("atom"@, 3usize),
        ]);
        proof {
            lemma_assoc_absent(env.id_map@, "str"@);
        }
        let text = env.new_type(&TypeExpr::atom("str"));
        assert(env.id_map@ =~= seq![
            ("any"@, 0usize),
            ("int"@, 1usize),
            ("bool"@, 2usize),
            ("atom"@, 3usize),
            ("str"@, 4usize),
        ]);
        proof {
            lemma_assoc_absent(env.id_map@, "vec"@);
        }
        let v = env.new_type(&TypeExpr::atom("vec"));
        assert(env.id_map@ =~= builtin_names());
        assert(env.alloc@ =~= builtin_arena());
        env
    }
}

impl TypeEnv {
    /// The invariant: the arena's.
    pub open spec fn wf(&self) -> bool {
        self.alloc.wf()
    }

    /// Whether the invariant holds.
    pub fn is_well_formed(&self) -> (r: bool)
        ensures
            r == self.wf(),
    {
        self.alloc.is_well_formed()
    }

    /// A name that stands for `id`: the first recorded among those that
    /// still stand for it. A name that was bound anew to another id is none
    /// of them. `NameNotFound` exactly where no name stands for `id`.
    pub fn get_by_id(&self, id: &Id) -> (r: Result<String, TypeError>)
        ensures
            match r {
                Ok(k) => first_name(self.id_map@, *id, 0) == Some(k@) && assoc(self.id_map@, k@)
                    == Some(*id),
                Err(e) => e == TypeError::NameNotFound && forall|name: Seq<char>|
                    assoc(self.id_map@, name) != Some(*id),
            },
    {
        let mut i: usize = 0;
        while i < self.id_map.len()
            invariant
                i <= self.id_map@.len(),
                first_name(self.id_map@, *id, 0) == first_name(self.id_map@, *id, i as int),
            decreases self.id_map@.len() - i,
        {
            let entry = self.id_map.entry(i);
            if entry.1 == *id {
                let live = match self.id_map.get(entry.0.as_str()) {
                    Some(now) => now == *id,
                    None => false,
                };
                if live {
                    proof {
                        lemma_first_name_live(self.id_map@, *id, 0);
                    }
                    return Ok(entry.0);
                }
            }
            i = i + 1;
        }
        proof {
            assert forall|name: Seq<char>| assoc(self.id_map@, name) != Some(*id) by {
                if assoc(self.id_map@, name) == Some(*id) {
                    let j = lemma_assoc_index(self.id_map@, name);
                    lemma_first_name_found(self.id_map@, *id, 0, j);
                }
            }
        }
        Err(TypeError::NameNotFound)
    }

    /// The part that interning works on.
    pub open spec fn state(&self) -> EnvV {
        EnvV { arena: self.alloc@, ids: self.id_map@ }
    }

    /// An environment with nothing in it.
    pub fn new() -> (r: TypeEnv)
        ensures
            r.wf(),
            r.alloc@ == Seq::<TypeV>::empty(),
            r.id_map@ == Seq::<(Seq<char>, Id)>::empty(),
            r.variables@ == Seq::<(Seq<char>, Id)>::empty(),
    {
        TypeEnv { alloc: TypeAlloc::new(), variables: NameMap::new(), id_map: NameMap::new() }
    }

    /// The id that a type expression was interned under.
    pub fn get(&self, type_expr: &TypeExpr) -> (r: Result<Id, TypeError>)
        ensures
            r == match assoc(self.id_map@, rendered_text(type_expr@)) {
                Some(id) => Ok::<Id, TypeError>(id),
                None => Err::<Id, TypeError>(TypeError::NameNotFound),
            },
    {
        let key = type_expr.render();
        match self.id_map.get(key.as_str()) {
            Some(id) => Ok(id),
            None => Err(TypeError::NameNotFound),
        }
    }

    /// Renders a type.
    pub fn name_of(&self, id: Id) -> (r: Result<TypeExpr, TypeError>)
        ensures
            crate::type_alloc::rendered_as(r, type_sx(self.alloc@, id)),
    {
        self.alloc.as_sexp(id)
    }

    /// A message for an error that arose in this environment, with the types
    /// it is about rendered.
    pub fn describe(&self, err: TypeError) -> (r: String)
        ensures
            r@ == error_text(self.alloc@, err),
    {
        let pair = match err {
            TypeError::NotSubtype(a, b) => Some((a, b, " is not subtype of ")),
            TypeError::Mismatch(a, b) => Some((a, b, " != ")),
            TypeError::NotUniform(a, b) => Some((a, b, " and ")),
            TypeError::FieldNotFound(a, b) => Some((b, a, " not in ")),
            _ => None,
        };
        match pair {
            Some((a, b, mid)) => {
                match (self.alloc.as_sexp(a), self.alloc.as_sexp(b)) {
                    (Ok(x), Ok(y)) => {
                        let mut out = x.render();
                        out.append(mid);
                        out.append(y.render().as_str());
                        out
                    },
                    _ => kind_name(err),
                }
            },
            None => {
                let one = match err {
                    TypeError::NotRecord(a) => Some(a),
                    TypeError::NotAtom(a) => Some(a),
                    TypeError::NotApplicable(a) => Some(a),
                    TypeError::GuardNotBool(a) => Some(a),
                    _ => None,
                };
                match one {
                    Some(a) => match self.alloc.as_sexp(a) {
                        Ok(x) => {
                            let mut out = kind_name(err);
                            out.append(": ");
                            out.append(x.render().as_str());
                            out
                        },
                        _ => kind_name(err),
                    },
                    None => kind_name(err),
                }
            },
        }
    }

    /// Lets `name` stand for type `ty`. No node is added.
    pub fn new_alias(&mut self, name: &str, ty: Id)
        ensures
            final(self).id_map@ == old(self).id_map@.push((name@, ty)),
            final(self).alloc == old(self).alloc,
            final(self).variables == old(self).variables,
    {
        self.id_map.insert(name.to_owned(), ty);
    }

    /// Gives the term variable `name` the type `ty`.
    pub fn set_variable(&mut self, name: &str, ty: Id)
        ensures
            final(self).variables@ == old(self).variables@.push((name@, ty)),
            final(self).alloc == old(self).alloc,
            final(self).id_map == old(self).id_map,
    {
        self.variables.insert(name.to_owned(), ty);
    }

    /// The type of the term variable `name`.
    pub fn get_variable(&self, name: &str) -> (r: Result<Id, TypeError>)
        ensures
            r == match assoc(self.variables@, name@) {
                Some(id) => Ok::<Id, TypeError>(id),
                None => Err::<Id, TypeError>(TypeError::NameNotFound),
            },
    {
        match self.variables.get(name) {
            Some(id) => Ok(id),
            None => Err(TypeError::NameNotFound),
        }
    }

    fn register_type_id(&mut self, key: String, node: Type) -> (r: Id)
        requires
            old(self).wf(),
            node_fits(node@, old(self).alloc@.len() as int, old(self).alloc@.len() as int + 1),
            all_below(node@.children(), old(self).alloc@.len() as int),
        ensures
            final(self).wf(),
            r == old(self).alloc@.len(),
            final(self).alloc@ == old(self).alloc@.push(node@),
            final(self).id_map@ == old(self).id_map@.push((key@, r)),
            final(self).variables == old(self).variables,
    {
        let id = self.alloc.issue_id();
        self.alloc.insert(node);
        self.id_map.insert(key, id);
        id
    }

    /// Interns a type expression: the id it stands for, adding the nodes that
    /// were not there yet.
    pub fn new_type(&mut self, ty: &TypeExpr) -> (r: Result<Id, TypeError>)
        requires
            old(self).wf(),
        ensures
            final(self).wf(),
            final(self).variables == old(self).variables,
            r == intern(old(self).state(), ty@).0,
            final(self).state() == intern(old(self).state(), ty@).1,
            grown(old(self).alloc@, final(self).alloc@),
            grown(old(self).id_map@, final(self).id_map@),
            r matches Ok(id) ==> id < final(self).alloc@.len(),
        decreases ty, 0nat,
    {
        let key = ty.render();
        match self.id_map.get(key.as_str()) {
            Some(id) => {
                if id < self.alloc.len() {
                    return Ok(id);
                } else {
                    return Err(TypeError::IdNotFound(id));
                }
            },
            None => {},
        }
        match ty {
            TypeExpr::Atom(s) => {
                let id = self.alloc.issue_id();
                if is_type_variable(s.as_str()) {
                    Ok(self.register_type_id(key, Type::variable(id)))
                } else {
                    Ok(self.register_type_id(key, Type::primitive(id, s.as_str())))
                }
            },
            TypeExpr::Empty => Err(TypeError::Unsupported),
            TypeExpr::List(l) => {
                proof {
                    lemma_list_view(*l);
                }
                if l.len() == 3 && l[1].is_atom(FN_TYPE_KEYWORD) {
                    match &l[0] {
                        TypeExpr::List(args) => {
                            proof {
                                lemma_list_view(*args);
                            }
                            let a = self.new_types(args, 0)?;
                            let r = self.new_type(&l[2])?;
                            let id = self.alloc.issue_id();
                            Ok(self.register_type_id(key, Type::function(id, a, r)))
                        },
                        _ => Err(TypeError::Unsupported),
                    }
                } else if l.len() >= 1 && l[0].is_atom(RECORD_TYPE_KEYWORD) {
                    let acc: Vec<(String, Id)> = Vec::new();
                    assert(fields_view(acc@) =~= Seq::<(Seq<char>, Id)>::empty());
                    let f = self.new_fields(l, 1, acc)?;
                    let id = self.alloc.issue_id();
                    Ok(self.register_type_id(key, Type::record(id, f)))
                } else if l.len() >= 1 && l[0].is_atom(LIST_TYPE_KEYWORD) {
                    let els = self.new_types(l, 1)?;
                    let h = self.new_type(&l[0])?;
                    let id = self.alloc.issue_id();
                    Ok(self.register_type_id(key, Type::container(id, h, els)))
                } else if l.len() == 3 && l[0].is_atom(GETTER_TYPE_KEYWORD) {
                    let h = self.new_type(&l[0])?;
                    let els = self.new_types(l, 1)?;
                    let id = self.alloc.issue_id();
                    Ok(self.register_type_id(key, Type::container(id, h, els)))
                } else if l.len() >= 1 && l[0].is_atom(UNION_TYPE_KEYWORD) {
                    let m = self.new_types(l, 1)?;
                    let set = ids_to_set(&m);
                    proof {
                        lemma_id_set_below(m@, m@.len() as int, self.alloc@.len() as int);
                    }
                    let id = self.alloc.issue_id();
                    Ok(self.register_type_id(key, Type::union(id, set)))
                } else if l.len() == 3 && l[1].is_atom(SUBTYPE_KEYWORD) {
                    match &l[0] {
                        TypeExpr::Atom(v) => {
                            if !is_bounded_variable(v.as_str()) {
                                return Err(TypeError::Unsupported);
                            }
                            let id = self.alloc.issue_id();
                            self.id_map.insert(key, id);
                            let bound = l[2].render();
                            match self.id_map.get(bound.as_str()) {
                                None => Err(TypeError::NameNotFound),
                                Some(b) => {
                                    if b < self.alloc.len() {
                                        self.alloc.insert(
                                            Type::Variable { id, instance: Some(b) },
                                        );
                                        Ok(id)
                                    } else {
                                        Err(TypeError::IdNotFound(b))
                                    }
                                },
                            }
                        },
                        _ => Err(TypeError::Unsupported),
                    }
                } else {
                    Err(TypeError::Unsupported)
                }
            },
        }
    }

    fn new_types(&mut self, l: &Vec<TypeExpr>, i: usize) -> (r: Result<Vec<Id>, TypeError>)
        requires
            old(self).wf(),
        ensures
            final(self).wf(),
            final(self).variables == old(self).variables,
            match r {
                Ok(v) => intern_list(old(self).state(), views(l@), i as int).0 == Ok::<
                    Seq<Id>,
                    TypeError,
                >(v@),
                Err(x) => intern_list(old(self).state(), views(l@), i as int).0 == Err::<
                    Seq<Id>,
                    TypeError,
                >(x),
            },
            final(self).state() == intern_list(old(self).state(), views(l@), i as int).1,
            grown(old(self).alloc@, final(self).alloc@),
            grown(old(self).id_map@, final(self).id_map@),
            r matches Ok(v) ==> all_below(v@, final(self).alloc@.len() as int),
        decreases l, l.len() - i,
    {
        if i >= l.len() {
            return Ok(Vec::new());
        }
        let h = self.new_type(&l[i])?;
        let mut t = self.new_types(l, i + 1)?;
        let ghost before = t@;
        t.insert(0, h);
        proof {
            assert(t@ =~= seq![h] + before);
        }
        Ok(t)
    }

    fn new_fields(&mut self, l: &Vec<TypeExpr>, i: usize, acc: Vec<(String, Id)>) -> (r: Result<
        Vec<(String, Id)>,
        TypeError,
    >)
        requires
            old(self).wf(),
            all_below(crate::types::field_ids(fields_view(acc@)), old(self).alloc@.len() as int),
        ensures
            final(self).wf(),
            final(self).variables == old(self).variables,
            match r {
                Ok(v) => intern_fields(
                    old(self).state(),
                    views(l@),
                    i as int,
                    fields_view(acc@),
                ).0 == Ok::<Seq<(Seq<char>, Id)>, TypeError>(fields_view(v@)),
                Err(x) => intern_fields(
                    old(self).state(),
                    views(l@),
                    i as int,
                    fields_view(acc@),
                ).0 == Err::<Seq<(Seq<char>, Id)>, TypeError>(x),
            },
            final(self).state() == intern_fields(
                old(self).state(),
                views(l@),
                i as int,
                fields_view(acc@),
            ).1,
            grown(old(self).alloc@, final(self).alloc@),
            grown(old(self).id_map@, final(self).id_map@),
            r matches Ok(v) ==> all_below(
                crate::types::field_ids(fields_view(v@)),
                final(self).alloc@.len() as int,
            ),
        decreases l, l.len() - i,
    {
        if i >= l.len() {
            return Ok(acc);
        }
        match &l[i] {
            TypeExpr::List(f) => {
                proof {
                    lemma_list_view(*f);
                }
                if f.len() == 3 && f[1].is_atom(":") {
                    match &f[0] {
                        TypeExpr::Atom(label) => {
                            let t = self.new_type(&f[2])?;
                            let mut acc = acc;
                            let ghost before = fields_view(acc@);
                            put_field(&mut acc, label.clone(), t);
                            proof {
                                lemma_put_field_below(
                                    before,
                                    label@,
                                    t,
                                    0,
                                    self.alloc@.len() as int,
                                );
                            }
                            self.new_fields(l, i + 1, acc)
                        },
                        _ => Err(TypeError::Unsupported),
                    }
                } else {
                    Err(TypeError::Unsupported)
                }
            },
            _ => Err(TypeError::Unsupported),
        }
    }

    /// Reads a type expression from a text and interns it.
    pub fn new_type_str(&mut self, ty: &str) -> (r: Result<Id, TypeError>)
        requires
            old(self).wf(),
        ensures
            final(self).wf(),
            final(self).variables == old(self).variables,
            match parsed_text(ty@) {
                None => r == Err::<Id, TypeError>(TypeError::Syntax) && final(self).state() == old(
                    self,
                ).state(),
                Some(e) => r == intern(old(self).state(), e).0 && final(self).state() == intern(
                    old(self).state(),
                    e,
                ).1,
            },
            grown(old(self).alloc@, final(self).alloc@),
            grown(old(self).id_map@, final(self).id_map@),
            r matches Ok(id) ==> id < final(self).alloc@.len(),
    {
        match TypeExpr::parse(ty) {
            None => Err(TypeError::Syntax),
            Some(e) => self.new_type(&e),
        }
    }
}

/// Putting an id below `bound` into a list of such ids leaves such a list.
pub proof fn lemma_put_id_below(ids: Seq<Id>, x: Id, i: int, bound: int)
    requires
        all_below(ids, bound),
        x < bound,
        0 <= i,
    ensures
        all_below(put_id_at(ids, x, i), bound),
    decreases ids.len() - i,
{
    if i < ids.len() && ids[i] != x && !(x < ids[i]) {
        lemma_put_id_below(ids, x, i + 1, bound);
    }
}

/// The set of ids below `bound` holds only such ids.
pub proof fn lemma_id_set_below(m: Seq<Id>, n: int, bound: int)
    requires
        all_below(m, bound),
        0 <= n <= m.len(),
    ensures
        all_below(id_set(m, n), bound),
    decreases n,
{
    if n > 0 {
        lemma_id_set_below(m, n - 1, bound);
        lemma_put_id_below(id_set(m, n - 1), m[n - 1], 0, bound);
    }
}

/// Binding a label to an id below `bound` keeps the field ids below it.
pub proof fn lemma_put_field_below(
    fields: Seq<(Seq<char>, Id)>,
    label: Seq<char>,
    id: Id,
    i: int,
    bound: int,
)
    requires
        all_below(crate::types::field_ids(fields), bound),
        id < bound,
        0 <= i,
    ensures
        all_below(crate::types::field_ids(put_field_at(fields, label, id, i)), bound),
    decreases fields.len() - i,
{
    let out = put_field_at(fields, label, id, i);
    if i >= fields.len() || fields[i].0 == label || label_lt(label, fields[i].0) {
        assert forall|k: int| 0 <= k < out.len() implies (#[trigger] crate::types::field_ids(
            out,
        )[k]) < bound by {
            if out[k] != (label, id) {
                let j = if i < fields.len() && label_lt(label, fields[i].0) && fields[i].0 != label
                    && k > i {
                    k - 1
                } else {
                    k
                };
                assert(crate::types::field_ids(fields)[j] < bound);
            }
        }
    } else {
        lemma_put_field_below(fields, label, id, i + 1, bound);
    }
}

} // verus!
