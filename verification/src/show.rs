//! Expressions as text.

use crate::ast::{
    entries_v,
    exprs_v,
    lemma_app_v,
    lemma_case_v,
    lemma_list_v,
    lemma_record_v,
    pairs_v,
    params_v,
    Expr,
    ExprV,
    Parameter,
    Value,
    ValueV,
};
use crate::sexp::{rendered_text, Sx};
use crate::error::TypeError;
use crate::type_alloc::TypeAlloc;
use crate::types::{Id, Type, TypeV};
use vstd::prelude::*;

verus! {

/// The digit `d` as text.
pub open spec fn digit_text(d: int) -> Seq<char> {
    "0123456789"@.subrange(d, d + 1)
}

/// A natural number in decimal.
pub open spec fn natural_text(n: nat) -> Seq<char>
    decreases n,
{
    if n < 10 {
        digit_text(n as int)
    } else {
        natural_text(n / 10) + digit_text((n % 10) as int)
    }
}

/// An integer in decimal, with a minus sign where it is negative.
pub open spec fn number_text(n: int) -> Seq<char> {
    if n < 0 {
        "-"@ + natural_text((-n) as nat)
    } else {
        natural_text(n as nat)
    }
}

/// The texts `parts[i..]` with `sep` between them.
pub open spec fn joined(parts: Seq<Seq<char>>, sep: Seq<char>, i: int) -> Seq<char>
    decreases parts.len() - i,
{
    if i < 0 || i >= parts.len() {
        Seq::empty()
    } else if i == parts.len() - 1 {
        parts[i]
    } else {
        parts[i] + sep + joined(parts, sep, i + 1)
    }
}

/// A parameter as text: its name, with `: type` where it has one.
pub open spec fn shown_param(p: (Seq<char>, Option<Sx>)) -> Seq<char> {
    match p.1 {
        Some(t) => p.0 + ": "@ + rendered_text(t),
        None => p.0,
    }
}

/// The parameters as texts.
pub open spec fn shown_params(ps: Seq<(Seq<char>, Option<Sx>)>) -> Seq<Seq<char>> {
    Seq::new(ps.len(), |i: int| shown_param(ps[i]))
}

/// An expression as text. Values are written as programs write them;
/// a function is written as its parameters, an arrow and its body.
pub open spec fn shown(e: ExprV) -> Seq<char>
    decreases e, 0nat,
{
    match e {
        ExprV::Literal(v) => match v {
            ValueV::External(x) => "external("@ + x + ")"@,
            ValueV::Bool(b) => if b {
                "true"@
            } else {
                "false"@
            },
            ValueV::Number(n) => number_text(n as int),
            ValueV::Atom(a) => ":"@ + a,
            ValueV::Text(s) => "'"@ + s + "'"@,
            ValueV::Record(fs) => "(record "@ + joined(shown_entries(fs, 0), " "@, 0) + ")"@,
            ValueV::List(es) => "(vec "@ + joined(shown_list(es, 0), " "@, 0) + ")"@,
        },
        ExprV::Variable(n) => n,
        ExprV::Let { name, typ, value } => "let "@ + name + (match typ {
            Some(t) => ":"@ + rendered_text(t),
            None => Seq::empty(),
        }) + " = "@ + shown(*value),
        ExprV::FnApp { f, args } => "("@ + shown(*f) + " "@ + joined(shown_list(args, 0), " "@, 0)
            + ")"@,
        ExprV::FnDef { params, body } => "("@ + joined(shown_params(params), " "@, 0) + ") -> "@
            + shown(*body),
        ExprV::TypeDef { name, typ } => "type "@ + name + " = "@ + rendered_text(typ),
        ExprV::Case { branches } => "(case\n  "@ + joined(shown_branches(branches, 0), "\n  "@, 0)
            + "\n)"@,
        ExprV::Include(p) => "include "@ + p,
    }
}

/// The expressions `es[i..]` as texts.
pub open spec fn shown_list(es: Seq<ExprV>, i: int) -> Seq<Seq<char>>
    decreases es, es.len() - i,
{
    if i < 0 || i >= es.len() {
        Seq::empty()
    } else {
        seq![shown(es[i])] + shown_list(es, i + 1)
    }
}

/// The record entries `fs[i..]` as texts: `(label : value)`.
pub open spec fn shown_entries(fs: Seq<(Seq<char>, ExprV)>, i: int) -> Seq<Seq<char>>
    decreases fs, fs.len() - i,
{
    if i < 0 || i >= fs.len() {
        Seq::empty()
    } else {
        seq!["("@ + fs[i].0 + " : "@ + shown(fs[i].1) + ")"@] + shown_entries(fs, i + 1)
    }
}

/// The branches `bs[i..]` as texts: `(guard => body)`.
pub open spec fn shown_branches(bs: Seq<(ExprV, ExprV)>, i: int) -> Seq<Seq<char>>
    decreases bs, bs.len() - i,
{
    if i < 0 || i >= bs.len() {
        Seq::empty()
    } else {
        seq!["("@ + shown(bs[i].0) + " => "@ + shown(bs[i].1) + ")"@] + shown_branches(bs, i + 1)
    }
}

/// The texts of a list of strings.
pub open spec fn texts(v: Seq<String>) -> Seq<Seq<char>> {
    Seq::new(v.len(), |i: int| v[i]@)
}

/// A natural number in decimal.
pub fn natural_string(n: u64) -> (r: String)
    ensures
        r@ == natural_text(n as nat),
    decreases n,
{
    proof {
        reveal_strlit("0123456789");
    }
    if n < 10 {
        let d = n as usize;
        "0123456789".substring_char(d, d + 1).to_owned()
    } else {
        let mut r = natural_string(n / 10);
        let d = (n % 10) as usize;
        r.append("0123456789".substring_char(d, d + 1));
        r
    }
}

/// An integer in decimal.
pub fn number_string(n: i64) -> (r: String)
    ensures
        r@ == number_text(n as int),
{
    if n < 0 {
        let m: u64 = (-(n as i128)) as u64;
        let mut r = "-".to_owned();
        r.append(natural_string(m).as_str());
        r
    } else {
        natural_string(n as u64)
    }
}

/// Joins the strings `parts[i..]` with `sep` between them.
pub fn join(parts: &Vec<String>, sep: &str, i: usize) -> (r: String)
    ensures
        r@ == joined(texts(parts@), sep@, i as int),
    decreases parts.len() - i,
{
    if i >= parts.len() {
        String::new()
    } else if i == parts.len() - 1 {
        parts[i].clone()
    } else {
        let mut r = parts[i].clone();
        r.append(sep);
        r.append(join(parts, sep, i + 1).as_str());
        r
    }
}

fn show_parameters(ps: &Vec<Parameter>) -> (r: Vec<String>)
    ensures
        texts(r@) == shown_params(params_v(ps@)),
{
    let mut out: Vec<String> = Vec::new();
    let mut i: usize = 0;
    while i < ps.len()
        invariant
            i <= ps.len(),
            out@.len() == i,
            forall|j: int| 0 <= j < i ==> (#[trigger] out@[j])@ == shown_param(params_v(ps@)[j]),
        decreases ps.len() - i,
    {
        let mut s = ps[i].name.clone();
        match &ps[i].typ {
            Some(t) => {
                s.append(": ");
                s.append(t.render().as_str());
            },
            None => {},
        }
        out.push(s);
        i = i + 1;
    }
    proof {
        assert(texts(out@) =~= shown_params(params_v(ps@)));
    }
    out
}

/// Writes an expression as text.
pub fn show(e: &Expr) -> (r: String)
    ensures
        r@ == shown(e@),
    decreases e, 0nat,
{
    match e {
        Expr::Literal(v) => match v {
            Value::External(x) => {
                let mut r = "external(".to_owned();
                r.append(x.0.as_str());
                r.append(")");
                r
            },
            Value::Bool(b) => if *b {
                "true".to_owned()
            } else {
                "false".to_owned()
            },
            Value::Number(n) => number_string(*n),
            Value::Atom(a) => {
                let mut r = ":".to_owned();
                r.append(a.as_str());
                r
            },
            Value::String(s) => {
                let mut r = "'".to_owned();
                r.append(s.as_str());
                r.append("'");
                r
            },
            Value::Record(fs) => {
                proof {
                    lemma_record_v(*fs);
                }
                let parts = show_entries(fs, 0);
                let mut r = "(record ".to_owned();
                r.append(join(&parts, " ", 0).as_str());
                r.append(")");
                r
            },
            Value::List(es) => {
                proof {
                    lemma_list_v(*es);
                }
                let parts = show_list(es, 0);
                let mut r = "(vec ".to_owned();
                r.append(join(&parts, " ", 0).as_str());
                r.append(")");
                r
            },
        },
        Expr::Variable(n) => n.clone(),
        Expr::Let(l) => {
            let mut r = "let ".to_owned();
            r.append(l.name.as_str());
            match &l.typ {
                Some(t) => {
                    r.append(":");
                    r.append(t.render().as_str());
                },
                None => {
                    assert(r@ + Seq::<char>::empty() =~= r@);
                },
            }
            r.append(" = ");
            r.append(show(&l.value).as_str());
            r
        },
        Expr::FnApp(a) => {
            proof {
                lemma_app_v(a.0, a.1);
            }
            let parts = show_list(&a.1, 0);
            let mut r = "(".to_owned();
            r.append(show(&a.0).as_str());
            r.append(" ");
            r.append(join(&parts, " ", 0).as_str());
            r.append(")");
            r
        },
        Expr::FnDef(d) => {
            let parts = show_parameters(&d.args);
            let mut r = "(".to_owned();
            r.append(join(&parts, " ", 0).as_str());
            r.append(") -> ");
            r.append(show(&d.body).as_str());
            r
        },
        Expr::TypeDef(t) => {
            let mut r = "type ".to_owned();
            r.append(t.name.as_str());
            r.append(" = ");
            r.append(t.typ.render().as_str());
            r
        },
        Expr::Case(c) => {
            proof {
                lemma_case_v(c.branches);
            }
            let parts = show_branches(&c.branches, 0);
            let mut r = "(case\n  ".to_owned();
            r.append(join(&parts, "\n  ", 0).as_str());
            r.append("\n)");
            r
        },
        Expr::Include(p) => {
            let mut r = "include ".to_owned();
            r.append(p.as_str());
            r
        },
    }
}

fn show_list(es: &Vec<Expr>, i: usize) -> (r: Vec<String>)
    ensures
        texts(r@) == shown_list(exprs_v(es@), i as int),
    decreases es, es.len() - i,
{
    if i >= es.len() {
        let out: Vec<String> = Vec::new();
        assert(texts(out@) =~= Seq::empty());
        return out;
    }
    let h = show(&es[i]);
    let mut t = show_list(es, i + 1);
    let ghost before = texts(t@);
    let ghost hv = h@;
    t.insert(0, h);
    assert(texts(t@) =~= seq![hv] + before);
    t
}

fn show_entries(fs: &Vec<(String, Expr)>, i: usize) -> (r: Vec<String>)
    ensures
        texts(r@) == shown_entries(entries_v(fs@), i as int),
    decreases fs, fs.len() - i,
{
    if i >= fs.len() {
        let out: Vec<String> = Vec::new();
        assert(texts(out@) =~= Seq::empty());
        return out;
    }
    let mut h = "(".to_owned();
    h.append(fs[i].0.as_str());
    h.append(" : ");
    h.append(show(&fs[i].1).as_str());
    h.append(")");
    let mut t = show_entries(fs, i + 1);
    let ghost before = texts(t@);
    let ghost hv = h@;
    t.insert(0, h);
    assert(texts(t@) =~= seq![hv] + before);
    t
}

fn show_branches(bs: &Vec<(Expr, Expr)>, i: usize) -> (r: Vec<String>)
    ensures
        texts(r@) == shown_branches(pairs_v(bs@), i as int),
    decreases bs, bs.len() - i,
{
    if i >= bs.len() {
        let out: Vec<String> = Vec::new();
        assert(texts(out@) =~= Seq::empty());
        return out;
    }
    let mut h = "(".to_owned();
    h.append(show(&bs[i].0).as_str());
    h.append(" => ");
    h.append(show(&bs[i].1).as_str());
    h.append(")");
    let mut t = show_branches(bs, i + 1);
    let ghost before = texts(t@);
    let ghost hv = h@;
    t.insert(0, h);
    assert(texts(t@) =~= seq![hv] + before);
    t
}

/// The fields of a record for inspection: `"label": id`.
pub open spec fn field_notes(fields: Seq<(Seq<char>, Id)>) -> Seq<Seq<char>> {
    Seq::new(
        fields.len(),
        |i: int| "\""@ + fields[i].0 + "\": "@ + natural_text(fields[i].1 as nat),
    )
}

/// Ids as texts.
pub open spec fn id_notes(ids: Seq<Id>) -> Seq<Seq<char>> {
    Seq::new(ids.len(), |i: int| natural_text(ids[i] as nat))
}

/// A type written for inspection, every node with its id, `depth` levels
/// deep: `int_#1`, `?_#7`, `([int_#1] -> ?_#7 #8)`.
pub open spec fn debug_text(arena: Seq<TypeV>, id: Id, depth: nat) -> Result<Seq<char>, TypeError>
    decreases depth, 0nat,
{
    if depth == 0 {
        Err(TypeError::Cyclic)
    } else if id >= arena.len() {
        Err(TypeError::IdNotFound(id))
    } else {
        match arena[id as int] {
            TypeV::Primitive { id: n, name } => Ok(name + "_#"@ + natural_text(n as nat)),
            TypeV::Variable { id: n, .. } => Ok("?_#"@ + natural_text(n as nat)),
            TypeV::Function { id: n, args, ret } => match debug_texts(
                arena,
                args,
                0,
                (depth - 1) as nat,
            ) {
                Err(e) => Err(e),
                Ok(parts) => match debug_text(arena, ret, (depth - 1) as nat) {
                    Err(e) => Err(e),
                    Ok(r) => Ok(
                        "(["@ + joined(parts, " "@, 0) + "] -> "@ + r + " #"@ + natural_text(
                            n as nat,
                        ) + ")"@,
                    ),
                },
            },
            TypeV::Record { id: n, fields } => Ok(
                "(record_#"@ + natural_text(n as nat) + " {"@ + joined(
                    field_notes(fields),
                    ", "@,
                    0,
                ) + "})"@,
            ),
            TypeV::Container { head, elements, .. } => match debug_text(
                arena,
                head,
                (depth - 1) as nat,
            ) {
                Err(e) => Err(e),
                Ok(h) => match debug_texts(arena, elements, 0, (depth - 1) as nat) {
                    Err(e) => Err(e),
                    Ok(parts) => Ok("("@ + h + " "@ + joined(parts, " "@, 0) + ")"@),
                },
            },
            TypeV::Union { id: n, types } => Ok(
                "(|_#"@ + natural_text(n as nat) + " "@ + joined(id_notes(types), " "@, 0) + ")"@,
            ),
        }
    }
}

/// The types `ids[i..]` written for inspection.
pub open spec fn debug_texts(arena: Seq<TypeV>, ids: Seq<Id>, i: int, depth: nat) -> Result<
    Seq<Seq<char>>,
    TypeError,
>
    decreases depth, 1nat, ids.len() - i,
{
    if i < 0 || i >= ids.len() {
        Ok(Seq::empty())
    } else {
        match debug_text(arena, ids[i], depth) {
            Err(e) => Err(e),
            Ok(h) => match debug_texts(arena, ids, i + 1, depth) {
                Err(e) => Err(e),
                Ok(t) => Ok(seq![h] + t),
            },
        }
    }
}

/// Whether an executable text is the one the model gives.
pub open spec fn text_is(r: Result<String, TypeError>, m: Result<Seq<char>, TypeError>) -> bool {
    match r {
        Ok(s) => m == Ok::<Seq<char>, TypeError>(s@),
        Err(e) => m == Err::<Seq<char>, TypeError>(e),
    }
}

fn note_ids(ids: &Vec<Id>) -> (r: Vec<String>)
    ensures
        texts(r@) == id_notes(ids@),
{
    let mut out: Vec<String> = Vec::new();
    let mut i: usize = 0;
    while i < ids.len()
        invariant
            i <= ids.len(),
            out@.len() == i,
            forall|j: int| 0 <= j < i ==> (#[trigger] out@[j])@ == natural_text(ids@[j] as nat),
        decreases ids.len() - i,
    {
        out.push(natural_string(ids[i] as u64));
        i = i + 1;
    }
    proof {
        assert(texts(out@) =~= id_notes(ids@));
    }
    out
}

fn note_fields(fields: &Vec<(String, Id)>) -> (r: Vec<String>)
    ensures
        texts(r@) == field_notes(crate::types::fields_view(fields@)),
{
    let mut out: Vec<String> = Vec::new();
    let mut i: usize = 0;
    while i < fields.len()
        invariant
            i <= fields.len(),
            out@.len() == i,
            forall|j: int|
                0 <= j < i ==> (#[trigger] out@[j])@ == "\""@ + fields@[j].0@ + "\": "@
                    + natural_text(fields@[j].1 as nat),
        decreases fields.len() - i,
    {
        let mut s = "\"".to_owned();
        s.append(fields[i].0.as_str());
        s.append("\": ");
        s.append(natural_string(fields[i].1 as u64).as_str());
        out.push(s);
        i = i + 1;
    }
    proof {
        assert(texts(out@) =~= field_notes(crate::types::fields_view(fields@)));
    }
    out
}

/// How deep a type is written for inspection.
pub const DEBUG_DEPTH: usize = 11;

impl TypeAlloc {
    /// Writes a type for inspection, every node with its id.
    pub fn debug(&self, id: Id) -> (r: Result<String, TypeError>)
        ensures
            text_is(r, debug_text(self@, id, DEBUG_DEPTH as nat)),
    {
        self.debug_rec(id, DEBUG_DEPTH)
    }

    fn debug_rec(&self, id: Id, depth: usize) -> (r: Result<String, TypeError>)
        ensures
            text_is(r, debug_text(self@, id, depth as nat)),
        decreases depth, 0nat,
    {
        if depth == 0 {
            return Err(TypeError::Cyclic);
        }
        if id >= self.len() {
            return Err(TypeError::IdNotFound(id));
        }
        match self.node(id) {
            Type::Primitive { id: n, name } => {
                let mut r = name.clone();
                r.append("_#");
                r.append(natural_string(*n as u64).as_str());
                Ok(r)
            },
            Type::Variable { id: n, .. } => {
                let mut r = "?_#".to_owned();
                r.append(natural_string(*n as u64).as_str());
                Ok(r)
            },
            Type::Function { id: n, args, ret } => {
                let parts = self.debug_list(args, 0, depth - 1)?;
                let ret = self.debug_rec(*ret, depth - 1)?;
                let mut r = "([".to_owned();
                r.append(join(&parts, " ", 0).as_str());
                r.append("] -> ");
                r.append(ret.as_str());
                r.append(" #");
                r.append(natural_string(*n as u64).as_str());
                r.append(")");
                Ok(r)
            },
            Type::Record { id: n, fields } => {
                let parts = note_fields(fields);
                let mut r = "(record_#".to_owned();
                r.append(natural_string(*n as u64).as_str());
                r.append(" {");
                r.append(join(&parts, ", ", 0).as_str());
                r.append("})");
                Ok(r)
            },
            Type::Container { head, elements, .. } => {
                let h = self.debug_rec(*head, depth - 1)?;
                let parts = self.debug_list(elements, 0, depth - 1)?;
                let mut r = "(".to_owned();
                r.append(h.as_str());
                r.append(" ");
                r.append(join(&parts, " ", 0).as_str());
                r.append(")");
                Ok(r)
            },
            Type::Union { id: n, types } => {
                let parts = note_ids(types);
                let mut r = "(|_#".to_owned();
                r.append(natural_string(*n as u64).as_str());
                r.append(" ");
                r.append(join(&parts, " ", 0).as_str());
                r.append(")");
                Ok(r)
            },
        }
    }

    fn debug_list(&self, ids: &Vec<Id>, i: usize, depth: usize) -> (r: Result<
        Vec<String>,
        TypeError,
    >)
        ensures
            match r {
                Ok(v) => debug_texts(self@, ids@, i as int, depth as nat) == Ok::<
                    Seq<Seq<char>>,
                    TypeError,
                >(texts(v@)),
                Err(e) => debug_texts(self@, ids@, i as int, depth as nat) == Err::<
                    Seq<Seq<char>>,
                    TypeError,
                >(e),
            },
        decreases depth, 1nat, ids.len() - i,
    {
        if i >= ids.len() {
            let out: Vec<String> = Vec::new();
            assert(texts(out@) =~= Seq::empty());
            return Ok(out);
        }
        let h = self.debug_rec(ids[i], depth)?;
        let mut t = self.debug_list(ids, i + 1, depth)?;
        let ghost before = texts(t@);
        let ghost hv = h@;
        t.insert(0, h);
        assert(texts(t@) =~= seq![hv] + before);
        Ok(t)
    }
}

} // verus!
