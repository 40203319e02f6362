//! Symbolic expressions as the library sees them, and the two services the
//! `symbolic_expressions` crate provides for them: reading text and printing.

use symbolic_expressions::Sexp;
use vstd::prelude::*;

verus! {

/// Mathematical model of a symbolic expression.
pub enum Sx {
    Atom(Seq<char>),
    List(Seq<Sx>),
    Empty,
}

/// A symbolic expression: a bare string, a list of expressions, or nothing.
#[derive(Debug, PartialEq)]
pub enum TypeExpr {
    Atom(String),
    List(Vec<TypeExpr>),
    Empty,
}

impl View for TypeExpr {
    type V = Sx;

    open spec fn view(&self) -> Sx
        decreases self,
    {
        match self {
            TypeExpr::Atom(s) => Sx::Atom(s@),
            TypeExpr::List(v) => Sx::List(
                Seq::new(
                    v@.len(),
                    |i: int|
                        if 0 <= i < v@.len() {
                            v@[i].view()
                        } else {
                            Sx::Empty
                        },
                ),
            ),
            TypeExpr::Empty => Sx::Empty,
        }
    }
}

/// The views of a sequence of expressions, element by element.
pub open spec fn views(v: Seq<TypeExpr>) -> Seq<Sx> {
    Seq::new(v.len(), |i: int| v[i]@)
}

/// The model of a list is the list of the models of its elements.
pub proof fn lemma_list_view(v: Vec<TypeExpr>)
    ensures
        TypeExpr::List(v)@ == Sx::List(views(v@)),
{
    assert(TypeExpr::List(v)@->List_0 =~= views(v@));
}

#[verifier::external_type_specification]
#[verifier::external_body]
pub struct ExSexp(Sexp);

/// What `symbolic_expressions::parser::parse_str` makes of a text: the
/// expression it reads, or `None` where it reports an error.
pub uninterp spec fn parsed_text(text: Seq<char>) -> Option<Sx>;

/// Whether a character makes the printer put a string in double quotes.
pub open spec fn needs_quotes(c: char) -> bool {
    c == '(' || c == ')' || c == ' ' || c == '\t' || c == '{' || c == '}' || c == '%'
}

/// A string that the printer leaves as it is: not empty, and free of the
/// characters that call for quotes.
pub open spec fn plain(s: Seq<char>) -> bool {
    s.len() > 0 && forall|i: int| 0 <= i < s.len() ==> !needs_quotes(#[trigger] s[i])
}

/// A bare string as it is printed: as it is where it is plain, and between
/// double quotes where it is not. Nothing inside it is escaped.
pub open spec fn encoded(s: Seq<char>) -> Seq<char> {
    if plain(s) {
        s
    } else {
        seq!['"'] + s + seq!['"']
    }
}

/// An expression as it is printed: a bare string encoded, a list as its
/// items with one space between them inside round brackets, and nothing for
/// the empty expression.
pub open spec fn rendered_text(e: Sx) -> Seq<char>
    decreases e, 0nat,
{
    match e {
        Sx::Atom(s) => encoded(s),
        Sx::List(l) => seq!['('] + rendered_items(l, 0) + seq![')'],
        Sx::Empty => Seq::empty(),
    }
}

/// The items `l[i..]` as they are printed, one space between them.
pub open spec fn rendered_items(l: Seq<Sx>, i: int) -> Seq<char>
    decreases l, l.len() - i,
{
    if i < 0 || i >= l.len() {
        Seq::empty()
    } else if i == l.len() - 1 {
        rendered_text(l[i])
    } else {
        rendered_text(l[i]) + seq![' '] + rendered_items(l, i + 1)
    }
}

/// Moves a `symbolic_expressions::Sexp` into the library's own type, variant
/// by variant. Nothing is claimed of the result here.
#[verifier::external_body]
fn lift_sexp(s: &Sexp) -> (e: TypeExpr) {
    match s {
        Sexp::String(t) => TypeExpr::Atom(t.clone()),
        Sexp::List(v) => TypeExpr::List(v.iter().map(lift_sexp).collect()),
        Sexp::Empty => TypeExpr::Empty,
    }
}

/// Moves an expression of the library into a `symbolic_expressions::Sexp`,
/// variant by variant. Nothing is claimed of the result here.
#[verifier::external_body]
fn lower_expr(e: &TypeExpr) -> (s: Sexp) {
    match e {
        TypeExpr::Atom(t) => Sexp::String(t.clone()),
        TypeExpr::List(v) => Sexp::List(v.iter().map(lower_expr).collect()),
        TypeExpr::Empty => Sexp::Empty,
    }
}

/// Calls `symbolic_expressions::parser::parse_str`. The contract only names
/// the outcome: the parser is a function of the text alone.
#[verifier::external_body]
fn parse_text(text: &str) -> (r: Option<TypeExpr>)
    ensures
        r matches Some(e) ==> parsed_text(text@) == Some(e@),
        r is None ==> parsed_text(text@) is None,
{
    match symbolic_expressions::parser::parse_str(text) {
        Ok(s) => Some(lift_sexp(&s)),
        Err(_) => None,
    }
}

/// Calls the `Display` impl of `symbolic_expressions::Sexp` through
/// `to_string`. The contract states what that impl and its `encode_string`
/// print: a string quoted where it is empty or holds a bracket, a space, a
/// tab, a brace or a percent sign, a list as its items joined by single
/// spaces inside round brackets, and nothing for the empty expression.
#[verifier::external_body]
fn render_text(e: &TypeExpr) -> (s: String)
    ensures
        s@ == rendered_text(e@),
{
    lower_expr(e).to_string()
}

impl TypeExpr {
    /// Reads one expression from a text; `None` where the text is rejected.
    pub fn parse(text: &str) -> (r: Option<TypeExpr>)
        ensures
            r matches Some(e) ==> parsed_text(text@) == Some(e@),
            r is None ==> parsed_text(text@) is None,
    {
        parse_text(text)
    }

    /// Prints the expression.
    pub fn render(&self) -> (s: String)
        ensures
            s@ == rendered_text(self@),
    {
        render_text(self)
    }

    /// A bare string expression.
    pub fn atom(name: &str) -> (e: TypeExpr)
        ensures
            e@ == Sx::Atom(name@),
    {
        TypeExpr::Atom(name.to_string())
    }

    /// Whether the expression is the bare string `name`.
    pub fn is_atom(&self, name: &str) -> (r: bool)
        ensures
            r == (self@ == Sx::Atom(name@)),
    {
        match self {
            TypeExpr::Atom(s) => crate::names::str_same(s.as_str(), name),
            _ => false,
        }
    }

    /// A list expression.
    pub fn list(items: Vec<TypeExpr>) -> (e: TypeExpr)
        ensures
            e@ == Sx::List(views(items@)),
    {
        proof {
            lemma_list_view(items);
        }
        TypeExpr::List(items)
    }

    /// A deep copy.
    pub fn duplicate(&self) -> (e: TypeExpr)
        ensures
            e@ == self@,
        decreases self,
    {
        match self {
            TypeExpr::Atom(s) => TypeExpr::Atom(s.clone()),
            TypeExpr::List(v) => {
                let mut out: Vec<TypeExpr> = Vec::new();
                let mut i: usize = 0;
                while i < v.len()
                    invariant
                        self is List,
                        self->List_0 == *v,
                        i <= v.len(),
                        out@.len() == i,
                        forall|j: int| 0 <= j < i ==> out@[j]@ == v@[j]@,
                    decreases v.len() - i,
                {
                    proof {
                        assert(decreases_to!(*v => v[i as int]));
                    }
                    let c = v[i].duplicate();
                    out.push(c);
                    i = i + 1;
                }
                proof {
                    lemma_list_view(out);
                    lemma_list_view(*v);
                    assert(views(out@) =~= views(v@));
                }
                TypeExpr::List(out)
            },
            TypeExpr::Empty => TypeExpr::Empty,
        }
    }

    /// Structural equality.
    pub fn same(&self, other: &TypeExpr) -> (r: bool)
        ensures
            r == (self@ == other@),
        decreases self,
    {
        match (self, other) {
            (TypeExpr::Atom(a), TypeExpr::Atom(b)) => {
                let r = *a == *b;
                assert(r == (self@ == other@));
                r
            },
            (TypeExpr::Empty, TypeExpr::Empty) => {
                assert(self@ == other@);
                true
            },
            (TypeExpr::List(a), TypeExpr::List(b)) => {
                proof {
                    lemma_list_view(*a);
                    lemma_list_view(*b);
                }
                if a.len() != b.len() {
                    proof {
                        assert(views(a@).len() != views(b@).len());
                    }
                    return false;
                }
                let mut i: usize = 0;
                while i < a.len()
                    invariant
                        *self == TypeExpr::List(*a),
                        self@ == Sx::List(views(a@)),
                        other@ == Sx::List(views(b@)),
                        i <= a.len(),
                        a.len() == b.len(),
                        forall|j: int| 0 <= j < i ==> a@[j]@ == b@[j]@,
                    decreases a.len() - i,
                {
                    if !a[i].same(&b[i]) {
                        proof {
                            assert(views(a@)[i as int] != views(b@)[i as int]);
                        }
                        return false;
                    }
                    i = i + 1;
                }
                proof {
                    assert(views(a@) =~= views(b@));
                }
                true
            },
            _ => {
                assert(self@ != other@);
                false
            },
        }
    }
}

} // verus!
