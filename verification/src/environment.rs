//! The value environment: a chain of scopes.

use crate::ast::{dup_entries, entries_v, Expr, ExprV};
use crate::error::TypeError;
use crate::names::str_same;
use vstd::prelude::*;

verus! {

/// The value that a list of bindings gives a name: the last binding wins.
pub open spec fn lookup_v(env: Seq<(Seq<char>, ExprV)>, name: Seq<char>) -> Option<ExprV>
    decreases env.len(),
{
    if env.len() == 0 {
        None
    } else if env.last().0 == name {
        Some(env.last().1)
    } else {
        lookup_v(env.drop_last(), name)
    }
}

/// A scope and the scopes around it. A name is looked up from the innermost
/// scope outwards, and bound in the innermost scope only.
#[derive(Debug)]
pub struct Environment {
    pub variables: Vec<(String, Expr)>,
    pub parent: Option<Box<Environment>>,
}

/// The bindings of a chain of scopes, outermost first.
pub open spec fn env_v(env: Environment) -> Seq<(Seq<char>, ExprV)>
    decreases env,
{
    (match env.parent {
        Some(p) => env_v(*p),
        None => Seq::empty(),
    }) + entries_v(env.variables@)
}

/// The bindings of the scopes around the innermost one.
pub open spec fn outer_v(env: Environment) -> Seq<(Seq<char>, ExprV)> {
    match env.parent {
        Some(p) => env_v(*p),
        None => Seq::empty(),
    }
}

impl View for Environment {
    type V = Seq<(Seq<char>, ExprV)>;

    open spec fn view(&self) -> Seq<(Seq<char>, ExprV)> {
        env_v(*self)
    }
}

/// A lookup in two lists of bindings, one after the other, finds what the
/// later list has, and else what the earlier one has.
pub proof fn lemma_lookup_append(
    a: Seq<(Seq<char>, ExprV)>,
    b: Seq<(Seq<char>, ExprV)>,
    name: Seq<char>,
)
    ensures
        lookup_v(a + b, name) == match lookup_v(b, name) {
            Some(v) => Some(v),
            None => lookup_v(a, name),
        },
    decreases b.len(),
{
    if b.len() == 0 {
        assert(a + b =~= a);
    } else {
        assert((a + b).drop_last() =~= a + b.drop_last());
        assert((a + b).last() == b.last());
        lemma_lookup_append(a, b.drop_last(), name);
    }
}

impl Environment {
    /// An empty scope inside `parent`.
    pub fn new(parent: Option<Box<Environment>>) -> (r: Environment)
        ensures
            r@ == match parent {
                Some(p) => (*p)@,
                None => Seq::<(Seq<char>, ExprV)>::empty(),
            },
            r.parent == parent,
    {
        let r = Environment { variables: Vec::new(), parent };
        proof {
            assert(entries_v(r.variables@) =~= Seq::<(Seq<char>, ExprV)>::empty());
            assert(r@ =~= match parent {
                Some(p) => (*p)@,
                None => Seq::<(Seq<char>, ExprV)>::empty(),
            });
        }
        r
    }

    /// Binds `name` in the innermost scope.
    pub fn insert(&mut self, name: &str, expr: Expr)
        ensures
            final(self)@ == old(self)@.push((name@, expr@)),
            final(self).parent == old(self).parent,
    {
        self.variables.push((name.to_owned(), expr));
        proof {
            assert(entries_v(final(self).variables@) =~= entries_v(old(self).variables@).push(
                (name@, expr@),
            ));
            assert(final(self)@ =~= old(self)@.push((name@, expr@)));
        }
    }

    /// The value bound to `name` in the innermost scope that binds it.
    pub fn get(&self, name: &str) -> (r: Result<&Expr, TypeError>)
        ensures
            match r {
                Ok(e) => lookup_v(self@, name@) == Some(e@),
                Err(x) => x == TypeError::UnboundVariable && lookup_v(self@, name@) is None,
            },
        decreases self,
    {
        let mut i: usize = self.variables.len();
        proof {
            assert(entries_v(self.variables@).take(i as int) =~= entries_v(self.variables@));
        }
        while i > 0
            invariant
                i <= self.variables.len(),
                lookup_v(entries_v(self.variables@), name@) == lookup_v(
                    entries_v(self.variables@).take(i as int),
                    name@,
                ),
            decreases i,
        {
            proof {
                assert(entries_v(self.variables@).take(i as int).drop_last() =~= entries_v(
                    self.variables@,
                ).take(i - 1));
            }
            if str_same(self.variables[i - 1].0.as_str(), name) {
                proof {
                    lemma_lookup_append(outer_v(*self), entries_v(self.variables@), name@);
                }
                return Ok(&self.variables[i - 1].1);
            }
            i = i - 1;
        }
        proof {
            lemma_lookup_append(outer_v(*self), entries_v(self.variables@), name@);
        }
        match &self.parent {
            Some(p) => p.get(name),
            None => Err(TypeError::UnboundVariable),
        }
    }

    /// A deep copy of the chain.
    pub fn duplicate(&self) -> (r: Environment)
        ensures
            r@ == self@,
        decreases self,
    {
        let vars = dup_entries(&self.variables, 0);
        proof {
            assert(entries_v(self.variables@).skip(0) =~= entries_v(self.variables@));
        }
        let parent = match &self.parent {
            Some(p) => Some(Box::new(p.duplicate())),
            None => None,
        };
        Environment { variables: vars, parent }
    }
}

} // verus!
