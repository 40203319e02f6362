//! Single-letter names for the variables of one rendering.

use crate::types::Id;
use vstd::prelude::*;
use vstd::string::*;

verus! {

/// Position of the first occurrence of `id` in `names` at or after `i`, or
/// `names.len()` where there is none.
pub open spec fn slot_from(names: Seq<Id>, id: Id, i: int) -> int
    decreases names.len() - i,
{
    if i < 0 || i >= names.len() {
        names.len() as int
    } else if names[i] == id {
        i
    } else {
        slot_from(names, id, i + 1)
    }
}

/// The number under which `id` is, or will be, named.
pub open spec fn slot(names: Seq<Id>, id: Id) -> int {
    slot_from(names, id, 0)
}

/// The names after `id` was asked for.
pub open spec fn issue(names: Seq<Id>, id: Id) -> Seq<Id> {
    if slot(names, id) < names.len() || names.len() >= 26 {
        names
    } else {
        names.push(id)
    }
}

/// The `k`-th name: one lower-case letter.
pub open spec fn letter(k: int) -> Seq<char> {
    "abcdefghijklmnopqrstuvwxyz"@.subrange(k, k + 1)
}

/// Hands out `a`, `b`, ... to variables in the order they are first asked for.
pub struct Issuer {
    issued: Vec<Id>,
}

impl View for Issuer {
    type V = Seq<Id>;

    closed spec fn view(&self) -> Seq<Id> {
        self.issued@
    }
}

impl Default for Issuer {
    fn default() -> (r: Issuer)
        ensures
            r@ == Seq::<Id>::empty(),
    {
        Issuer { issued: Vec::new() }
    }
}

impl Issuer {
    /// The next unused name, or `None` when the letters are used up.
    fn next(&self) -> (r: Option<String>)
        ensures
            self@.len() < 26 ==> (r matches Some(s) && s@ == letter(self@.len() as int)),
            self@.len() >= 26 ==> r is None,
    {
        Self::nth(self.issued.len())
    }

    fn nth(k: usize) -> (r: Option<String>)
        ensures
            k < 26 ==> (r matches Some(s) && s@ == letter(k as int)),
            k >= 26 ==> r is None,
    {
        proof {
            reveal_strlit("abcdefghijklmnopqrstuvwxyz");
        }
        if k < 26 {
            Some("abcdefghijklmnopqrstuvwxyz".substring_char(k, k + 1).to_owned())
        } else {
            None
        }
    }

    /// The name of variable `id`: the one it was given before, or the next
    /// unused one. `None`, with nothing changed, once 26 names are out and
    /// `id` has none.
    pub fn name(&mut self, id: Id) -> (r: Option<String>)
        ensures
            final(self)@ == issue(old(self)@, id),
            slot(old(self)@, id) < 26 ==> (r matches Some(s) && s@ == letter(slot(old(self)@, id))),
            slot(old(self)@, id) >= 26 ==> r is None,
    {
        let mut i: usize = 0;
        while i < self.issued.len()
            invariant
                *self == *old(self),
                i <= self.issued.len(),
                slot(self@, id) == slot_from(self@, id, i as int),
            decreases self.issued.len() - i,
        {
            if self.issued[i] == id {
                return Self::nth(i);
            }
            i = i + 1;
        }
        let r = self.next();
        if r.is_some() {
            self.issued.push(id);
        }
        r
    }
}

} // verus!
