//! Names: an order on labels, and a table from names to type ids.

use crate::types::Id;
use vstd::prelude::*;

verus! {

/// Whether `a` comes before `b` from position `i` on, given that they agree
/// before `i`: the first differing character decides by its code point, and a
/// proper prefix comes first.
pub open spec fn label_lt_from(a: Seq<char>, b: Seq<char>, i: int) -> bool
    decreases a.len() - i,
{
    if i < 0 || i >= b.len() {
        false
    } else if i >= a.len() {
        true
    } else if a[i] != b[i] {
        (a[i] as u32) < (b[i] as u32)
    } else {
        label_lt_from(a, b, i + 1)
    }
}

/// The order in which a record keeps its labels.
pub open spec fn label_lt(a: Seq<char>, b: Seq<char>) -> bool {
    label_lt_from(a, b, 0)
}

/// Decides the label order.
pub fn label_before(a: &str, b: &str) -> (r: bool)
    ensures
        r == label_lt(a@, b@),
{
    let la = a.unicode_len();
    let lb = b.unicode_len();
    let mut i: usize = 0;
    while i < la && i < lb
        invariant
            la == a@.len(),
            lb == b@.len(),
            i <= la,
            i <= lb,
            label_lt(a@, b@) == label_lt_from(a@, b@, i as int),
        decreases la - i,
    {
        let ca = a.get_char(i);
        let cb = b.get_char(i);
        if ca != cb {
            return (ca as u32) < (cb as u32);
        }
        i = i + 1;
    }
    i < lb
}

/// Whether two strings hold the same characters.
pub fn str_same(a: &str, b: &str) -> (r: bool)
    ensures
        r == (a@ == b@),
{
    let x = a.to_owned();
    let y = b.to_owned();
    x == y
}

/// The id that a list of bindings gives a name: the last binding wins.
pub open spec fn assoc(s: Seq<(Seq<char>, Id)>, name: Seq<char>) -> Option<Id>
    decreases s.len(),
{
    if s.len() == 0 {
        None
    } else if s.last().0 == name {
        Some(s.last().1)
    } else {
        assoc(s.drop_last(), name)
    }
}

/// A table from names to type ids. A later binding of a name hides an
/// earlier one; nothing is ever removed.
pub struct NameMap {
    entries: Vec<(String, Id)>,
}

impl View for NameMap {
    type V = Seq<(Seq<char>, Id)>;

    closed spec fn view(&self) -> Seq<(Seq<char>, Id)> {
        crate::types::fields_view(self.entries@)
    }
}

impl NameMap {
    /// What the table gives for a name.
    pub open spec fn lookup(&self, name: Seq<char>) -> Option<Id> {
        assoc(self@, name)
    }

    /// The empty table.
    pub fn new() -> (r: NameMap)
        ensures
            r@ == Seq::<(Seq<char>, Id)>::empty(),
    {
        let r = NameMap { entries: Vec::new() };
        proof {
            assert(r@ =~= Seq::<(Seq<char>, Id)>::empty());
        }
        r
    }

    /// Binds `name` to `id`.
    pub fn insert(&mut self, name: String, id: Id)
        ensures
            final(self)@ == old(self)@.push((name@, id)),
    {
        self.entries.push((name, id));
        proof {
            assert(final(self)@ =~= old(self)@.push((name@, id)));
        }
    }

    /// The id bound to `name`, if any.
    pub fn get(&self, name: &str) -> (r: Option<Id>)
        ensures
            r == self.lookup(name@),
    {
        let mut i: usize = self.entries.len();
        proof {
            assert(self@.take(i as int) =~= self@);
        }
        while i > 0
            invariant
                i <= self.entries.len(),
                assoc(self@, name@) == assoc(self@.take(i as int), name@),
            decreases i,
        {
            proof {
                assert(self@.take(i as int).drop_last() =~= self@.take(i - 1));
            }
            if str_same(self.entries[i - 1].0.as_str(), name) {
                return Some(self.entries[i - 1].1);
            }
            i = i - 1;
        }
        None
    }

    /// Number of bindings made so far.
    pub fn len(&self) -> (r: usize)
        ensures
            r == self@.len(),
    {
        self.entries.len()
    }

    /// The `i`-th binding: its name and id.
    pub fn entry(&self, i: usize) -> (r: (String, Id))
        requires
            i < self@.len(),
        ensures
            r.0@ == self@[i as int].0,
            r.1 == self@[i as int].1,
    {
        (self.entries[i].0.clone(), self.entries[i].1)
    }
}

} // verus!
