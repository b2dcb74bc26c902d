use vstd::prelude::*;

use crate::text::{chars_eq, chars_of};

verus! {

/// The mapping a binding list stands for: each binding sets its name, and a
/// later binding of a name overrides an earlier one.
pub open spec fn bindings_map(s: Seq<(Seq<char>, Seq<char>)>) -> Map<Seq<char>, Seq<char>>
    decreases s.len(),
{
    if s.len() == 0 {
        Map::empty()
    } else {
        bindings_map(s.drop_last()).insert(s.last().0, s.last().1)
    }
}

/// The binding at `i` is the one a lookup of its name sees when no later
/// binding has the same name.
proof fn lemma_last_binding_wins(s: Seq<(Seq<char>, Seq<char>)>, i: int)
    requires
        0 <= i < s.len(),
        forall|j: int| i < j < s.len() ==> s[j].0 != s[i].0,
    ensures
        bindings_map(s).contains_key(s[i].0),
        bindings_map(s)[s[i].0] == s[i].1,
    decreases s.len(),
{
    if i < s.len() - 1 {
        lemma_last_binding_wins(s.drop_last(), i);
    }
}

/// A name that no binding has is absent from the mapping.
proof fn lemma_unbound(s: Seq<(Seq<char>, Seq<char>)>, k: Seq<char>)
    requires
        forall|j: int| 0 <= j < s.len() ==> s[j].0 != k,
    ensures
        !bindings_map(s).contains_key(k),
    decreases s.len(),
{
    if s.len() > 0 {
        lemma_unbound(s.drop_last(), k);
    }
}

/// The variables of one application: a mapping from names to the text that
/// replaces them.
pub struct Vars {
    entries: Vec<(Vec<char>, Vec<char>)>,
}

impl Vars {
    pub closed spec fn bindings(&self) -> Seq<(Seq<char>, Seq<char>)> {
        self.entries@.map_values(|e: (Vec<char>, Vec<char>)| (e.0@, e.1@))
    }

    /// The mapping from variable names to their values.
    pub open spec fn view(&self) -> Map<Seq<char>, Seq<char>> {
        bindings_map(self.bindings())
    }

    /// A mapping with no variables.
    pub fn new() -> (r: Vars)
        ensures
            r@ == Map::<Seq<char>, Seq<char>>::empty(),
    {
        let r = Vars { entries: Vec::new() };
        assert(r.bindings() =~= Seq::<(Seq<char>, Seq<char>)>::empty());
        r
    }

    /// Sets `name` to `value`, replacing an earlier value of the same name.
    pub fn insert(&mut self, name: &str, value: &str)
        ensures
            final(self)@ == old(self)@.insert(name@, value@),
    {
        let n = chars_of(name);
        let v = chars_of(value);
        self.entries.push((n, v));
        assert(final(self).bindings().drop_last() =~= old(self).bindings());
    }

    /// The variables of a project: `location`, its destination, and `name`.
    pub fn for_project(location: &str, name: &str) -> (r: Vars)
        ensures
            r@ == Map::<Seq<char>, Seq<char>>::empty().insert("location"@, location@).insert(
                "name"@,
                name@,
            ),
    {
        let mut r = Vars::new();
        r.insert("location", location);
        r.insert("name", name);
        r
    }

    /// The value of `name`, if it is set.
    pub fn get_chars(&self, name: &Vec<char>) -> (r: Option<&Vec<char>>)
        ensures
            match r {
                Some(v) => self@.contains_key(name@) && self@[name@] == v@,
                None => !self@.contains_key(name@),
            },
    {
        let mut i: usize = self.entries.len();
        while i > 0
            invariant
                i <= self.entries@.len(),
                forall|j: int| i <= j < self.entries@.len() ==> self.bindings()[j].0 != name@,
            decreases i,
        {
            i = i - 1;
            if chars_eq(&self.entries[i].0, name) {
                proof {
                    lemma_last_binding_wins(self.bindings(), i as int);
                }
                return Some(&self.entries[i].1);
            }
        }
        proof {
            lemma_unbound(self.bindings(), name@);
        }
        None
    }
}

} // verus!
