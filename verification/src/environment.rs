//! The environment of a run: which value each name has.

use vstd::prelude::*;
use crate::variables::{ValueView, VarValue, Variable};

verus! {

/// The values that a sequence of variables gives to their names, a later variable
/// taking the place of an earlier one of the same name.
pub open spec fn bindings(entries: Seq<Variable>) -> Map<Seq<char>, ValueView>
    decreases entries.len(),
{
    if entries.len() == 0 {
        Map::empty()
    } else {
        bindings(entries.drop_last()).insert(entries.last().name@, entries.last().value@)
    }
}

/// A mapping from names to values.
pub struct Environment {
    entries: Vec<Variable>,
}

impl View for Environment {
    type V = Map<Seq<char>, ValueView>;

    closed spec fn view(&self) -> Map<Seq<char>, ValueView> {
        bindings(self.entries@)
    }
}

/// A name has the value of the last variable that bears it.
proof fn lemma_bindings_found(entries: Seq<Variable>, at: int, name: Seq<char>)
    requires
        0 <= at < entries.len(),
        entries[at].name@ == name,
        forall|k: int| at < k < entries.len() ==> entries[k].name@ != name,
    ensures
        bindings(entries).contains_key(name),
        bindings(entries)[name] == entries[at].value@,
    decreases entries.len(),
{
    if at < entries.len() - 1 {
        lemma_bindings_found(entries.drop_last(), at, name);
    }
}

/// A name that no variable bears has no value.
proof fn lemma_bindings_missing(entries: Seq<Variable>, name: Seq<char>)
    requires
        forall|k: int| 0 <= k < entries.len() ==> entries[k].name@ != name,
    ensures
        !bindings(entries).contains_key(name),
    decreases entries.len(),
{
    if entries.len() > 0 {
        lemma_bindings_missing(entries.drop_last(), name);
    }
}

impl Environment {
    /// An environment in which no name has a value.
    pub fn new() -> (r: Self)
        ensures
            r@ == Map::<Seq<char>, ValueView>::empty(),
    {
        Environment { entries: Vec::new() }
    }

    /// Gives `name` the value `value`, in place of the one it had if it had one.
    pub fn insert(&mut self, name: String, value: VarValue)
        ensures
            final(self)@ == old(self)@.insert(name@, value@),
    {
        self.entries.push(Variable { name, value });
        assert(self.entries@.drop_last() =~= old(self).entries@);
    }

    /// The value of `name`, if it has one.
    pub fn get(&self, name: &str) -> (r: Option<&VarValue>)
        ensures
            match r {
                Some(value) => self@.contains_key(name@) && self@[name@] == value@,
                None => !self@.contains_key(name@),
            },
    {
        let key = name.to_owned();
        let mut at: usize = self.entries.len();
        while at > 0
            invariant
                at <= self.entries.len(),
                key@ == name@,
                forall|k: int| at <= k < self.entries.len() ==> self.entries[k].name@ != name@,
            decreases at,
        {
            at -= 1;
            if self.entries[at].name == key {
                proof {
                    lemma_bindings_found(self.entries@, at as int, name@);
                }
                return Some(&self.entries[at].value);
            }
        }
        proof {
            lemma_bindings_missing(self.entries@, name@);
        }
        None
    }
}

} // verus!
