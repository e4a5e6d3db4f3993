//! The environment: the variables of a run and their values.

use vstd::prelude::*;
use vstd::string::*;
use crate::value::{Value, ValueView};

verus! {

/// The map that a list of bindings stands for: of two bindings of one name,
/// the later one counts.
pub open spec fn bound(bindings: Seq<(String, Value)>) -> Map<Seq<char>, ValueView>
    decreases bindings.len(),
{
    if bindings.len() == 0 {
        Map::empty()
    } else {
        bound(bindings.drop_last()).insert(bindings.last().0@, bindings.last().1@)
    }
}

/// A mapping from variable names to values.
pub struct Environment {
    bindings: Vec<(String, Value)>,
}

impl View for Environment {
    type V = Map<Seq<char>, ValueView>;

    closed spec fn view(&self) -> Map<Seq<char>, ValueView> {
        bound(self.bindings@)
    }
}

impl Environment {
    /// An environment without bindings.
    pub fn new() -> (env: Self)
        ensures
            env@ == Map::<Seq<char>, ValueView>::empty(),
    {
        Environment { bindings: Vec::new() }
    }

    /// Binds `name` to `value`; a binding that `name` had before is
    /// overwritten.
    pub fn define(&mut self, name: String, value: Value)
        ensures
            final(self)@ == old(self)@.insert(name@, value@),
    {
        let ghost before = self.bindings@;
        self.bindings.push((name, value));
        assert(self.bindings@.drop_last() =~= before);
    }

    /// The value that `name` is bound to, if any.
    pub fn get(&self, name: &String) -> (value: Option<Value>)
        ensures
            match value {
                Some(found) => self@.contains_key(name@) && self@[name@] == found@,
                None => !self@.contains_key(name@),
            },
    {
        let ghost all = self.bindings@;
        let mut i: usize = self.bindings.len();
        assert(all.take(i as int) =~= all);
        while i > 0
            invariant
                i <= self.bindings.len(),
                all == self.bindings@,
                bound(all).contains_key(name@) == bound(all.take(i as int)).contains_key(name@),
                bound(all).contains_key(name@) ==> bound(all)[name@] == bound(
                    all.take(i as int),
                )[name@],
            decreases i,
        {
            i -= 1;
            assert(all.take(i + 1).drop_last() =~= all.take(i as int));
            assert(all.take(i + 1).last() == all[i as int]);
            if self.bindings[i].0 == *name {
                return Some(self.bindings[i].1.clone());
            }
        }
        assert(all.take(0).len() == 0);
        None
    }
}

} // verus!
