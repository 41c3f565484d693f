//! A name-keyed table with a mathematical map view, used by the lowering
//! engine for its variable and function tables.

use vstd::prelude::*;

verus! {

/// The map a sequence of bindings denotes: later bindings shadow earlier ones.
pub closed spec fn bindings_map<V: View>(s: Seq<(String, V)>) -> Map<Seq<char>, V::V>
    decreases s.len(),
{
    if s.len() == 0 {
        Map::empty()
    } else {
        bindings_map(s.drop_last()).insert(s.last().0@, s.last().1@)
    }
}

/// A table from names to values. Insertion shadows, lookup finds the newest
/// binding, removal drops every binding of the name.
pub struct NameTable<V> {
    bindings: Vec<(String, V)>,
}

impl<V: View> View for NameTable<V> {
    type V = Map<Seq<char>, V::V>;

    closed spec fn view(&self) -> Map<Seq<char>, V::V> {
        bindings_map(self.bindings@)
    }
}

impl<V: View> NameTable<V> {
    /// An empty table.
    pub fn new() -> (r: NameTable<V>)
        ensures
            r@ == Map::<Seq<char>, V::V>::empty(),
    {
        NameTable { bindings: Vec::new() }
    }

    /// Binds the name to the value, shadowing any earlier binding.
    pub fn insert(&mut self, name: String, value: V)
        ensures
            final(self)@ == old(self)@.insert(name@, value@),
    {
        self.bindings.push((name, value));
        proof {
            assert(self.bindings@.drop_last() =~= old(self).bindings@);
        }
    }

    /// The value bound to the name, if any.
    pub fn get(&self, name: &String) -> (r: Option<&V>)
        ensures
            match r {
                Some(v) => self@.contains_key(name@) && v@ == self@[name@],
                None => !self@.contains_key(name@),
            },
    {
        let mut i: usize = self.bindings.len();
        proof {
            assert(self.bindings@.take(i as int) =~= self.bindings@);
        }
        while i > 0
            invariant
                i <= self.bindings.len(),
                forall|k: int|
                    i <= k < self.bindings@.len() ==> self.bindings@[k].0@ != name@,
                bindings_map(self.bindings@.take(i as int)).contains_key(name@) == self@.contains_key(
                    name@,
                ),
                self@.contains_key(name@) ==> bindings_map(self.bindings@.take(i as int))[name@]
                    == self@[name@],
            decreases i,
        {
            proof {
                assert(self.bindings@.take(i as int).drop_last() =~= self.bindings@.take(i - 1));
                assert(self.bindings@.take(i as int).last() == self.bindings@[i - 1]);
            }
            i = i - 1;
            if self.bindings[i].0.eq(name) {
                return Some(&self.bindings[i].1);
            }
        }
        proof {
            assert(self.bindings@.take(0) =~= Seq::<(String, V)>::empty());
        }
        None
    }

    /// Whether the name is bound.
    pub fn contains(&self, name: &String) -> (r: bool)
        ensures
            r == self@.contains_key(name@),
    {
        match self.get(name) {
            Some(_) => true,
            None => false,
        }
    }

    /// Drops every binding of the name.
    pub fn remove(&mut self, name: &String)
        ensures
            final(self)@ == old(self)@.remove(name@),
    {
        let ghost orig = self.bindings@;
        let mut kept: Vec<(String, V)> = Vec::new();
        let ghost j: int = 0;
        while self.bindings.len() > 0
            invariant
                0 <= j <= orig.len(),
                self.bindings@ == orig.skip(j),
                bindings_map(kept@) == bindings_map(orig.take(j)).remove(name@),
            decreases self.bindings@.len(),
    {
            proof {
                assert(orig.take(j + 1).drop_last() =~= orig.take(j));
                assert(orig.take(j + 1).last() == orig[j]);
                assert(self.bindings@[0] == orig[j]);
            }
            let pair = self.bindings.remove(0);
            proof {
                assert(self.bindings@ =~= orig.skip(j + 1));
            }
            let keep = !pair.0.eq(name);
            if keep {
                let ghost prev = kept@;
                kept.push(pair);
                proof {
                    assert(kept@.drop_last() =~= prev);
                    assert(bindings_map(kept@) =~= bindings_map(orig.take(j + 1)).remove(name@));
                }
            } else {
                proof {
                    assert(bindings_map(kept@) =~= bindings_map(orig.take(j + 1)).remove(name@));
                }
            }
            proof {
                j = j + 1;
            }
        }
        proof {
            assert(orig.take(j) =~= orig);
        }
        self.bindings = kept;
    }
}

} // verus!
