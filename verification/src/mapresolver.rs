//! A ready-made [`Resolver`] over a list of name/value pairs, where a later
//! entry for the same name overrides an earlier one.

use vstd::prelude::*;

use crate::resolver::Resolver;
use crate::text::str_eq;
use crate::value::{Value, ValueModel};

verus! {

/// A [`Resolver`] backed by a list of name/value pairs.
#[derive(Debug)]
pub struct MapResolver {
    pub entries: Vec<(String, Value)>,
}

/// The binding a list of pairs stands for: entries apply left to right, so a
/// later entry for the same name wins.
pub open spec fn entries_env(entries: Seq<(String, Value)>) -> Map<Seq<char>, ValueModel>
    decreases entries.len(),
{
    if entries.len() == 0 {
        Map::empty()
    } else {
        entries_env(entries.drop_last()).insert(entries.last().0@, entries.last().1@)
    }
}

/// Entries whose names differ from `k` do not change what `k` maps to.
proof fn lemma_entries_env_skip_tail(entries: Seq<Entry>, i: int, k: Seq<char>)
    requires
        0 <= i <= entries.len(),
        forall|j: int| i <= j < entries.len() ==> entries[j].0@ != k,
    ensures
        entries_env(entries).contains_key(k) == entries_env(entries.take(i)).contains_key(k),
        entries_env(entries).contains_key(k) ==> entries_env(entries)[k] == entries_env(
            entries.take(i),
        )[k],
    decreases entries.len() - i,
{
    if i < entries.len() {
        lemma_entries_env_skip_tail(entries.take(entries.len() - 1), i, k);
        assert(entries.take(entries.len() - 1) =~= entries.drop_last());
        assert(entries.take(entries.len() - 1).take(i) =~= entries.take(i));
    } else {
        assert(entries.take(i) =~= entries);
    }
}

type Entry = (String, Value);

impl MapResolver {
    /// An empty resolver that binds nothing.
    pub fn new() -> (r: MapResolver)
        ensures
            r.env() == Map::<Seq<char>, ValueModel>::empty(),
    {
        MapResolver { entries: Vec::new() }
    }

    /// Bind `name` to `value`, overriding any earlier binding of `name`.
    pub fn bind(&mut self, name: String, value: Value)
        ensures
            final (self).env() == old(self).env().insert(name@, value@),
    {
        let ghost before = self.entries@;
        self.entries.push((name, value));
        proof {
            assert(self.entries@.drop_last() =~= before);
        }
    }
}

impl From<Vec<(String, Value)>> for MapResolver {
    /// Wrap a list of name/value pairs; a later pair for the same name wins.
    fn from(entries: Vec<(String, Value)>) -> (r: MapResolver) {
        MapResolver { entries }
    }
}

impl vstd::std_specs::convert::FromSpecImpl<Vec<(String, Value)>> for MapResolver {
    open spec fn obeys_from_spec() -> bool {
        true
    }

    open spec fn from_spec(entries: Vec<(String, Value)>) -> MapResolver {
        MapResolver { entries }
    }
}

impl Resolver for MapResolver {
    open spec fn env(&self) -> Map<Seq<char>, ValueModel> {
        entries_env(self.entries@)
    }

    fn resolve(&self, name: &str) -> (r: Option<Value>) {
        let n = self.entries.len();
        let mut i: usize = n;
        while i > 0
            invariant
                i <= n,
                n == self.entries@.len(),
                forall|j: int| i <= j < n ==> self.entries@[j].0@ != name@,
            decreases i,
        {
            if str_eq(self.entries[i - 1].0.as_str(), name) {
                let v = self.entries[i - 1].1.clone();
                proof {
                    lemma_entries_env_skip_tail(self.entries@, i as int, name@);
                    assert(self.entries@.take(i as int).drop_last() =~= self.entries@.take(
                        i as int - 1,
                    ));
                    assert(self.entries@.take(i as int).last() == self.entries@[i - 1]);
                }
                return Some(v);
            }
            i = i - 1;
        }
        proof {
            lemma_entries_env_skip_tail(self.entries@, 0, name@);
            assert(self.entries@.take(0) =~= Seq::<Entry>::empty());
        }
        None
    }
}

} // verus!
