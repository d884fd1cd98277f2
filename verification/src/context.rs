//! The evaluation context: resolved parameter values and the outputs of
//! already-executed resources, addressable by expressions. Both mappings grow
//! monotonically during a run; an insert for an existing key overrides it.
use vstd::prelude::*;

use crate::value::{object_view, group_value_axioms, SpecValue, PropValue};

verus! {

/// The mapping denoted by an association list, later entries overriding
/// earlier ones.
pub open spec fn map_of<T>(s: Seq<(Seq<char>, T)>) -> Map<Seq<char>, T>
    decreases s.len(),
{
    if s.len() == 0 {
        Map::empty()
    } else {
        map_of(s.drop_last()).insert(s.last().0, s.last().1)
    }
}

/// The value an association list holds for a key: the last entry wins.
pub open spec fn assoc_lookup<T>(s: Seq<(Seq<char>, T)>, k: Seq<char>) -> Option<T>
    decreases s.len(),
{
    if s.len() == 0 {
        None
    } else if s.last().0 == k {
        Some(s.last().1)
    } else {
        assoc_lookup(s.drop_last(), k)
    }
}

/// `assoc_lookup` decides membership and the value of `map_of`.
pub proof fn lemma_assoc_lookup<T>(s: Seq<(Seq<char>, T)>, k: Seq<char>)
    ensures
        map_of(s).contains_key(k) <==> assoc_lookup(s, k) is Some,
        assoc_lookup(s, k) matches Some(v) ==> map_of(s)[k] == v,
    decreases s.len(),
{
    if s.len() > 0 {
        lemma_assoc_lookup(s.drop_last(), k);
    }
}

/// An insert-or-replace store of named values, held as an association list
/// whose latest entry for a name is authoritative.
pub struct ValueStore {
    entries: Vec<(String, PropValue)>,
}

impl ValueStore {
    /// The mapping this store denotes.
    pub closed spec fn map(&self) -> Map<Seq<char>, SpecValue> {
        map_of(object_view(self.entries))
    }

    pub fn new() -> (r: ValueStore)
        ensures
            r.map() == Map::<Seq<char>, SpecValue>::empty(),
    {
        ValueStore { entries: Vec::new() }
    }

    /// Insert a value for a name, overriding any earlier value.
    pub fn set(&mut self, name: &String, v: PropValue)
        ensures
            final(self).map() == old(self).map().insert(name@, v@),
    {
        broadcast use group_value_axioms;

        let ghost old_entries = object_view(self.entries);
        self.entries.push((name.clone(), v));
        proof {
            assert(object_view(self.entries).drop_last() =~= old_entries);
            assert(object_view(self.entries).last() == (name@, v@));
        }
    }

    /// Look a name up; yields the latest value inserted for it, if any.
    #[verifier::loop_isolation(false)]
    pub fn get(&self, name: &String) -> (r: Option<&PropValue>)
        ensures
            match r {
                Some(v) => self.map().contains_key(name@) && v@ == self.map()[name@],
                None => !self.map().contains_key(name@),
            },
    {
        broadcast use group_value_axioms;

        proof {
            lemma_assoc_lookup(object_view(self.entries), name@);
        }
        let ghost all = object_view(self.entries);
        proof {
            assert(all.take(self.entries.len() as int) =~= all);
        }
        let mut i: usize = self.entries.len();
        while i > 0
            invariant
                0 <= i <= self.entries.len(),
                assoc_lookup(all, name@) == assoc_lookup(all.take(i as int), name@),
            decreases i,
        {
            i = i - 1;
            let hit = self.entries[i].0 == *name;
            proof {
                assert(all.take(i as int + 1).last() == (self.entries[i as int].0@,
                self.entries[i as int].1@));
                assert(all.take(i as int + 1).drop_last() =~= all.take(i as int));
            }
            if hit {
                return Some(&self.entries[i].1);
            }
        }
        proof {
            assert(all.take(0) =~= Seq::<(Seq<char>, SpecValue)>::empty());
        }
        None
    }
}

/// The evaluation context: parameter values bound before a run, and each
/// executed resource's latest result, keyed by resource name.
pub struct Context {
    pub parameters: ValueStore,
    pub resources: ValueStore,
}

impl Context {
    pub open spec fn params_map(&self) -> Map<Seq<char>, SpecValue> {
        self.parameters.map()
    }

    pub open spec fn resources_map(&self) -> Map<Seq<char>, SpecValue> {
        self.resources.map()
    }

    pub fn new() -> (r: Context)
        ensures
            r.params_map() == Map::<Seq<char>, SpecValue>::empty(),
            r.resources_map() == Map::<Seq<char>, SpecValue>::empty(),
    {
        Context { parameters: ValueStore::new(), resources: ValueStore::new() }
    }

    /// Bind a parameter value, overriding any earlier binding.
    pub fn set_parameter(&mut self, name: &String, v: PropValue)
        ensures
            final(self).params_map() == old(self).params_map().insert(name@, v@),
            final(self).resources_map() == old(self).resources_map(),
    {
        self.parameters.set(name, v);
    }

    /// Read-only lookup of a bound parameter, for the expression engine.
    pub fn get_parameter(&self, name: &String) -> (r: Option<&PropValue>)
        ensures
            match r {
                Some(v) => self.params_map().contains_key(name@) && v@ == self.params_map()[name@],
                None => !self.params_map().contains_key(name@),
            },
    {
        self.parameters.get(name)
    }

    /// Publish a resource's operation result under its name.
    pub fn set_resource_result(&mut self, name: &String, v: PropValue)
        ensures
            final(self).resources_map() == old(self).resources_map().insert(name@, v@),
            final(self).params_map() == old(self).params_map(),
    {
        self.resources.set(name, v);
    }

    /// Read-only lookup of a prior resource result, for the expression engine.
    pub fn get_resource_result(&self, name: &String) -> (r: Option<&PropValue>)
        ensures
            match r {
                Some(v) => self.resources_map().contains_key(name@) && v@ == self.resources_map()[name@],
                None => !self.resources_map().contains_key(name@),
            },
    {
        self.resources.get(name)
    }
}

} // verus!
