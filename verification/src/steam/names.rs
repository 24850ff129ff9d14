//! Tables keyed by applications: the names and the install states found
//! for them.

use std::collections::HashMap;
use vstd::prelude::*;
use vstd::relations::injective_on;
use vstd::set_lib::lemma_map_size;
use crate::steam::AppId;
use crate::InstallState;

verus! {

/// A table from applications to their names: at most one name for each.
pub struct AppNames {
    names: HashMap<u64, String>,
}

impl View for AppNames {
    type V = Map<AppId, Seq<char>>;

    closed spec fn view(&self) -> Map<AppId, Seq<char>> {
        Map::new(|id: AppId| self.names@.contains_key(id.0), |id: AppId| self.names@[id.0]@)
    }
}

impl AppNames {
    /// The table without any name.
    pub fn new() -> (names: AppNames)
        ensures
            names@ == Map::<AppId, Seq<char>>::empty(),
    {
        let names = AppNames { names: HashMap::new() };
        assert(names@ =~= Map::<AppId, Seq<char>>::empty());
        names
    }

    /// How many applications have a name.
    pub fn len(&self) -> (n: usize)
        ensures
            self@.dom().finite(),
            n == self@.dom().len(),
    {
        proof {
            let number_to_id = |n: u64| AppId(n);
            assert(injective_on(number_to_id, self.names@.dom()));
            assert(self.names@.dom().map(number_to_id) =~= self@.dom()) by {
                assert forall|id: AppId| self@.dom().contains(id) implies self.names@.dom().map(
                    number_to_id,
                ).contains(id) by {
                    assert(self.names@.dom().contains(id.0) && number_to_id(id.0) == id);
                }
            }
            lemma_map_size(self.names@.dom(), self@.dom(), number_to_id);
        }
        self.names.len()
    }

    /// Whether `id` has a name.
    pub fn contains_key(&self, id: &AppId) -> (found: bool)
        ensures
            found == self@.contains_key(*id),
    {
        self.names.contains_key(&id.0)
    }

    /// The name of `id`, if it has one.
    pub fn get(&self, id: &AppId) -> (name: Option<&String>)
        ensures
            match name {
                Some(n) => self@.contains_key(*id) && self@[*id] == n@,
                None => !self@.contains_key(*id),
            },
    {
        self.names.get(&id.0)
    }

    /// Gives `id` the name `name`, in place of the one it had.
    pub fn insert(&mut self, id: AppId, name: String)
        ensures
            final(self)@ == old(self)@.insert(id, name@),
    {
        self.names.insert(id.0, name);
        assert(self@ =~= old(self)@.insert(id, name@));
    }
}

/// The names of `names` for the applications of `ids`.
pub open spec fn restricted(names: Map<AppId, Seq<char>>, ids: Seq<AppId>) -> Map<
    AppId,
    Seq<char>,
> {
    Map::new(|id: AppId| ids.contains(id) && names.contains_key(id), |id: AppId| names[id])
}

/// The applications of `ids` that have no name in `names`, in the order of
/// `ids`.
pub open spec fn unnamed(names: Map<AppId, Seq<char>>, ids: Seq<AppId>) -> Seq<AppId> {
    ids.filter(|id: AppId| !names.contains_key(id))
}

impl AppNames {
    /// Takes over the names that `other` has for the applications of `ids`,
    /// each in place of the name that the application had.
    pub fn extend(&mut self, other: &AppNames, ids: &[AppId])
        ensures
            final(self)@ == old(self)@.union_prefer_right(restricted(other@, ids@)),
    {
        let mut i: usize = 0;
        assert(self@ =~= old(self)@.union_prefer_right(restricted(other@, ids@.take(0))));
        while i < ids.len()
            invariant
                i <= ids.len(),
                self@ == old(self)@.union_prefer_right(restricted(other@, ids@.take(i as int))),
            decreases ids.len() - i,
        {
            let id = ids[i];
            let ghost before = ids@.take(i as int);
            let ghost after = ids@.take(i + 1);
            assert forall|x: AppId| after.contains(x) <==> before.contains(x) || x == id by {
                if before.contains(x) {
                    let k = choose|k: int| 0 <= k < before.len() && before[k] == x;
                    assert(after[k] == x);
                }
                if x == id {
                    assert(after[i as int] == id);
                }
                if after.contains(x) {
                    let k = choose|k: int| 0 <= k < after.len() && after[k] == x;
                    if k < i {
                        assert(before[k] == x);
                    }
                }
            }
            match other.get(&id) {
                Some(name) => {
                    self.insert(id, name.clone());
                },
                None => {},
            }
            assert(self@ =~= old(self)@.union_prefer_right(restricted(other@, after)));
            i += 1;
        }
        assert(ids@.take(i as int) =~= ids@);
    }

    /// The applications of `ids` that have no name, in the order of `ids`.
    pub fn missing(&self, ids: &[AppId]) -> (rest: Vec<AppId>)
        ensures
            rest@ == unnamed(self@, ids@),
    {
        let mut rest: Vec<AppId> = Vec::new();
        let ghost no_name = |id: AppId| !self@.contains_key(id);
        let mut i: usize = 0;
        assert(ids@.take(0).filter(no_name) =~= Seq::<AppId>::empty());
        while i < ids.len()
            invariant
                i <= ids.len(),
                no_name == |id: AppId| !self@.contains_key(id),
                rest@ == ids@.take(i as int).filter(no_name),
            decreases ids.len() - i,
        {
            let id = ids[i];
            proof {
                assert(ids@.take(i + 1) =~= ids@.take(i as int).push(id));
                ids@.take(i as int).lemma_filter_push(id, no_name);
            }
            if !self.contains_key(&id) {
                rest.push(id);
            }
            i += 1;
        }
        assert(ids@.take(i as int) =~= ids@);
        rest
    }
}

/// A table from applications to what a file said of whether they are
/// installed: at most one state for each.
pub struct AppStates {
    states: HashMap<u64, InstallState>,
}

impl View for AppStates {
    type V = Map<AppId, InstallState>;

    closed spec fn view(&self) -> Map<AppId, InstallState> {
        Map::new(|id: AppId| self.states@.contains_key(id.0), |id: AppId| self.states@[id.0])
    }
}

impl AppStates {
    /// The table without any state.
    pub fn new() -> (states: AppStates)
        ensures
            states@ == Map::<AppId, InstallState>::empty(),
    {
        let states = AppStates { states: HashMap::new() };
        assert(states@ =~= Map::<AppId, InstallState>::empty());
        states
    }

    /// The state of `id`, if the table has one.
    pub fn get(&self, id: &AppId) -> (state: Option<InstallState>)
        ensures
            state == if self@.contains_key(*id) {
                Some(self@[*id])
            } else {
                None
            },
    {
        match self.states.get(&id.0) {
            Some(state) => Some(*state),
            None => None,
        }
    }

    /// Gives `id` the state `state`, in place of the one it had.
    pub fn insert(&mut self, id: AppId, state: InstallState)
        ensures
            final(self)@ == old(self)@.insert(id, state),
    {
        self.states.insert(id.0, state);
        assert(self@ =~= old(self)@.insert(id, state));
    }
}

} // verus!
