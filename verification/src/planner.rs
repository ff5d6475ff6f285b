use vstd::prelude::*;

verus! {

/// Strategic goals that a civilization's planner pursues.
#[derive(Debug, Clone, Copy, PartialEq, Eq, Structural)]
pub enum StrategicGoal {
    ExpandTerritory,
    AdvanceTechnology,
    DevelopEconomy,
    BuildMilitary,
    EstablishDiplomacy,
    DefendTerritory,
    ExploreTerritory,
}

/// Kinds of action a goal-oriented planner chains.
#[derive(Debug, Clone, Copy, PartialEq, Eq, Structural)]
pub enum GOAPActionType {
    Expand,
    Research,
    BuildMilitary,
    Trade,
    BuildEconomic,
    Diplomacy,
    Explore,
}

/// The planner's picture of a civilization: named quantities, each kept as a whole
/// number of hundredths. Each name occurs once.
#[derive(Debug, Clone)]
pub struct WorldState {
    values: Vec<(String, i32)>,
}

/// The named quantities of a list of entries; a later entry for a name wins.
pub open spec fn entries_map(s: Seq<(String, i32)>) -> Map<Seq<char>, i32>
    decreases s.len(),
{
    if s.len() == 0 {
        Map::empty()
    } else {
        entries_map(s.drop_last()).insert(s.last().0@, s.last().1)
    }
}

/// No name occurs twice.
pub open spec fn distinct_names(s: Seq<(String, i32)>) -> bool {
    forall|i: int, j: int| 0 <= i < j < s.len() ==> (#[trigger] s[i]).0@ != (#[trigger] s[j]).0@
}

proof fn lemma_entries_map_index(s: Seq<(String, i32)>, i: int)
    requires
        distinct_names(s),
        0 <= i < s.len(),
    ensures
        entries_map(s).contains_key(s[i].0@),
        entries_map(s)[s[i].0@] == s[i].1,
    decreases s.len(),
{
    if i < s.len() - 1 {
        let p = s.drop_last();
        assert(p[i] == s[i]);
        assert(distinct_names(p)) by {
            assert forall|a: int, b: int| 0 <= a < b < p.len() implies (#[trigger] p[a]).0@ != (#[trigger] p[b]).0@ by {
                assert(p[a] == s[a] && p[b] == s[b]);
            }
        }
        lemma_entries_map_index(p, i);
        assert(s[i].0@ != s[s.len() - 1].0@);
    }
}

proof fn lemma_entries_map_absent(s: Seq<(String, i32)>, k: Seq<char>)
    requires
        forall|i: int| 0 <= i < s.len() ==> (#[trigger] s[i]).0@ != k,
    ensures
        !entries_map(s).contains_key(k),
    decreases s.len(),
{
    if s.len() > 0 {
        let p = s.drop_last();
        assert forall|i: int| 0 <= i < p.len() implies (#[trigger] p[i]).0@ != k by {
            assert(p[i] == s[i]);
        }
        lemma_entries_map_absent(p, k);
        assert(s.last() == s[s.len() - 1]);
    }
}

proof fn lemma_entries_map_update(s: Seq<(String, i32)>, i: int, key: String, v: i32)
    requires
        distinct_names(s),
        0 <= i < s.len(),
        key@ == s[i].0@,
    ensures
        entries_map(s.update(i, (key, v))) == entries_map(s).insert(s[i].0@, v),
    decreases s.len(),
{
    let t = s.update(i, (key, v));
    let p = s.drop_last();
    if i == s.len() - 1 {
        assert(t.drop_last() =~= p);
        assert(entries_map(t) =~= entries_map(s).insert(s[i].0@, v));
    } else {
        assert(distinct_names(p)) by {
            assert forall|a: int, b: int| 0 <= a < b < p.len() implies (#[trigger] p[a]).0@ != (#[trigger] p[b]).0@ by {
                assert(p[a] == s[a] && p[b] == s[b]);
            }
        }
        assert(p[i] == s[i]);
        lemma_entries_map_update(p, i, key, v);
        assert(t.drop_last() =~= p.update(i, (key, v)));
        assert(s[i].0@ != s[s.len() - 1].0@);
        assert(t.last() == s.last());
        assert(entries_map(t) =~= entries_map(s).insert(s[i].0@, v));
    }
}

impl View for WorldState {
    type V = Map<Seq<char>, i32>;

    closed spec fn view(&self) -> Map<Seq<char>, i32> {
        entries_map(self.values@)
    }
}

impl WorldState {
    /// Each name occurs once among the entries.
    pub closed spec fn wf(&self) -> bool {
        distinct_names(self.values@)
    }

    /// A state with no named quantity.
    pub fn new() -> (s: WorldState)
        ensures
            s.wf(),
            s@ == Map::<Seq<char>, i32>::empty(),
    {
        WorldState { values: Vec::new() }
    }

    /// Sets the quantity `key` to `hundredths` hundredths, adding the name when it is new.
    pub fn set_scaled(&mut self, key: &str, hundredths: i32)
        requires
            old(self).wf(),
        ensures
            final(self).wf(),
            final(self)@ == old(self)@.insert(key@, hundredths),
    {
        let owned = key.to_owned();
        let mut i: usize = 0;
        while i < self.values.len()
            invariant
                *self == *old(self),
                distinct_names(self.values@),
                owned@ == key@,
                i <= self.values@.len(),
                forall|j: int| 0 <= j < i ==> (#[trigger] self.values@[j]).0@ != key@,
            decreases self.values@.len() - i,
        {
            if self.values[i].0 == owned {
                proof {
                    lemma_entries_map_update(self.values@, i as int, owned, hundredths);
                }
                let ghost before = self.values@;
                let ghost entry = (owned, hundredths);
                self.values.set(i, (owned, hundredths));
                proof {
                    assert(self.values@ =~= before.update(i as int, entry));
                    assert(distinct_names(self.values@)) by {
                        assert forall|a: int, b: int| 0 <= a < b < self.values@.len()
                            implies (#[trigger] self.values@[a]).0@ != (#[trigger] self.values@[b]).0@ by {
                            assert(before[a].0@ != before[b].0@);
                        }
                    }
                }
                return;
            }
            i = i + 1;
        }
        let ghost before = self.values@;
        self.values.push((owned, hundredths));
        proof {
            assert(self.values@.drop_last() =~= before);
            assert(distinct_names(self.values@)) by {
                assert forall|a: int, b: int| 0 <= a < b < self.values@.len()
                    implies (#[trigger] self.values@[a]).0@ != (#[trigger] self.values@[b]).0@ by {
                    if b < before.len() {
                        assert(before[a].0@ != before[b].0@);
                    } else {
                        assert(self.values@[a] == before[a]);
                    }
                }
            }
        }
    }

    /// The quantity `key`, in hundredths, if the state names it.
    pub fn get_scaled(&self, key: &str) -> (r: Option<i32>)
        requires
            self.wf(),
        ensures
            r == (if self@.contains_key(key@) { Some(self@[key@]) } else { None::<i32> }),
    {
        let owned = key.to_owned();
        let mut i: usize = 0;
        while i < self.values.len()
            invariant
                distinct_names(self.values@),
                owned@ == key@,
                i <= self.values@.len(),
                forall|j: int| 0 <= j < i ==> (#[trigger] self.values@[j]).0@ != key@,
            decreases self.values@.len() - i,
        {
            if self.values[i].0 == owned {
                proof {
                    lemma_entries_map_index(self.values@, i as int);
                }
                return Some(self.values[i].1);
            }
            i = i + 1;
        }
        proof {
            lemma_entries_map_absent(self.values@, key@);
        }
        None
    }

    /// The named quantities, in the order in which they were first set.
    pub fn entries(&self) -> (r: &Vec<(String, i32)>)
        ensures
            self.wf() ==> entries_map(r@) == self@ && distinct_names(r@),
    {
        &self.values
    }
}

} // verus!
