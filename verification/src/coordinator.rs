use vstd::prelude::*;
use crate::civ::CivId;
use crate::keyed::{pairs_map, unique_keys, lemma_pairs_map_index, lemma_pairs_map_keys, lemma_pairs_map_update,
    lemma_pairs_map_push};

verus! {

/// Turns a civilization waits before planning again after deciding on `action_count`
/// actions: none for at most one action, one for two or three, two for more.
pub open spec fn cooldown_for(action_count: nat) -> u32 {
    if action_count <= 1 { 0 } else if action_count <= 3 { 1 } else { 2 }
}

/// Turns a civilization waits before planning again after deciding on `action_count`
/// actions.
pub fn cooldown_for_action_count(action_count: usize) -> (c: u32)
    ensures
        c == cooldown_for(action_count as nat),
{
    if action_count <= 1 {
        0
    } else if action_count <= 3 {
        1
    } else {
        2
    }
}

/// A value one turn on: one less, but not below zero.
pub open spec fn one_less(v: u32) -> u32 {
    if v > 0 { (v - 1) as u32 } else { 0 }
}

/// How long each civilization still waits before the AI plans for it again.
#[derive(Debug, Clone)]
pub struct TurnCooldowns {
    pub turn_cooldown: Vec<(CivId, u32)>,
}

impl TurnCooldowns {
    /// Each civilization has one entry at most.
    pub open spec fn wf(&self) -> bool {
        unique_keys(self.turn_cooldown@)
    }

    /// The remaining wait of each civilization that has one.
    pub open spec fn waits(&self) -> Map<CivId, u32> {
        pairs_map(self.turn_cooldown@)
    }

    /// No civilization waits.
    pub fn new() -> (c: TurnCooldowns)
        ensures
            c.wf(),
            c.turn_cooldown@ == Seq::<(CivId, u32)>::empty(),
    {
        TurnCooldowns { turn_cooldown: Vec::new() }
    }

    /// A turn passes: every wait goes down by one, not below zero.
    pub fn decrement_all(&mut self)
        ensures
            final(self).turn_cooldown@.len() == old(self).turn_cooldown@.len(),
            forall|i: int| 0 <= i < old(self).turn_cooldown@.len() ==> (#[trigger] final(self).turn_cooldown@[i])
                == (old(self).turn_cooldown@[i].0, one_less(old(self).turn_cooldown@[i].1)),
            old(self).wf() ==> final(self).wf(),
    {
        let mut i: usize = 0;
        while i < self.turn_cooldown.len()
            invariant
                self.turn_cooldown@.len() == old(self).turn_cooldown@.len(),
                i <= self.turn_cooldown@.len(),
                forall|j: int| 0 <= j < i ==> (#[trigger] self.turn_cooldown@[j])
                    == (old(self).turn_cooldown@[j].0, one_less(old(self).turn_cooldown@[j].1)),
                forall|j: int| i <= j < self.turn_cooldown@.len() ==> (#[trigger] self.turn_cooldown@[j]) == old(self).turn_cooldown@[j],
            decreases self.turn_cooldown@.len() - i,
        {
            let (civ, wait) = self.turn_cooldown[i];
            let left = if wait > 0 { wait - 1 } else { 0 };
            self.turn_cooldown.set(i, (civ, left));
            i = i + 1;
        }
        proof {
            if unique_keys(old(self).turn_cooldown@) {
                assert forall|a: int, b: int| 0 <= a < b < self.turn_cooldown@.len()
                    implies (#[trigger] self.turn_cooldown@[a]).0 != (#[trigger] self.turn_cooldown@[b]).0 by {
                    assert(old(self).turn_cooldown@[a].0 != old(self).turn_cooldown@[b].0);
                }
            }
        }
    }

    /// Whether `civ` still waits.
    pub fn is_cooling_down(&self, civ: CivId) -> (b: bool)
        requires
            self.wf(),
        ensures
            b == (self.waits().contains_key(civ) && self.waits()[civ] > 0),
    {
        let mut i: usize = 0;
        while i < self.turn_cooldown.len()
            invariant
                unique_keys(self.turn_cooldown@),
                i <= self.turn_cooldown@.len(),
                forall|j: int| 0 <= j < i ==> (#[trigger] self.turn_cooldown@[j]).0 != civ,
            decreases self.turn_cooldown@.len() - i,
        {
            if self.turn_cooldown[i].0 == civ {
                proof { lemma_pairs_map_index(self.turn_cooldown@, i as int); }
                return self.turn_cooldown[i].1 > 0;
            }
            i = i + 1;
        }
        proof { lemma_pairs_map_keys(self.turn_cooldown@, civ); }
        false
    }

    /// After the AI decided on `action_count` actions for `civ`: when there is at least
    /// one, `civ` waits as long as that many actions call for.
    pub fn record_decisions(&mut self, civ: CivId, action_count: usize)
        requires
            old(self).wf(),
        ensures
            final(self).wf(),
            action_count == 0 ==> final(self).waits() == old(self).waits(),
            action_count > 0 ==> final(self).waits() == old(self).waits().insert(civ, cooldown_for(action_count as nat)),
    {
        if action_count == 0 {
            return;
        }
        let wait = cooldown_for_action_count(action_count);
        let mut i: usize = 0;
        while i < self.turn_cooldown.len()
            invariant
                *self == *old(self),
                action_count > 0,
                wait == cooldown_for(action_count as nat),
                unique_keys(self.turn_cooldown@),
                i <= self.turn_cooldown@.len(),
                forall|j: int| 0 <= j < i ==> (#[trigger] self.turn_cooldown@[j]).0 != civ,
            decreases self.turn_cooldown@.len() - i,
        {
            if self.turn_cooldown[i].0 == civ {
                proof { lemma_pairs_map_update(self.turn_cooldown@, i as int, wait); }
                let ghost before = self.turn_cooldown@;
                self.turn_cooldown.set(i, (civ, wait));
                proof {
                    assert(self.turn_cooldown@ =~= before.update(i as int, (before[i as int].0, wait)));
                }
                return;
            }
            i = i + 1;
        }
        proof {
            lemma_pairs_map_keys(self.turn_cooldown@, civ);
            lemma_pairs_map_push(self.turn_cooldown@, civ, wait);
        }
        self.turn_cooldown.push((civ, wait));
    }

    /// Starts a turn of AI planning: every wait goes down by one, and the civilizations
    /// of `civs` that no longer wait are returned, in order, to be planned for.
    pub fn civilizations_to_plan(&mut self, civs: &Vec<CivId>) -> (r: Vec<CivId>)
        requires
            old(self).wf(),
        ensures
            final(self).wf(),
            final(self).turn_cooldown@.len() == old(self).turn_cooldown@.len(),
            forall|i: int| 0 <= i < old(self).turn_cooldown@.len() ==> (#[trigger] final(self).turn_cooldown@[i])
                == (old(self).turn_cooldown@[i].0, one_less(old(self).turn_cooldown@[i].1)),
            r@ == civs@.filter(|c: CivId| !(final(self).waits().contains_key(c) && final(self).waits()[c] > 0)),
    {
        self.decrement_all();
        let ghost ready = |c: CivId| !(self.waits().contains_key(c) && self.waits()[c] > 0);
        let mut r: Vec<CivId> = Vec::new();
        let mut i: usize = 0;
        while i < civs.len()
            invariant
                self.wf(),
                ready == (|c: CivId| !(self.waits().contains_key(c) && self.waits()[c] > 0)),
                i <= civs@.len(),
                r@ == civs@.take(i as int).filter(ready),
            decreases civs@.len() - i,
        {
            proof {
                reveal(Seq::filter);
                assert(civs@.take(i + 1).drop_last() =~= civs@.take(i as int));
                assert(civs@.take(i + 1).last() == civs@[i as int]);
            }
            let c = civs[i];
            if !self.is_cooling_down(c) {
                r.push(c);
            }
            i = i + 1;
        }
        proof {
            assert(civs@.take(civs@.len() as int) =~= civs@);
        }
        r
    }
}

} // verus!
