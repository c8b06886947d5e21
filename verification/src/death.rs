//! The death system: who is at risk, with what chance, and what the draws
//! do to the world.

use crate::components::Components;
use crate::laws::lemma_resident_where_positioned;
use crate::model::WorldView;
use crate::params::{clamped, death_chance, hazard_at, hazard_of, DAYS_PER_YEAR, PPM};
use crate::random::chance;
use crate::seqs::{
    drawn_at, drawn_with, ids, lemma_filter_members, lemma_filter_none, lemma_filter_step,
    lemma_picked_step, picked,
};
use crate::world::{get_age, World};
use vstd::prelude::*;

verus! {

impl WorldView {
    /// `e` is at risk of death: a living human.
    pub open spec fn mortal(self, e: usize) -> bool {
        self.issued(e) && self.store[e as int].life.0 && self.store[e as int].human.0
    }

    /// `mortal`, as a predicate for a filter.
    pub open spec fn mortal_pred(self) -> spec_fn(usize) -> bool {
        |e: usize| self.mortal(e)
    }

    /// Those who are at risk of death today, by identifier.
    pub open spec fn death_candidates(self) -> Seq<usize> {
        ids(self.store.len()).filter(self.mortal_pred())
    }

    /// The chance that `e` dies today, where `hazard` holds the hazard for
    /// each whole year of age in parts per million: the hazard at the age
    /// of `e`, brought into the range from zero to one.
    pub open spec fn death_chance(self, hazard: Seq<i64>, e: usize) -> u32 {
        clamped(hazard_of(hazard, self.age(e) / (DAYS_PER_YEAR as int))) as u32
    }

    /// `death_chance`, as a function to map over a list.
    pub open spec fn death_chance_fn(self, hazard: Seq<i64>) -> spec_fn(usize) -> u32 {
        |e: usize| self.death_chance(hazard, e)
    }

    /// The chances of those at risk today.
    pub open spec fn death_chances(self, hazard: Seq<i64>) -> Seq<u32> {
        self.death_candidates().map_values(self.death_chance_fn(hazard))
    }

    /// The world after those of `victims` died for whom `drawn` says so,
    /// one after the other.
    pub open spec fn perished(self, victims: Seq<usize>, drawn: Seq<bool>) -> WorldView
        decreases victims.len(),
    {
        if victims.len() == 0 {
            self
        } else {
            let before = self.perished(victims.drop_last(), drawn);
            if drawn_at(drawn, victims.len() - 1) {
                before.died(victims.last())
            } else {
                before
            }
        }
    }
}

impl World {
    fn is_mortal(&self, e: usize) -> (b: bool)
        ensures
            b == self@.mortal(e),
    {
        e >= 1 && e < self.store.len() && self.store[e].life.0 && self.store[e].human.0
    }

    /// Those who are at risk of death today, by identifier.
    pub fn death_candidates(&self) -> (out: Vec<usize>)
        ensures
            out@ == self@.death_candidates(),
    {
        let mut out: Vec<usize> = Vec::new();
        let mut index: usize = 0;
        let ghost all = ids(self@.store.len());
        proof {
            lemma_filter_none(all, self@.mortal_pred());
        }
        while index < self.store.len()
            invariant
                index <= self.store.len(),
                all == ids(self@.store.len()),
                out@ == all.take(index as int).filter(self@.mortal_pred()),
            decreases self.store.len() - index,
        {
            proof {
                lemma_filter_step(all, self@.mortal_pred(), index as int);
            }
            if self.is_mortal(index) {
                out.push(index);
            }
            index += 1;
        }
        out
    }

    /// The chance that `entity` dies today, in parts per million, where
    /// `hazard` holds the hazard for each whole year of age.
    pub fn death_chance_of(&self, hazard: &Vec<i64>, entity: usize) -> (odds: u32)
        requires
            self.wf(),
            entity < self.store.len(),
        ensures
            odds == self@.death_chance(hazard@, entity),
    {
        let age: u64 = match self.store[entity].spawn_date {
            Some(d) => {
                assert(self@.record_ok(entity));
                get_age(self.day, d.0)
            },
            None => 0,
        };
        death_chance(hazard_at(hazard, age / 365))
    }

    /// Lets those of `victims` die for whom `drawn` says so.
    pub fn apply_deaths(&mut self, victims: &Vec<usize>, drawn: &Vec<bool>)
        requires
            old(self).wf(),
        ensures
            final(self)@ == old(self)@.perished(victims@, drawn@),
            final(self).wf(),
    {
        let mut i: usize = 0;
        while i < victims.len()
            invariant
                self.wf(),
                i <= victims.len(),
                self@ == old(self)@.perished(victims@.take(i as int), drawn@),
            decreases victims.len() - i,
        {
            proof {
                assert(victims@.take(i as int + 1).drop_last() =~= victims@.take(i as int));
            }
            if i < drawn.len() && drawn[i] {
                self.die(victims[i]);
            }
            i += 1;
        }
        assert(victims@.take(victims@.len() as int) =~= victims@);
    }

    /// The death system. Each living human dies with the chance that the
    /// hazard at its age gives, where `hazard` holds the hazard for each
    /// whole year of age in parts per million. A hazard above one is
    /// certain death, one below zero is none.
    pub fn death_system(&mut self, hazard: &Vec<i64>)
        requires
            old(self).wf(),
        ensures
            final(self).wf(),
            exists|drawn: Seq<bool>|
                drawn_with(drawn, old(self)@.death_chances(hazard@)) && final(self)@
                    == #[trigger] old(self)@.perished(old(self)@.death_candidates(), drawn),
            only_perished(old(self)@, final(self)@),
            forall|e: usize|
                e < old(self)@.store.len() && old(self)@.store[e as int].life.0 && !(
                #[trigger] final(self)@.store[e as int]).life.0 ==> torn_down(
                    old(self)@,
                    final(self)@,
                    e,
                ),
            forall|e: usize|
                old(self)@.mortal(e) && old(self)@.death_chance(hazard@, e) >= PPM ==> !(
                #[trigger] final(self)@.store[e as int]).life.0,
            forall|e: usize|
                old(self)@.mortal(e) && old(self)@.death_chance(hazard@, e) == 0 ==> (
                #[trigger] final(self)@.store[e as int]).life.0,
    {
        let mut rng = rand::thread_rng();
        let victims = self.death_candidates();
        let mut drawn: Vec<bool> = Vec::new();
        let mut i: usize = 0;
        while i < victims.len()
            invariant
                self.wf(),
                self@ == old(self)@,
                victims@ == self@.death_candidates(),
                i <= victims.len(),
                drawn_with(drawn@, self@.death_chances(hazard@).take(i as int)),
            decreases victims.len() - i,
        {
            let index = victims[i];
            proof {
                lemma_filter_members(ids(self@.store.len()), self@.mortal_pred());
            }
            let death_probability = self.death_chance_of(hazard, index);
            let hit = chance(&mut rng, death_probability);
            drawn.push(hit);
            i += 1;
        }
        self.apply_deaths(&victims, &drawn);
        proof {
            let w = old(self)@;
            lemma_perished(w, victims@, drawn@);
            assert forall|e: usize|
                e < w.store.len() && w.store[e as int].life.0 && !(
                #[trigger] self@.store[e as int]).life.0 implies torn_down(w, self@, e) by {
                lemma_death_teardown(w, victims@, drawn@, e);
            }
            lemma_filter_members(ids(w.store.len()), w.mortal_pred());
            assert forall|e: usize| w.mortal(e) implies (w.death_chance(hazard@, e) >= PPM ==> !(
            #[trigger] self@.store[e as int]).life.0) && (w.death_chance(hazard@, e) == 0
                ==> self@.store[e as int].life.0) by {
                lemma_perished_each(w, victims@, drawn@, e);
                if w.death_chance(hazard@, e) >= PPM {
                    assert(ids(w.store.len())[e as int] == e);
                }
            }
        }
    }
}

/// In `after`, `e` is torn down: it has no component left and stands in no
/// cell, and the mate it had in `before` has no mate.
pub open spec fn torn_down(before: WorldView, after: WorldView, e: usize) -> bool {
    &&& after.store[e as int] == Components::absent()
    &&& forall|cell: int|
        0 <= cell < after.residents.len() ==> !(#[trigger] after.residents[cell]).contains(e)
    &&& before.store[e as int].mate matches Some(m) ==> after.store[m as int].mate.is_none()
}

/// Death tears an entity down: it keeps no component and stands in no
/// cell, and its former mate has no mate.
pub proof fn lemma_died_teardown(w: WorldView, e: usize)
    requires
        w.wf(),
        w.issued(e),
    ensures
        w.died(e).wf(),
        torn_down(w, w.died(e), e),
{
    let d = w.died(e);
    w.lemma_died_wf(e);
    assert(w.mate_ok(e));
    assert forall|cell: int| 0 <= cell < d.residents.len() implies !(
    #[trigger] d.residents[cell]).contains(e) by {
        lemma_resident_where_positioned(d, e, cell as usize);
    }
}

/// `d` has come from `w` by deaths alone: the lineage records are the
/// same, and each entity is either torn down or as it was, but for a mate
/// link that it may have lost.
pub open spec fn only_perished(w: WorldView, d: WorldView) -> bool {
    &&& d.same_frame(w)
    &&& d.parents == w.parents
    &&& d.children == w.children
    &&& d.residents.len() == w.residents.len()
    &&& d.store.len() == w.store.len()
    &&& forall|e: usize|
        e < w.store.len() ==> #[trigger] d.store[e as int] == Components::absent()
            || d.store[e as int] == (Components {
            mate: d.store[e as int].mate,
            ..w.store[e as int]
        })
    &&& forall|e: usize|
        e < w.store.len() ==> (#[trigger] d.store[e as int]).mate.is_none()
            || d.store[e as int].mate == w.store[e as int].mate
}

/// What the death system leaves behind, whatever was drawn: a well-formed
/// world that has come from the old one by deaths alone.
pub proof fn lemma_perished(w: WorldView, victims: Seq<usize>, drawn: Seq<bool>)
    requires
        w.wf(),
    ensures
        w.perished(victims, drawn).wf(),
        only_perished(w, w.perished(victims, drawn)),
    decreases victims.len(),
{
    if victims.len() > 0 {
        let before = w.perished(victims.drop_last(), drawn);
        lemma_perished(w, victims.drop_last(), drawn);
        if drawn_at(drawn, victims.len() - 1) {
            let v = victims.last();
            before.lemma_died_wf(v);
            if before.issued(v) {
                assert(before.mate_ok(v));
            }
        }
    }
}

/// Whoever lost its life to the death system is torn down: it has no
/// position, no marker of sex or of being human and no mate, it stands in
/// no cell, and its former mate has no mate.
pub proof fn lemma_death_teardown(w: WorldView, victims: Seq<usize>, drawn: Seq<bool>, e: usize)
    requires
        w.wf(),
        e < w.store.len(),
        w.store[e as int].life.0,
        !w.perished(victims, drawn).store[e as int].life.0,
    ensures
        torn_down(w, w.perished(victims, drawn), e),
{
    let d = w.perished(victims, drawn);
    lemma_perished(w, victims, drawn);
    assert forall|cell: int| 0 <= cell < d.residents.len() implies !(
    #[trigger] d.residents[cell]).contains(e) by {
        lemma_resident_where_positioned(d, e, cell as usize);
    }
    if let Some(m) = w.store[e as int].mate {
        assert(w.mate_ok(e));
        assert(d.mate_ok(m));
    }
}

/// The death system entity by entity: whoever was picked is torn down, and
/// everybody else is as before, but without a mate who was picked.
pub proof fn lemma_perished_each(w: WorldView, victims: Seq<usize>, drawn: Seq<bool>, e: usize)
    requires
        w.wf(),
        e < w.store.len(),
    ensures
        w.perished(victims, drawn).store[e as int] == if picked(victims, drawn, e) && e >= 1 {
            Components::absent()
        } else {
            Components {
                mate: match w.store[e as int].mate {
                    Some(m) => if picked(victims, drawn, m) {
                        None
                    } else {
                        Some(m)
                    },
                    None => None,
                },
                ..w.store[e as int]
            }
        },
    decreases victims.len(),
{
    lemma_perished(w, victims, drawn);
    assert(w.mate_ok(e));
    if victims.len() > 0 {
        let front = victims.drop_last();
        let before = w.perished(front, drawn);
        let v = victims.last();
        lemma_perished(w, front, drawn);
        lemma_perished_each(w, front, drawn, e);
        lemma_picked_step(victims, drawn, e);
        if let Some(m) = w.store[e as int].mate {
            lemma_picked_step(victims, drawn, m);
            lemma_perished_each(w, front, drawn, m);
        }
        if drawn_at(drawn, victims.len() - 1) && before.issued(v) {
            assert(before.mate_ok(v));
            if v != e {
                lemma_perished_each(w, front, drawn, v);
            }
        }
    }
}

} // verus!
