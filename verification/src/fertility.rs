//! The fertility system: which women may become fertile, with what chance,
//! and what the draws do to the world.

use crate::components::{Components, Fertile};
use crate::model::WorldView;
use crate::params::{fertility_chance, fertility_chance_of, FERTILE_FROM, FERTILE_UNTIL, PPM};
use crate::random::chance;
use crate::seqs::{
    drawn_at, drawn_with, ids, lemma_filter_members, lemma_filter_none, lemma_filter_step,
    lemma_picked_step, picked,
};
use crate::world::{get_age, World};
use vstd::prelude::*;

verus! {

impl WorldView {
    /// `e` may become fertile: a living woman in her fertile years who is
    /// neither fertile nor pregnant.
    pub open spec fn may_turn_fertile(self, e: usize) -> bool {
        &&& self.issued(e)
        &&& self.store[e as int].life.0
        &&& self.store[e as int].human.0
        &&& self.store[e as int].female.0
        &&& !self.store[e as int].fertile.0
        &&& self.store[e as int].pregnant.is_none()
        &&& self.store[e as int].spawn_date.is_some()
        &&& FERTILE_FROM <= self.age(e) < FERTILE_UNTIL
    }

    /// `may_turn_fertile`, as a predicate for a filter.
    pub open spec fn fertility_pred(self) -> spec_fn(usize) -> bool {
        |e: usize| self.may_turn_fertile(e)
    }

    /// The women who may become fertile today, by identifier.
    pub open spec fn fertility_candidates(self) -> Seq<usize> {
        ids(self.store.len()).filter(self.fertility_pred())
    }

    /// The chance with which `e` becomes fertile on a day: the more
    /// children she has, the smaller it is.
    pub open spec fn fertility_chance(self, e: usize) -> u32 {
        fertility_chance_of(self.params, self.children[e as int].len() as int) as u32
    }

    /// `fertility_chance`, as a function to map over a list.
    pub open spec fn fertility_chance_fn(self) -> spec_fn(usize) -> u32 {
        |e: usize| self.fertility_chance(e)
    }

    /// The chances of the day's candidates.
    pub open spec fn fertility_chances(self) -> Seq<u32> {
        self.fertility_candidates().map_values(self.fertility_chance_fn())
    }

    /// The world after `e` became fertile, if she may.
    pub open spec fn turned_fertile(self, e: usize) -> WorldView {
        if self.may_turn_fertile(e) {
            self.with_record(e, Components { fertile: Fertile(true), ..self.store[e as int] })
        } else {
            self
        }
    }

    /// The world after those of `women` became fertile for whom `drawn`
    /// says so.
    pub open spec fn fertilised(self, women: Seq<usize>, drawn: Seq<bool>) -> WorldView
        decreases women.len(),
    {
        if women.len() == 0 {
            self
        } else {
            let before = self.fertilised(women.drop_last(), drawn);
            if drawn_at(drawn, women.len() - 1) {
                before.turned_fertile(women.last())
            } else {
                before
            }
        }
    }

    /// Becoming fertile keeps the world well formed.
    pub proof fn lemma_turned_fertile_wf(self, e: usize)
        requires
            self.wf(),
        ensures
            self.turned_fertile(e).wf(),
    {
        if self.may_turn_fertile(e) {
            assert(self.record_ok(e));
            self.lemma_with_record_wf(
                e,
                Components { fertile: Fertile(true), ..self.store[e as int] },
            );
        }
    }
}

impl World {
    fn may_turn_fertile(&self, e: usize) -> (b: bool)
        requires
            self.wf(),
        ensures
            b == self@.may_turn_fertile(e),
    {
        if e >= 1 && e < self.store.len() {
            let c = self.store[e];
            if c.life.0 && c.human.0 && c.female.0 && !c.fertile.0 && c.pregnant.is_none() {
                match c.spawn_date {
                    Some(d) => {
                        assert(self@.record_ok(e));
                        let age = get_age(self.day, d.0);
                        age >= FERTILE_FROM as u64 && age < FERTILE_UNTIL as u64
                    },
                    None => false,
                }
            } else {
                false
            }
        } else {
            false
        }
    }

    /// The women who may become fertile today, by identifier.
    pub fn fertility_candidates(&self) -> (out: Vec<usize>)
        requires
            self.wf(),
        ensures
            out@ == self@.fertility_candidates(),
    {
        let mut out: Vec<usize> = Vec::new();
        let mut index: usize = 0;
        let ghost all = ids(self@.store.len());
        proof {
            lemma_filter_none(all, self@.fertility_pred());
        }
        while index < self.store.len()
            invariant
                self.wf(),
                index <= self.store.len(),
                all == ids(self@.store.len()),
                out@ == all.take(index as int).filter(self@.fertility_pred()),
            decreases self.store.len() - index,
        {
            proof {
                lemma_filter_step(all, self@.fertility_pred(), index as int);
            }
            if self.may_turn_fertile(index) {
                out.push(index);
            }
            index += 1;
        }
        out
    }

    /// Makes `entity` fertile, if she may become so, and says whether it
    /// did.
    pub fn turn_fertile(&mut self, entity: usize) -> (done: bool)
        requires
            old(self).wf(),
        ensures
            done == old(self)@.may_turn_fertile(entity),
            final(self)@ == old(self)@.turned_fertile(entity),
            final(self).wf(),
    {
        if !self.may_turn_fertile(entity) {
            return false;
        }
        let c = self.store[entity];
        self.store[entity] = Components { fertile: Fertile(true), ..c };
        proof {
            old(self)@.lemma_turned_fertile_wf(entity);
        }
        true
    }

    /// Makes those of `women` fertile for whom `drawn` says so.
    pub fn apply_fertility(&mut self, women: &Vec<usize>, drawn: &Vec<bool>)
        requires
            old(self).wf(),
        ensures
            final(self)@ == old(self)@.fertilised(women@, drawn@),
            final(self).wf(),
    {
        let mut i: usize = 0;
        while i < women.len()
            invariant
                self.wf(),
                i <= women.len(),
                self@ == old(self)@.fertilised(women@.take(i as int), drawn@),
            decreases women.len() - i,
        {
            proof {
                assert(women@.take(i as int + 1).drop_last() =~= women@.take(i as int));
            }
            if i < drawn.len() && drawn[i] {
                self.turn_fertile(women[i]);
            }
            i += 1;
        }
        assert(women@.take(women@.len() as int) =~= women@);
    }

    /// The fertility system. Each living woman in her fertile years who is
    /// neither fertile nor pregnant becomes fertile with a chance that
    /// falls with the number of her children.
    pub fn fertility_system(&mut self)
        requires
            old(self).wf(),
        ensures
            final(self).wf(),
            exists|drawn: Seq<bool>|
                drawn_with(drawn, old(self)@.fertility_chances()) && final(self)@
                    == #[trigger] old(self)@.fertilised(old(self)@.fertility_candidates(), drawn),
            only_fertilised(old(self)@, final(self)@),
            forall|e: usize|
                old(self)@.may_turn_fertile(e) && old(self)@.fertility_chance(e) >= PPM ==> (
                #[trigger] final(self)@.store[e as int]).fertile.0,
            forall|e: usize|
                e < old(self)@.store.len() && old(self)@.fertility_chance(e) == 0 ==> (
                #[trigger] final(self)@.store[e as int]) == old(self)@.store[e as int],
    {
        let mut rng = rand::thread_rng();
        let women = self.fertility_candidates();
        let mut drawn: Vec<bool> = Vec::new();
        let mut i: usize = 0;
        while i < women.len()
            invariant
                self.wf(),
                self@ == old(self)@,
                women@ == self@.fertility_candidates(),
                i <= women.len(),
                drawn_with(drawn@, self@.fertility_chances().take(i as int)),
            decreases women.len() - i,
        {
            let woman = women[i];
            proof {
                lemma_filter_members(ids(self@.store.len()), self@.fertility_pred());
            }
            let odds = fertility_chance(&self.params, self.children[woman].len());
            let hit = chance(&mut rng, odds);
            drawn.push(hit);
            i += 1;
        }
        self.apply_fertility(&women, &drawn);
        proof {
            let w = old(self)@;
            lemma_fertilised(w, women@, drawn@);
            lemma_filter_members(ids(w.store.len()), w.fertility_pred());
            assert forall|e: usize| e < w.store.len() implies (picked(women@, drawn@, e)
                ==> w.fertility_chance(e) > 0) && (w.may_turn_fertile(e) && w.fertility_chance(e)
                >= PPM ==> picked(women@, drawn@, e)) by {
                if w.may_turn_fertile(e) && w.fertility_chance(e) >= PPM {
                    assert(ids(w.store.len())[e as int] == e);
                }
            }
            assert forall|e: usize|
                w.may_turn_fertile(e) && w.fertility_chance(e) >= PPM implies (
            #[trigger] self@.store[e as int]).fertile.0 by {
                lemma_fertilised_each(w, women@, drawn@, e);
            }
            assert forall|e: usize| e < w.store.len() && w.fertility_chance(e) == 0 implies (
            #[trigger] self@.store[e as int]) == w.store[e as int] by {
                lemma_fertilised_each(w, women@, drawn@, e);
            }
        }
    }
}

/// `f` has come from `w` by the fertility system alone: nothing has
/// changed but that some women who could become fertile are fertile.
pub open spec fn only_fertilised(w: WorldView, f: WorldView) -> bool {
    &&& f.same_frame(w)
    &&& f.parents == w.parents
    &&& f.children == w.children
    &&& f.residents == w.residents
    &&& f.store.len() == w.store.len()
    &&& forall|e: usize|
        e < w.store.len() ==> #[trigger] f.store[e as int] == w.store[e as int] || (
        w.may_turn_fertile(e) && f.store[e as int] == (Components {
            fertile: Fertile(true),
            ..w.store[e as int]
        }))
}

/// What the fertility system leaves behind, whatever was drawn: a
/// well-formed world that has come from the old one by the fertility
/// system alone.
pub proof fn lemma_fertilised(w: WorldView, women: Seq<usize>, drawn: Seq<bool>)
    requires
        w.wf(),
    ensures
        w.fertilised(women, drawn).wf(),
        only_fertilised(w, w.fertilised(women, drawn)),
    decreases women.len(),
{
    if women.len() > 0 {
        let before = w.fertilised(women.drop_last(), drawn);
        lemma_fertilised(w, women.drop_last(), drawn);
        if drawn_at(drawn, women.len() - 1) {
            before.lemma_turned_fertile_wf(women.last());
        }
    }
}

/// The fertility system entity by entity: a woman is fertile afterwards
/// who was picked and could become fertile, and everybody else is as
/// before.
pub proof fn lemma_fertilised_each(w: WorldView, women: Seq<usize>, drawn: Seq<bool>, e: usize)
    requires
        w.wf(),
        e < w.store.len(),
    ensures
        w.fertilised(women, drawn).store[e as int] == if picked(women, drawn, e)
            && w.may_turn_fertile(e) {
            Components { fertile: Fertile(true), ..w.store[e as int] }
        } else {
            w.store[e as int]
        },
    decreases women.len(),
{
    lemma_fertilised(w, women, drawn);
    if women.len() > 0 {
        lemma_fertilised(w, women.drop_last(), drawn);
        lemma_fertilised_each(w, women.drop_last(), drawn, e);
        lemma_picked_step(women, drawn, e);
    }
}

} // verus!
