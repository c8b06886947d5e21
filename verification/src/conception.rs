//! The conception system: which women may conceive, and what the draws do
//! to the world.

use crate::components::{Components, Fertile, Pregnant};
use crate::model::WorldView;
use crate::params::{GESTATION_MAX, GESTATION_MIN, PPM};
use crate::random::{chance, draw_gestation};
use crate::seqs::{ids, lemma_filter_members, lemma_filter_none, lemma_filter_step};
use crate::world::World;
use vstd::prelude::*;

verus! {

/// The length of the pregnancy drawn for the woman at index `i`, or none
/// where she did not conceive or `gestations` is too short.
pub open spec fn gestation_at(gestations: Seq<Option<u32>>, i: int) -> Option<u32> {
    if 0 <= i < gestations.len() {
        gestations[i]
    } else {
        None
    }
}

/// `gestations` holds what the draws of a day can give for `n` women who
/// each conceive with the chance `ppm`: one entry each, which is a length
/// that a pregnancy can have, none at all for a chance of zero, and a
/// length for every woman for a chance of one.
pub open spec fn gestations_ok(gestations: Seq<Option<u32>>, n: nat, ppm: u32) -> bool {
    &&& gestations.len() == n
    &&& forall|i: int|
        0 <= i < n ==> match #[trigger] gestations[i] {
            Some(days) => GESTATION_MIN <= days <= GESTATION_MAX && ppm > 0,
            None => ppm < PPM,
        }
}

impl WorldView {
    /// `e` may conceive: a living, fertile woman with a mate and a place,
    /// who is not pregnant.
    pub open spec fn may_conceive(self, e: usize) -> bool {
        &&& self.issued(e)
        &&& self.store[e as int].life.0
        &&& self.store[e as int].human.0
        &&& self.store[e as int].female.0
        &&& self.store[e as int].fertile.0
        &&& self.store[e as int].mate.is_some()
        &&& self.store[e as int].pregnant.is_none()
        &&& self.store[e as int].position.is_some()
    }

    /// `may_conceive`, as a predicate for a filter.
    pub open spec fn conception_pred(self) -> spec_fn(usize) -> bool {
        |e: usize| self.may_conceive(e)
    }

    /// The women who may conceive today, by identifier.
    pub open spec fn conception_candidates(self) -> Seq<usize> {
        ids(self.store.len()).filter(self.conception_pred())
    }

    /// The world after `e` conceived a child that is due in `days` days,
    /// if she may conceive and a pregnancy can last so long. She is then
    /// pregnant and no longer fertile.
    pub open spec fn conceived(self, e: usize, days: u32) -> WorldView {
        if self.may_conceive(e) && GESTATION_MIN <= days <= GESTATION_MAX {
            self.with_record(
                e,
                Components {
                    pregnant: Some(Pregnant((self.day + days) as i64)),
                    fertile: Fertile(false),
                    ..self.store[e as int]
                },
            )
        } else {
            self
        }
    }

    /// The world after those of `women` conceived for whom `gestations`
    /// holds the length of a pregnancy.
    pub open spec fn conceptions(self, women: Seq<usize>, gestations: Seq<Option<u32>>) -> WorldView
        decreases women.len(),
    {
        if women.len() == 0 {
            self
        } else {
            let before = self.conceptions(women.drop_last(), gestations);
            match gestation_at(gestations, women.len() - 1) {
                Some(days) => before.conceived(women.last(), days),
                None => before,
            }
        }
    }

    /// A conception keeps the world well formed.
    pub proof fn lemma_conceived_wf(self, e: usize, days: u32)
        requires
            self.wf(),
        ensures
            self.conceived(e, days).wf(),
    {
        if self.may_conceive(e) && GESTATION_MIN <= days <= GESTATION_MAX {
            assert(self.record_ok(e));
            self.lemma_with_record_wf(
                e,
                Components {
                    pregnant: Some(Pregnant((self.day + days) as i64)),
                    fertile: Fertile(false),
                    ..self.store[e as int]
                },
            );
        }
    }
}

impl World {
    fn may_conceive(&self, e: usize) -> (b: bool)
        ensures
            b == self@.may_conceive(e),
    {
        if e >= 1 && e < self.store.len() {
            let c = self.store[e];
            c.life.0 && c.human.0 && c.female.0 && c.fertile.0 && c.mate.is_some()
                && c.pregnant.is_none() && c.position.is_some()
        } else {
            false
        }
    }

    /// The women who may conceive today, by identifier.
    pub fn conception_candidates(&self) -> (out: Vec<usize>)
        ensures
            out@ == self@.conception_candidates(),
    {
        let mut out: Vec<usize> = Vec::new();
        let mut index: usize = 0;
        let ghost all = ids(self@.store.len());
        proof {
            lemma_filter_none(all, self@.conception_pred());
        }
        while index < self.store.len()
            invariant
                index <= self.store.len(),
                all == ids(self@.store.len()),
                out@ == all.take(index as int).filter(self@.conception_pred()),
            decreases self.store.len() - index,
        {
            proof {
                lemma_filter_step(all, self@.conception_pred(), index as int);
            }
            if self.may_conceive(index) {
                out.push(index);
            }
            index += 1;
        }
        out
    }

    /// Makes `entity` pregnant with a child that is due in `days` days, if
    /// she may conceive and a pregnancy can last so long, and says whether
    /// it did.
    pub fn conceive(&mut self, entity: usize, days: u32) -> (done: bool)
        requires
            old(self).wf(),
        ensures
            done == (old(self)@.may_conceive(entity) && GESTATION_MIN <= days <= GESTATION_MAX),
            final(self)@ == old(self)@.conceived(entity, days),
            final(self).wf(),
    {
        if !self.may_conceive(entity) || days < GESTATION_MIN || days > GESTATION_MAX {
            return false;
        }
        let c = self.store[entity];
        let due: i64 = self.day + days as i64;
        self.store[entity] = Components {
            pregnant: Some(Pregnant(due)),
            fertile: Fertile(false),
            ..c
        };
        proof {
            old(self)@.lemma_conceived_wf(entity, days);
        }
        true
    }

    /// Makes those of `women` pregnant for whom `gestations` holds the
    /// length of a pregnancy.
    pub fn apply_conceptions(&mut self, women: &Vec<usize>, gestations: &Vec<Option<u32>>)
        requires
            old(self).wf(),
        ensures
            final(self)@ == old(self)@.conceptions(women@, gestations@),
            final(self).wf(),
    {
        let mut i: usize = 0;
        while i < women.len()
            invariant
                self.wf(),
                i <= women.len(),
                self@ == old(self)@.conceptions(women@.take(i as int), gestations@),
            decreases women.len() - i,
        {
            proof {
                assert(women@.take(i as int + 1).drop_last() =~= women@.take(i as int));
            }
            if i < gestations.len() {
                match gestations[i] {
                    Some(days) => {
                        self.conceive(women[i], days);
                    },
                    None => {},
                }
            }
            i += 1;
        }
        assert(women@.take(women@.len() as int) =~= women@);
    }

    /// The conception system. Each living, fertile woman with a mate who is
    /// not pregnant conceives with the chance for a conception; her child
    /// is then due after a pregnancy of random length.
    pub fn conception_system(&mut self)
        requires
            old(self).wf(),
        ensures
            final(self).wf(),
            exists|gestations: Seq<Option<u32>>|
                gestations_ok(
                    gestations,
                    old(self)@.conception_candidates().len(),
                    old(self)@.params.conception,
                ) && final(self)@ == #[trigger] old(self)@.conceptions(
                    old(self)@.conception_candidates(),
                    gestations,
                ),
            only_conceived(old(self)@, final(self)@),
            old(self)@.params.conception == 0 ==> final(self)@ == old(self)@,
            old(self)@.params.conception >= PPM ==> forall|e: usize|
                old(self)@.may_conceive(e) ==> (
                #[trigger] final(self)@.store[e as int]).pregnant.is_some(),
    {
        let mut rng = rand::thread_rng();
        let women = self.conception_candidates();
        let mut gestations: Vec<Option<u32>> = Vec::new();
        let mut i: usize = 0;
        while i < women.len()
            invariant
                self@ == old(self)@,
                i <= women.len(),
                gestations_ok(gestations@, i as nat, self@.params.conception),
            decreases women.len() - i,
        {
            if chance(&mut rng, self.params.conception) {
                let days = draw_gestation(&mut rng);
                gestations.push(Some(days));
            } else {
                gestations.push(None);
            }
            i += 1;
        }
        self.apply_conceptions(&women, &gestations);
        proof {
            let w = old(self)@;
            lemma_conceptions(w, women@, gestations@);
            if w.params.conception == 0 {
                lemma_conceptions_none(w, women@, gestations@);
            }
            if w.params.conception >= PPM {
                lemma_filter_members(ids(w.store.len()), w.conception_pred());
                assert forall|e: usize| w.may_conceive(e) implies (
                #[trigger] self@.store[e as int]).pregnant.is_some() by {
                    assert(ids(w.store.len())[e as int] == e);
                    let i = choose|i: int| 0 <= i < women@.len() && women@[i] == e;
                    lemma_conceptions_each(w, women@, gestations@, i);
                }
            }
        }
    }
}

/// `c` has come from `w` by conceptions alone: nothing has changed but
/// that some women who could conceive are pregnant and no longer fertile,
/// each with a child due after today, within the span that a pregnancy can
/// last.
pub open spec fn only_conceived(w: WorldView, c: WorldView) -> bool {
    &&& c.same_frame(w)
    &&& c.parents == w.parents
    &&& c.children == w.children
    &&& c.residents == w.residents
    &&& c.store.len() == w.store.len()
    &&& forall|e: usize|
        e < w.store.len() ==> #[trigger] c.store[e as int] == w.store[e as int] || {
            &&& w.may_conceive(e)
            &&& c.store[e as int].pregnant matches Some(p) && w.day + GESTATION_MIN <= p.0 <= w.day
                + GESTATION_MAX
            &&& c.store[e as int] == (Components {
                pregnant: c.store[e as int].pregnant,
                fertile: Fertile(false),
                ..w.store[e as int]
            })
        }
}

/// What the conception system leaves behind, whatever was drawn: a
/// well-formed world that has come from the old one by conceptions alone.
pub proof fn lemma_conceptions(w: WorldView, women: Seq<usize>, gestations: Seq<Option<u32>>)
    requires
        w.wf(),
    ensures
        w.conceptions(women, gestations).wf(),
        only_conceived(w, w.conceptions(women, gestations)),
    decreases women.len(),
{
    if women.len() > 0 {
        let before = w.conceptions(women.drop_last(), gestations);
        lemma_conceptions(w, women.drop_last(), gestations);
        match gestation_at(gestations, women.len() - 1) {
            Some(days) => {
                before.lemma_conceived_wf(women.last(), days);
            },
            None => {},
        }
    }
}

/// Where nobody conceives, the conception system changes nothing.
pub proof fn lemma_conceptions_none(w: WorldView, women: Seq<usize>, gestations: Seq<Option<u32>>)
    requires
        forall|i: int| 0 <= i < women.len() ==> gestation_at(gestations, i).is_none(),
    ensures
        w.conceptions(women, gestations) == w,
    decreases women.len(),
{
    if women.len() > 0 {
        lemma_conceptions_none(w, women.drop_last(), gestations);
    }
}

/// The conception system leaves alone whoever is not among the women.
pub proof fn lemma_conceptions_others(
    w: WorldView,
    women: Seq<usize>,
    gestations: Seq<Option<u32>>,
    e: usize,
)
    requires
        w.wf(),
        e < w.store.len(),
        !women.contains(e),
    ensures
        w.conceptions(women, gestations).store[e as int] == w.store[e as int],
    decreases women.len(),
{
    lemma_conceptions(w, women, gestations);
    if women.len() > 0 {
        let front = women.drop_last();
        lemma_conceptions(w, front, gestations);
        lemma_conceptions_others(w, front, gestations, e);
    }
}

/// The conception system woman by woman, where each is named once: she is
/// afterwards as if she alone had conceived with the length drawn for her,
/// or as before where none was drawn.
pub proof fn lemma_conceptions_each(
    w: WorldView,
    women: Seq<usize>,
    gestations: Seq<Option<u32>>,
    i: int,
)
    requires
        w.wf(),
        women.no_duplicates(),
        0 <= i < women.len(),
        women[i] < w.store.len(),
    ensures
        w.conceptions(women, gestations).store[women[i] as int] == match gestation_at(
            gestations,
            i,
        ) {
            Some(days) => w.conceived(women[i], days).store[women[i] as int],
            None => w.store[women[i] as int],
        },
    decreases women.len(),
{
    let front = women.drop_last();
    let last = women.len() - 1;
    let e = women[i];
    lemma_conceptions(w, front, gestations);
    if i < last {
        lemma_conceptions_each(w, front, gestations, i);
    } else {
        lemma_conceptions_others(w, front, gestations, e);
    }
}

} // verus!
