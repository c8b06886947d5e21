//! The day: the systems in their fixed order.

use crate::conception::gestations_ok;
use crate::matchmaker::draws_ok;
use crate::model::WorldView;
use crate::movement::bounties_ok;
use crate::params::LAST_DAY;
use crate::seqs::drawn_with;
use crate::world::World;
use vstd::prelude::*;

verus! {

/// What chance decides in the course of one day, system by system.
pub struct DayDraws {
    /// For each candidate pair of the matchmaker, whether it is accepted.
    pub accepted: Seq<bool>,
    /// For each candidate of the fertility system, whether she becomes
    /// fertile.
    pub fertile: Seq<bool>,
    /// For each candidate of the conception system, the length of her
    /// pregnancy if she conceives.
    pub gestations: Seq<Option<u32>>,
    /// For each child that is born, whether it is a boy.
    pub boys: Seq<bool>,
    /// For each human at risk, whether it dies.
    pub deaths: Seq<bool>,
    /// For each mover, the cell it sets out to, if it does.
    pub targets: Seq<Option<(usize, usize)>>,
    /// For each move, the yield of the forage patch that appears if the
    /// move leaves a cell empty.
    pub bounties: Seq<u8>,
}

impl WorldView {
    /// The world of the next day after the matchmaker has run.
    pub open spec fn after_matchmaker(self, draws: DayDraws) -> WorldView {
        let t = self.next_day();
        t.matched(t.match_candidates(), draws.accepted)
    }

    /// The world of the next day after the fertility system has run.
    pub open spec fn after_fertility(self, draws: DayDraws) -> WorldView {
        let m = self.after_matchmaker(draws);
        m.fertilised(m.fertility_candidates(), draws.fertile)
    }

    /// The world of the next day after the conception system has run.
    pub open spec fn after_conception(self, draws: DayDraws) -> WorldView {
        let f = self.after_fertility(draws);
        f.conceptions(f.conception_candidates(), draws.gestations)
    }

    /// The world of the next day after the birth system has run.
    pub open spec fn after_birth(self, draws: DayDraws) -> WorldView {
        let c = self.after_conception(draws);
        c.born(c.expecting(), draws.boys)
    }

    /// The world of the next day after the death system has run.
    pub open spec fn after_death(self, draws: DayDraws) -> WorldView {
        let b = self.after_birth(draws);
        b.perished(b.death_candidates(), draws.deaths)
    }

    /// The world at the end of the next day: the clock has advanced, and the
    /// matchmaker, the fertility, conception, birth and death systems and
    /// the movement system have run in this order, each on the world as the
    /// one before left it.
    pub open spec fn after_day(self, draws: DayDraws) -> WorldView {
        let d = self.after_death(draws);
        d.moved(d.planned(d.movers(), draws.targets), draws.bounties)
    }

    /// `draws` holds what chance can decide in the course of the next day,
    /// where `hazard` holds the hazard of death for each whole year of age:
    /// for each system what its own draws can give on the world as the
    /// system before left it.
    pub open spec fn day_draws_ok(self, hazard: Seq<i64>, draws: DayDraws) -> bool {
        let t = self.next_day();
        let m = self.after_matchmaker(draws);
        let f = self.after_fertility(draws);
        let c = self.after_conception(draws);
        let b = self.after_birth(draws);
        let d = self.after_death(draws);
        &&& draws_ok(draws.accepted, t.match_candidates().len(), t.params.pairing)
        &&& drawn_with(draws.fertile, m.fertility_chances())
        &&& gestations_ok(draws.gestations, f.conception_candidates().len(), f.params.conception)
        &&& draws.boys.len() == c.expecting().len()
        &&& drawn_with(draws.deaths, b.death_chances(hazard))
        &&& d.targets_ok(draws.targets)
        &&& bounties_ok(draws.bounties)
    }
}

impl World {
    /// Lets one day pass: the clock advances, then the matchmaker, the
    /// fertility, conception, birth and death systems and the movement
    /// system run, in this order, each on the world as the one before left
    /// it. `hazard` holds the hazard of death for each whole year of age in
    /// parts per million.
    ///
    /// The world at the end of the day is the one that the draws of the
    /// day give. Whatever they are, the world stays well formed, it is one
    /// day later on the same grid with the same parameters, and no
    /// identifier is lost.
    pub fn tick(&mut self, hazard: &Vec<i64>)
        requires
            old(self).wf(),
            old(self).day < LAST_DAY,
        ensures
            final(self).wf(),
            exists|draws: DayDraws|
                old(self)@.day_draws_ok(hazard@, draws) && final(self)@
                    == #[trigger] old(self)@.after_day(draws),
            final(self)@.day == old(self)@.day + 1,
            final(self)@.width == old(self)@.width,
            final(self)@.height == old(self)@.height,
            final(self)@.params == old(self)@.params,
            final(self)@.store.len() >= old(self)@.store.len(),
    {
        self.time_system();
        let ghost t = self@;
        self.matchmaker_system();
        let ghost m = self@;
        self.fertility_system();
        let ghost f = self@;
        self.conception_system();
        let ghost c = self@;
        self.birth_system();
        let ghost b = self@;
        self.death_system(hazard);
        let ghost d = self@;
        self.move_system();
        proof {
            let accepted = choose|accepted: Seq<bool>|
                draws_ok(accepted, t.match_candidates().len(), t.params.pairing) && m
                    == #[trigger] t.matched(t.match_candidates(), accepted);
            let fertile = choose|drawn: Seq<bool>|
                drawn_with(drawn, m.fertility_chances()) && f == #[trigger] m.fertilised(
                    m.fertility_candidates(),
                    drawn,
                );
            let gestations = choose|gestations: Seq<Option<u32>>|
                gestations_ok(gestations, f.conception_candidates().len(), f.params.conception)
                    && c == #[trigger] f.conceptions(f.conception_candidates(), gestations);
            let boys = choose|boys: Seq<bool>|
                boys.len() == c.expecting().len() && b == #[trigger] c.born(c.expecting(), boys);
            let deaths = choose|drawn: Seq<bool>|
                drawn_with(drawn, b.death_chances(hazard@)) && d == #[trigger] b.perished(
                    b.death_candidates(),
                    drawn,
                );
            let (targets, bounties) = choose|targets: Seq<Option<(usize, usize)>>, bounties: Seq<u8>|
                d.targets_ok(targets) && bounties_ok(bounties) && self@ == #[trigger] d.moved(
                    d.planned(d.movers(), targets),
                    bounties,
                );
            let draws = DayDraws { accepted, fertile, gestations, boys, deaths, targets, bounties };
            assert(old(self)@.after_matchmaker(draws) == m);
            assert(old(self)@.after_fertility(draws) == f);
            assert(old(self)@.after_conception(draws) == c);
            assert(old(self)@.after_birth(draws) == b);
            assert(old(self)@.after_death(draws) == d);
            assert(old(self)@.after_day(draws) == self@);
            assert(old(self)@.day_draws_ok(hazard@, draws));
        }
    }
}

} // verus!
