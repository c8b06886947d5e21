//! Read-only figures for reports: head counts and the mean age.

use crate::model::WorldView;
use crate::seqs::{ids, lemma_filter_none, lemma_filter_step};
use crate::world::{get_age, World};
use vstd::prelude::*;

verus! {

/// What a head count counts.
#[derive(Clone, Copy)]
pub enum Census {
    /// Entities that are alive.
    Living,
    /// Living humans.
    Humans,
    /// Living men.
    Men,
    /// Living women.
    Women,
    /// Pairs of mates: the men with a mate.
    Couples,
    /// Pregnant women.
    Pregnant,
}

impl WorldView {
    /// `e` is counted in a head count of `kind`.
    pub open spec fn counts_as(self, e: usize, kind: Census) -> bool {
        let c = self.store[e as int];
        self.issued(e) && match kind {
            Census::Living => c.life.0,
            Census::Humans => c.life.0 && c.human.0,
            Census::Men => c.life.0 && c.human.0 && c.male.0,
            Census::Women => c.life.0 && c.human.0 && c.female.0,
            Census::Couples => c.male.0 && c.mate.is_some(),
            Census::Pregnant => c.pregnant.is_some(),
        }
    }

    /// `counts_as`, as a predicate for a filter.
    pub open spec fn census_pred(self, kind: Census) -> spec_fn(usize) -> bool {
        |e: usize| self.counts_as(e, kind)
    }

    /// The number of entities that a head count of `kind` counts.
    pub open spec fn census(self, kind: Census) -> nat {
        ids(self.store.len()).filter(self.census_pred(kind)).len()
    }

    /// The sum of the ages in days of the living humans among the first
    /// `n` entries of the store. A human without a birth day counts with
    /// an age of zero.
    pub open spec fn age_sum(self, n: nat) -> int
        decreases n,
    {
        if n == 0 {
            0
        } else {
            let e = (n - 1) as usize;
            self.age_sum((n - 1) as nat) + if self.counts_as(e, Census::Humans) {
                self.age(e)
            } else {
                0
            }
        }
    }

    /// The mean age of the living humans in whole days, or zero where
    /// there is none.
    pub open spec fn mean_age(self) -> int {
        if self.census(Census::Humans) > 0 {
            self.age_sum(self.store.len()) / (self.census(Census::Humans) as int)
        } else {
            0
        }
    }
}

impl World {
    fn counts_as(&self, e: usize, kind: Census) -> (b: bool)
        requires
            e < self.store.len(),
        ensures
            b == self@.counts_as(e, kind),
    {
        let c = self.store[e];
        e >= 1 && match kind {
            Census::Living => c.life.0,
            Census::Humans => c.life.0 && c.human.0,
            Census::Men => c.life.0 && c.human.0 && c.male.0,
            Census::Women => c.life.0 && c.human.0 && c.female.0,
            Census::Couples => c.male.0 && c.mate.is_some(),
            Census::Pregnant => c.pregnant.is_some(),
        }
    }

    /// The number of entities that a head count of `kind` counts.
    pub fn census(&self, kind: Census) -> (n: usize)
        ensures
            n == self@.census(kind),
    {
        let mut n: usize = 0;
        let mut index: usize = 0;
        let ghost all = ids(self@.store.len());
        proof {
            lemma_filter_none(all, self@.census_pred(kind));
        }
        while index < self.store.len()
            invariant
                index <= self.store.len(),
                n <= index,
                all == ids(self@.store.len()),
                n == all.take(index as int).filter(self@.census_pred(kind)).len(),
            decreases self.store.len() - index,
        {
            proof {
                lemma_filter_step(all, self@.census_pred(kind), index as int);
            }
            if self.counts_as(index, kind) {
                n += 1;
            }
            index += 1;
        }
        n
    }

    /// The mean age of the living humans in whole days, or zero where
    /// there is none.
    pub fn average_human_age(&self) -> (mean: u64)
        requires
            self.wf(),
        ensures
            mean == self@.mean_age(),
    {
        let today = self.day;
        let human_count = self.census(Census::Humans);
        let mut total_age: u128 = 0;
        let mut seen: u128 = 0;
        let mut index: usize = 0;
        let ghost all = ids(self@.store.len());
        proof {
            lemma_filter_none(all, self@.census_pred(Census::Humans));
        }
        while index < self.store.len()
            invariant
                self.wf(),
                today == self.day,
                index <= self.store.len(),
                all == ids(self@.store.len()),
                seen <= index,
                seen == all.take(index as int).filter(self@.census_pred(Census::Humans)).len(),
                total_age == self@.age_sum(index as nat),
                total_age <= seen * 0xffff_ffff_ffff_ffff,
            decreases self.store.len() - index,
        {
            proof {
                lemma_filter_step(all, self@.census_pred(Census::Humans), index as int);
            }
            if self.counts_as(index, Census::Humans) {
                let age: u64 = match self.store[index].spawn_date {
                    Some(d) => {
                        assert(self@.record_ok(index));
                        get_age(today, d.0)
                    },
                    None => 0,
                };
                total_age = total_age + age as u128;
                seen = seen + 1;
            }
            index += 1;
        }
        if human_count > 0 {
            assert(total_age / (human_count as u128) <= 0xffff_ffff_ffff_ffff) by (nonlinear_arith)
                requires
                    human_count > 0,
                    total_age <= human_count * 0xffff_ffff_ffff_ffff,
            ;
            (total_age / human_count as u128) as u64
        } else {
            0
        }
    }
}

} // verus!
