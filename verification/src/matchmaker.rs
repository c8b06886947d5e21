//! The matchmaker system: which pairs may form in each cell, and what
//! accepting some of them does to the world.

use crate::components::Components;
use crate::model::WorldView;
use crate::params::{MARRIAGE_AGE, PPM};
use crate::random::chance;
use crate::seqs::{drawn_at, lemma_filter_members, lemma_filter_none, lemma_filter_step};
use crate::world::{get_age, World};
use vstd::prelude::*;

verus! {

/// `drawn` holds what draws with the chance `ppm` can give for `n` events:
/// one entry each, all false for a chance of zero and all true for a chance
/// of one.
pub open spec fn draws_ok(drawn: Seq<bool>, n: nat, ppm: u32) -> bool {
    &&& drawn.len() == n
    &&& ppm == 0 ==> forall|i: int| 0 <= i < n ==> !#[trigger] drawn[i]
    &&& ppm >= PPM ==> forall|i: int| 0 <= i < n ==> #[trigger] drawn[i]
}

impl WorldView {
    /// `e` may be paired: a living human of marriageable age without a
    /// mate.
    pub open spec fn marriageable(self, e: usize) -> bool {
        &&& e < self.store.len()
        &&& self.store[e as int].life.0
        &&& self.store[e as int].human.0
        &&& self.store[e as int].mate.is_none()
        &&& self.store[e as int].spawn_date.is_some()
        &&& self.age(e) >= MARRIAGE_AGE
    }

    /// `e` is a man who may be paired.
    pub open spec fn bachelor(self, e: usize) -> bool {
        self.marriageable(e) && self.store[e as int].male.0
    }

    /// `e` is a woman who may be paired.
    pub open spec fn spinster(self, e: usize) -> bool {
        self.marriageable(e) && self.store[e as int].female.0
    }

    /// `bachelor`, as a predicate for a filter.
    pub open spec fn bachelor_pred(self) -> spec_fn(usize) -> bool {
        |e: usize| self.bachelor(e)
    }

    /// `spinster`, as a predicate for a filter.
    pub open spec fn spinster_pred(self) -> spec_fn(usize) -> bool {
        |e: usize| self.spinster(e)
    }

    /// The bachelors of `cell`, in the order of its residents.
    pub open spec fn bachelors_in(self, cell: usize) -> Seq<usize> {
        self.residents[cell as int].filter(self.bachelor_pred())
    }

    /// The spinsters of `cell`, in the order of its residents.
    pub open spec fn spinsters_in(self, cell: usize) -> Seq<usize> {
        self.residents[cell as int].filter(self.spinster_pred())
    }

    /// The candidate pairs of `cell`: its bachelors and spinsters side by
    /// side, as far as the shorter list goes. The man comes first.
    pub open spec fn pairs_in(self, cell: usize) -> Seq<(usize, usize)> {
        let men = self.bachelors_in(cell);
        let women = self.spinsters_in(cell);
        Seq::new(
            if men.len() <= women.len() {
                men.len()
            } else {
                women.len()
            },
            |i: int| (men[i], women[i]),
        )
    }

    /// The candidate pairs of the first `n` cells.
    pub open spec fn pairs_upto(self, n: nat) -> Seq<(usize, usize)>
        decreases n,
    {
        if n == 0 {
            Seq::empty()
        } else {
            self.pairs_upto((n - 1) as nat) + self.pairs_in(n as usize)
        }
    }

    /// The candidate pairs of the day, cell by cell.
    pub open spec fn match_candidates(self) -> Seq<(usize, usize)> {
        self.pairs_upto(self.cells())
    }

    /// `a` and `b` may become mates: a bachelor and a spinster of one cell.
    pub open spec fn can_pair(self, a: usize, b: usize) -> bool {
        &&& self.bachelor(a)
        &&& self.spinster(b)
        &&& self.store[a as int].position.is_some()
        &&& self.store[a as int].position == self.store[b as int].position
    }

    /// The world after `a` and `b` became mates, if they may.
    pub open spec fn paired(self, a: usize, b: usize) -> WorldView {
        if self.can_pair(a, b) {
            WorldView {
                store: self.store.update(
                    a as int,
                    Components { mate: Some(b), ..self.store[a as int] },
                ).update(b as int, Components { mate: Some(a), ..self.store[b as int] }),
                ..self
            }
        } else {
            self
        }
    }

    /// The world after the accepted ones among `pairs` became mates, one
    /// pair after the other.
    pub open spec fn matched(self, pairs: Seq<(usize, usize)>, accepted: Seq<bool>) -> WorldView
        decreases pairs.len(),
    {
        if pairs.len() == 0 {
            self
        } else {
            let before = self.matched(pairs.drop_last(), accepted);
            if drawn_at(accepted, pairs.len() - 1) {
                before.paired(pairs.last().0, pairs.last().1)
            } else {
                before
            }
        }
    }

    /// A new pair keeps the world well formed.
    pub proof fn lemma_paired_wf(self, a: usize, b: usize)
        requires
            self.wf(),
        ensures
            self.paired(a, b).wf(),
    {
        if self.can_pair(a, b) {
            let w = self.paired(a, b);
            self.lemma_lineage_kept(w);
            assert(self.record_ok(a));
            assert forall|cell: usize| cell < w.residents.len() implies #[trigger] w.bucket_ok(
                cell,
            ) by {
                assert(self.bucket_ok(cell));
            }
            assert forall|e: usize| e < w.store.len() implies #[trigger] w.placed_ok(e) by {
                assert(self.placed_ok(e));
            }
            assert forall|e: usize| e < w.store.len() implies #[trigger] w.record_ok(e) by {
                assert(self.record_ok(e));
            }
            assert forall|e: usize| e < w.store.len() implies #[trigger] w.mate_ok(e) by {
                assert(self.mate_ok(e));
            }
        }
    }
}

impl World {
    fn is_marriageable(&self, e: usize) -> (b: bool)
        requires
            self.wf(),
        ensures
            b == self@.marriageable(e),
    {
        if e < self.store.len() && self.store[e].life.0 && self.store[e].human.0
            && self.store[e].mate.is_none() {
            match self.store[e].spawn_date {
                Some(d) => {
                    assert(self@.record_ok(e));
                    get_age(self.day, d.0) >= MARRIAGE_AGE as u64
                },
                None => false,
            }
        } else {
            false
        }
    }

    /// The candidate pairs of the day: in each cell the bachelors and the
    /// spinsters side by side, the man first.
    pub fn match_candidates(&self) -> (out: Vec<(usize, usize)>)
        requires
            self.wf(),
        ensures
            out@ == self@.match_candidates(),
    {
        let mut out: Vec<(usize, usize)> = Vec::new();
        let mut cell: usize = 1;
        while cell < self.residents.len()
            invariant
                self.wf(),
                1 <= cell <= self.residents.len(),
                out@ == self@.pairs_upto((cell - 1) as nat),
            decreases self.residents.len() - cell,
        {
            let residents = &self.residents[cell];
            let mut bachelors: Vec<usize> = Vec::new();
            let mut spinsters: Vec<usize> = Vec::new();
            let mut i: usize = 0;
            proof {
                lemma_filter_none(residents@, self@.bachelor_pred());
                lemma_filter_none(residents@, self@.spinster_pred());
            }
            while i < residents.len()
                invariant
                    self.wf(),
                    cell < self.residents.len(),
                    i <= residents.len(),
                    residents@ == self@.residents[cell as int],
                    bachelors@ == residents@.take(i as int).filter(self@.bachelor_pred()),
                    spinsters@ == residents@.take(i as int).filter(self@.spinster_pred()),
                decreases residents.len() - i,
            {
                let entity = residents[i];
                proof {
                    lemma_filter_step(residents@, self@.bachelor_pred(), i as int);
                    lemma_filter_step(residents@, self@.spinster_pred(), i as int);
                }
                if self.is_marriageable(entity) {
                    if self.store[entity].male.0 {
                        bachelors.push(entity);
                    }
                    if self.store[entity].female.0 {
                        spinsters.push(entity);
                    }
                }
                i += 1;
            }
            let ghost before = out@;
            let mut k: usize = 0;
            while k < bachelors.len() && k < spinsters.len()
                invariant
                    cell < self.residents.len(),
                    k <= bachelors.len(),
                    k <= spinsters.len(),
                    bachelors@ == self@.bachelors_in(cell),
                    spinsters@ == self@.spinsters_in(cell),
                    out@ == before + self@.pairs_in(cell).take(k as int),
                decreases bachelors.len() - k,
            {
                out.push((bachelors[k], spinsters[k]));
                k += 1;
            }
            cell += 1;
        }
        out
    }

    /// Makes `a` and `b` mates, if they may become mates, and says whether
    /// it did.
    pub fn pair_up(&mut self, a: usize, b: usize) -> (done: bool)
        requires
            old(self).wf(),
        ensures
            done == old(self)@.can_pair(a, b),
            final(self)@ == old(self)@.paired(a, b),
            final(self).wf(),
    {
        if !self.is_marriageable(a) || !self.is_marriageable(b) {
            return false;
        }
        let man = self.store[a];
        let woman = self.store[b];
        if !man.male.0 || !woman.female.0 {
            return false;
        }
        let together = match (man.position, woman.position) {
            (Some(p), Some(q)) => p.0 == q.0,
            _ => false,
        };
        if !together {
            return false;
        }
        self.store[a] = Components { mate: Some(b), ..man };
        self.store[b] = Components { mate: Some(a), ..woman };
        proof {
            old(self)@.lemma_paired_wf(a, b);
        }
        true
    }

    /// Makes mates of the accepted ones among `pairs`, one pair after the
    /// other. A pair that may not become mates when its turn comes is left
    /// out.
    pub fn apply_matches(&mut self, pairs: &Vec<(usize, usize)>, accepted: &Vec<bool>)
        requires
            old(self).wf(),
        ensures
            final(self)@ == old(self)@.matched(pairs@, accepted@),
            final(self).wf(),
    {
        let mut i: usize = 0;
        while i < pairs.len()
            invariant
                self.wf(),
                i <= pairs.len(),
                self@ == old(self)@.matched(pairs@.take(i as int), accepted@),
            decreases pairs.len() - i,
        {
            proof {
                assert(pairs@.take(i as int + 1).drop_last() =~= pairs@.take(i as int));
            }
            if i < accepted.len() && accepted[i] {
                let (a, b) = pairs[i];
                self.pair_up(a, b);
            }
            i += 1;
        }
        assert(pairs@.take(pairs@.len() as int) =~= pairs@);
    }

    /// The matchmaker system. In each cell the bachelors and the spinsters
    /// are set side by side, and each pair becomes mates with the chance
    /// for a pairing.
    pub fn matchmaker_system(&mut self)
        requires
            old(self).wf(),
        ensures
            final(self).wf(),
            exists|accepted: Seq<bool>|
                draws_ok(
                    accepted,
                    old(self)@.match_candidates().len(),
                    old(self)@.params.pairing,
                ) && final(self)@ == #[trigger] old(self)@.matched(
                    old(self)@.match_candidates(),
                    accepted,
                ),
            only_paired(old(self)@, final(self)@),
            old(self)@.params.pairing == 0 ==> final(self)@ == old(self)@,
            old(self)@.params.pairing >= PPM ==> forall|i: int|
                0 <= i < old(self)@.match_candidates().len() ==> mates_in(
                    old(self)@,
                    final(self)@,
                    #[trigger] old(self)@.match_candidates()[i],
                ),
    {
        let mut rng = rand::thread_rng();
        let pairs = self.match_candidates();
        let mut accepted: Vec<bool> = Vec::new();
        let mut i: usize = 0;
        while i < pairs.len()
            invariant
                i <= pairs.len(),
                self@ == old(self)@,
                draws_ok(accepted@, i as nat, self@.params.pairing),
            decreases pairs.len() - i,
        {
            let hit = chance(&mut rng, self.params.pairing);
            accepted.push(hit);
            i += 1;
        }
        self.apply_matches(&pairs, &accepted);
        proof {
            lemma_matched(old(self)@, pairs@, accepted@);
            lemma_candidates_sound(old(self)@);
            if old(self)@.params.pairing == 0 {
                lemma_matched_none(old(self)@, pairs@, accepted@);
            }
            if old(self)@.params.pairing >= PPM {
                assert forall|i: int| 0 <= i < pairs@.len() implies mates_in(
                    old(self)@,
                    self@,
                    #[trigger] pairs@[i],
                ) by {
                    lemma_matched_each(old(self)@, pairs@, accepted@, i);
                }
            }
        }
    }
}

/// `m` has come from `w` by pairings alone: nothing but mate links has
/// changed, no link that existed is broken, and every new link joins two
/// who were marriageable and stood in one cell.
pub open spec fn only_paired(w: WorldView, m: WorldView) -> bool {
    &&& m.same_frame(w)
    &&& m.parents == w.parents
    &&& m.children == w.children
    &&& m.residents == w.residents
    &&& m.store.len() == w.store.len()
    &&& forall|e: usize|
        e < w.store.len() ==> #[trigger] m.store[e as int] == (Components {
            mate: m.store[e as int].mate,
            ..w.store[e as int]
        })
    &&& forall|e: usize|
        e < w.store.len() && w.store[e as int].mate.is_some() ==> (
        #[trigger] m.store[e as int]).mate == w.store[e as int].mate
    &&& forall|e: usize|
        e < w.store.len() && w.store[e as int].mate.is_none() && (
        #[trigger] m.store[e as int]).mate.is_some() ==> {
            &&& w.marriageable(e)
            &&& w.marriageable(m.store[e as int].mate.unwrap())
            &&& w.store[e as int].position.is_some()
            &&& w.store[e as int].position
                == w.store[m.store[e as int].mate.unwrap() as int].position
        }
}

/// In `m` the two of `pair` are mates, and are otherwise as in `w`.
pub open spec fn mates_in(w: WorldView, m: WorldView, pair: (usize, usize)) -> bool {
    &&& m.store[pair.0 as int] == (Components { mate: Some(pair.1), ..w.store[pair.0 as int] })
    &&& m.store[pair.1 as int] == (Components { mate: Some(pair.0), ..w.store[pair.1 as int] })
}

/// What the matchmaker leaves behind, whatever was accepted: a well-formed
/// world that has come from the old one by pairings alone.
pub proof fn lemma_matched(w: WorldView, pairs: Seq<(usize, usize)>, accepted: Seq<bool>)
    requires
        w.wf(),
    ensures
        w.matched(pairs, accepted).wf(),
        only_paired(w, w.matched(pairs, accepted)),
    decreases pairs.len(),
{
    if pairs.len() > 0 {
        let before = w.matched(pairs.drop_last(), accepted);
        lemma_matched(w, pairs.drop_last(), accepted);
        if drawn_at(accepted, pairs.len() - 1) {
            let a = pairs.last().0;
            let b = pairs.last().1;
            before.lemma_paired_wf(a, b);
        }
    }
}

/// The pairs are sound in `w`: each is a bachelor and a spinster of one
/// cell, and nobody is named twice.
pub open spec fn sound_pairs(w: WorldView, pairs: Seq<(usize, usize)>) -> bool {
    &&& forall|i: int| 0 <= i < pairs.len() ==> w.can_pair((#[trigger] pairs[i]).0, pairs[i].1)
    &&& forall|i: int, j: int|
        0 <= i < pairs.len() && 0 <= j < pairs.len() && i != j ==> (#[trigger] pairs[i]).0 != (
        #[trigger] pairs[j]).0 && pairs[i].1 != pairs[j].1
}

/// `e` is named in one of `pairs`.
pub open spec fn in_pairs(pairs: Seq<(usize, usize)>, e: usize) -> bool {
    exists|i: int| 0 <= i < pairs.len() && ((#[trigger] pairs[i]).0 == e || pairs[i].1 == e)
}

/// The candidate pairs of the first `n` cells are sound, and the people
/// named in them stand in those cells.
proof fn lemma_pairs_upto_sound(w: WorldView, n: nat)
    requires
        w.wf(),
        n <= w.cells(),
    ensures
        sound_pairs(w, w.pairs_upto(n)),
        forall|i: int|
            0 <= i < w.pairs_upto(n).len() ==> 1 <= w.store[(#[trigger] w.pairs_upto(
                n,
            )[i]).0 as int].cell() <= n,
    decreases n,
{
    if n > 0 {
        let cell = n as usize;
        lemma_pairs_upto_sound(w, (n - 1) as nat);
        let bucket = w.residents[cell as int];
        assert(w.bucket_ok(cell));
        lemma_filter_members(bucket, w.bachelor_pred());
        lemma_filter_members(bucket, w.spinster_pred());
    }
}

/// The candidate pairs of a day are sound.
pub proof fn lemma_candidates_sound(w: WorldView)
    requires
        w.wf(),
    ensures
        sound_pairs(w, w.match_candidates()),
{
    lemma_pairs_upto_sound(w, w.cells());
}

/// Where no pair is accepted, the matchmaker changes nothing.
pub proof fn lemma_matched_none(w: WorldView, pairs: Seq<(usize, usize)>, accepted: Seq<bool>)
    requires
        forall|i: int| 0 <= i < pairs.len() ==> !drawn_at(accepted, i),
    ensures
        w.matched(pairs, accepted) == w,
    decreases pairs.len(),
{
    if pairs.len() > 0 {
        lemma_matched_none(w, pairs.drop_last(), accepted);
    }
}

/// The matchmaker leaves alone whoever is named in no pair.
pub proof fn lemma_matched_others(
    w: WorldView,
    pairs: Seq<(usize, usize)>,
    accepted: Seq<bool>,
    e: usize,
)
    requires
        w.wf(),
        e < w.store.len(),
        !in_pairs(pairs, e),
    ensures
        w.matched(pairs, accepted).store[e as int] == w.store[e as int],
    decreases pairs.len(),
{
    lemma_matched(w, pairs, accepted);
    if pairs.len() > 0 {
        let front = pairs.drop_last();
        lemma_matched(w, front, accepted);
        lemma_matched_others(w, front, accepted, e);
    }
}

/// The matchmaker pair by pair, where the pairs are sound: the two of an
/// accepted pair are mates afterwards, the two of another pair are as
/// before.
pub proof fn lemma_matched_each(
    w: WorldView,
    pairs: Seq<(usize, usize)>,
    accepted: Seq<bool>,
    i: int,
)
    requires
        w.wf(),
        sound_pairs(w, pairs),
        0 <= i < pairs.len(),
    ensures
        ({
            let m = w.matched(pairs, accepted);
            if drawn_at(accepted, i) {
                mates_in(w, m, pairs[i])
            } else {
                &&& m.store[pairs[i].0 as int] == w.store[pairs[i].0 as int]
                &&& m.store[pairs[i].1 as int] == w.store[pairs[i].1 as int]
            }
        }),
    decreases pairs.len(),
{
    let front = pairs.drop_last();
    let last = pairs.len() - 1;
    let a = pairs[i].0;
    let b = pairs[i].1;
    lemma_matched(w, front, accepted);
    assert(w.record_ok(a));
    assert(w.record_ok(b));
    if i < last {
        lemma_matched_each(w, front, accepted, i);
    } else {
        lemma_matched_others(w, front, accepted, a);
        lemma_matched_others(w, front, accepted, b);
    }
}

} // verus!
