//! The birth system: whose child is due, and what the births do to the
//! world.

use crate::components::{Components, Female, Human, Life, Male, Position, SpawnDate};
use crate::model::WorldView;
use crate::params::PPM;
use crate::random::chance;
use crate::seqs::{drawn_at, ids, lemma_filter_members, lemma_filter_none, lemma_filter_step};
use crate::world::World;
use vstd::prelude::*;

verus! {

impl WorldView {
    /// The child of `e` is due: a pregnant human whose day has come.
    pub open spec fn due(self, e: usize) -> bool {
        &&& self.issued(e)
        &&& self.store[e as int].human.0
        &&& self.store[e as int].pregnant matches Some(p) && p.0 <= self.day
    }

    /// `due`, as a predicate for a filter.
    pub open spec fn due_pred(self) -> spec_fn(usize) -> bool {
        |e: usize| self.due(e)
    }

    /// The mothers whose child is due today, by identifier.
    pub open spec fn expecting(self) -> Seq<usize> {
        ids(self.store.len()).filter(self.due_pred())
    }

    /// The parents of a child of `mother`: she, and her mate if she has
    /// one.
    pub open spec fn parents_for(self, mother: usize) -> Seq<usize> {
        seq![mother] + self.mate_list(mother)
    }

    /// The world after `mother` gave birth, if her child is due. She is no
    /// longer pregnant. The child, a boy or a girl as `boy` says, is born
    /// today where she stands, has her and her mate as parents, and stands
    /// last among the children of both.
    pub open spec fn delivered(self, mother: usize, boy: bool) -> WorldView {
        if self.due(mother) {
            let child = self.store.len() as usize;
            let born = self.with_person(self.store[mother as int].cell(), self.day as i64, boy);
            let listed = born.children.update(
                mother as int,
                born.children[mother as int].push(child),
            );
            WorldView {
                store: born.store.update(
                    mother as int,
                    Components { pregnant: None, ..born.store[mother as int] },
                ),
                parents: born.parents.update(child as int, self.parents_for(mother)),
                children: match self.store[mother as int].mate {
                    Some(father) => listed.update(father as int, listed[father as int].push(child)),
                    None => listed,
                },
                ..born
            }
        } else {
            self
        }
    }

    /// The world after the births of the children of `mothers`, one after
    /// the other, where `boys` says of each child whether it is a boy.
    pub open spec fn born(self, mothers: Seq<usize>, boys: Seq<bool>) -> WorldView
        decreases mothers.len(),
    {
        if mothers.len() == 0 {
            self
        } else {
            self.born(mothers.drop_last(), boys).delivered(
                mothers.last(),
                drawn_at(boys, mothers.len() - 1),
            )
        }
    }

    /// A birth keeps the world well formed, as long as the child's
    /// identifier is one the machine can hold.
    pub proof fn lemma_delivered_wf(self, mother: usize, boy: bool)
        requires
            self.wf(),
            self.due(mother) ==> self.store.len() < usize::MAX,
        ensures
            self.delivered(mother, boy).wf(),
    {
        if self.due(mother) {
            assert(self.record_ok(mother));
            assert(self.placed_ok(mother));
            assert(self.mate_ok(mother));
            let cell = self.store[mother as int].cell();
            let born = self.with_person(cell, self.day as i64, boy);
            self.lemma_spawned_wf(cell, Self::person_record(cell, self.day as i64, boy));
            let relieved = born.with_record(
                mother,
                Components { pregnant: None, ..born.store[mother as int] },
            );
            born.lemma_with_record_wf(
                mother,
                Components { pregnant: None, ..born.store[mother as int] },
            );
            let w = self.delivered(mother, boy);
            assert forall|cell: usize| cell < w.residents.len() implies #[trigger] w.bucket_ok(
                cell,
            ) by {
                assert(relieved.bucket_ok(cell));
            }
            assert forall|e: usize| e < w.store.len() implies #[trigger] w.placed_ok(e) by {
                assert(relieved.placed_ok(e));
            }
            assert forall|e: usize| e < w.store.len() implies #[trigger] w.record_ok(e) by {
                assert(relieved.record_ok(e));
            }
            assert forall|e: usize| e < w.store.len() implies #[trigger] w.mate_ok(e) by {
                assert(relieved.mate_ok(e));
            }
            let child = self.store.len() as usize;
            assert forall|e: usize| e < w.store.len() implies #[trigger] w.lineage_ok(e) by {
                if e < self.store.len() {
                    assert(self.lineage_ok(e));
                    let had = self.children[e as int];
                    assert(!had.contains(child)) by {
                        if had.contains(child) {
                            let i = choose|i: int| 0 <= i < had.len() && had[i] == child;
                            assert(self.issued(had[i]));
                        }
                    }
                    assert(had.push(child).no_duplicates()) by {
                        assert forall|i: int, j: int|
                            0 <= i < had.len() + 1 && 0 <= j < had.len() + 1 && i
                                != j implies had.push(child)[i] != had.push(child)[j] by {
                            if i < had.len() {
                                assert(had.contains(had[i]));
                            }
                            if j < had.len() {
                                assert(had.contains(had[j]));
                            }
                        }
                    }
                }
            }
        }
    }
}

impl World {
    fn is_due(&self, e: usize) -> (b: bool)
        ensures
            b == self@.due(e),
    {
        if e >= 1 && e < self.store.len() && self.store[e].human.0 {
            match self.store[e].pregnant {
                Some(p) => p.0 <= self.day,
                None => false,
            }
        } else {
            false
        }
    }

    /// The mothers whose child is due today, by identifier.
    pub fn expecting(&self) -> (out: Vec<usize>)
        ensures
            out@ == self@.expecting(),
    {
        let mut out: Vec<usize> = Vec::new();
        let mut index: usize = 0;
        let ghost all = ids(self@.store.len());
        proof {
            lemma_filter_none(all, self@.due_pred());
        }
        while index < self.store.len()
            invariant
                index <= self.store.len(),
                all == ids(self@.store.len()),
                out@ == all.take(index as int).filter(self@.due_pred()),
            decreases self.store.len() - index,
        {
            proof {
                lemma_filter_step(all, self@.due_pred(), index as int);
            }
            if self.is_due(index) {
                out.push(index);
            }
            index += 1;
        }
        out
    }

    /// Lets `mother` give birth, if her child is due, and returns the
    /// child. The child is a boy or a girl as `boy` says.
    pub fn deliver(&mut self, mother: usize, boy: bool) -> (child: Option<usize>)
        requires
            old(self).wf(),
        ensures
            child == if old(self)@.due(mother) {
                Some(old(self)@.store.len() as usize)
            } else {
                None
            },
            final(self)@ == old(self)@.delivered(mother, boy),
            final(self).wf(),
    {
        if !self.is_due(mother) {
            return None;
        }
        let m = self.store[mother];
        proof {
            assert(self@.record_ok(mother));
            assert(self@.placed_ok(mother));
            assert(self@.mate_ok(mother));
        }
        let cell = match m.position {
            Some(p) => p.0,
            None => 0,
        };
        let record = Components {
            position: Some(Position(cell)),
            life: Life(true),
            human: Human(true),
            spawn_date: Some(SpawnDate(self.day)),
            male: Male(boy),
            female: Female(!boy),
            ..Components::blank()
        };
        let child_id = self.spawn(cell, record);
        let ghost born = self@;
        assert(self.parents@[child_id as int]@ == born.parents[child_id as int]);
        assert(self.children@[mother as int]@ == born.children[mother as int]);
        self.store[mother] = Components { pregnant: None, ..m };
        self.parents[child_id].push(mother);
        self.children[mother].push(child_id);
        match m.mate {
            Some(father) => {
                self.parents[child_id].push(father);
                self.children[father].push(child_id);
            },
            None => {},
        }
        proof {
            assert(self.store@.len() == self.store.len());
            old(self)@.lemma_delivered_wf(mother, boy);
            let goal = old(self)@.delivered(mother, boy);
            assert(self@.store =~= goal.store);
            assert(self@.residents =~~= goal.residents);
            assert(self@.children =~~= goal.children);
            assert(self@.parents =~~= goal.parents);
        }
        Some(child_id)
    }

    /// Lets the `mothers` give birth, one after the other, where `boys`
    /// says of each child whether it is a boy.
    pub fn apply_births(&mut self, mothers: &Vec<usize>, boys: &Vec<bool>)
        requires
            old(self).wf(),
        ensures
            final(self)@ == old(self)@.born(mothers@, boys@),
            final(self).wf(),
    {
        let mut i: usize = 0;
        while i < mothers.len()
            invariant
                self.wf(),
                i <= mothers.len(),
                self@ == old(self)@.born(mothers@.take(i as int), boys@),
            decreases mothers.len() - i,
        {
            proof {
                assert(mothers@.take(i as int + 1).drop_last() =~= mothers@.take(i as int));
            }
            let boy: bool = i < boys.len() && boys[i];
            self.deliver(mothers[i], boy);
            i += 1;
        }
        assert(mothers@.take(mothers@.len() as int) =~= mothers@);
    }

    /// The birth system. Every pregnant human whose day has come gives
    /// birth: she is no longer pregnant, and her child, a boy or a girl
    /// with equal chance, is born where she stands.
    pub fn birth_system(&mut self)
        requires
            old(self).wf(),
        ensures
            final(self).wf(),
            exists|boys: Seq<bool>|
                boys.len() == old(self)@.expecting().len() && final(self)@
                    == #[trigger] old(self)@.born(old(self)@.expecting(), boys),
            only_born(old(self)@, final(self)@),
            final(self)@.store.len() == old(self)@.store.len() + old(self)@.expecting().len(),
            forall|mother: usize|
                old(self)@.due(mother) ==> #[trigger] gave_birth(old(self)@, final(self)@, mother),
            forall|i: int|
                0 <= i < old(self)@.expecting().len() ==> final(self)@.children[(
                #[trigger] old(self)@.expecting()[i]) as int].last() == old(self)@.store.len() + i,
    {
        let mut rng = rand::thread_rng();
        let mothers = self.expecting();
        let mut boys: Vec<bool> = Vec::new();
        let mut i: usize = 0;
        while i < mothers.len()
            invariant
                i <= mothers.len(),
                boys@.len() == i,
            decreases mothers.len() - i,
        {
            let boy = chance(&mut rng, PPM / 2);
            boys.push(boy);
            i += 1;
        }
        self.apply_births(&mothers, &boys);
        proof {
            assert(self.store@.len() == self.store.len());
            lemma_expecting(old(self)@);
            lemma_born_count(old(self)@, mothers@, boys@);
            lemma_born_frame(old(self)@, mothers@, boys@);
            lemma_born(old(self)@, mothers@, boys@);
            assert forall|mother: usize| old(self)@.due(mother) implies #[trigger] gave_birth(
                old(self)@,
                self@,
                mother,
            ) by {
                lemma_due_child_is_born(old(self)@, boys@, mother);
            }
        }
    }
}

/// In `after`, `mother` has given birth: she is not pregnant and has one
/// child more than in `before`, a new person born on the day of `before`
/// where she stands, with her and her mate as parents.
pub open spec fn gave_birth(before: WorldView, after: WorldView, mother: usize) -> bool {
    let child = after.children[mother as int].last();
    &&& after.store[mother as int].pregnant.is_none()
    &&& after.children[mother as int] == before.children[mother as int].push(child)
    &&& !before.issued(child)
    &&& after.issued(child)
    &&& after.store[child as int].is_person()
    &&& after.store[child as int].spawn_date == Some(SpawnDate(before.day as i64))
    &&& after.store[child as int].position == before.store[mother as int].position
    &&& after.parents[child as int] == before.parents_for(mother)
}

/// `b` has come from `w` by births alone: of those who were there nothing
/// has changed but that some whose child was due are no longer pregnant,
/// their parents are on record as before and their children are the first
/// of those they have now, and whoever is new is a person born today
/// without a mate.
pub open spec fn only_born(w: WorldView, b: WorldView) -> bool {
    &&& b.same_frame(w)
    &&& b.store.len() >= w.store.len()
    &&& forall|e: usize|
        e < w.store.len() ==> {
            &&& #[trigger] b.store[e as int] == w.store[e as int] || (w.due(e) && b.store[e as int]
                == (Components { pregnant: None, ..w.store[e as int] }))
            &&& b.parents[e as int] == w.parents[e as int]
            &&& w.children[e as int].is_prefix_of(b.children[e as int])
        }
    &&& forall|e: usize|
        w.store.len() <= e < b.store.len() ==> {
            &&& (#[trigger] b.store[e as int]).is_person()
            &&& b.store[e as int] == WorldView::person_record(
                b.store[e as int].cell(),
                w.day as i64,
                b.store[e as int].male.0,
            )
            &&& 1 <= b.parents[e as int].len() <= 2
            &&& w.due(b.parents[e as int][0])
        }
}

/// Where each of `mothers` is another woman whose child is due, a round of
/// births adds one entity for each, clears the pregnancy of each, and
/// leaves the components of everybody else as they were.
pub proof fn lemma_born_count(w: WorldView, mothers: Seq<usize>, boys: Seq<bool>)
    requires
        mothers.no_duplicates(),
        forall|i: int| 0 <= i < mothers.len() ==> w.due(#[trigger] mothers[i]),
    ensures
        w.born(mothers, boys).store.len() == w.store.len() + mothers.len(),
        w.born(mothers, boys).day == w.day,
        forall|e: usize|
            e < w.store.len() ==> #[trigger] w.born(mothers, boys).store[e as int]
                == if mothers.contains(e) {
                Components { pregnant: None, ..w.store[e as int] }
            } else {
                w.store[e as int]
            },
    decreases mothers.len(),
{
    if mothers.len() > 0 {
        let front = mothers.drop_last();
        let last = mothers.len() - 1;
        let mother = mothers.last();
        let before = w.born(front, boys);
        lemma_born_count(w, front, boys);
        assert(w.due(mothers[last]));
        assert(!front.contains(mother)) by {
            if front.contains(mother) {
                let j = choose|j: int| 0 <= j < front.len() && front[j] == mother;
                assert(mothers[j] == mothers[last]);
            }
        }
        assert(before.store[mother as int] == w.store[mother as int]);
        let b = before.delivered(mother, drawn_at(boys, last));
        assert forall|e: usize| e < w.store.len() implies #[trigger] b.store[e as int]
            == if mothers.contains(e) {
            Components { pregnant: None, ..w.store[e as int] }
        } else {
            w.store[e as int]
        } by {
            if e == mother {
                assert(mothers[last] == e);
            } else {
                assert(b.store[e as int] == before.store[e as int]);
                if front.contains(e) {
                    let j = choose|j: int| 0 <= j < front.len() && front[j] == e;
                    assert(mothers[j] == e);
                }
                if mothers.contains(e) {
                    let j = choose|j: int| 0 <= j < mothers.len() && mothers[j] == e;
                    assert(front[j] == e);
                }
            }
        }
    }
}

/// What the birth system leaves behind, whoever the mothers are: a
/// well-formed world that has come from the old one by births alone. This
/// holds as long as the machine can hold the identifiers of the children.
pub proof fn lemma_born_frame(w: WorldView, mothers: Seq<usize>, boys: Seq<bool>)
    requires
        w.wf(),
        w.born(mothers, boys).store.len() <= usize::MAX,
    ensures
        w.born(mothers, boys).wf(),
        only_born(w, w.born(mothers, boys)),
    decreases mothers.len(),
{
    if mothers.len() > 0 {
        let before = w.born(mothers.drop_last(), boys);
        let mother = mothers.last();
        let boy = drawn_at(boys, mothers.len() - 1);
        lemma_born_frame(w, mothers.drop_last(), boys);
        before.lemma_delivered_wf(mother, boy);
        if before.due(mother) {
            assert(before.mate_ok(mother));
        }
    }
}

/// What a round of births leaves behind, where each of `mothers` is
/// another woman whose child is due and identifiers are left for all the
/// children: a well-formed world with one new person for each mother, in
/// which each mother is no longer pregnant and has her own child as one
/// more child, and nothing else has changed of those who were there.
pub proof fn lemma_born(w: WorldView, mothers: Seq<usize>, boys: Seq<bool>)
    requires
        w.wf(),
        w.store.len() + mothers.len() <= usize::MAX,
        mothers.no_duplicates(),
        forall|i: int| 0 <= i < mothers.len() ==> w.due(#[trigger] mothers[i]),
    ensures
        ({
            let b = w.born(mothers, boys);
            &&& b.wf()
            &&& b.same_frame(w)
            &&& b.store.len() == w.store.len() + mothers.len()
            &&& forall|e: usize|
                e < w.store.len() ==> #[trigger] b.store[e as int] == if mothers.contains(e) {
                    Components { pregnant: None, ..w.store[e as int] }
                } else {
                    w.store[e as int]
                }
            &&& forall|e: usize|
                e < w.store.len() && !w.due(e) ==> w.children[e as int].is_prefix_of(
                    #[trigger] b.children[e as int],
                )
            &&& forall|i: int|
                0 <= i < mothers.len() ==> {
                    let child = (w.store.len() + i) as usize;
                    &&& b.children[#[trigger] mothers[i] as int]
                        == w.children[mothers[i] as int].push(child)
                    &&& b.store[child as int] == WorldView::person_record(
                        w.store[mothers[i] as int].cell(),
                        w.day as i64,
                        drawn_at(boys, i),
                    )
                    &&& b.parents[child as int] == w.parents_for(mothers[i])
                    &&& b.children[child as int] == Seq::<usize>::empty()
                }
        }),
    decreases mothers.len(),
{
    if mothers.len() > 0 {
        let front = mothers.drop_last();
        let before = w.born(front, boys);
        let last = mothers.len() - 1;
        let mother = mothers.last();
        let boy = drawn_at(boys, last);
        lemma_born(w, front, boys);
        before.lemma_delivered_wf(mother, boy);
        let b = before.delivered(mother, boy);
        assert(w.record_ok(mother));
        assert(before.mate_ok(mother));
        assert forall|e: usize| e < w.store.len() implies #[trigger] b.store[e as int]
            == if mothers.contains(e) {
            Components { pregnant: None, ..w.store[e as int] }
        } else {
            w.store[e as int]
        } by {
            if e != mother && mothers.contains(e) {
                let j = choose|j: int| 0 <= j < mothers.len() && mothers[j] == e;
                assert(front[j] == e);
            }
        }
        assert forall|i: int| 0 <= i < mothers.len() implies {
            let child = (w.store.len() + i) as usize;
            &&& b.children[#[trigger] mothers[i] as int]
                == w.children[mothers[i] as int].push(child)
            &&& b.store[child as int] == WorldView::person_record(
                w.store[mothers[i] as int].cell(),
                w.day as i64,
                drawn_at(boys, i),
            )
            &&& b.parents[child as int] == w.parents_for(mothers[i])
            &&& b.children[child as int] == Seq::<usize>::empty()
        } by {
            if i < last {
                // an earlier mother is a woman, so she is not the father of this child
                assert(w.record_ok(front[i]));
            } else {
                assert(before.children[mother as int] == w.children[mother as int]) by {
                    lemma_born_untouched(w, front, boys, mother);
                }
            }
        }
    }
}

/// A round of births leaves the children of a woman alone who is pregnant
/// and not among the mothers.
proof fn lemma_born_untouched(w: WorldView, mothers: Seq<usize>, boys: Seq<bool>, e: usize)
    requires
        w.wf(),
        w.born(mothers, boys).store.len() <= usize::MAX,
        e < w.store.len(),
        w.store[e as int].pregnant.is_some(),
        !mothers.contains(e),
    ensures
        w.born(mothers, boys).wf(),
        w.born(mothers, boys).store.len() >= w.store.len(),
        w.born(mothers, boys).store[e as int] == w.store[e as int],
        w.born(mothers, boys).children[e as int] == w.children[e as int],
    decreases mothers.len(),
{
    if mothers.len() > 0 {
        let front = mothers.drop_last();
        let before = w.born(front, boys);
        let mother = mothers.last();
        lemma_born_untouched(w, front, boys, e);
        before.lemma_delivered_wf(mother, drawn_at(boys, mothers.len() - 1));
        if before.due(mother) {
            assert(before.record_ok(mother));
            assert(before.record_ok(e));
            assert(before.mate_ok(mother));
        }
    }
}

/// The mothers of the day are each named once, and the child of each is
/// due.
pub proof fn lemma_expecting(w: WorldView)
    requires
        w.wf(),
    ensures
        w.expecting().no_duplicates(),
        forall|i: int| 0 <= i < w.expecting().len() ==> w.due(#[trigger] w.expecting()[i]),
        forall|e: usize| w.due(e) ==> w.expecting().contains(e),
        w.expecting().len() <= w.store.len(),
{
    let all = ids(w.store.len());
    lemma_filter_members(all, w.due_pred());
    assert forall|e: usize| w.due(e) implies w.expecting().contains(e) by {
        assert(all[e as int] == e);
    }
    all.lemma_filter_len(w.due_pred());
}

/// From pregnancy to birth: after the births of a day, a woman whose child
/// was due is no longer pregnant and has exactly one child more, who is a
/// new person, born today, with her as its mother. This holds as long as
/// the machine can hold the identifiers of the children of the day, as it
/// does for every world in memory.
pub proof fn lemma_due_child_is_born(w: WorldView, boys: Seq<bool>, mother: usize)
    requires
        w.wf(),
        w.store.len() + w.expecting().len() <= usize::MAX,
        w.due(mother),
    ensures
        gave_birth(w, w.born(w.expecting(), boys), mother),
{
    lemma_expecting(w);
    lemma_born(w, w.expecting(), boys);
    assert(w.record_ok(mother));
}

} // verus!
