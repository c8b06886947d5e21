//! Changes to the model that touch the spatial index: placing, relocating,
//! spawning and removing entities.

use crate::components::{Components, Female, Forage, Human, Life, Male, Position, SpawnDate};
use crate::model::WorldView;
use crate::params::{BOUNTY_MAX, BOUNTY_MIN};
use vstd::prelude::*;

verus! {

/// The residents of a cell without `e`.
pub open spec fn without(bucket: Seq<usize>, e: usize) -> Seq<usize> {
    bucket.remove_value(e)
}

/// Taking `e` out of a cell leaves the other residents, once each.
pub proof fn lemma_without(bucket: Seq<usize>, e: usize)
    requires
        bucket.no_duplicates(),
    ensures
        without(bucket, e).no_duplicates(),
        !without(bucket, e).contains(e),
        forall|x: usize| x != e ==> (without(bucket, e).contains(x) <==> bucket.contains(x)),
        forall|i: int|
            0 <= i < without(bucket, e).len() ==> bucket.contains(#[trigger] without(bucket, e)[i]),
        without(bucket, e).len() == if bucket.contains(e) {
            bucket.len() - 1
        } else {
            bucket.len() as int
        },
{
    bucket.index_of_first_ensures(e);
    match bucket.index_of_first(e) {
        Some(k) => {
            let r = bucket.remove(k);
            assert forall|x: usize| x != e && bucket.contains(x) implies r.contains(x) by {
                let j = choose|j: int| 0 <= j < bucket.len() && bucket[j] == x;
                let i = if j < k { j } else { j - 1 };
                assert(r[i] == x);
            }
        },
        None => {},
    }
}

impl WorldView {
    /// The world after `e` left its cell, if it stood in one.
    pub open spec fn unplaced(self, e: usize) -> WorldView {
        match self.store[e as int].position {
            Some(p) => WorldView {
                store: self.store.update(
                    e as int,
                    Components { position: None, ..self.store[e as int] },
                ),
                residents: self.residents.update(
                    p.0 as int,
                    without(self.residents[p.0 as int], e),
                ),
                ..self
            },
            None => self,
        }
    }

    /// The world after `e` came to stand in `cell`, from wherever it was.
    pub open spec fn placed(self, e: usize, cell: usize) -> WorldView {
        let u = self.unplaced(e);
        WorldView {
            store: u.store.update(
                e as int,
                Components { position: Some(Position(cell)), ..u.store[e as int] },
            ),
            residents: u.residents.update(cell as int, u.residents[cell as int].push(e)),
            ..u
        }
    }

    /// The world after `e` was given the position `cell`. An identifier that
    /// was never issued is ignored.
    pub open spec fn positioned(self, e: usize, cell: usize) -> WorldView {
        if self.issued(e) {
            self.placed(e, cell)
        } else {
            self
        }
    }

    /// The record of a new forage patch.
    pub open spec fn resource_record(cell: usize, bounty: u8) -> Components {
        Components {
            position: Some(Position(cell)),
            forage: Some(Forage(bounty)),
            ..Components::absent()
        }
    }

    /// The record of a new person.
    pub open spec fn person_record(cell: usize, birth_day: i64, male: bool) -> Components {
        Components {
            position: Some(Position(cell)),
            life: Life(true),
            human: Human(true),
            spawn_date: Some(SpawnDate(birth_day)),
            male: Male(male),
            female: Female(!male),
            ..Components::absent()
        }
    }

    /// The world after a new entity with the record `c` appeared in `cell`.
    /// Its identifier is the next one.
    pub open spec fn spawned(self, cell: usize, c: Components) -> WorldView {
        WorldView {
            store: self.store.push(c),
            parents: self.parents.push(Seq::empty()),
            children: self.children.push(Seq::empty()),
            residents: self.residents.update(
                cell as int,
                self.residents[cell as int].push(self.store.len() as usize),
            ),
            ..self
        }
    }

    /// The world after a forage patch with the yield `bounty` appeared in
    /// `cell`.
    pub open spec fn with_resource(self, cell: usize, bounty: u8) -> WorldView {
        self.spawned(cell, Self::resource_record(cell, bounty))
    }

    /// The world after a person appeared in `cell`.
    pub open spec fn with_person(self, cell: usize, birth_day: i64, male: bool) -> WorldView {
        self.spawned(cell, Self::person_record(cell, birth_day, male))
    }

    /// The world after `e` moved to `cell`. Where it leaves its old cell
    /// empty, a forage patch with the yield `bounty` appears there, as long
    /// as identifiers are left. An entity without a position does not move.
    pub open spec fn relocated(self, e: usize, cell: usize, bounty: u8) -> WorldView {
        if self.issued(e) && self.store[e as int].position.is_some() {
            let from = self.store[e as int].position.unwrap().0;
            let moved = self.placed(e, cell);
            if moved.residents[from as int].len() == 0 && moved.store.len() < usize::MAX {
                moved.with_resource(from, bounty)
            } else {
                moved
            }
        } else {
            self
        }
    }

    /// The world after the death of `e`: it loses its place and every
    /// component, and its mate, if it had one, is free again. Its lineage
    /// stays on record.
    pub open spec fn died(self, e: usize) -> WorldView {
        if self.issued(e) {
            let u = self.unplaced(e);
            let cleared = u.store.update(e as int, Components::absent());
            WorldView {
                store: match self.store[e as int].mate {
                    Some(m) => cleared.update(
                        m as int,
                        Components { mate: None, ..cleared[m as int] },
                    ),
                    None => cleared,
                },
                ..u
            }
        } else {
            self
        }
    }

    /// In `later` the cell `cell` holds one new forage patch more than in this
    /// world, last among its residents. The patch has a yield that a new
    /// patch can have and no lineage, and its identifier follows from the
    /// cell's index.
    pub open spec fn patch_added(self, later: WorldView, cell: usize) -> bool {
        let id = (self.store.len() + cell - 1) as usize;
        &&& later.residents[cell as int] == self.residents[cell as int].push(id)
        &&& later.store[id as int].forage matches Some(f) && BOUNTY_MIN <= f.0 <= BOUNTY_MAX
            && later.store[id as int] == Self::resource_record(cell, f.0)
        &&& later.parents[id as int].len() == 0
        &&& later.children[id as int].len() == 0
    }

    /// `later` has come from this world by a new forage patch in every
    /// cell: whoever was there is as before, and each cell has its patch
    /// added.
    pub open spec fn seeded(self, later: WorldView) -> bool {
        &&& later.same_frame(self)
        &&& later.store.len() == self.store.len() + self.cells()
        &&& later.residents.len() == self.residents.len()
        &&& forall|e: int|
            0 <= e < self.store.len() ==> #[trigger] later.store[e] == self.store[e]
                && later.parents[e] == self.parents[e] && later.children[e] == self.children[e]
        &&& forall|cell: usize|
            1 <= cell <= self.cells() ==> #[trigger] self.patch_added(later, cell)
    }

    /// `cell` holds one forage patch, whose identifier is the cell's index
    /// and whose yield is one that a new patch can have, and nothing else.
    pub open spec fn patch_only(self, cell: usize) -> bool {
        &&& self.residents[cell as int] == seq![cell]
        &&& self.store[cell as int].forage matches Some(f) && BOUNTY_MIN <= f.0 <= BOUNTY_MAX
            && self.store[cell as int] == Self::resource_record(cell, f.0)
    }

    /// The world holds one forage patch in each cell and nothing else, and
    /// no lineage is on record.
    pub open spec fn pristine(self) -> bool {
        &&& self.store.len() == self.cells() + 1
        &&& forall|cell: usize| 1 <= cell <= self.cells() ==> #[trigger] self.patch_only(cell)
        &&& forall|e: int| 0 <= e < self.store.len() ==> (#[trigger] self.parents[e]).len() == 0
        &&& forall|e: int| 0 <= e < self.store.len() ==> (#[trigger] self.children[e]).len() == 0
    }

    // ----- what these changes keep -----

    /// A world without entities that was seeded holds one forage patch in
    /// each cell and nothing else.
    pub proof fn lemma_seeded_pristine(self, later: WorldView)
        requires
            self.wf(),
            self.store.len() == 1,
            self.seeded(later),
        ensures
            later.pristine(),
    {
        assert forall|cell: usize| 1 <= cell <= later.cells() implies #[trigger] later.patch_only(
            cell,
        ) by {
            assert(self.patch_added(later, cell));
            assert(self.bucket_ok(cell));
            if self.residents[cell as int].len() > 0 {
                assert(self.resident_ok(cell, self.residents[cell as int][0]));
                assert(self.placed_ok(0));
            }
            assert(later.residents[cell as int] =~= seq![cell]);
        }
        assert(self.lineage_ok(0));
        assert(later.store[0] == self.store[0]);
        if self.parents[0].len() > 0 {
            assert(self.issued(self.parents[0][0]));
        }
        if self.children[0].len() > 0 {
            assert(self.issued(self.children[0][0]));
        }
        assert forall|e: int| 0 <= e < later.store.len() implies (
        #[trigger] later.parents[e]).len() == 0 by {
            if e >= 1 {
                assert(self.patch_added(later, e as usize));
            }
        }
        assert forall|e: int| 0 <= e < later.store.len() implies (
        #[trigger] later.children[e]).len() == 0 by {
            if e >= 1 {
                assert(self.patch_added(later, e as usize));
            }
        }
    }

    /// Leaving a cell keeps the spatial index sound.
    pub proof fn lemma_unplaced_spatial(self, e: usize)
        requires
            self.shape_ok(),
            self.spatial_ok(),
            self.issued(e),
        ensures
            self.unplaced(e).shape_ok(),
            self.unplaced(e).spatial_ok(),
            forall|cell: int|
                0 <= cell < self.residents.len() ==> !(#[trigger] self.unplaced(
                    e,
                ).residents[cell]).contains(e),
    {
        let w = self.unplaced(e);
        assert(self.placed_ok(e));
        assert forall|cell: int| 0 <= cell < self.residents.len() implies !(
        #[trigger] w.residents[cell]).contains(e) by {
            assert(self.bucket_ok(cell as usize));
            if w.residents[cell].contains(e) {
                match self.store[e as int].position {
                    Some(p) => {
                        lemma_without(self.residents[p.0 as int], e);
                    },
                    None => {},
                }
            }
        }
        match self.store[e as int].position {
            Some(p) => {
                let from = p.0;
                assert(self.bucket_ok(from));
                lemma_without(self.residents[from as int], e);
                assert forall|cell: usize| cell < w.residents.len() implies #[trigger] w.bucket_ok(
                    cell,
                ) by {
                    assert(self.bucket_ok(cell));
                }
                assert forall|i: usize| i < w.store.len() implies #[trigger] w.placed_ok(i) by {
                    assert(self.placed_ok(i));
                }
            },
            None => {},
        }
    }

    /// Appending `e` to a cell it does not stand in, with that cell as its
    /// position, keeps the spatial index sound.
    proof fn lemma_arrival_spatial(self, w: WorldView, e: usize, cell: usize)
        requires
            self.shape_ok(),
            self.spatial_ok(),
            self.is_cell(cell),
            e < w.store.len(),
            self.store.len() <= w.store.len(),
            w.residents == self.residents.update(cell as int, self.residents[cell as int].push(e)),
            w.store[e as int].position == Some(Position(cell)),
            forall|i: usize|
                i < self.store.len() && i != e ==> (#[trigger] w.store[i as int]).position
                    == self.store[i as int].position,
            forall|i: usize|
                self.store.len() <= i < w.store.len() && i != e ==> (
                #[trigger] w.store[i as int]).position.is_none(),
            forall|c: int|
                0 <= c < self.residents.len() ==> !(#[trigger] self.residents[c]).contains(e),
        ensures
            w.spatial_ok(),
    {
        assert forall|c: usize| c < w.residents.len() implies #[trigger] w.bucket_ok(c) by {
            assert(self.bucket_ok(c));
        }
        assert forall|i: usize| i < w.store.len() implies #[trigger] w.placed_ok(i) by {
            if i == e {
                assert(w.residents[cell as int][self.residents[cell as int].len() as int] == e);
            } else if i < self.store.len() {
                assert(self.placed_ok(i));
                match self.store[i as int].position {
                    Some(p) => {
                        let k = choose|k: int|
                            0 <= k < self.residents[p.0 as int].len() && self.residents[p.0 as int][k]
                                == i;
                        assert(w.residents[p.0 as int][k] == i);
                    },
                    None => {},
                }
            }
        }
    }

    /// Arriving in a cell keeps the world well formed.
    pub proof fn lemma_placed_wf(self, e: usize, cell: usize)
        requires
            self.wf(),
            self.issued(e),
            self.is_cell(cell),
        ensures
            self.placed(e, cell).wf(),
    {
        let u = self.unplaced(e);
        let w = self.placed(e, cell);
        self.lemma_unplaced_spatial(e);
        u.lemma_arrival_spatial(w, e, cell);
        self.lemma_lineage_kept(w);
        assert forall|i: usize| i < w.store.len() implies #[trigger] w.record_ok(i) by {
            assert(self.record_ok(i));
        }
        assert forall|i: usize| i < w.store.len() implies #[trigger] w.mate_ok(i) by {
            assert(self.mate_ok(i));
        }
    }

    /// A new entity keeps the world well formed, if its record is sound, has
    /// no mate and holds the cell it appears in.
    pub proof fn lemma_spawned_wf(self, cell: usize, c: Components)
        requires
            self.wf(),
            self.is_cell(cell),
            self.store.len() < usize::MAX,
            c.position == Some(Position(cell)),
            c.mate.is_none(),
            c.sound_on(self.day),
        ensures
            self.spawned(cell, c).wf(),
    {
        let w = self.spawned(cell, c);
        let id = self.store.len() as usize;
        assert forall|k: int| 0 <= k < self.residents.len() implies !(
        #[trigger] self.residents[k]).contains(id) by {
            assert(self.bucket_ok(k as usize));
        }
        self.lemma_arrival_spatial(w, id, cell);
        assert forall|i: usize| i < w.store.len() implies #[trigger] w.record_ok(i) by {
            if i < self.store.len() {
                assert(self.record_ok(i));
            }
        }
        assert forall|i: usize| i < w.store.len() implies #[trigger] w.mate_ok(i) by {
            if i < self.store.len() {
                assert(self.mate_ok(i));
            }
        }
        assert forall|i: usize| i < w.store.len() implies #[trigger] w.lineage_ok(i) by {
            if i < self.store.len() {
                assert(self.lineage_ok(i));
            }
        }
    }

    /// A move keeps the world well formed.
    pub proof fn lemma_relocated_wf(self, e: usize, cell: usize, bounty: u8)
        requires
            self.wf(),
            self.is_cell(cell),
        ensures
            self.relocated(e, cell, bounty).wf(),
    {
        if self.issued(e) && self.store[e as int].position.is_some() {
            let from = self.store[e as int].position.unwrap().0;
            assert(self.placed_ok(e));
            self.lemma_placed_wf(e, cell);
            let moved = self.placed(e, cell);
            if moved.residents[from as int].len() == 0 && moved.store.len() < usize::MAX {
                moved.lemma_spawned_wf(from, Self::resource_record(from, bounty));
            }
        }
    }

    /// Death keeps the world well formed.
    pub proof fn lemma_died_wf(self, e: usize)
        requires
            self.wf(),
        ensures
            self.died(e).wf(),
    {
        if self.issued(e) {
            let u = self.unplaced(e);
            let w = self.died(e);
            self.lemma_unplaced_spatial(e);
            assert(self.mate_ok(e));
            self.lemma_lineage_kept(w);
            assert forall|c: usize| c < w.residents.len() implies #[trigger] w.bucket_ok(c) by {
                assert(u.bucket_ok(c));
            }
            assert forall|i: usize| i < w.store.len() implies #[trigger] w.placed_ok(i) by {
                assert(u.placed_ok(i));
            }
            assert forall|i: usize| i < w.store.len() implies #[trigger] w.record_ok(i) by {
                assert(self.record_ok(i));
            }
            assert forall|i: usize| i < w.store.len() implies #[trigger] w.mate_ok(i) by {
                assert(self.mate_ok(i));
            }
        }
    }
}

} // verus!
