//! The mathematical model of a world: what the store holds, which worlds are
//! well formed, and the elementary changes from which every operation is made.

use crate::components::{Components, Female, Human, Life, Male, Position, SpawnDate};
use crate::params::{Params, LAST_DAY, START_DAY};
use vstd::prelude::*;

verus! {

/// A world as a value. Entities are numbered from 1; entry 0 of `store`,
/// `parents` and `children` belongs to no entity. Cells are numbered from 1;
/// entry 0 of `residents` belongs to no cell.
#[verifier::ext_equal]
pub struct WorldView {
    pub day: int,
    pub width: nat,
    pub height: nat,
    pub params: Params,
    /// The components of each entity.
    pub store: Seq<Components>,
    /// For each entity its parents, mother first.
    pub parents: Seq<Seq<usize>>,
    /// For each entity its children, in order of birth.
    pub children: Seq<Seq<usize>>,
    /// For each cell the entities that stand in it, in order of arrival.
    pub residents: Seq<Seq<usize>>,
}

impl WorldView {
    /// `e` is an identifier that was issued.
    pub open spec fn issued(self, e: usize) -> bool {
        1 <= e < self.store.len()
    }

    /// The number of cells of the grid.
    pub open spec fn cells(self) -> nat {
        self.width * self.height
    }

    /// Column `x` of row `y` lies on the grid.
    pub open spec fn in_grid(self, x: usize, y: usize) -> bool {
        x < self.width && y < self.height
    }

    /// The index of the cell at column `x` of row `y`.
    pub open spec fn cell_at(self, x: usize, y: usize) -> int {
        1 + y * self.width + x
    }

    /// `cell` is the index of a cell of the grid.
    pub open spec fn is_cell(self, cell: usize) -> bool {
        1 <= cell <= self.cells()
    }

    /// The column of a cell.
    pub open spec fn column_of(self, cell: usize) -> int {
        (cell - 1) % (self.width as int)
    }

    /// The row of a cell.
    pub open spec fn row_of(self, cell: usize) -> int {
        (cell - 1) / (self.width as int)
    }

    /// The age of `e` in days, or 0 where it has no birth day.
    pub open spec fn age(self, e: usize) -> int {
        self.store[e as int].age_on(self.day)
    }

    /// The mate of `e`, as a list of one or none.
    pub open spec fn mate_list(self, e: usize) -> Seq<usize> {
        match self.store[e as int].mate {
            Some(m) => seq![m],
            None => Seq::empty(),
        }
    }

    /// The two worlds have the same clock, grid and parameters.
    pub open spec fn same_frame(self, other: WorldView) -> bool {
        &&& self.day == other.day
        &&& self.width == other.width
        &&& self.height == other.height
        &&& self.params == other.params
    }

    // ----- well-formedness -----

    /// The sizes fit together, and entry 0 of the store is empty.
    pub open spec fn shape_ok(self) -> bool {
        &&& 1 <= self.store.len() <= usize::MAX
        &&& self.parents.len() == self.store.len()
        &&& self.children.len() == self.store.len()
        &&& self.residents.len() == self.cells() + 1
        &&& self.cells() < usize::MAX
        &&& START_DAY <= self.day <= LAST_DAY
        &&& self.store[0] == Components::absent()
    }

    /// A resident of `cell` is an entity whose position is `cell`.
    pub open spec fn resident_ok(self, cell: usize, e: usize) -> bool {
        e < self.store.len() && self.store[e as int].position == Some(Position(cell))
    }

    /// No entity stands twice in `cell`, and all that stand there have it as
    /// their position.
    pub open spec fn bucket_ok(self, cell: usize) -> bool {
        &&& self.residents[cell as int].no_duplicates()
        &&& forall|i: int|
            0 <= i < self.residents[cell as int].len() ==> self.resident_ok(
                cell,
                #[trigger] self.residents[cell as int][i],
            )
    }

    /// An entity with a position stands in the cell of that position.
    pub open spec fn placed_ok(self, e: usize) -> bool {
        self.store[e as int].position matches Some(p) ==> 1 <= p.0 < self.residents.len()
            && self.residents[p.0 as int].contains(e)
    }

    /// The spatial index and the positions agree.
    pub open spec fn spatial_ok(self) -> bool {
        &&& forall|cell: usize| cell < self.residents.len() ==> #[trigger] self.bucket_ok(cell)
        &&& forall|e: usize| e < self.store.len() ==> #[trigger] self.placed_ok(e)
    }

    /// A mate link joins a human with another of the other sex, and that
    /// one points back.
    pub open spec fn mate_ok(self, e: usize) -> bool {
        self.store[e as int].mate matches Some(m) ==> {
            &&& 1 <= m < self.store.len()
            &&& m != e
            &&& self.store[m as int].mate == Some(e)
            &&& self.store[e as int].human.0
            &&& (self.store[e as int].male.0 && self.store[m as int].female.0) || (
            self.store[e as int].female.0 && self.store[m as int].male.0)
        }
    }

    /// The components of `e` fit together today.
    pub open spec fn record_ok(self, e: usize) -> bool {
        self.store[e as int].sound_on(self.day)
    }

    /// The lineage of `e` names issued identifiers only, at most two
    /// parents, and no child twice.
    pub open spec fn lineage_ok(self, e: usize) -> bool {
        &&& self.parents[e as int].len() <= 2
        &&& self.children[e as int].no_duplicates()
        &&& forall|i: int|
            0 <= i < self.parents[e as int].len() ==> self.issued(
                #[trigger] self.parents[e as int][i],
            )
        &&& forall|i: int|
            0 <= i < self.children[e as int].len() ==> self.issued(
                #[trigger] self.children[e as int][i],
            )
    }

    /// Every entity's record is sound, every mate link is symmetric and no
    /// lineage names an identifier that was not issued.
    pub open spec fn entities_ok(self) -> bool {
        &&& forall|e: usize| e < self.store.len() ==> #[trigger] self.record_ok(e)
        &&& forall|e: usize| e < self.store.len() ==> #[trigger] self.mate_ok(e)
        &&& forall|e: usize| e < self.store.len() ==> #[trigger] self.lineage_ok(e)
    }

    /// The world is well formed.
    pub open spec fn wf(self) -> bool {
        &&& self.shape_ok()
        &&& self.spatial_ok()
        &&& self.entities_ok()
    }

    // ----- elementary changes -----

    /// A world of the given size without any entity, on its first day.
    pub open spec fn empty(height: nat, width: nat) -> WorldView {
        WorldView {
            day: START_DAY as int,
            width,
            height,
            params: Params::standard_spec(),
            store: seq![Components::absent()],
            parents: seq![Seq::empty()],
            children: seq![Seq::empty()],
            residents: Seq::new(width * height + 1, |i: int| Seq::empty()),
        }
    }

    /// The world with the record of `e` replaced.
    pub open spec fn with_record(self, e: usize, c: Components) -> WorldView {
        WorldView { store: self.store.update(e as int, c), ..self }
    }

    /// The world after one more identifier was issued.
    pub open spec fn created(self) -> WorldView {
        WorldView {
            store: self.store.push(Components::absent()),
            parents: self.parents.push(Seq::empty()),
            children: self.children.push(Seq::empty()),
            ..self
        }
    }

    /// The world after `e` was marked alive.
    pub open spec fn with_life(self, e: usize) -> WorldView {
        if self.issued(e) {
            self.with_record(e, Components { life: Life(true), ..self.store[e as int] })
        } else {
            self
        }
    }

    /// `e` can be marked human: it is alive, has a sex and yields no forage.
    pub open spec fn can_be_human(self, e: usize) -> bool {
        let c = self.store[e as int];
        self.issued(e) && c.life.0 && (c.male.0 || c.female.0) && c.forage.is_none()
    }

    /// The world after `e` was marked human, if it can be.
    pub open spec fn with_human(self, e: usize) -> WorldView {
        if self.can_be_human(e) {
            self.with_record(e, Components { human: Human(true), ..self.store[e as int] })
        } else {
            self
        }
    }

    /// The world after `e` was given the birth day `day`.
    pub open spec fn with_birth(self, e: usize, day: i64) -> WorldView {
        if self.issued(e) {
            self.with_record(
                e,
                Components { spawn_date: Some(SpawnDate(day)), ..self.store[e as int] },
            )
        } else {
            self
        }
    }

    /// The world after `e` was given a sex. An entity keeps the sex it has.
    pub open spec fn with_sex(self, e: usize, male: bool) -> WorldView {
        if self.issued(e) && !self.store[e as int].male.0 && !self.store[e as int].female.0 {
            self.with_record(
                e,
                Components { male: Male(male), female: Female(!male), ..self.store[e as int] },
            )
        } else {
            self
        }
    }

    /// The world with other parameters.
    pub open spec fn with_params(self, params: Params) -> WorldView {
        WorldView { params, ..self }
    }

    /// The world a day later.
    pub open spec fn next_day(self) -> WorldView {
        WorldView { day: self.day + 1, ..self }
    }

    // ----- what the elementary changes keep -----

    /// A column and a row of the grid name one of its cells.
    pub proof fn lemma_cell_at(self, x: usize, y: usize)
        requires
            self.in_grid(x, y),
            self.cells() < usize::MAX,
        ensures
            1 <= self.cell_at(x, y) <= self.cells(),
            self.is_cell(self.cell_at(x, y) as usize),
    {
        assert(y * self.width + x < self.width * self.height) by (nonlinear_arith)
            requires
                0 <= x < self.width,
                0 <= y < self.height,
        ;
    }

    /// A world without entities is well formed.
    pub proof fn lemma_empty_wf(height: nat, width: nat)
        requires
            width * height < usize::MAX,
        ensures
            Self::empty(height, width).wf(),
    {
    }

    /// A new identifier keeps the world well formed.
    pub proof fn lemma_created_wf(self)
        requires
            self.wf(),
            self.store.len() < usize::MAX,
        ensures
            self.created().wf(),
    {
        let w = self.created();
        assert forall|cell: usize| cell < w.residents.len() implies #[trigger] w.bucket_ok(
            cell,
        ) by {
            assert(self.bucket_ok(cell));
        }
        assert forall|e: usize| e < w.store.len() implies #[trigger] w.placed_ok(e) by {
            if e < self.store.len() {
                assert(self.placed_ok(e));
            }
        }
        assert forall|e: usize| e < w.store.len() implies #[trigger] w.record_ok(e) by {
            if e < self.store.len() {
                assert(self.record_ok(e));
            }
        }
        assert forall|e: usize| e < w.store.len() implies #[trigger] w.mate_ok(e) by {
            if e < self.store.len() {
                assert(self.mate_ok(e));
            }
        }
        assert forall|e: usize| e < w.store.len() implies #[trigger] w.lineage_ok(e) by {
            if e < self.store.len() {
                assert(self.lineage_ok(e));
            }
        }
    }

    /// A world with the store and the lineage records of this one, today,
    /// names no identifier in a lineage that was not issued.
    pub proof fn lemma_lineage_kept(self, w: WorldView)
        requires
            self.entities_ok(),
            w.store.len() == self.store.len(),
            w.parents == self.parents,
            w.children == self.children,
        ensures
            forall|e: usize| e < w.store.len() ==> #[trigger] w.lineage_ok(e),
    {
        assert forall|e: usize| e < w.store.len() implies #[trigger] w.lineage_ok(e) by {
            assert(self.lineage_ok(e));
        }
    }

    /// A record may be replaced by one with the same position and mate, if
    /// the new record is sound by itself and keeps the sex and the life of
    /// an entity that has a mate.
    pub proof fn lemma_with_record_wf(self, e: usize, c: Components)
        requires
            self.wf(),
            self.issued(e),
            c.position == self.store[e as int].position,
            c.mate == self.store[e as int].mate,
            c.sound_on(self.day),
            c.mate.is_some() ==> c.human.0 && c.male == self.store[e as int].male && c.female
                == self.store[e as int].female,
        ensures
            self.with_record(e, c).wf(),
    {
        let w = self.with_record(e, c);
        self.lemma_lineage_kept(w);
        assert forall|cell: usize| cell < w.residents.len() implies #[trigger] w.bucket_ok(
            cell,
        ) by {
            assert(self.bucket_ok(cell));
        }
        assert forall|i: usize| i < w.store.len() implies #[trigger] w.placed_ok(i) by {
            assert(self.placed_ok(i));
        }
        assert forall|i: usize| i < w.store.len() implies #[trigger] w.record_ok(i) by {
            assert(self.record_ok(i));
        }
        assert forall|i: usize| i < w.store.len() implies #[trigger] w.mate_ok(i) by {
            assert(self.mate_ok(i));
        }
    }

    /// Marking an entity alive keeps the world well formed.
    pub proof fn lemma_with_life_wf(self, e: usize)
        requires
            self.wf(),
        ensures
            self.with_life(e).wf(),
    {
        if self.issued(e) {
            assert(self.record_ok(e));
            assert(self.mate_ok(e));
            self.lemma_with_record_wf(e, Components { life: Life(true), ..self.store[e as int] });
        }
    }

    /// Marking an entity human keeps the world well formed.
    pub proof fn lemma_with_human_wf(self, e: usize)
        requires
            self.wf(),
        ensures
            self.with_human(e).wf(),
    {
        if self.can_be_human(e) {
            assert(self.record_ok(e));
            self.lemma_with_record_wf(e, Components { human: Human(true), ..self.store[e as int] });
        }
    }

    /// A birth day that is not after today keeps the world well formed.
    pub proof fn lemma_with_birth_wf(self, e: usize, day: i64)
        requires
            self.wf(),
            day <= self.day,
        ensures
            self.with_birth(e, day).wf(),
    {
        if self.issued(e) {
            assert(self.record_ok(e));
            assert(self.mate_ok(e));
            self.lemma_with_record_wf(
                e,
                Components { spawn_date: Some(SpawnDate(day)), ..self.store[e as int] },
            );
        }
    }

    /// Giving an entity a sex keeps the world well formed.
    pub proof fn lemma_with_sex_wf(self, e: usize, male: bool)
        requires
            self.wf(),
        ensures
            self.with_sex(e, male).wf(),
    {
        if self.issued(e) && !self.store[e as int].male.0 && !self.store[e as int].female.0 {
            assert(self.record_ok(e));
            assert(self.mate_ok(e));
            self.lemma_with_record_wf(
                e,
                Components { male: Male(male), female: Female(!male), ..self.store[e as int] },
            );
        }
    }

    /// Other parameters keep the world well formed.
    pub proof fn lemma_with_params_wf(self, params: Params)
        requires
            self.wf(),
        ensures
            self.with_params(params).wf(),
    {
        let w = self.with_params(params);
        self.lemma_lineage_kept(w);
        assert forall|cell: usize| cell < w.residents.len() implies #[trigger] w.bucket_ok(
            cell,
        ) by {
            assert(self.bucket_ok(cell));
        }
        assert forall|i: usize| i < w.store.len() implies #[trigger] w.placed_ok(i) by {
            assert(self.placed_ok(i));
        }
        assert forall|i: usize| i < w.store.len() implies #[trigger] w.record_ok(i) by {
            assert(self.record_ok(i));
        }
        assert forall|i: usize| i < w.store.len() implies #[trigger] w.mate_ok(i) by {
            assert(self.mate_ok(i));
        }
    }

    /// A new day keeps the world well formed, as long as the clock can show it.
    pub proof fn lemma_next_day_wf(self)
        requires
            self.wf(),
            self.day < LAST_DAY,
        ensures
            self.next_day().wf(),
    {
        let w = self.next_day();
        self.lemma_lineage_kept(w);
        assert forall|cell: usize| cell < w.residents.len() implies #[trigger] w.bucket_ok(
            cell,
        ) by {
            assert(self.bucket_ok(cell));
        }
        assert forall|i: usize| i < w.store.len() implies #[trigger] w.placed_ok(i) by {
            assert(self.placed_ok(i));
        }
        assert forall|i: usize| i < w.store.len() implies #[trigger] w.record_ok(i) by {
            assert(self.record_ok(i));
        }
        assert forall|i: usize| i < w.store.len() implies #[trigger] w.mate_ok(i) by {
            assert(self.mate_ok(i));
        }
    }
}

} // verus!
