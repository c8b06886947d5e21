//! The world: the component store, the lineage records, the spatial index
//! and the clock, with the operations that create, place and remove entities.

use crate::components::{Components, Female, Forage, Human, Life, Male, Position, SpawnDate};
use crate::death::{lemma_died_teardown, torn_down};
use crate::model::WorldView;
use crate::params::{Params, BOUNTY_MAX, BOUNTY_MIN, LAST_DAY, START_DAY};
use crate::random::draw_bounty;
use crate::spatial::without;
use vstd::prelude::*;

verus! {

/// A world: the clock, the grid, the component store, the lineage records
/// and the spatial index. Its operations keep it well formed.
pub struct World {
    /// The current day.
    pub day: i64,
    /// The number of rows of the grid.
    pub world_height: usize,
    /// The number of columns of the grid.
    pub world_width: usize,
    /// The chances that drive the systems.
    pub params: Params,
    /// The components of each entity, by identifier. Entry 0 is unused.
    pub store: Vec<Components>,
    /// The parents of each entity, mother first.
    pub parents: Vec<Vec<usize>>,
    /// The children of each entity, in order of birth.
    pub children: Vec<Vec<usize>>,
    /// The entities in each cell, by cell index. Entry 0 is unused.
    pub residents: Vec<Vec<usize>>,
}

/// A list of lists as a value.
pub open spec fn lists_view(lists: Seq<Vec<usize>>) -> Seq<Seq<usize>> {
    Seq::new(lists.len(), |i: int| lists[i]@)
}

impl View for World {
    type V = WorldView;

    open spec fn view(&self) -> WorldView {
        WorldView {
            day: self.day as int,
            width: self.world_width as nat,
            height: self.world_height as nat,
            params: self.params,
            store: self.store@,
            parents: lists_view(self.parents@),
            children: lists_view(self.children@),
            residents: lists_view(self.residents@),
        }
    }
}

/// The age in days on `day` of someone born on `birthday`.
pub fn get_age(day: i64, birthday: i64) -> (age: u64)
    requires
        birthday <= day,
    ensures
        age == day - birthday,
{
    let age: i128 = day as i128 - birthday as i128;
    age as u64
}

/// Takes `e` out of the residents of a cell.
fn remove_resident(bucket: &mut Vec<usize>, e: usize)
    ensures
        final(bucket)@ == without(old(bucket)@, e),
{
    let mut i: usize = 0;
    while i < bucket.len()
        invariant
            i <= bucket.len(),
            forall|j: int| 0 <= j < i ==> bucket@[j] != e,
            bucket@ == old(bucket)@,
        decreases bucket.len() - i,
    {
        if bucket[i] == e {
            proof {
                bucket@.index_of_first_ensures(e);
            }
            bucket.remove(i);
            return ;
        }
        i += 1;
    }
    proof {
        bucket@.index_of_first_ensures(e);
    }
}

impl World {
    /// The world is well formed.
    pub open spec fn wf(&self) -> bool {
        self@.wf()
    }

    /// A world of the given size on its first day, without any entity.
    pub fn new(world_height: usize, world_width: usize) -> (world: World)
        requires
            world_width * world_height < usize::MAX,
        ensures
            world@ == WorldView::empty(world_height as nat, world_width as nat),
            world.wf(),
    {
        let cells: usize = world_width * world_height;
        let mut residents: Vec<Vec<usize>> = Vec::new();
        let mut i: usize = 0;
        while i <= cells
            invariant
                i <= cells + 1,
                cells < usize::MAX,
                residents@.len() == i,
                forall|k: int| 0 <= k < i ==> (#[trigger] residents@[k])@ == Seq::<usize>::empty(),
            decreases cells + 1 - i,
        {
            residents.push(Vec::new());
            i += 1;
        }
        let mut store: Vec<Components> = Vec::new();
        store.push(Components::blank());
        let mut parents: Vec<Vec<usize>> = Vec::new();
        parents.push(Vec::new());
        let mut children: Vec<Vec<usize>> = Vec::new();
        children.push(Vec::new());
        let world = World {
            day: START_DAY,
            world_height,
            world_width,
            params: Params::standard(),
            store,
            parents,
            children,
            residents,
        };
        proof {
            WorldView::lemma_empty_wf(world_height as nat, world_width as nat);
        }
        world
    }

    /// Puts a new forage patch of random yield into every cell, cell by
    /// cell. In a world without entities every cell then holds its patch
    /// and nothing else, and the patch of a cell has the cell's index as
    /// its identifier.
    pub fn seed_forage(&mut self)
        requires
            old(self).wf(),
        ensures
            final(self).wf(),
            old(self)@.seeded(final(self)@),
            old(self)@.store.len() == 1 ==> final(self)@.pristine(),
    {
        let grid_size: usize = self.residents.len();
        let mut rng = rand::thread_rng();
        let mut cell: usize = 1;
        let ghost start = self@;
        while cell < grid_size
            invariant
                self.wf(),
                start == old(self)@,
                start.wf(),
                1 <= cell <= grid_size,
                grid_size == start.cells() + 1,
                self@.same_frame(start),
                self@.store.len() == start.store.len() + cell - 1,
                forall|e: int|
                    0 <= e < start.store.len() ==> #[trigger] self@.store[e] == start.store[e]
                        && self@.parents[e] == start.parents[e] && self@.children[e]
                        == start.children[e],
                forall|c: usize| 1 <= c < cell ==> #[trigger] start.patch_added(self@, c),
                forall|c: int|
                    cell <= c < grid_size ==> #[trigger] self@.residents[c] == start.residents[c],
            decreases grid_size - cell,
        {
            let bounty = draw_bounty(&mut rng);
            let c = Components {
                position: Some(Position(cell)),
                forage: Some(Forage(bounty)),
                ..Components::blank()
            };
            let ghost before = self@;
            self.spawn(cell, c);
            proof {
                assert forall|k: usize| 1 <= k < cell + 1 implies #[trigger] start.patch_added(
                    self@,
                    k,
                ) by {
                    if k < cell {
                        assert(start.patch_added(before, k));
                    } else {
                        assert(before.residents[cell as int] == start.residents[cell as int]);
                    }
                }
            }
            cell += 1;
        }
        proof {
            if start.store.len() == 1 {
                start.lemma_seeded_pristine(self@);
            }
        }
    }

    /// Issues the next identifier. The new entity has no component yet.
    pub fn create_entity(&mut self) -> (id: usize)
        requires
            old(self).wf(),
        ensures
            final(self)@ == old(self)@.created(),
            id == old(self)@.store.len(),
            final(self).wf(),
    {
        let id = self.store.len();
        self.store.push(Components::blank());
        self.parents.push(Vec::new());
        self.children.push(Vec::new());
        proof {
            assert(self.store@.len() == self.store.len());
            old(self)@.lemma_created_wf();
        }
        id
    }

    /// The index of the cell at column `x` of row `y`.
    pub fn xy_to_index(&self, x: usize, y: usize) -> (cell: usize)
        requires
            self@.cells() < usize::MAX,
            self@.in_grid(x, y),
        ensures
            cell == self@.cell_at(x, y),
            self@.is_cell(cell),
    {
        assert(y * self.world_width + x < self.world_width * self.world_height) by (nonlinear_arith)
            requires
                0 <= x < self.world_width,
                0 <= y < self.world_height,
        ;
        1 + y * self.world_width + x
    }

    /// The column and the row of a cell.
    pub fn index_to_xy(&self, idx: usize) -> (xy: (usize, usize))
        requires
            self@.is_cell(idx),
        ensures
            xy.0 == self@.column_of(idx),
            xy.1 == self@.row_of(idx),
            self@.in_grid(xy.0, xy.1),
            self@.cell_at(xy.0, xy.1) == idx,
    {
        assert(self.world_width > 0) by (nonlinear_arith)
            requires
                1 <= self.world_width * self.world_height,
        ;
        let idx_adjusted: usize = idx - 1;
        let x: usize = idx_adjusted % self.world_width;
        let y: usize = idx_adjusted / self.world_width;
        proof {
            let w = self.world_width as int;
            let h = self.world_height as int;
            let a = idx_adjusted as int;
            assert(a == w * (a / w) + a % w) by (nonlinear_arith)
                requires
                    w > 0,
            ;
            assert(a / w < h) by (nonlinear_arith)
                requires
                    w > 0,
                    0 <= a < w * h,
            ;
            assert((a / w) * w == w * (a / w)) by (nonlinear_arith);
        }
        (x, y)
    }

    /// Takes `entity` out of its cell, if it stands in one.
    fn lift(&mut self, entity: usize)
        requires
            old(self)@.shape_ok(),
            old(self)@.spatial_ok(),
            old(self)@.issued(entity),
        ensures
            final(self)@ == old(self)@.unplaced(entity),
    {
        let c = self.store[entity];
        match c.position {
            Some(p) => {
                assert(self@.placed_ok(entity));
                remove_resident(&mut self.residents[p.0], entity);
                self.store[entity] = Components { position: None, ..c };
            },
            None => {},
        }
    }

    /// Puts `entity` into `cell`, from wherever it was.
    fn place(&mut self, entity: usize, cell: usize)
        requires
            old(self).wf(),
            old(self)@.issued(entity),
            old(self)@.is_cell(cell),
        ensures
            final(self)@ == old(self)@.placed(entity, cell),
            final(self).wf(),
    {
        self.lift(entity);
        assert(old(self)@.placed_ok(entity));
        assert(old(self)@.unplaced(entity).residents.len() == old(self)@.residents.len());
        let c = self.store[entity];
        self.residents[cell].push(entity);
        self.store[entity] = Components { position: Some(Position(cell)), ..c };
        proof {
            old(self)@.lemma_placed_wf(entity, cell);
        }
    }

    /// Adds a new entity with the record `c` to `cell`.
    pub(crate) fn spawn(&mut self, cell: usize, c: Components) -> (id: usize)
        requires
            old(self).wf(),
            old(self)@.is_cell(cell),
            c.position == Some(Position(cell)),
            c.mate.is_none(),
            c.sound_on(old(self).day as int),
        ensures
            final(self)@ == old(self)@.spawned(cell, c),
            id == old(self)@.store.len(),
            final(self).wf(),
    {
        let id = self.store.len();
        self.store.push(c);
        self.parents.push(Vec::new());
        self.children.push(Vec::new());
        self.residents[cell].push(id);
        proof {
            assert(self.store@.len() == self.store.len());
            old(self)@.lemma_spawned_wf(cell, c);
        }
        id
    }

    /// Gives `entity` its place on the grid. An entity that stands elsewhere
    /// leaves that cell. An identifier that was never issued is ignored.
    pub fn set_position(&mut self, entity: usize, x: usize, y: usize)
        requires
            old(self).wf(),
            old(self)@.in_grid(x, y),
        ensures
            final(self)@ == old(self)@.positioned(entity, old(self)@.cell_at(x, y) as usize),
            final(self).wf(),
    {
        if entity == 0 || entity >= self.store.len() {
            return ;
        }
        let position_id = self.xy_to_index(x, y);
        self.place(entity, position_id);
    }

    /// Marks `entity` as alive.
    pub fn set_life(&mut self, entity: usize)
        requires
            old(self).wf(),
        ensures
            final(self)@ == old(self)@.with_life(entity),
            final(self).wf(),
    {
        if entity == 0 || entity >= self.store.len() {
            return ;
        }
        let c = self.store[entity];
        self.store[entity] = Components { life: Life(true), ..c };
        proof {
            old(self)@.lemma_with_life_wf(entity);
        }
    }

    /// Marks `entity` as human, if it is alive, has a sex and yields no
    /// forage.
    pub fn set_human(&mut self, entity: usize)
        requires
            old(self).wf(),
        ensures
            final(self)@ == old(self)@.with_human(entity),
            final(self).wf(),
    {
        if entity == 0 || entity >= self.store.len() {
            return ;
        }
        let c = self.store[entity];
        if !c.life.0 || !(c.male.0 || c.female.0) || c.forage.is_some() {
            return ;
        }
        self.store[entity] = Components { human: Human(true), ..c };
        proof {
            old(self)@.lemma_with_human_wf(entity);
        }
    }

    /// Gives `entity` the birth day `date`, which may lie before the start
    /// of the simulation but not after today.
    pub fn set_age(&mut self, entity: usize, date: i64)
        requires
            old(self).wf(),
            date <= old(self).day,
        ensures
            final(self)@ == old(self)@.with_birth(entity, date),
            final(self).wf(),
    {
        if entity == 0 || entity >= self.store.len() {
            return ;
        }
        let c = self.store[entity];
        self.store[entity] = Components { spawn_date: Some(SpawnDate(date)), ..c };
        proof {
            old(self)@.lemma_with_birth_wf(entity, date);
        }
    }

    /// Gives `entity` a sex: male for `"male"`, female for anything else.
    /// An entity that has a sex keeps it.
    pub fn set_sex(&mut self, entity: usize, sex: String)
        requires
            old(self).wf(),
        ensures
            final(self)@ == old(self)@.with_sex(entity, sex@ == "male"@),
            final(self).wf(),
    {
        if entity == 0 || entity >= self.store.len() {
            return ;
        }
        let c = self.store[entity];
        if c.male.0 || c.female.0 {
            return ;
        }
        let male: bool = sex == "male".to_owned();
        self.store[entity] = Components { male: Male(male), female: Female(!male), ..c };
        proof {
            old(self)@.lemma_with_sex_wf(entity, male);
        }
    }

    /// Creates a person at column `x` of row `y`: alive, human, born on
    /// `birth_day`, male for `"male"` and female for anything else.
    pub fn spawn_person(&mut self, x: usize, y: usize, birth_day: i64, sex: String) -> (id: usize)
        requires
            old(self).wf(),
            old(self)@.in_grid(x, y),
            birth_day <= old(self).day,
        ensures
            final(self)@ == old(self)@.with_person(
                old(self)@.cell_at(x, y) as usize,
                birth_day,
                sex@ == "male"@,
            ),
            id == old(self)@.store.len(),
            final(self).wf(),
    {
        let entity = self.create_entity();
        self.set_position(entity, x, y);
        self.set_life(entity);
        self.set_age(entity, birth_day);
        self.set_sex(entity, sex);
        self.set_human(entity);
        entity
    }

    /// Creates a forage patch with the yield `bounty` at column `x` of row
    /// `y`.
    pub fn spawn_resource(&mut self, x: usize, y: usize, bounty: u8) -> (id: usize)
        requires
            old(self).wf(),
            old(self)@.in_grid(x, y),
        ensures
            final(self)@ == old(self)@.with_resource(old(self)@.cell_at(x, y) as usize, bounty),
            id == old(self)@.store.len(),
            final(self).wf(),
    {
        let cell = self.xy_to_index(x, y);
        let c = Components {
            position: Some(Position(cell)),
            forage: Some(Forage(bounty)),
            ..Components::blank()
        };
        self.spawn(cell, c)
    }

    /// Removes `index` from the world: it loses its place and all its
    /// components, and its mate is free again. An identifier that was never
    /// issued is ignored.
    pub fn die(&mut self, index: usize)
        requires
            old(self).wf(),
        ensures
            final(self)@ == old(self)@.died(index),
            final(self).wf(),
            old(self)@.issued(index) ==> torn_down(old(self)@, final(self)@, index),
    {
        proof {
            if old(self)@.issued(index) {
                lemma_died_teardown(old(self)@, index);
            }
        }
        if index == 0 || index >= self.store.len() {
            return ;
        }
        let mate = self.store[index].mate;
        self.lift(index);
        self.store[index] = Components::blank();
        match mate {
            Some(mate_index) => {
                assert(old(self)@.mate_ok(index));
                let m = self.store[mate_index];
                self.store[mate_index] = Components { mate: None, ..m };
            },
            None => {},
        }
        proof {
            old(self)@.lemma_died_wf(index);
        }
    }

    /// Moves `entity` to column `x` of row `y`. Where it leaves its old cell
    /// empty, a forage patch with the yield `bounty` appears there, as long
    /// as identifiers are left. An entity without a position stays where it
    /// is.
    pub fn relocate(&mut self, entity: usize, x: usize, y: usize, bounty: u8)
        requires
            old(self).wf(),
            old(self)@.in_grid(x, y),
        ensures
            final(self)@ == old(self)@.relocated(entity, old(self)@.cell_at(x, y) as usize, bounty),
            final(self).wf(),
    {
        if entity == 0 || entity >= self.store.len() {
            return ;
        }
        match self.store[entity].position {
            Some(from) => {
                assert(self@.placed_ok(entity));
                let cell = self.xy_to_index(x, y);
                self.place(entity, cell);
                if self.residents[from.0].len() == 0 && self.store.len() < usize::MAX {
                    let c = Components {
                        position: Some(Position(from.0)),
                        forage: Some(Forage(bounty)),
                        ..Components::blank()
                    };
                    self.spawn(from.0, c);
                }
            },
            None => {},
        }
    }

    /// Moves `entity` to column `x` of row `y`. Where it leaves its old cell
    /// empty, a forage patch with a random yield appears there.
    pub fn move_to_position(&mut self, entity: usize, new_x: usize, new_y: usize)
        requires
            old(self).wf(),
            old(self)@.in_grid(new_x, new_y),
        ensures
            exists|bounty: u8|
                BOUNTY_MIN <= bounty <= BOUNTY_MAX && final(self)@
                    == #[trigger] old(self)@.relocated(
                    entity,
                    old(self)@.cell_at(new_x, new_y) as usize,
                    bounty,
                ),
            final(self).wf(),
    {
        let mut rng = rand::thread_rng();
        let bounty = draw_bounty(&mut rng);
        self.relocate(entity, new_x, new_y, bounty);
    }

    /// The components of `entity`, or none for an identifier that was never
    /// issued.
    pub fn components(&self, entity: usize) -> (c: Option<Components>)
        ensures
            c == if self@.issued(entity) {
                Some(self@.store[entity as int])
            } else {
                None
            },
    {
        if entity >= 1 && entity < self.store.len() {
            Some(self.store[entity])
        } else {
            None
        }
    }

    /// The column and the row where `entity` stands, or none where it has
    /// no position.
    pub fn position_of(&self, entity: usize) -> (xy: Option<(usize, usize)>)
        requires
            self.wf(),
        ensures
            xy == if self@.issued(entity) && self@.store[entity as int].position.is_some() {
                Some(
                    (
                        self@.column_of(self@.store[entity as int].cell()) as usize,
                        self@.row_of(self@.store[entity as int].cell()) as usize,
                    ),
                )
            } else {
                None
            },
            xy matches Some(at) ==> self@.in_grid(at.0, at.1) && self@.cell_at(at.0, at.1)
                == self@.store[entity as int].cell(),
    {
        if entity >= 1 && entity < self.store.len() {
            match self.store[entity].position {
                Some(p) => {
                    assert(self@.placed_ok(entity));
                    Some(self.index_to_xy(p.0))
                },
                None => None,
            }
        } else {
            None
        }
    }

    /// Those who stand at column `x` of row `y`, in order of arrival.
    pub fn residents_at(&self, x: usize, y: usize) -> (out: Vec<usize>)
        requires
            self.wf(),
            self@.in_grid(x, y),
        ensures
            out@ == self@.residents[self@.cell_at(x, y)],
    {
        let cell = self.xy_to_index(x, y);
        let bucket = &self.residents[cell];
        let mut out: Vec<usize> = Vec::new();
        let mut i: usize = 0;
        while i < bucket.len()
            invariant
                i <= bucket.len(),
                out@ == bucket@.take(i as int),
            decreases bucket.len() - i,
        {
            out.push(bucket[i]);
            i += 1;
        }
        out
    }

    /// Replaces the chances that drive the systems.
    pub fn set_params(&mut self, params: Params)
        requires
            old(self).wf(),
        ensures
            final(self)@ == old(self)@.with_params(params),
            final(self).wf(),
    {
        self.params = params;
        proof {
            old(self)@.lemma_with_params_wf(params);
        }
    }

    /// Advances the clock by one day.
    pub fn time_system(&mut self)
        requires
            old(self).wf(),
            old(self).day < LAST_DAY,
        ensures
            final(self)@ == old(self)@.next_day(),
            final(self).wf(),
    {
        self.day += 1;
        proof {
            old(self)@.lemma_next_day_wf();
        }
    }
}

} // verus!
