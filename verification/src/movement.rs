//! The movement system: who may move, where a move leads, and what a batch
//! of moves does to the world.

use crate::components::{Components, Position};
use crate::model::WorldView;
use crate::params::{
    move_chance, move_chance_of, BOUNTY_DEFAULT, BOUNTY_MAX, BOUNTY_MIN, INDEPENDENT_AGE, PPM,
};
use crate::random::{chance, draw_bounty};
use crate::seqs::{lemma_filter_none, lemma_filter_step};
use crate::world::{get_age, World};
use vstd::prelude::*;

verus! {

/// Someone who may set out today.
#[derive(Clone, Copy)]
pub struct Mover {
    pub entity: usize,
    /// The cell the mover was found in.
    pub from: usize,
    /// The chance that the mover sets out, in parts per million.
    pub chance: u32,
    /// The mover takes mate and children along; else only the children.
    pub family: bool,
}

/// The move of one entity to column `x` of row `y`.
#[derive(Clone, Copy)]
pub struct Move {
    pub entity: usize,
    pub x: usize,
    pub y: usize,
}

/// The coordinate next to `coord` that a step leads to, on an axis with the
/// coordinates from 0 up to `extent`. A favoured step goes toward the centre
/// of the axis, an unfavoured one away from it; at the centre the favoured
/// step goes up. A step that would leave the axis goes inward instead, and
/// on an axis of one coordinate nothing moves.
pub open spec fn stepped(coord: int, extent: int, favoured: bool) -> int {
    let centre = extent / 2;
    let up = if coord < centre {
        favoured
    } else if coord > centre {
        !favoured
    } else {
        favoured
    };
    if extent <= 1 {
        coord
    } else if coord <= 0 {
        coord + 1
    } else if coord >= extent - 1 {
        coord - 1
    } else if up {
        coord + 1
    } else {
        coord - 1
    }
}

/// The coordinate next to `coord` that a step leads to, on an axis with the
/// coordinates from 0 up to `extent`.
pub fn step(coord: usize, extent: usize, favoured: bool) -> (next: usize)
    requires
        coord < extent,
    ensures
        next == stepped(coord as int, extent as int, favoured),
        next < extent,
{
    let centre: usize = extent / 2;
    let up: bool = if coord < centre {
        favoured
    } else if coord > centre {
        !favoured
    } else {
        favoured
    };
    if extent <= 1 {
        coord
    } else if coord == 0 {
        coord + 1
    } else if coord >= extent - 1 {
        coord - 1
    } else if up {
        coord + 1
    } else {
        coord - 1
    }
}

/// `target` is a cell that one step on each axis leads to from column `x`
/// of row `y`.
pub open spec fn one_step(x: int, y: int, width: int, height: int, target: (usize, usize)) -> bool {
    exists|fx: bool, fy: bool|
        target.0 == #[trigger] stepped(x, width, fx) && target.1 == #[trigger] stepped(
            y,
            height,
            fy,
        )
}

/// `target` is a cell that the draws for a move from column `x` of row `y`
/// can give, where a step goes toward the centre with the chance `drift`:
/// one step on each axis. On an axis that is not at its centre the step is
/// the favoured one where the drift is certain, and the unfavoured one where
/// there is no drift.
pub open spec fn drift_step(
    x: int,
    y: int,
    width: int,
    height: int,
    drift: u32,
    target: (usize, usize),
) -> bool {
    &&& one_step(x, y, width, height, target)
    &&& drift >= PPM && x != width / 2 ==> target.0 == stepped(x, width, true)
    &&& drift == 0 && x != width / 2 ==> target.0 == stepped(x, width, false)
    &&& drift >= PPM && y != height / 2 ==> target.1 == stepped(y, height, true)
    &&& drift == 0 && y != height / 2 ==> target.1 == stepped(y, height, false)
}

/// Draws the cell that a move from column `x` of row `y` leads to: on each
/// axis one step, which goes toward the centre with the chance `drift`, or
/// either way with equal chance where the axis is at its centre.
pub fn generate_random_move(
    rng: &mut rand::rngs::ThreadRng,
    drift: u32,
    x: usize,
    y: usize,
    width: usize,
    height: usize,
) -> (target: (usize, usize))
    requires
        x < width,
        y < height,
    ensures
        drift_step(x as int, y as int, width as int, height as int, drift, target),
        target.0 < width,
        target.1 < height,
{
    let favoured_x: bool = if x == width / 2 {
        chance(rng, PPM / 2)
    } else {
        chance(rng, drift)
    };
    let favoured_y: bool = if y == height / 2 {
        chance(rng, PPM / 2)
    } else {
        chance(rng, drift)
    };
    let move_x = step(x, width, favoured_x);
    let move_y = step(y, height, favoured_y);
    (move_x, move_y)
}

impl WorldView {
    /// `e` is alive and human.
    pub open spec fn living_human(self, e: usize) -> bool {
        e < self.store.len() && self.store[e as int].life.0 && self.store[e as int].human.0
    }

    /// `e` is a forage patch.
    pub open spec fn is_patch(self, e: usize) -> bool {
        e < self.store.len() && self.store[e as int].forage.is_some()
    }

    /// `e` heads a family: a living man with a mate.
    pub open spec fn family_head(self, e: usize) -> bool {
        self.living_human(e) && self.store[e as int].male.0 && self.store[e as int].mate.is_some()
    }

    /// `e` is on its own: a living human without a mate, old enough to
    /// move alone.
    pub open spec fn unattached(self, e: usize) -> bool {
        self.living_human(e) && self.store[e as int].mate.is_none()
            && self.store[e as int].spawn_date.is_some() && self.age(e) >= INDEPENDENT_AGE
    }

    /// `living_human`, as a predicate for a filter.
    pub open spec fn human_pred(self) -> spec_fn(usize) -> bool {
        |e: usize| self.living_human(e)
    }

    /// `is_patch`, as a predicate for a filter.
    pub open spec fn patch_pred(self) -> spec_fn(usize) -> bool {
        |e: usize| self.is_patch(e)
    }

    /// `family_head`, as a predicate for a filter.
    pub open spec fn head_pred(self) -> spec_fn(usize) -> bool {
        |e: usize| self.family_head(e)
    }

    /// `unattached`, as a predicate for a filter.
    pub open spec fn single_pred(self) -> spec_fn(usize) -> bool {
        |e: usize| self.unattached(e)
    }

    /// The number of living humans in `cell`.
    pub open spec fn humans_in(self, cell: usize) -> nat {
        self.residents[cell as int].filter(self.human_pred()).len()
    }

    /// The yield of the forage patch in `cell`: of the first, if there are
    /// several, and the default where there is none.
    pub open spec fn bounty_in(self, cell: usize) -> int {
        let patches = self.residents[cell as int].filter(self.patch_pred());
        if patches.len() > 0 {
            self.store[patches[0] as int].forage.unwrap().0 as int
        } else {
            BOUNTY_DEFAULT as int
        }
    }

    /// The chance with which someone in `cell` sets out.
    pub open spec fn move_chance_in(self, cell: usize) -> int {
        move_chance_of(self.params, self.humans_in(cell) as int, self.bounty_in(cell))
    }

    /// Makes a mover of `cell` from an entity.
    pub open spec fn mover_of(self, cell: usize, family: bool) -> spec_fn(usize) -> Mover {
        |e: usize|
            Mover { entity: e, from: cell, chance: self.move_chance_in(cell) as u32, family }
    }

    /// Those who may set out from `cell`: first the heads of families, then
    /// those on their own, each group in the order of the cell's residents.
    pub open spec fn movers_in(self, cell: usize) -> Seq<Mover> {
        self.residents[cell as int].filter(self.head_pred()).map_values(self.mover_of(cell, true))
            + self.residents[cell as int].filter(self.single_pred()).map_values(
            self.mover_of(cell, false),
        )
    }

    /// Those who may set out from the first `n` cells.
    pub open spec fn movers_upto(self, n: nat) -> Seq<Mover>
        decreases n,
    {
        if n == 0 {
            Seq::empty()
        } else {
            self.movers_upto((n - 1) as nat) + self.movers_in(n as usize)
        }
    }

    /// Those who may set out today, cell by cell.
    pub open spec fn movers(self) -> Seq<Mover> {
        self.movers_upto(self.cells())
    }

    /// Those who go when `m` sets out: the mover, then the mate of the head
    /// of a family, then the mover's children on record.
    pub open spec fn party(self, m: Mover) -> Seq<usize> {
        if !self.issued(m.entity) {
            Seq::empty()
        } else if m.family {
            seq![m.entity] + self.mate_list(m.entity) + self.children[m.entity as int]
        } else {
            seq![m.entity] + self.children[m.entity as int]
        }
    }

    /// The moves that `m` causes: the whole party goes to `target`, or
    /// nobody moves where there is none.
    pub open spec fn moves_of(self, m: Mover, target: Option<(usize, usize)>) -> Seq<Move> {
        match target {
            Some(t) => self.party(m).map_values(to_target(t)),
            None => Seq::empty(),
        }
    }

    /// The batch of moves for the given movers, where `targets` holds for
    /// each mover the cell it sets out to, if it does.
    pub open spec fn planned(
        self,
        movers: Seq<Mover>,
        targets: Seq<Option<(usize, usize)>>,
    ) -> Seq<Move>
        decreases movers.len(),
    {
        if movers.len() == 0 {
            Seq::empty()
        } else {
            self.planned(movers.drop_last(), targets) + self.moves_of(
                movers.last(),
                target_at(targets, movers.len() - 1),
            )
        }
    }

    /// The world after one move of a batch. A move to a cell outside the
    /// grid does not happen.
    pub open spec fn relocated_to(self, mv: Move, bounty: u8) -> WorldView {
        if self.in_grid(mv.x, mv.y) {
            self.relocated(mv.entity, self.cell_at(mv.x, mv.y) as usize, bounty)
        } else {
            self
        }
    }

    /// The world after a batch of moves, made one after the other, where
    /// `bounties` holds for each move the yield of the forage patch that
    /// appears if the move leaves a cell empty.
    pub open spec fn moved(self, moves: Seq<Move>, bounties: Seq<u8>) -> WorldView
        decreases moves.len(),
    {
        if moves.len() == 0 {
            self
        } else {
            self.moved(moves.drop_last(), bounties).relocated_to(
                moves.last(),
                bounty_at(bounties, moves.len() - 1),
            )
        }
    }

    /// Every mover was found in a cell of the grid.
    pub proof fn lemma_movers_from(self, i: int)
        requires
            self.cells() <= usize::MAX,
            0 <= i < self.movers().len(),
        ensures
            self.is_cell(self.movers()[i].from),
    {
        self.lemma_movers_upto_from(self.cells(), i);
    }

    proof fn lemma_movers_upto_from(self, n: nat, i: int)
        requires
            n <= usize::MAX,
            0 <= i < self.movers_upto(n).len(),
        ensures
            1 <= self.movers_upto(n)[i].from <= n,
        decreases n,
    {
        if n > 0 {
            let front = self.movers_upto((n - 1) as nat);
            if i < front.len() {
                self.lemma_movers_upto_from((n - 1) as nat, i);
            }
        }
    }

    /// `targets` holds what the draws of a day can give for the movers of
    /// this world: for each mover one entry, which is a cell one step from
    /// the mover's own as the drift allows, none for a mover that has no
    /// chance to set out, and some cell for a mover that is certain to.
    pub open spec fn targets_ok(self, targets: Seq<Option<(usize, usize)>>) -> bool {
        &&& targets.len() == self.movers().len()
        &&& forall|i: int|
            0 <= i < targets.len() ==> match #[trigger] targets[i] {
                Some(t) => {
                    &&& self.movers()[i].chance > 0
                    &&& self.in_grid(t.0, t.1)
                    &&& drift_step(
                        self.column_of(self.movers()[i].from),
                        self.row_of(self.movers()[i].from),
                        self.width as int,
                        self.height as int,
                        self.params.drift,
                        t,
                    )
                },
                None => self.movers()[i].chance < PPM,
            }
    }
}

/// The yields `bounties` are such as a new forage patch can have.
pub open spec fn bounties_ok(bounties: Seq<u8>) -> bool {
    forall|i: int| 0 <= i < bounties.len() ==> BOUNTY_MIN <= #[trigger] bounties[i] <= BOUNTY_MAX
}

/// Makes the move to `t` from an entity.
pub open spec fn to_target(t: (usize, usize)) -> spec_fn(usize) -> Move {
    |e: usize| Move { entity: e, x: t.0, y: t.1 }
}

/// The target of the mover at index `i`, or none where `targets` is too
/// short.
pub open spec fn target_at(targets: Seq<Option<(usize, usize)>>, i: int) -> Option<(usize, usize)> {
    if 0 <= i < targets.len() {
        targets[i]
    } else {
        None
    }
}

/// The yield for the move at index `i`, or the default where `bounties` is
/// too short.
pub open spec fn bounty_at(bounties: Seq<u8>, i: int) -> u8 {
    if 0 <= i < bounties.len() {
        bounties[i]
    } else {
        BOUNTY_DEFAULT
    }
}

impl World {
    fn is_living_human(&self, e: usize) -> (b: bool)
        ensures
            b == self@.living_human(e),
    {
        e < self.store.len() && self.store[e].life.0 && self.store[e].human.0
    }

    fn is_family_head(&self, e: usize) -> (b: bool)
        ensures
            b == self@.family_head(e),
    {
        self.is_living_human(e) && self.store[e].male.0 && self.store[e].mate.is_some()
    }

    fn is_unattached(&self, e: usize) -> (b: bool)
        requires
            self.wf(),
        ensures
            b == self@.unattached(e),
    {
        if self.is_living_human(e) && self.store[e].mate.is_none() {
            match self.store[e].spawn_date {
                Some(d) => {
                    assert(self@.record_ok(e));
                    get_age(self.day, d.0) >= INDEPENDENT_AGE as u64
                },
                None => false,
            }
        } else {
            false
        }
    }

    /// The number of living humans in `cell`.
    pub fn count_humans(&self, cell: usize) -> (n: usize)
        requires
            cell < self.residents.len(),
        ensures
            n == self@.humans_in(cell),
    {
        let bucket = &self.residents[cell];
        let mut n: usize = 0;
        let mut i: usize = 0;
        proof {
            lemma_filter_none(bucket@, self@.human_pred());
        }
        while i < bucket.len()
            invariant
                i <= bucket.len(),
                n <= i,
                cell < self.residents.len(),
                bucket@ == self@.residents[cell as int],
                n == bucket@.take(i as int).filter(self@.human_pred()).len(),
            decreases bucket.len() - i,
        {
            proof {
                lemma_filter_step(bucket@, self@.human_pred(), i as int);
            }
            if self.is_living_human(bucket[i]) {
                n += 1;
            }
            i += 1;
        }
        proof {
            lemma_filter_none(bucket@, self@.human_pred());
        }
        n
    }

    /// The yield of the forage patch in `cell`, or the default where there
    /// is none.
    pub fn cell_bounty(&self, cell: usize) -> (bounty: u8)
        requires
            cell < self.residents.len(),
        ensures
            bounty == self@.bounty_in(cell),
    {
        let bucket = &self.residents[cell];
        let mut i: usize = 0;
        proof {
            lemma_filter_none(bucket@, self@.patch_pred());
        }
        while i < bucket.len()
            invariant
                i <= bucket.len(),
                cell < self.residents.len(),
                bucket@ == self@.residents[cell as int],
                bucket@.take(i as int).filter(self@.patch_pred()).len() == 0,
            decreases bucket.len() - i,
        {
            let e = bucket[i];
            proof {
                lemma_filter_step(bucket@, self@.patch_pred(), i as int);
            }
            if e < self.store.len() {
                match self.store[e].forage {
                    Some(f) => {
                        proof {
                            let front = bucket@.take(i as int + 1);
                            let back = bucket@.skip(i as int + 1);
                            assert(bucket@ =~= front + back);
                            Seq::filter_distributes_over_add(front, back, self@.patch_pred());
                        }
                        return f.0;
                    },
                    None => {},
                }
            }
            i += 1;
        }
        proof {
            lemma_filter_none(bucket@, self@.patch_pred());
        }
        BOUNTY_DEFAULT
    }

    /// Those who may set out today, with the chance of each.
    pub fn movers(&self) -> (out: Vec<Mover>)
        requires
            self.wf(),
        ensures
            out@ == self@.movers(),
    {
        let mut out: Vec<Mover> = Vec::new();
        let mut cell: usize = 1;
        while cell < self.residents.len()
            invariant
                self.wf(),
                1 <= cell <= self.residents.len(),
                out@ == self@.movers_upto((cell - 1) as nat),
            decreases self.residents.len() - cell,
        {
            let humans = self.count_humans(cell);
            let bounty = self.cell_bounty(cell);
            let odds = move_chance(&self.params, humans, bounty);
            let bucket = &self.residents[cell];
            let ghost before = out@;
            let ghost as_head = self@.mover_of(cell, true);
            let ghost as_single = self@.mover_of(cell, false);
            let mut i: usize = 0;
            proof {
                lemma_filter_none(bucket@, self@.head_pred());
            }
            while i < bucket.len()
                invariant
                    i <= bucket.len(),
                    cell < self.residents.len(),
                    bucket@ == self@.residents[cell as int],
                    odds == self@.move_chance_in(cell),
                    as_head == self@.mover_of(cell, true),
                    out@ == before + bucket@.take(i as int).filter(self@.head_pred()).map_values(
                        as_head,
                    ),
                decreases bucket.len() - i,
            {
                let e = bucket[i];
                proof {
                    lemma_filter_step(bucket@, self@.head_pred(), i as int);
                }
                if self.is_family_head(e) {
                    out.push(Mover { entity: e, from: cell, chance: odds, family: true });
                }
                i += 1;
            }
            let ghost heads = out@;
            let mut j: usize = 0;
            proof {
                lemma_filter_none(bucket@, self@.head_pred());
                lemma_filter_none(bucket@, self@.single_pred());
            }
            while j < bucket.len()
                invariant
                    self.wf(),
                    j <= bucket.len(),
                    cell < self.residents.len(),
                    bucket@ == self@.residents[cell as int],
                    odds == self@.move_chance_in(cell),
                    as_single == self@.mover_of(cell, false),
                    out@ == heads + bucket@.take(j as int).filter(self@.single_pred()).map_values(
                        as_single,
                    ),
                decreases bucket.len() - j,
            {
                let e = bucket[j];
                proof {
                    lemma_filter_step(bucket@, self@.single_pred(), j as int);
                }
                if self.is_unattached(e) {
                    out.push(Mover { entity: e, from: cell, chance: odds, family: false });
                }
                j += 1;
            }
            proof {
                lemma_filter_none(bucket@, self@.single_pred());
            }
            cell += 1;
        }
        out
    }

    /// The batch of moves for the given movers, where `targets` holds for
    /// each mover the cell it sets out to, if it does.
    pub fn plan_moves(&self, movers: &Vec<Mover>, targets: &Vec<Option<(usize, usize)>>) -> (moves:
        Vec<Move>)
        requires
            self.wf(),
        ensures
            moves@ == self@.planned(movers@, targets@),
    {
        let mut moves: Vec<Move> = Vec::new();
        let mut i: usize = 0;
        while i < movers.len()
            invariant
                self.wf(),
                i <= movers.len(),
                moves@ == self@.planned(movers@.take(i as int), targets@),
            decreases movers.len() - i,
        {
            let m = movers[i];
            let ghost before = moves@;
            proof {
                assert(movers@.take(i as int + 1).drop_last() =~= movers@.take(i as int));
            }
            if i < targets.len() && m.entity >= 1 && m.entity < self.store.len() {
                match targets[i] {
                    Some(t) => {
                        let ghost go = to_target(t);
                        moves.push(Move { entity: m.entity, x: t.0, y: t.1 });
                        if m.family {
                            match self.store[m.entity].mate {
                                Some(mate) => {
                                    moves.push(Move { entity: mate, x: t.0, y: t.1 });
                                },
                                None => {},
                            }
                        }
                        let ghost lead = if m.family {
                            seq![m.entity] + self@.mate_list(m.entity)
                        } else {
                            seq![m.entity]
                        };
                        let children = &self.children[m.entity];
                        let mut k: usize = 0;
                        while k < children.len()
                            invariant
                                k <= children.len(),
                                children@ == self@.children[m.entity as int],
                                go == to_target(t),
                                moves@ == before + (lead + children@.take(k as int)).map_values(go),
                            decreases children.len() - k,
                        {
                            moves.push(Move { entity: children[k], x: t.0, y: t.1 });
                            k += 1;
                        }
                    },
                    None => {},
                }
            }
            i += 1;
        }
        assert(movers@.take(movers@.len() as int) =~= movers@);
        moves
    }

    /// Makes a batch of moves, one after the other. `bounties` holds for
    /// each move the yield of the forage patch that appears if the move
    /// leaves a cell empty.
    pub fn apply_moves(&mut self, moves: &Vec<Move>, bounties: &Vec<u8>)
        requires
            old(self).wf(),
        ensures
            final(self)@ == old(self)@.moved(moves@, bounties@),
            final(self).wf(),
    {
        let mut i: usize = 0;
        while i < moves.len()
            invariant
                self.wf(),
                i <= moves.len(),
                self@ == old(self)@.moved(moves@.take(i as int), bounties@),
            decreases moves.len() - i,
        {
            let mv = moves[i];
            let bounty: u8 = if i < bounties.len() {
                bounties[i]
            } else {
                BOUNTY_DEFAULT
            };
            proof {
                assert(moves@.take(i as int + 1).drop_last() =~= moves@.take(i as int));
            }
            if mv.x < self.world_width && mv.y < self.world_height {
                self.relocate(mv.entity, mv.x, mv.y, bounty);
            }
            i += 1;
        }
        assert(moves@.take(moves@.len() as int) =~= moves@);
    }

    /// The movement system. From each cell the heads of families and those
    /// on their own set out with a chance that grows with the cell's
    /// crowding; a head takes mate and children along, the others their
    /// children. Each who sets out goes one step on each axis, drifting
    /// toward the centre of the grid. All moves are decided on the world as
    /// it is and made afterwards.
    pub fn move_system(&mut self)
        requires
            old(self).wf(),
        ensures
            final(self).wf(),
            exists|targets: Seq<Option<(usize, usize)>>, bounties: Seq<u8>|
                old(self)@.targets_ok(targets) && bounties_ok(bounties) && final(self)@
                    == #[trigger] old(self)@.moved(
                    old(self)@.planned(old(self)@.movers(), targets),
                    bounties,
                ),
            only_moved(old(self)@, final(self)@),
    {
        let mut rng = rand::thread_rng();
        let movers = self.movers();
        let mut targets: Vec<Option<(usize, usize)>> = Vec::new();
        let mut i: usize = 0;
        while i < movers.len()
            invariant
                self.wf(),
                self@ == old(self)@,
                movers@ == self@.movers(),
                i <= movers.len(),
                targets@.len() == i,
                forall|k: int|
                    0 <= k < i ==> match #[trigger] targets@[k] {
                        Some(t) => {
                            &&& movers@[k].chance > 0
                            &&& self@.in_grid(t.0, t.1)
                            &&& drift_step(
                                self@.column_of(movers@[k].from),
                                self@.row_of(movers@[k].from),
                                self@.width as int,
                                self@.height as int,
                                self@.params.drift,
                                t,
                            )
                        },
                        None => movers@[k].chance < PPM,
                    },
            decreases movers.len() - i,
        {
            let m = movers[i];
            let mut target: Option<(usize, usize)> = None;
            if m.from >= 1 && m.from < self.residents.len() && chance(&mut rng, m.chance) {
                let (x, y) = self.index_to_xy(m.from);
                target = Some(
                    generate_random_move(
                        &mut rng,
                        self.params.drift,
                        x,
                        y,
                        self.world_width,
                        self.world_height,
                    ),
                );
            } else {
                proof {
                    self@.lemma_movers_from(i as int);
                }
            }
            targets.push(target);
            i += 1;
        }
        let moves = self.plan_moves(&movers, &targets);
        let mut bounties: Vec<u8> = Vec::new();
        let mut k: usize = 0;
        while k < moves.len()
            invariant
                k <= moves.len(),
                bounties@.len() == k,
                bounties_ok(bounties@),
            decreases moves.len() - k,
        {
            let bounty = draw_bounty(&mut rng);
            bounties.push(bounty);
            k += 1;
        }
        self.apply_moves(&moves, &bounties);
        proof {
            lemma_moved(old(self)@, moves@, bounties@);
        }
    }
}

/// `later` has come from `w` by moves alone: those who were there are as
/// they were but for their position, which none has gained or lost, the
/// lineage records are the same, and whoever is new is a forage patch.
pub open spec fn only_moved(w: WorldView, later: WorldView) -> bool {
    &&& later.same_frame(w)
    &&& later.store.len() >= w.store.len()
    &&& later.parents.len() == later.store.len()
    &&& later.children.len() == later.store.len()
    &&& forall|e: usize|
        e < w.store.len() ==> {
            &&& #[trigger] later.store[e as int] == (Components {
                position: later.store[e as int].position,
                ..w.store[e as int]
            })
            &&& later.store[e as int].position.is_some() == w.store[e as int].position.is_some()
            &&& later.parents[e as int] == w.parents[e as int]
            &&& later.children[e as int] == w.children[e as int]
        }
    &&& forall|e: usize|
        w.store.len() <= e < later.store.len() ==> {
            &&& (#[trigger] later.store[e as int]).forage.is_some()
            &&& later.store[e as int] == WorldView::resource_record(
                later.store[e as int].cell(),
                later.store[e as int].forage.unwrap().0,
            )
            &&& later.parents[e as int] == Seq::<usize>::empty()
            &&& later.children[e as int] == Seq::<usize>::empty()
        }
}

/// One move changes nothing but positions, and what it adds is a forage
/// patch. An entity that moves stands in the cell it moved to.
pub proof fn lemma_relocated(w: WorldView, e: usize, cell: usize, bounty: u8)
    requires
        w.wf(),
        w.is_cell(cell),
    ensures
        w.relocated(e, cell, bounty).wf(),
        only_moved(w, w.relocated(e, cell, bounty)),
        w.issued(e) && w.store[e as int].position.is_some() ==> w.relocated(
            e,
            cell,
            bounty,
        ).store[e as int].position == Some(Position(cell)),
{
    w.lemma_relocated_wf(e, cell, bounty);
}

/// What the movement system leaves behind, whatever was drawn: a
/// well-formed world in which nothing but positions has changed, and what
/// was added are forage patches.
pub proof fn lemma_moved(w: WorldView, moves: Seq<Move>, bounties: Seq<u8>)
    requires
        w.wf(),
    ensures
        w.moved(moves, bounties).wf(),
        only_moved(w, w.moved(moves, bounties)),
    decreases moves.len(),
{
    if moves.len() > 0 {
        let before = w.moved(moves.drop_last(), bounties);
        lemma_moved(w, moves.drop_last(), bounties);
        let mv = moves.last();
        let bounty = bounty_at(bounties, moves.len() - 1);
        if before.in_grid(mv.x, mv.y) {
            before.lemma_cell_at(mv.x, mv.y);
            let cell = before.cell_at(mv.x, mv.y) as usize;
            lemma_relocated(before, mv.entity, cell, bounty);
        }
    }
}

} // verus!
