//! The components an entity may carry, and the record that holds them.

use vstd::prelude::*;

verus! {

/// Where an entity stands: the index of its grid cell. Cells are numbered
/// from 1, row by row.
#[derive(Clone, Copy, PartialEq, Eq, Hash, Structural)]
pub struct Position(pub usize);

/// Marks an entity as alive.
#[derive(Clone, Copy)]
pub struct Life(pub bool);

/// Marks an entity as human.
#[derive(Clone, Copy)]
pub struct Human(pub bool);

/// The day on which an entity was born. Days before the start of the
/// simulation are valid, so that a seeded population can have an age.
#[derive(Clone, Copy)]
pub struct SpawnDate(pub i64);

/// What a forage patch yields.
#[derive(Clone, Copy)]
pub struct Forage(pub u8);

/// Marks an entity as male.
#[derive(Clone, Copy)]
pub struct Male(pub bool);

/// Marks an entity as female.
#[derive(Clone, Copy)]
pub struct Female(pub bool);

/// Marks a female as able to conceive.
#[derive(Clone, Copy)]
pub struct Fertile(pub bool);

/// A pregnancy, by the day on which the child is due.
#[derive(Clone, Copy)]
pub struct Pregnant(pub i64);

impl Default for Position {
    fn default() -> (p: Self)
        ensures
            p == Position(0),
    {
        Position(0)
    }
}

impl Default for Life {
    fn default() -> (l: Self)
        ensures
            l == Life(false),
    {
        Life(false)
    }
}

impl Default for Human {
    fn default() -> (h: Self)
        ensures
            h == Human(false),
    {
        Human(false)
    }
}

impl Default for SpawnDate {
    fn default() -> (d: Self)
        ensures
            d == SpawnDate(0),
    {
        SpawnDate(0)
    }
}

impl Default for Forage {
    fn default() -> (f: Self)
        ensures
            f == Forage(0),
    {
        Forage(0)
    }
}

impl Default for Male {
    fn default() -> (m: Self)
        ensures
            m == Male(false),
    {
        Male(false)
    }
}

impl Default for Female {
    fn default() -> (f: Self)
        ensures
            f == Female(false),
    {
        Female(false)
    }
}

impl Default for Fertile {
    fn default() -> (f: Self)
        ensures
            f == Fertile(false),
    {
        Fertile(false)
    }
}

impl Default for Pregnant {
    fn default() -> (p: Self)
        ensures
            p == Pregnant(0),
    {
        Pregnant(0)
    }
}

/// Everything the store holds about one entity, apart from its lineage.
/// A component that the entity lacks is `None`, or a marker that is `false`.
#[derive(Clone, Copy)]
pub struct Components {
    pub position: Option<Position>,
    pub life: Life,
    pub human: Human,
    pub spawn_date: Option<SpawnDate>,
    pub forage: Option<Forage>,
    pub male: Male,
    pub female: Female,
    pub fertile: Fertile,
    pub pregnant: Option<Pregnant>,
    pub mate: Option<usize>,
}

impl Components {
    /// The record of an entity without any component.
    pub open spec fn absent() -> Components {
        Components {
            position: None,
            life: Life(false),
            human: Human(false),
            spawn_date: None,
            forage: None,
            male: Male(false),
            female: Female(false),
            fertile: Fertile(false),
            pregnant: None,
            mate: None,
        }
    }

    /// The cell the entity stands in, or 0 where it has no position.
    pub open spec fn cell(self) -> usize {
        match self.position {
            Some(p) => p.0,
            None => 0,
        }
    }

    /// The entity's age in days on `day`, or 0 where it has no birth day.
    pub open spec fn age_on(self, day: int) -> int {
        match self.spawn_date {
            Some(d) => day - d.0,
            None => 0,
        }
    }

    /// A living human with a birth day.
    pub open spec fn is_person(self) -> bool {
        self.life.0 && self.human.0 && self.spawn_date.is_some()
    }

    /// The components fit together on `day`: at most one sex, a birth day
    /// that is not in the future, and not fertile and pregnant at once. A
    /// human is alive, has a sex and yields no forage. Who is fertile or
    /// pregnant is a woman, and who is pregnant has a position.
    pub open spec fn sound_on(self, day: int) -> bool {
        &&& !(self.male.0 && self.female.0)
        &&& (self.spawn_date matches Some(d) ==> d.0 <= day)
        &&& !(self.fertile.0 && self.pregnant.is_some())
        &&& (self.human.0 ==> self.life.0 && (self.male.0 || self.female.0)
            && self.forage.is_none())
        &&& (self.fertile.0 ==> self.human.0 && self.female.0)
        &&& (self.pregnant.is_some() ==> self.human.0 && self.female.0
            && self.position.is_some())
    }

    /// The record of an entity without any component.
    pub fn blank() -> (c: Components)
        ensures
            c == Components::absent(),
    {
        Components {
            position: None,
            life: Life(false),
            human: Human(false),
            spawn_date: None,
            forage: None,
            male: Male(false),
            female: Female(false),
            fertile: Fertile(false),
            pregnant: None,
            mate: None,
        }
    }
}

} // verus!
