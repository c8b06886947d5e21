//! The constants of the simulation and the chances computed from them.
//!
//! A chance is a whole number of parts per million. Whatever a parameter
//! holds, a chance is brought into the range from zero to one before a draw.

use vstd::prelude::*;

verus! {

/// One, as a chance in parts per million.
pub const PPM: u32 = 1_000_000;

/// The length of a year in days.
pub const DAYS_PER_YEAR: i64 = 365;

/// The day on which a new world starts.
pub const START_DAY: i64 = 36_500;

/// The last day the clock can show.
pub const LAST_DAY: i64 = 9_000_000_000_000_000_000;

/// The age from which a person may be paired, in days.
pub const MARRIAGE_AGE: i64 = 5_840;

/// The age from which a woman may become fertile, in days.
pub const FERTILE_FROM: i64 = 5_110;

/// The age from which a woman no longer becomes fertile, in days.
pub const FERTILE_UNTIL: i64 = 18_250;

/// The age from which a person without a mate moves alone, in days.
pub const INDEPENDENT_AGE: i64 = 5_110;

/// The shortest pregnancy, in days.
pub const GESTATION_MIN: u32 = 260;

/// The longest pregnancy, in days.
pub const GESTATION_MAX: u32 = 300;

/// The least a forage patch yields.
pub const BOUNTY_MIN: u8 = 1;

/// The most a forage patch yields.
pub const BOUNTY_MAX: u8 = 10;

/// The yield assumed for a cell without a forage patch.
pub const BOUNTY_DEFAULT: u8 = 1;

/// The chances that drive the systems, in parts per million.
#[derive(Clone, Copy)]
pub struct Params {
    /// A candidate pair becomes mates.
    pub pairing: u32,
    /// A woman without children becomes fertile on a given day.
    pub fertility: u32,
    /// A fertile woman with a mate conceives on a given day.
    pub conception: u32,
    /// A person alone in a cell moves.
    pub lonely_move: u32,
    /// A person moves from a cell that feeds its people.
    pub baseline_move: u32,
    /// Added to the baseline for each person the cell cannot feed.
    pub pressure_step: u32,
    /// The most that crowding adds to the baseline.
    pub pressure_cap: u32,
    /// A step on an axis goes toward the centre of the grid.
    pub drift: u32,
}

impl Params {
    /// The values a new world starts with.
    pub open spec fn standard_spec() -> Params {
        Params {
            pairing: 500_000,
            fertility: 15_000,
            conception: 15_000,
            lonely_move: 900_000,
            baseline_move: 10_000,
            pressure_step: 100_000,
            pressure_cap: 190_000,
            drift: 750_000,
        }
    }

    /// The values a new world starts with.
    #[verifier::when_used_as_spec(standard_spec)]
    pub fn standard() -> (p: Params)
        ensures
            p == Params::standard_spec(),
    {
        Params {
            pairing: 500_000,
            fertility: 15_000,
            conception: 15_000,
            lonely_move: 900_000,
            baseline_move: 10_000,
            pressure_step: 100_000,
            pressure_cap: 190_000,
            drift: 750_000,
        }
    }
}

/// A chance brought into the range from zero to one.
pub open spec fn clamped(ppm: int) -> int {
    if ppm < 0 {
        0
    } else if ppm > PPM {
        PPM as int
    } else {
        ppm
    }
}

/// The chance that a person moves from a cell with `humans` people and a
/// forage yield of `bounty`.
pub open spec fn move_chance_of(params: Params, humans: int, bounty: int) -> int {
    if humans == 1 {
        clamped(params.lonely_move as int)
    } else if humans - bounty <= 0 {
        clamped(params.baseline_move as int)
    } else {
        let linear = (humans - bounty) * params.pressure_step;
        let added = if linear < params.pressure_cap { linear } else { params.pressure_cap as int };
        clamped(params.baseline_move + added)
    }
}

/// The chance that a woman with `children` children becomes fertile: the
/// base chance divided by half the number of her children, where that is
/// more than one.
pub open spec fn fertility_chance_of(params: Params, children: int) -> int {
    let divisor = if children / 2 < 1 { 1 } else { children / 2 };
    clamped(params.fertility as int) / divisor
}

/// The hazard at an age of `years` whole years, from a table that holds one
/// hazard per year of age in parts per million. Beyond its end the table's
/// last entry holds; an empty table is a hazard of zero.
pub open spec fn hazard_of(table: Seq<i64>, years: int) -> int {
    if table.len() == 0 || years < 0 {
        0
    } else if years < table.len() {
        table[years] as int
    } else {
        table[table.len() - 1] as int
    }
}

/// A chance brought into the range from zero to one.
pub fn clamp_ppm(ppm: u32) -> (c: u32)
    ensures
        c == clamped(ppm as int),
        c <= PPM,
{
    if ppm > PPM {
        PPM
    } else {
        ppm
    }
}

/// The chance of death for a hazard in parts per million, which may lie
/// below zero or above one.
pub fn death_chance(hazard: i64) -> (c: u32)
    ensures
        c == clamped(hazard as int),
{
    if hazard < 0 {
        0
    } else if hazard > 1_000_000 {
        PPM
    } else {
        hazard as u32
    }
}

/// The hazard at an age of `years` whole years, from a table that holds one
/// hazard per year of age. Beyond its end the table's last entry holds.
pub fn hazard_at(table: &Vec<i64>, years: u64) -> (h: i64)
    ensures
        h == hazard_of(table@, years as int),
{
    if table.len() == 0 {
        0
    } else if years < table.len() as u64 {
        table[years as usize]
    } else {
        table[table.len() - 1]
    }
}

/// The chance that a person moves from a cell with `humans` people and a
/// forage yield of `bounty`, in parts per million.
pub fn move_chance(params: &Params, humans: usize, bounty: u8) -> (c: u32)
    ensures
        c == move_chance_of(*params, humans as int, bounty as int),
        c <= PPM,
{
    if humans == 1 {
        clamp_ppm(params.lonely_move)
    } else if humans <= bounty as usize {
        clamp_ppm(params.baseline_move)
    } else {
        let pressure: u128 = (humans - bounty as usize) as u128;
        assert(pressure * (params.pressure_step as u128) <= 0xffff_ffff_ffff_ffff * 0xffff_ffff)
            by (nonlinear_arith)
            requires
                0 <= pressure <= 0xffff_ffff_ffff_ffff,
                0 <= params.pressure_step <= 0xffff_ffff,
        ;
        let linear: u128 = pressure * (params.pressure_step as u128);
        let added: u32 = if linear < params.pressure_cap as u128 {
            linear as u32
        } else {
            params.pressure_cap
        };
        let total: u64 = params.baseline_move as u64 + added as u64;
        if total > 1_000_000 {
            PPM
        } else {
            total as u32
        }
    }
}

/// The chance that a woman with `children` children becomes fertile, in
/// parts per million.
pub fn fertility_chance(params: &Params, children: usize) -> (c: u32)
    ensures
        c == fertility_chance_of(*params, children as int),
        c <= PPM,
{
    let half: usize = children / 2;
    let divisor: usize = if half < 1 { 1 } else { half };
    let base: u32 = clamp_ppm(params.fertility);
    if divisor > base as usize {
        assert(base as int / divisor as int == 0) by (nonlinear_arith)
            requires
                0 <= base < divisor,
        ;
        0
    } else {
        assert(base as int / divisor as int <= base) by (nonlinear_arith)
            requires
                0 <= base,
                1 <= divisor,
        ;
        base / (divisor as u32)
    }
}

} // verus!
