use popsim::movement::step;
use popsim::params::{
    clamp_ppm, death_chance, fertility_chance, hazard_at, move_chance, Params,
};
use popsim::stats::Census;
use popsim::world::{get_age, World};

#[test]
fn the_standard_parameters() {
    let p = Params::standard();
    assert_eq!(p.pairing, 500_000);
    assert_eq!(p.fertility, 15_000);
    assert_eq!(p.conception, 15_000);
    assert_eq!(p.lonely_move, 900_000);
    assert_eq!(p.baseline_move, 10_000);
    assert_eq!(p.pressure_step, 100_000);
    assert_eq!(p.pressure_cap, 190_000);
    assert_eq!(p.drift, 750_000);
}

#[test]
fn a_chance_is_at_most_one() {
    assert_eq!(clamp_ppm(0), 0);
    assert_eq!(clamp_ppm(999_999), 999_999);
    assert_eq!(clamp_ppm(1_000_000), 1_000_000);
    assert_eq!(clamp_ppm(1_000_001), 1_000_000);
    assert_eq!(clamp_ppm(u32::MAX), 1_000_000);
}

#[test]
fn a_hazard_is_brought_between_zero_and_one() {
    assert_eq!(death_chance(i64::MIN), 0);
    assert_eq!(death_chance(-1), 0);
    assert_eq!(death_chance(0), 0);
    assert_eq!(death_chance(123_456), 123_456);
    assert_eq!(death_chance(1_000_000), 1_000_000);
    assert_eq!(death_chance(2_000_000), 1_000_000);
    assert_eq!(death_chance(i64::MAX), 1_000_000);
}

#[test]
fn the_hazard_table_by_year() {
    let table: Vec<i64> = vec![10, 20, 30];
    assert_eq!(hazard_at(&table, 0), 10);
    assert_eq!(hazard_at(&table, 2), 30);
    assert_eq!(hazard_at(&table, 3), 30);
    assert_eq!(hazard_at(&table, u64::MAX), 30);
    assert_eq!(hazard_at(&Vec::new(), 5), 0);
}

#[test]
fn the_chance_to_move() {
    let p = Params::standard();
    assert_eq!(move_chance(&p, 1, 10), 900_000);
    assert_eq!(move_chance(&p, 1, 0), 900_000);
    assert_eq!(move_chance(&p, 0, 1), 10_000);
    assert_eq!(move_chance(&p, 3, 5), 10_000);
    assert_eq!(move_chance(&p, 3, 3), 10_000);
    assert_eq!(move_chance(&p, 3, 2), 110_000);
    assert_eq!(move_chance(&p, 4, 2), 200_000);
    assert_eq!(move_chance(&p, 50, 1), 200_000);
    assert_eq!(move_chance(&p, usize::MAX, 0), 200_000);
    let wild = Params {
        lonely_move: 5_000_000,
        baseline_move: 990_000,
        pressure_step: u32::MAX,
        pressure_cap: u32::MAX,
        ..p
    };
    assert_eq!(move_chance(&wild, 1, 1), 1_000_000);
    assert_eq!(move_chance(&wild, 2, 1), 1_000_000);
    assert_eq!(move_chance(&wild, 2, 2), 990_000);
}

#[test]
fn the_chance_to_become_fertile() {
    let p = Params::standard();
    assert_eq!(fertility_chance(&p, 0), 15_000);
    assert_eq!(fertility_chance(&p, 1), 15_000);
    assert_eq!(fertility_chance(&p, 2), 15_000);
    assert_eq!(fertility_chance(&p, 3), 15_000);
    assert_eq!(fertility_chance(&p, 4), 7_500);
    assert_eq!(fertility_chance(&p, 5), 7_500);
    assert_eq!(fertility_chance(&p, 6), 5_000);
    assert_eq!(fertility_chance(&p, 14), 2_142);
    assert_eq!(fertility_chance(&p, 40_000), 0);
    assert_eq!(fertility_chance(&p, usize::MAX), 0);
    let sure = Params { fertility: 3_000_000, ..p };
    assert_eq!(fertility_chance(&sure, 0), 1_000_000);
    assert_eq!(fertility_chance(&sure, 4), 500_000);
}

#[test]
fn a_step_on_an_axis() {
    // below the centre a favoured step goes up
    assert_eq!(step(10, 100, true), 11);
    assert_eq!(step(10, 100, false), 9);
    // above the centre a favoured step goes down
    assert_eq!(step(70, 100, true), 69);
    assert_eq!(step(70, 100, false), 71);
    // at the centre a favoured step goes up
    assert_eq!(step(50, 100, true), 51);
    assert_eq!(step(50, 100, false), 49);
    // at the edges every step goes inward
    assert_eq!(step(0, 100, true), 1);
    assert_eq!(step(0, 100, false), 1);
    assert_eq!(step(99, 100, true), 98);
    assert_eq!(step(99, 100, false), 98);
    // small axes
    assert_eq!(step(0, 1, true), 0);
    assert_eq!(step(0, 1, false), 0);
    assert_eq!(step(0, 2, false), 1);
    assert_eq!(step(1, 2, true), 0);
    assert_eq!(step(1, 3, true), 2);
    assert_eq!(step(1, 3, false), 0);
}

#[test]
fn an_age_in_days() {
    assert_eq!(get_age(36_500, 36_500), 0);
    assert_eq!(get_age(36_500, 0), 36_500);
    assert_eq!(get_age(10, -10), 20);
    assert_eq!(get_age(i64::MAX, i64::MIN), u64::MAX);
}

#[test]
fn cells_are_numbered_row_by_row_from_one() {
    let world = World::new(3, 5);
    assert_eq!(world.xy_to_index(0, 0), 1);
    assert_eq!(world.xy_to_index(4, 0), 5);
    assert_eq!(world.xy_to_index(0, 1), 6);
    assert_eq!(world.xy_to_index(4, 2), 15);
    for cell in 1..=15 {
        let (x, y) = world.index_to_xy(cell);
        assert!(x < 5 && y < 3);
        assert_eq!(world.xy_to_index(x, y), cell);
    }
    assert_eq!(world.index_to_xy(7), (1, 1));
}

#[test]
fn the_mean_age_and_the_head_counts() {
    let mut world = World::new(4, 4);
    assert_eq!(world.average_human_age(), 0);
    let today = world.day;
    let a = world.spawn_person(0, 0, today - 100, "male".to_string());
    let b = world.spawn_person(0, 0, today - 201, "female".to_string());
    let c = world.spawn_person(1, 0, today - 6_000, "female".to_string());
    world.spawn_resource(3, 3, 9);
    assert_eq!(world.average_human_age(), (100 + 201 + 6_000) / 3);
    assert_eq!(world.census(Census::Living), 3);
    assert_eq!(world.census(Census::Humans), 3);
    assert_eq!(world.census(Census::Men), 1);
    assert_eq!(world.census(Census::Women), 2);
    assert_eq!(world.census(Census::Couples), 0);
    assert_eq!(world.census(Census::Pregnant), 0);
    let d = world.spawn_person(1, 0, today - 7_000, "male".to_string());
    assert!(world.pair_up(d, c));
    assert!(world.turn_fertile(c));
    assert!(world.conceive(c, 270));
    assert_eq!(world.census(Census::Couples), 1);
    assert_eq!(world.census(Census::Pregnant), 1);
    world.die(a);
    world.die(b);
    assert_eq!(world.census(Census::Humans), 2);
    assert_eq!(world.average_human_age(), 6_500);
    world.die(d);
    assert_eq!(world.census(Census::Couples), 0);
    assert_eq!(world.census(Census::Pregnant), 1);
}

#[test]
fn an_age_before_the_start_of_the_simulation() {
    let mut world = World::new(2, 2);
    let old = world.spawn_person(0, 0, -1_000_000, "female".to_string());
    assert_eq!(world.store[old].spawn_date.unwrap().0, -1_000_000);
    assert_eq!(world.average_human_age(), 1_036_500);
}
