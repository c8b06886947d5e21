use popsim::movement::{generate_random_move, Move, Mover};
use popsim::stats::Census;
use popsim::world::World;

#[test]
fn a_person_is_assembled_from_its_components() {
    let mut world = World::new(4, 6);
    let today = world.day;
    let e = world.create_entity();
    assert_eq!(e, 1);
    assert!(world.components(e).unwrap().position.is_none());
    assert!(world.position_of(e).is_none());
    world.set_position(e, 5, 3);
    assert_eq!(world.position_of(e), Some((5, 3)));
    assert_eq!(world.store[e].position.unwrap().0, 1 + 3 * 6 + 5);
    world.set_human(e);
    assert!(!world.store[e].human.0, "nothing is human before it is alive");
    world.set_life(e);
    world.set_human(e);
    assert!(!world.store[e].human.0, "nothing is human before it has a sex");
    world.set_age(e, today - 10);
    world.set_sex(e, "male".to_string());
    world.set_human(e);
    let c = world.components(e).unwrap();
    assert!(c.life.0 && c.human.0 && c.male.0 && !c.female.0);
    assert_eq!(c.spawn_date.unwrap().0, today - 10);
    assert_eq!(world.residents_at(5, 3), vec![e]);

    let twin = world.spawn_person(5, 3, today - 10, "male".to_string());
    let t = world.components(twin).unwrap();
    assert_eq!(t.position.unwrap().0, c.position.unwrap().0);
    assert_eq!((t.life.0, t.human.0, t.male.0, t.female.0), (true, true, true, false));
    assert_eq!(t.spawn_date.unwrap().0, today - 10);
    assert!(t.mate.is_none() && t.pregnant.is_none() && !t.fertile.0 && t.forage.is_none());
    assert!(world.children[twin].is_empty() && world.parents[twin].is_empty());
    assert_eq!(world.residents_at(5, 3), vec![e, twin]);
}

#[test]
fn anything_but_male_is_female_and_a_sex_is_kept() {
    let mut world = World::new(2, 2);
    let today = world.day;
    let a = world.spawn_person(0, 0, today, "female".to_string());
    let b = world.spawn_person(0, 0, today, "Male".to_string());
    let c = world.spawn_person(0, 0, today, "".to_string());
    let d = world.spawn_person(0, 0, today, "male".to_string());
    for e in [a, b, c] {
        assert!(world.store[e].female.0 && !world.store[e].male.0);
    }
    assert!(world.store[d].male.0 && !world.store[d].female.0);
    world.set_sex(d, "female".to_string());
    assert!(world.store[d].male.0 && !world.store[d].female.0);
    world.set_sex(a, "male".to_string());
    assert!(world.store[a].female.0 && !world.store[a].male.0);
}

#[test]
fn a_forage_patch_is_not_human() {
    let mut world = World::new(2, 2);
    let patch = world.spawn_resource(1, 1, 6);
    world.set_life(patch);
    world.set_sex(patch, "female".to_string());
    world.set_human(patch);
    assert!(!world.store[patch].human.0);
    assert_eq!(world.store[patch].forage.unwrap().0, 6);
    assert!(world.is_well_formed());
}

#[test]
fn identifiers_that_were_never_issued_are_ignored() {
    let mut world = World::new(2, 2);
    let today = world.day;
    let e = world.spawn_person(0, 0, today, "male".to_string());
    for stranger in [0, e + 1, usize::MAX] {
        world.set_position(stranger, 1, 1);
        world.set_life(stranger);
        world.set_human(stranger);
        world.set_age(stranger, today);
        world.set_sex(stranger, "male".to_string());
        world.relocate(stranger, 1, 1, 3);
        world.move_to_position(stranger, 1, 1);
        assert!(world.components(stranger).is_none());
        assert!(world.position_of(stranger).is_none());
        assert!(!world.turn_fertile(stranger));
        assert!(!world.conceive(stranger, 270));
        assert!(!world.pair_up(stranger, e));
        assert_eq!(world.deliver(stranger, true), None);
    }
    assert_eq!(world.store.len(), 2);
    assert!(world.residents_at(1, 1).is_empty());
    assert!(!world.store[0].life.0 && !world.store[0].human.0);
}

#[test]
fn a_position_is_set_anew_without_a_trace_in_the_old_cell() {
    let mut world = World::new(3, 3);
    let today = world.day;
    let a = world.spawn_person(0, 0, today, "male".to_string());
    let b = world.spawn_person(0, 0, today, "male".to_string());
    world.set_position(a, 2, 2);
    assert_eq!(world.residents_at(0, 0), vec![b]);
    assert_eq!(world.residents_at(2, 2), vec![a]);
    world.set_position(b, 2, 2);
    assert!(world.residents_at(0, 0).is_empty());
    assert_eq!(world.residents_at(2, 2), vec![a, b]);
    // to the cell it stands in: it goes to the end
    world.set_position(a, 2, 2);
    assert_eq!(world.residents_at(2, 2), vec![b, a]);
    assert_eq!(world.store.len(), 3, "setting a position makes no patch");
}

#[test]
fn a_patch_appears_where_the_last_one_left() {
    let mut world = World::new(3, 3);
    let today = world.day;
    let a = world.spawn_person(0, 0, today, "male".to_string());
    let b = world.spawn_person(0, 0, today, "female".to_string());
    world.relocate(a, 1, 1, 4);
    assert_eq!(world.store.len(), 3, "someone is left in the cell");
    assert_eq!(world.residents_at(0, 0), vec![b]);
    assert_eq!(world.position_of(a), Some((1, 1)));
    world.relocate(b, 1, 1, 4);
    assert_eq!(world.store.len(), 4);
    let patch = 3;
    assert_eq!(world.residents_at(0, 0), vec![patch]);
    assert_eq!(world.store[patch].forage.unwrap().0, 4);
    assert!(!world.store[patch].life.0 && !world.store[patch].human.0);
    assert_eq!(world.residents_at(1, 1), vec![a, b]);
    // the patch stays: the cell is never empty again
    world.relocate(a, 0, 0, 9);
    world.relocate(a, 1, 1, 9);
    assert_eq!(world.store.len(), 4);
    assert_eq!(world.cell_bounty(world.xy_to_index(0, 0)), 4);
    assert_eq!(world.cell_bounty(world.xy_to_index(2, 2)), 1);
}

#[test]
fn a_random_patch_has_a_yield_from_one_to_ten() {
    let mut yields = Vec::new();
    for _ in 0..80 {
        let mut world = World::new(2, 2);
        let a = world.spawn_person(0, 0, world.day, "male".to_string());
        world.move_to_position(a, 1, 0);
        assert_eq!(world.store.len(), 3);
        assert_eq!(world.position_of(a), Some((1, 0)));
        yields.push(world.store[2].forage.unwrap().0);
    }
    assert!(yields.iter().all(|b| (1..=10).contains(b)));
    assert!(yields.iter().any(|&b| b != yields[0]));
}

#[test]
fn the_dead_do_not_move() {
    let mut world = World::new(3, 3);
    let today = world.day;
    let a = world.spawn_person(0, 0, today, "male".to_string());
    let b = world.spawn_person(0, 0, today, "male".to_string());
    world.die(a);
    world.relocate(a, 2, 2, 5);
    assert!(world.position_of(a).is_none());
    assert!(world.residents_at(2, 2).is_empty());
    assert_eq!(world.residents_at(0, 0), vec![b]);
    assert_eq!(world.census(Census::Living), 1);
}

#[test]
fn who_may_set_out_and_with_what_chance() {
    let mut world = World::new(5, 5);
    let today = world.day;
    let adult = today - 30 * 365;
    let head = world.spawn_person(2, 2, adult, "male".to_string());
    let wife = world.spawn_person(2, 2, adult, "female".to_string());
    let single = world.spawn_person(2, 2, adult, "female".to_string());
    let child = world.spawn_person(2, 2, today - 14 * 365 + 1, "male".to_string());
    let loner = world.spawn_person(4, 4, today - 14 * 365, "male".to_string());
    world.spawn_resource(2, 2, 2);
    assert!(world.pair_up(head, wife));
    let cell = world.xy_to_index(2, 2);
    assert_eq!(world.count_humans(cell), 4);
    assert_eq!(world.cell_bounty(cell), 2);
    let movers = world.movers();
    let seen: Vec<(usize, usize, u32, bool)> =
        movers.iter().map(|m| (m.entity, m.from, m.chance, m.family)).collect();
    assert_eq!(
        seen,
        vec![
            (head, cell, 200_000, true),
            (single, cell, 200_000, false),
            (loner, world.xy_to_index(4, 4), 900_000, false),
        ]
    );
    let _ = child;
}

#[test]
fn a_family_moves_together() {
    let mut world = World::new(5, 5);
    let today = world.day;
    let adult = today - 30 * 365;
    let head = world.spawn_person(2, 2, adult, "male".to_string());
    let wife = world.spawn_person(2, 2, adult, "female".to_string());
    assert!(world.pair_up(head, wife));
    assert!(world.turn_fertile(wife));
    assert!(world.conceive(wife, 260));
    for _ in 0..260 {
        world.time_system();
    }
    let child = world.deliver(wife, false).unwrap();
    let lost = world.deliver(wife, false);
    assert_eq!(lost, None);
    let cell = world.xy_to_index(2, 2);
    let movers = vec![
        Mover { entity: head, from: cell, chance: 1_000_000, family: true },
        Mover { entity: wife, from: cell, chance: 1_000_000, family: false },
    ];
    let moves = world.plan_moves(&movers, &vec![Some((3, 1)), None]);
    let as_tuples: Vec<(usize, usize, usize)> =
        moves.iter().map(|m| (m.entity, m.x, m.y)).collect();
    assert_eq!(as_tuples, vec![(head, 3, 1), (wife, 3, 1), (child, 3, 1)]);
    let alone = world.plan_moves(&movers, &vec![None, Some((1, 3))]);
    let as_tuples: Vec<(usize, usize, usize)> =
        alone.iter().map(|m| (m.entity, m.x, m.y)).collect();
    assert_eq!(as_tuples, vec![(wife, 1, 3), (child, 1, 3)]);

    world.apply_moves(&moves, &vec![7, 8, 9]);
    for e in [head, wife, child] {
        assert_eq!(world.position_of(e), Some((3, 1)));
    }
    assert_eq!(world.residents_at(3, 1), vec![head, wife, child]);
    let patch = world.residents_at(2, 2);
    assert_eq!(patch.len(), 1);
    assert_eq!(world.store[patch[0]].forage.unwrap().0, 9, "the yield drawn for the last move");
}

#[test]
fn moves_out_of_the_grid_do_not_happen() {
    let mut world = World::new(3, 3);
    let a = world.spawn_person(1, 1, world.day, "male".to_string());
    let moves = vec![
        Move { entity: a, x: 3, y: 0 },
        Move { entity: a, x: 0, y: 3 },
        Move { entity: a, x: usize::MAX, y: usize::MAX },
    ];
    world.apply_moves(&moves, &Vec::new());
    assert_eq!(world.position_of(a), Some((1, 1)));
    assert_eq!(world.store.len(), 2);
    world.apply_moves(&vec![Move { entity: a, x: 2, y: 0 }], &Vec::new());
    assert_eq!(world.position_of(a), Some((2, 0)));
    assert_eq!(world.store[2].forage.unwrap().0, 1, "the default yield");
}

#[test]
fn the_lonely_move_one_step_and_stay_on_the_grid() {
    let mut world = World::new(6, 6);
    world.params.lonely_move = 1_000_000;
    let adult = world.day - 20 * 365;
    let a = world.spawn_person(0, 0, adult, "male".to_string());
    let mut at = (0usize, 0usize);
    for _ in 0..200 {
        world.move_system();
        let now = world.position_of(a).unwrap();
        assert!(now.0 < 6 && now.1 < 6);
        assert_eq!(now.0.abs_diff(at.0), 1);
        assert_eq!(now.1.abs_diff(at.1), 1);
        at = now;
    }
}

#[test]
fn nobody_moves_on_a_grid_of_one_cell() {
    let mut world = World::new(1, 1);
    world.params.lonely_move = 1_000_000;
    let a = world.spawn_person(0, 0, world.day - 20 * 365, "male".to_string());
    for _ in 0..20 {
        world.move_system();
    }
    assert_eq!(world.position_of(a), Some((0, 0)));
    assert_eq!(world.residents_at(0, 0), vec![a]);
    assert_eq!(world.store.len(), 2);
}

#[test]
fn nobody_moves_without_a_chance() {
    let mut world = World::new(4, 4);
    world.params.lonely_move = 0;
    world.params.baseline_move = 0;
    world.params.pressure_cap = 0;
    let adult = world.day - 20 * 365;
    let a = world.spawn_person(1, 1, adult, "male".to_string());
    let b = world.spawn_person(2, 2, adult, "male".to_string());
    let c = world.spawn_person(2, 2, adult, "female".to_string());
    for _ in 0..100 {
        world.move_system();
    }
    assert_eq!(world.position_of(a), Some((1, 1)));
    assert_eq!(world.position_of(b), Some((2, 2)));
    assert_eq!(world.position_of(c), Some((2, 2)));
}

#[test]
fn the_parameters_can_be_replaced() {
    let mut world = World::new(3, 3);
    assert_eq!(world.params.pairing, 500_000);
    let mut params = world.params;
    params.pairing = 1_000_000;
    params.drift = 0;
    world.set_params(params);
    assert_eq!(world.params.pairing, 1_000_000);
    assert_eq!(world.params.drift, 0);
    assert_eq!(world.params.conception, 15_000);
    assert!(world.is_well_formed());
    let born = world.day - 30 * 365;
    let man = world.spawn_person(1, 1, born, "male".to_string());
    let woman = world.spawn_person(1, 1, born, "female".to_string());
    world.matchmaker_system();
    assert_eq!(world.store[man].mate, Some(woman));
}

#[test]
fn a_certain_drift_leads_toward_the_centre() {
    let mut rng = rand::thread_rng();
    for _ in 0..50 {
        assert_eq!(generate_random_move(&mut rng, 1_000_000, 10, 80, 100, 100), (11, 79));
        assert_eq!(generate_random_move(&mut rng, 1_000_000, 70, 20, 100, 100), (69, 21));
        assert_eq!(generate_random_move(&mut rng, 5_000_000, 0, 99, 100, 100), (1, 98));
    }
}

#[test]
fn without_drift_a_step_leads_away_from_the_centre() {
    let mut rng = rand::thread_rng();
    for _ in 0..50 {
        assert_eq!(generate_random_move(&mut rng, 0, 10, 80, 100, 100), (9, 81));
        assert_eq!(generate_random_move(&mut rng, 0, 70, 20, 100, 100), (71, 19));
        // at the edge every step leads inward
        assert_eq!(generate_random_move(&mut rng, 0, 0, 99, 100, 100), (1, 98));
    }
}

#[test]
fn at_the_centre_a_step_goes_either_way() {
    let mut rng = rand::thread_rng();
    let mut seen = std::collections::BTreeSet::new();
    for _ in 0..200 {
        let target = generate_random_move(&mut rng, 1_000_000, 50, 50, 100, 100);
        assert!(target.0 == 49 || target.0 == 51);
        assert!(target.1 == 49 || target.1 == 51);
        seen.insert(target);
    }
    assert_eq!(seen.len(), 4);
}

#[test]
fn a_lonely_walker_with_a_certain_drift_reaches_the_centre() {
    let mut world = World::new(9, 9);
    let mut params = world.params;
    params.lonely_move = 1_000_000;
    params.drift = 1_000_000;
    world.set_params(params);
    let a = world.spawn_person(0, 8, world.day - 20 * 365, "male".to_string());
    for day in 1..=4 {
        world.move_system();
        assert_eq!(world.position_of(a), Some((day, 8 - day)));
    }
}
