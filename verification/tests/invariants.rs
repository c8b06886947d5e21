use popsim::components::Components;
use popsim::stats::Census;
use popsim::world::World;

/// Checks at run time what a well-formed world promises.
fn assert_well_formed(world: &World) {
    assert!(world.is_well_formed());
    let n = world.store.len();
    assert!(n >= 1);
    assert_eq!(world.parents.len(), n);
    assert_eq!(world.children.len(), n);
    assert_eq!(world.residents.len(), world.world_width * world.world_height + 1);
    assert!(is_blank(&world.store[0]));
    assert!(world.residents[0].is_empty());
    for cell in 0..world.residents.len() {
        let bucket = &world.residents[cell];
        for (i, &e) in bucket.iter().enumerate() {
            assert!(e < n);
            assert_eq!(world.store[e].position.map(|p| p.0), Some(cell));
            assert!(!bucket[..i].contains(&e), "entity {} stands twice in cell {}", e, cell);
        }
    }
    for e in 0..n {
        let c = &world.store[e];
        if let Some(p) = c.position {
            assert!(1 <= p.0 && p.0 < world.residents.len());
            assert!(world.residents[p.0].contains(&e));
        }
        assert!(!(c.male.0 && c.female.0));
        if let Some(d) = c.spawn_date {
            assert!(d.0 <= world.day);
        }
        assert!(!(c.fertile.0 && c.pregnant.is_some()));
        if c.human.0 {
            assert!(c.life.0 && (c.male.0 || c.female.0) && c.forage.is_none());
        }
        if c.fertile.0 {
            assert!(c.human.0 && c.female.0);
        }
        if c.pregnant.is_some() {
            assert!(c.human.0 && c.female.0 && c.position.is_some());
        }
        assert!(world.parents[e].len() <= 2);
        assert!(world.parents[e].iter().all(|&p| 1 <= p && p < n));
        assert!(world.children[e].iter().all(|&k| 1 <= k && k < n));
        for (i, k) in world.children[e].iter().enumerate() {
            assert!(!world.children[e][..i].contains(k), "a child is listed twice");
        }
        if let Some(m) = c.mate {
            assert!(1 <= m && m < n && m != e);
            assert_eq!(world.store[m].mate, Some(e));
            assert!(c.life.0 && c.human.0);
            let other = &world.store[m];
            assert!((c.male.0 && other.female.0) || (c.female.0 && other.male.0));
        }
    }
}

fn is_blank(c: &Components) -> bool {
    c.position.is_none()
        && !c.life.0
        && !c.human.0
        && c.spawn_date.is_none()
        && c.forage.is_none()
        && !c.male.0
        && !c.female.0
        && !c.fertile.0
        && c.pregnant.is_none()
        && c.mate.is_none()
}

fn lively_world(height: usize, width: usize, people: usize) -> World {
    let mut world = World::new(height, width);
    world.seed_forage();
    world.params.pairing = 500_000;
    world.params.fertility = 200_000;
    world.params.conception = 200_000;
    let today = world.day;
    for i in 0..people {
        let sex = if i % 2 == 0 { "male" } else { "female" };
        let age = 365 * (18 + (i as i64 % 12));
        world.spawn_person(width / 2, height / 2, today - age, sex.to_string());
    }
    world
}

fn flat_hazard(ppm: i64) -> Vec<i64> {
    vec![ppm; 120]
}

#[test]
fn a_new_world_holds_nobody() {
    let world = World::new(100, 100);
    assert_well_formed(&world);
    assert_eq!(world.day, 36_500);
    assert_eq!((world.world_height, world.world_width), (100, 100));
    assert_eq!(world.store.len(), 1);
    assert_eq!(world.residents.len(), 10_001);
    assert!(world.residents.iter().all(|b| b.is_empty()));
    assert_eq!(world.census(Census::Living), 0);
    let mut world = world;
    let first = world.spawn_person(5, 5, 29_200, "male".to_string());
    assert_eq!(first, 1);
    assert_eq!(world.store[1].position.map(|p| p.0), Some(506));
    assert_eq!(world.residents[506], vec![1]);
}

#[test]
fn a_seeded_world_holds_a_patch_in_every_cell() {
    let mut world = World::new(7, 9);
    world.seed_forage();
    assert_well_formed(&world);
    assert_eq!(world.day, 36_500);
    assert_eq!(world.store.len(), 7 * 9 + 1);
    for cell in 1..=63 {
        assert_eq!(world.residents[cell], vec![cell]);
        let bounty = world.store[cell].forage.expect("a patch").0;
        assert!((1..=10).contains(&bounty));
        assert!(!world.store[cell].life.0 && !world.store[cell].human.0);
    }
    assert_eq!(world.census(Census::Living), 0);
}

#[test]
fn an_empty_world_is_well_formed() {
    let world = World::new(4, 5);
    assert_well_formed(&world);
    assert_eq!(world.store.len(), 1);
    assert_eq!(world.residents.len(), 21);
    assert!(world.residents.iter().all(|b| b.is_empty()));
}

#[test]
fn the_yields_of_new_patches_vary() {
    let mut world = World::new(20, 20);
    world.seed_forage();
    let first = world.store[1].forage.unwrap().0;
    assert!((1..=400).any(|cell| world.store[cell].forage.unwrap().0 != first));
}

#[test]
fn every_system_keeps_the_world_well_formed() {
    let mut world = lively_world(12, 12, 60);
    let hazard = flat_hazard(1_500);
    assert_well_formed(&world);
    for _ in 0..400 {
        world.time_system();
        assert_well_formed(&world);
        world.matchmaker_system();
        assert_well_formed(&world);
        world.fertility_system();
        assert_well_formed(&world);
        world.conception_system();
        assert_well_formed(&world);
        world.birth_system();
        assert_well_formed(&world);
        world.death_system(&hazard);
        assert_well_formed(&world);
        world.move_system();
        assert_well_formed(&world);
    }
    assert_eq!(world.day, 36_900);
}

#[test]
fn mates_are_mutual_after_every_system_and_after_death() {
    let mut world = lively_world(6, 6, 40);
    world.params.pairing = 1_000_000;
    let hazard = flat_hazard(20_000);
    for _ in 0..60 {
        world.time_system();
        world.matchmaker_system();
        world.fertility_system();
        world.conception_system();
        world.birth_system();
        world.death_system(&hazard);
        world.move_system();
        for a in 1..world.store.len() {
            if let Some(b) = world.store[a].mate {
                assert_eq!(world.store[b].mate, Some(a));
                assert!(world.store[a].life.0 && world.store[b].life.0);
            }
        }
    }
}

#[test]
fn everyone_stands_in_the_cell_of_its_position_and_in_no_other() {
    let mut world = lively_world(8, 8, 50);
    world.params.baseline_move = 600_000;
    for _ in 0..40 {
        world.time_system();
        world.matchmaker_system();
        world.move_system();
        for e in 1..world.store.len() {
            let stands_in: Vec<usize> = (0..world.residents.len())
                .filter(|&cell| world.residents[cell].contains(&e))
                .collect();
            match world.store[e].position {
                Some(p) => assert_eq!(stands_in, vec![p.0]),
                None => assert!(stands_in.is_empty()),
            }
        }
    }
}

#[test]
fn nobody_has_a_negative_age() {
    let mut world = lively_world(5, 5, 30);
    world.params.fertility = 1_000_000;
    world.params.conception = 1_000_000;
    world.params.pairing = 1_000_000;
    for _ in 0..320 {
        world.time_system();
        world.matchmaker_system();
        world.fertility_system();
        world.conception_system();
        world.birth_system();
        for e in 1..world.store.len() {
            if let Some(d) = world.store[e].spawn_date {
                assert!(world.day - d.0 >= 0);
            }
        }
    }
    assert!(world.census(Census::Humans) > 30, "children were born");
}

#[test]
fn identifiers_grow_and_are_never_reused() {
    let mut world = World::new(3, 3);
    let first = world.create_entity();
    let second = world.create_entity();
    let third = world.spawn_person(1, 1, world.day, "female".to_string());
    let fourth = world.spawn_resource(2, 2, 5);
    assert_eq!((first, second, third, fourth), (1, 2, 3, 4));
    world.die(third);
    world.die(first);
    let fifth = world.create_entity();
    assert_eq!(fifth, 5);
    let sixth = world.spawn_person(0, 0, world.day, "male".to_string());
    assert_eq!(sixth, 6);
    assert_well_formed(&world);
}

fn small_world() -> (World, usize, usize) {
    let mut world = World::new(3, 3);
    let born = world.day - 30 * 365;
    let man = world.spawn_person(1, 1, born, "male".to_string());
    let woman = world.spawn_person(1, 1, born, "female".to_string());
    assert!(world.pair_up(man, woman));
    assert!(world.turn_fertile(woman));
    assert!(world.conceive(woman, 280));
    world.spawn_resource(0, 0, 3);
    assert!(world.is_well_formed());
    (world, man, woman)
}

#[test]
fn a_damaged_world_is_found_out() {
    let (world, man, woman) = small_world();
    let cell = world.store[man].position.unwrap().0;

    let mut w = small_world().0;
    w.store[man].mate = None;
    assert!(!w.is_well_formed(), "a mate link that is not returned");

    let mut w = small_world().0;
    w.store[man].mate = Some(man);
    assert!(!w.is_well_formed(), "one's own mate");

    let mut w = small_world().0;
    w.store[man].mate = Some(99);
    assert!(!w.is_well_formed(), "a mate that was never issued");

    let mut w = small_world().0;
    w.store[man].male.0 = false;
    w.store[man].female.0 = true;
    assert!(!w.is_well_formed(), "mates of one sex");

    let mut w = small_world().0;
    w.store[man].life.0 = false;
    assert!(!w.is_well_formed(), "a dead human");

    let mut w = small_world().0;
    w.store[man].human.0 = false;
    assert!(!w.is_well_formed(), "a mate that is not human");

    let mut w = small_world().0;
    w.store[3].human.0 = true;
    assert!(!w.is_well_formed(), "a human forage patch");

    let mut w = small_world().0;
    w.store[woman].human.0 = false;
    assert!(!w.is_well_formed(), "pregnant and not human");

    let mut w = small_world().0;
    w.children[man].push(4);
    assert!(!w.is_well_formed(), "a child that was never issued");

    let mut w = small_world().0;
    w.children[man] = vec![woman, woman];
    assert!(!w.is_well_formed(), "a child that is listed twice");

    let mut w = small_world().0;
    w.children[man] = vec![woman, 3];
    assert!(w.is_well_formed(), "two children, each once");

    let mut w = small_world().0;
    w.parents[man].push(0);
    assert!(!w.is_well_formed(), "a parent that was never issued");

    let mut w = small_world().0;
    w.parents[man] = vec![woman, woman, woman];
    assert!(!w.is_well_formed(), "three parents");

    let mut w = small_world().0;
    w.store[man].female.0 = true;
    assert!(!w.is_well_formed(), "both sexes");

    let mut w = small_world().0;
    w.store[woman].fertile.0 = true;
    assert!(!w.is_well_formed(), "fertile and pregnant");

    let mut w = small_world().0;
    w.store[man].pregnant = w.store[woman].pregnant;
    assert!(!w.is_well_formed(), "a pregnant man");

    let mut w = small_world().0;
    w.store[man].spawn_date.as_mut().unwrap().0 = w.day + 1;
    assert!(!w.is_well_formed(), "born tomorrow");

    let mut w = small_world().0;
    w.residents[cell].push(man);
    assert!(!w.is_well_formed(), "twice in a cell");

    let mut w = small_world().0;
    w.residents[cell + 1].push(man);
    assert!(!w.is_well_formed(), "in two cells");

    let mut w = small_world().0;
    w.residents[cell].retain(|&e| e != man);
    assert!(!w.is_well_formed(), "a position without a place in the cell");

    let mut w = small_world().0;
    w.store[man].position.as_mut().unwrap().0 = 0;
    assert!(!w.is_well_formed(), "a position outside the grid");

    let mut w = small_world().0;
    w.residents[cell].push(50);
    assert!(!w.is_well_formed(), "a resident that was never issued");

    let mut w = small_world().0;
    w.store[0].life.0 = true;
    assert!(!w.is_well_formed(), "entry 0 is in use");

    let mut w = small_world().0;
    w.children.pop();
    assert!(!w.is_well_formed(), "a lineage record is missing");

    let mut w = small_world().0;
    w.residents.pop();
    assert!(!w.is_well_formed(), "a cell is missing");

    let mut w = small_world().0;
    w.world_width = usize::MAX;
    assert!(!w.is_well_formed(), "a grid beyond the machine");

    let mut w = small_world().0;
    w.day = 36_499;
    assert!(!w.is_well_formed(), "a day before the start");
}

#[test]
fn a_day_passes_with_every_tick() {
    let mut world = lively_world(10, 10, 40);
    let hazard = flat_hazard(3_000);
    let mut issued = world.store.len();
    for day in 1..=300 {
        world.tick(&hazard);
        assert_eq!(world.day, 36_500 + day);
        assert!(world.store.len() >= issued);
        issued = world.store.len();
        assert_eq!((world.world_height, world.world_width), (10, 10));
        assert!(world.is_well_formed());
    }
    assert_well_formed(&world);
}

#[test]
fn seeding_adds_a_patch_to_every_cell_and_leaves_the_rest() {
    let mut world = World::new(3, 4);
    let today = world.day;
    let a = world.spawn_person(1, 1, today - 9_000, "male".to_string());
    let b = world.spawn_person(3, 2, today - 9_000, "female".to_string());
    let before: Vec<Vec<usize>> = world.residents.clone();
    world.seed_forage();
    assert_eq!(world.store.len(), 3 + 12);
    for cell in 1..=12 {
        let id = 3 + cell - 1;
        let mut expected = before[cell].clone();
        expected.push(id);
        assert_eq!(world.residents[cell], expected);
        let yields = world.store[id].forage.expect("a patch").0;
        assert!((1..=10).contains(&yields));
        assert_eq!(world.store[id].position.map(|p| p.0), Some(cell));
        assert!(world.parents[id].is_empty() && world.children[id].is_empty());
    }
    assert_eq!(world.position_of(a), Some((1, 1)));
    assert_eq!(world.position_of(b), Some((3, 2)));
    assert!(world.store[a].male.0 && world.store[b].female.0);
    assert_well_formed(&world);
}
