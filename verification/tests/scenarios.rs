use popsim::world::World;

#[test]
fn a_couple_forms_conceives_and_has_a_child() {
    let mut world = World::new(10, 10);
    world.params.pairing = 1_000_000;
    world.params.fertility = 1_000_000;
    world.params.conception = 1_000_000;
    let today = world.day;
    let man = world.spawn_person(5, 5, today - 20 * 365, "male".to_string());
    let woman = world.spawn_person(5, 5, today - 20 * 365, "female".to_string());

    world.matchmaker_system();
    assert_eq!(world.store[man].mate, Some(woman));
    assert_eq!(world.store[woman].mate, Some(man));

    world.fertility_system();
    assert!(world.store[woman].fertile.0);
    assert!(!world.store[man].fertile.0);

    world.conception_system();
    let due = world.store[woman].pregnant.expect("she conceived").0;
    assert!(today + 260 <= due && due <= today + 300);
    assert!(!world.store[woman].fertile.0);

    while world.day < due {
        world.birth_system();
        assert!(world.store[woman].pregnant.is_some());
        world.time_system();
    }
    let before = world.store.len();
    world.birth_system();
    assert_eq!(world.store.len(), before + 1);
    let child = before;
    assert!(world.store[woman].pregnant.is_none());
    assert!(world.store[child].life.0 && world.store[child].human.0);
    assert_eq!(world.store[child].spawn_date.map(|d| d.0), Some(due));
    assert_eq!(world.store[child].position.map(|p| p.0), Some(world.xy_to_index(5, 5)));
    assert_eq!(world.children[woman], vec![child]);
    assert_eq!(world.children[man], vec![child]);
    assert_eq!(world.parents[child], vec![woman, man]);
    assert!(world.residents[world.xy_to_index(5, 5)].contains(&child));
}

/// The hazard of those past eighteen: 0.1 at eighteen, 2.0 at eighty.
fn senescent_hazard(age_years: f64) -> f64 {
    let a = 0.1;
    let b = (2.0_f64 / 0.1).ln() / (80.0 - 18.0);
    let c = 0.0;
    a * (b * (age_years - 18.0)).exp() + c
}

fn senescent_table(years: usize) -> Vec<i64> {
    (0..=years)
        .map(|y| (senescent_hazard(y as f64) * 1_000_000.0) as i64)
        .collect()
}

#[test]
fn someone_of_two_hundred_years_dies_for_certain() {
    let hazard = senescent_table(200);
    assert!(hazard[200] > 1_000_000, "the hazard itself exceeds one");
    for _ in 0..50 {
        let mut world = World::new(3, 3);
        let today = world.day;
        let elder = world.spawn_person(1, 1, today - 200 * 365, "female".to_string());
        world.death_system(&hazard);
        assert!(!world.store[elder].life.0);
        assert!(world.store[elder].position.is_none());
        assert!(world.residents.iter().all(|b| !b.contains(&elder)));
    }
}

#[test]
fn the_senescent_hazard_is_calibrated() {
    assert!((senescent_hazard(18.0) - 0.1).abs() < 1e-9);
    assert!((senescent_hazard(80.0) - 2.0).abs() < 1e-9);
    let hazard = senescent_table(100);
    assert_eq!(popsim::params::death_chance(hazard[18]), 100_000);
    assert_eq!(popsim::params::death_chance(hazard[80]), 1_000_000);
}

#[test]
fn a_hazard_beyond_the_table_is_that_of_its_last_year() {
    let mut world = World::new(2, 2);
    let today = world.day;
    let elder = world.spawn_person(0, 0, today - 90 * 365, "male".to_string());
    let hazard: Vec<i64> = vec![0, 0, 5_000_000];
    assert_eq!(world.death_chance_of(&hazard, elder), 1_000_000);
    world.death_system(&hazard);
    assert!(!world.store[elder].life.0);
}

#[test]
fn nobody_dies_without_a_hazard() {
    let mut world = World::new(2, 2);
    let today = world.day;
    let a = world.spawn_person(0, 0, today - 30 * 365, "male".to_string());
    let b = world.spawn_person(1, 1, today, "female".to_string());
    for hazard in [vec![], vec![0; 50], vec![-700_000; 50]] {
        for _ in 0..20 {
            world.death_system(&hazard);
        }
    }
    assert!(world.store[a].life.0 && world.store[b].life.0);
}

#[test]
fn death_tears_down_and_frees_the_mate() {
    let mut world = World::new(4, 4);
    world.params.pairing = 1_000_000;
    let today = world.day;
    let man = world.spawn_person(2, 2, today - 30 * 365, "male".to_string());
    let woman = world.spawn_person(2, 2, today - 30 * 365, "female".to_string());
    world.matchmaker_system();
    assert_eq!(world.store[man].mate, Some(woman));
    world.die(man);
    let gone = world.store[man];
    assert!(gone.position.is_none());
    assert!(!gone.life.0 && !gone.human.0 && !gone.male.0 && !gone.female.0);
    assert!(gone.mate.is_none() && gone.spawn_date.is_none());
    assert!(world.residents.iter().all(|b| !b.contains(&man)));
    assert!(world.store[woman].mate.is_none());
    assert!(world.store[woman].life.0);
    assert_eq!(world.residents[world.xy_to_index(2, 2)], vec![woman]);
    // dying twice changes nothing
    world.die(man);
    assert!(world.store[woman].life.0);
    // an identifier that was never issued is ignored
    world.die(0);
    world.die(77);
    assert_eq!(world.store.len(), 3);
}

#[test]
fn a_child_of_a_lone_mother_has_one_parent() {
    let mut world = World::new(4, 4);
    world.params.pairing = 1_000_000;
    let today = world.day;
    let man = world.spawn_person(1, 2, today - 25 * 365, "male".to_string());
    let woman = world.spawn_person(1, 2, today - 25 * 365, "female".to_string());
    assert!(world.pair_up(man, woman));
    assert!(world.turn_fertile(woman));
    assert!(world.conceive(woman, 260));
    world.die(man);
    for _ in 0..260 {
        world.time_system();
    }
    assert_eq!(world.expecting(), vec![woman]);
    let child = world.deliver(woman, true).expect("the child is due");
    assert_eq!(world.parents[child], vec![woman]);
    assert_eq!(world.children[woman], vec![child]);
    assert!(world.children[man].is_empty());
    assert!(world.store[child].male.0 && !world.store[child].female.0);
    assert_eq!(world.deliver(woman, true), None);
}

#[test]
fn no_pair_forms_across_cells_or_below_the_age() {
    let mut world = World::new(4, 4);
    world.params.pairing = 1_000_000;
    let today = world.day;
    let man = world.spawn_person(0, 0, today - 20 * 365, "male".to_string());
    let far = world.spawn_person(3, 3, today - 20 * 365, "female".to_string());
    let young = world.spawn_person(0, 0, today - 16 * 365 + 1, "female".to_string());
    assert!(world.match_candidates().is_empty());
    world.matchmaker_system();
    assert!(world.store[man].mate.is_none());
    assert!(!world.pair_up(man, far));
    assert!(!world.pair_up(man, young));
    assert!(!world.pair_up(man, man));
    world.time_system();
    assert_eq!(world.match_candidates(), vec![(man, young)]);
    assert!(world.pair_up(man, young));
    assert!(!world.pair_up(man, young));
}

#[test]
fn candidates_pair_side_by_side_in_order_of_arrival() {
    let mut world = World::new(3, 3);
    let born = world.day - 30 * 365;
    let m1 = world.spawn_person(1, 1, born, "male".to_string());
    let f1 = world.spawn_person(1, 1, born, "female".to_string());
    let f2 = world.spawn_person(1, 1, born, "female".to_string());
    let m2 = world.spawn_person(1, 1, born, "male".to_string());
    let m3 = world.spawn_person(1, 1, born, "male".to_string());
    let f3 = world.spawn_person(0, 0, born, "female".to_string());
    let m4 = world.spawn_person(0, 0, born, "male".to_string());
    assert_eq!(world.match_candidates(), vec![(m4, f3), (m1, f1), (m2, f2)]);
    world.apply_matches(&vec![(m4, f3), (m1, f1), (m2, f2)], &vec![true, false, true]);
    assert_eq!(world.store[m4].mate, Some(f3));
    assert_eq!(world.store[m1].mate, None);
    assert_eq!(world.store[f1].mate, None);
    assert_eq!(world.store[m2].mate, Some(f2));
    assert_eq!(world.store[m3].mate, None);
    assert_eq!(world.match_candidates(), vec![(m1, f1)]);
}

#[test]
fn a_pairing_chance_of_zero_pairs_nobody() {
    let mut world = World::new(3, 3);
    world.params.pairing = 0;
    let born = world.day - 30 * 365;
    let man = world.spawn_person(1, 1, born, "male".to_string());
    let woman = world.spawn_person(1, 1, born, "female".to_string());
    for _ in 0..100 {
        world.matchmaker_system();
    }
    assert!(world.store[man].mate.is_none() && world.store[woman].mate.is_none());
}

#[test]
fn fertility_is_for_women_in_their_fertile_years() {
    let mut world = World::new(3, 3);
    world.params.fertility = 1_000_000;
    let today = world.day;
    let girl = world.spawn_person(0, 0, today - 14 * 365 + 1, "female".to_string());
    let just = world.spawn_person(0, 0, today - 14 * 365, "female".to_string());
    let last = world.spawn_person(0, 0, today - 50 * 365 + 1, "female".to_string());
    let late = world.spawn_person(0, 0, today - 50 * 365, "female".to_string());
    let man = world.spawn_person(0, 0, today - 30 * 365, "male".to_string());
    assert_eq!(world.fertility_candidates(), vec![just, last]);
    world.fertility_system();
    assert!(!world.store[girl].fertile.0);
    assert!(world.store[just].fertile.0);
    assert!(world.store[last].fertile.0);
    assert!(!world.store[late].fertile.0);
    assert!(!world.store[man].fertile.0);
    assert!(world.fertility_candidates().is_empty());
}

#[test]
fn conception_needs_a_mate_and_clears_fertility() {
    let mut world = World::new(3, 3);
    world.params.conception = 1_000_000;
    let born = world.day - 25 * 365;
    let man = world.spawn_person(1, 1, born, "male".to_string());
    let wife = world.spawn_person(1, 1, born, "female".to_string());
    let single = world.spawn_person(1, 1, born, "female".to_string());
    assert!(world.pair_up(man, wife));
    assert!(world.turn_fertile(wife));
    assert!(world.turn_fertile(single));
    assert!(!world.turn_fertile(single));
    assert_eq!(world.conception_candidates(), vec![wife]);
    assert!(!world.conceive(single, 280));
    assert!(!world.conceive(wife, 259));
    assert!(!world.conceive(wife, 301));
    world.conception_system();
    let due = world.store[wife].pregnant.expect("she conceived").0;
    assert!(world.day + 260 <= due && due <= world.day + 300);
    assert!(!world.store[wife].fertile.0);
    assert!(world.store[single].fertile.0 && world.store[single].pregnant.is_none());
    assert!(!world.conceive(wife, 280));
    assert!(!world.turn_fertile(wife));
    assert!(world.conception_candidates().is_empty());
}

#[test]
fn the_lengths_of_pregnancies_vary_within_their_span() {
    let mut world = World::new(3, 3);
    world.params.conception = 1_000_000;
    let born = world.day - 25 * 365;
    let mut wives = Vec::new();
    for _ in 0..150 {
        let man = world.spawn_person(1, 1, born, "male".to_string());
        let wife = world.spawn_person(1, 1, born, "female".to_string());
        assert!(world.pair_up(man, wife));
        assert!(world.turn_fertile(wife));
        wives.push(wife);
    }
    world.conception_system();
    let lengths: Vec<i64> = wives
        .iter()
        .map(|&w| world.store[w].pregnant.expect("she conceived").0 - world.day)
        .collect();
    assert!(lengths.iter().all(|&d| (260..=300).contains(&d)));
    assert!(lengths.iter().any(|&d| d != lengths[0]));
}

#[test]
fn a_chance_of_a_half_goes_both_ways() {
    let mut world = World::new(3, 3);
    world.params.pairing = 500_000;
    let born = world.day - 25 * 365;
    for _ in 0..200 {
        world.spawn_person(1, 1, born, "male".to_string());
        world.spawn_person(1, 1, born, "female".to_string());
    }
    world.matchmaker_system();
    let couples = world.census(popsim::stats::Census::Couples);
    assert!(0 < couples && couples < 200);
}

#[test]
fn every_mother_whose_child_is_due_has_one_child_more() {
    let mut world = World::new(5, 5);
    world.params.pairing = 1_000_000;
    world.params.fertility = 1_000_000;
    let born = world.day - 22 * 365;
    let mut women = Vec::new();
    for i in 0..6 {
        let man = world.spawn_person(i % 5, 1, born, "male".to_string());
        let woman = world.spawn_person(i % 5, 1, born, "female".to_string());
        assert!(world.pair_up(man, woman));
        women.push((woman, man));
    }
    world.fertility_system();
    for (i, &(woman, _)) in women.iter().enumerate() {
        let days = if i < 4 { 260 } else { 300 };
        assert!(world.conceive(woman, days));
    }
    for _ in 0..260 {
        world.time_system();
    }
    let today = world.day;
    let before = world.store.len();
    assert_eq!(world.expecting(), women[..4].iter().map(|p| p.0).collect::<Vec<_>>());
    world.birth_system();
    assert_eq!(world.store.len(), before + 4);
    for (i, &(woman, man)) in women.iter().enumerate() {
        if i < 4 {
            let child = before + i;
            assert!(world.store[woman].pregnant.is_none());
            assert_eq!(world.children[woman], vec![child]);
            assert_eq!(world.children[man], vec![child]);
            assert_eq!(world.parents[child], vec![woman, man]);
            assert_eq!(world.store[child].spawn_date.map(|d| d.0), Some(today));
            assert_eq!(
                world.store[child].position.map(|p| p.0),
                world.store[woman].position.map(|p| p.0)
            );
            assert!(world.store[child].male.0 != world.store[child].female.0);
        } else {
            assert!(world.store[woman].pregnant.is_some());
            assert!(world.children[woman].is_empty());
        }
    }
    world.birth_system();
    assert_eq!(world.store.len(), before + 4, "nobody gives birth twice");
    assert!(world.is_well_formed());
}

#[test]
fn boys_and_girls_are_born() {
    let mut world = World::new(3, 3);
    let born = world.day - 22 * 365;
    let mut mothers = Vec::new();
    for _ in 0..120 {
        let man = world.spawn_person(1, 1, born, "male".to_string());
        let woman = world.spawn_person(1, 1, born, "female".to_string());
        assert!(world.pair_up(man, woman));
        assert!(world.turn_fertile(woman));
        assert!(world.conceive(woman, 260));
        mothers.push(woman);
    }
    for _ in 0..260 {
        world.time_system();
    }
    world.birth_system();
    let boys = mothers.iter().filter(|&&m| world.store[world.children[m][0]].male.0).count();
    assert!(0 < boys && boys < 120);
}
