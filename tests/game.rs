use artillery::{ArtilleryError, Coordinate, DistanceLimit, Game};

fn at(x: i32, y: i32) -> Coordinate {
    Coordinate { x, y }
}

#[test]
fn new_game_has_the_default_configuration() {
    let game = Game::new();
    assert_eq!(game.get_map_radius(), 10_000);
    assert_eq!(*game.get_base_coords(), at(0, 0));
    assert_eq!(game.get_base_radius(), 100);
    assert_eq!(game.get_max_unit_range(), 500);
    assert_eq!(game.get_max_resources(), 100_000_000_000);
    assert_eq!(game.get_target_radius(), 500);
    assert!(game.get_units().is_empty());
    assert!(game.get_destinations().is_empty());
    assert!(game.get_targets().is_empty());
    assert!(game.get_target_costs().is_empty());
}

#[test]
fn scenario_a_destination_out_of_range() {
    let mut game = Game::new();
    assert!(game.add_unit(2500, 2500).is_ok());
    let err = game.set_destination(0, 0, 0).unwrap_err();
    match err {
        ArtilleryError::DistanceError { op, limit, coord, reference } => {
            assert_eq!(op, "set_destination");
            assert_eq!(limit, DistanceLimit::UnitRange);
            assert_eq!(coord, at(0, 0));
            assert_eq!(reference, at(2500, 2500));
        }
        other => panic!("unexpected error {:?}", other),
    }
    assert_eq!(*game.get_destination(0).unwrap(), at(2500, 2500));
}

#[test]
fn scenario_b_turn_without_winner() {
    let mut game = Game::new();
    assert!(game.add_unit(-10_000, 0).is_ok());
    assert!(game.set_destination(0, -9_500, 0).is_ok());
    assert!(game.add_target(-5_000, 0).is_ok());
    assert_eq!(game.get_target_costs().clone(), vec![15_880_000_000u64]);
    assert_eq!(game.run_turn().unwrap(), 0);
    assert_eq!(game.get_units().clone(), vec![at(-9_500, 0)]);
    assert_eq!(game.get_destinations().clone(), vec![at(-9_500, 0)]);
    assert!(game.get_targets().is_empty());
    assert!(game.get_target_costs().is_empty());
}

#[test]
fn scenario_c_artillery_wins() {
    let mut game = Game::new();
    assert!(game.add_unit(1_000, 0).is_ok());
    assert!(game.add_target(1_000, 0).is_ok());
    assert_eq!(game.get_target_costs().clone(), vec![6_552_000_000u64]);
    assert_eq!(game.run_turn().unwrap(), 2);
    assert!(game.get_units().is_empty());
    assert!(game.get_destinations().is_empty());
    assert!(game.get_targets().is_empty());
    assert_eq!(game.get_map_radius(), 10_000);
}

#[test]
fn army_wins_on_reaching_the_base() {
    let mut game = Game::new();
    assert!(game.add_unit(500, 0).is_ok());
    assert!(game.set_destination(0, 0, 0).is_ok());
    assert!(game.add_unit(-3_000, 0).is_ok());
    assert_eq!(game.run_turn().unwrap(), 1);
    assert!(game.get_units().is_empty());
    assert!(game.get_destinations().is_empty());
}

#[test]
fn turn_without_units_is_won_by_the_artillery() {
    let mut game = Game::new();
    assert_eq!(game.run_turn().unwrap(), 2);
}

#[test]
fn second_target_detonates_after_the_first_ones_cost_in_ticks() {
    // The first target costs 6.552, so the second detonates at tick 6, when
    // the unit walking from 20.00 to 25.00 stands at 20.35.
    let mut game = Game::new();
    assert!(game.add_unit(2_000, 0).is_ok());
    assert!(game.set_destination(0, 2_500, 0).is_ok());
    assert!(game.add_target(-1_000, 0).is_ok());
    assert!(game.add_target(2_035, 0).is_ok());
    assert_eq!(game.get_target_costs().clone(), vec![6_552_000_000u64, 10_809_769_450]);
    assert_eq!(game.run_turn().unwrap(), 2);
}

#[test]
fn blast_far_from_the_unit_at_its_tick_spares_it() {
    // At tick 6 the unit stands 7.65 away from the second target; it would be
    // within the blast only at the end of its walk.
    let mut game = Game::new();
    assert!(game.add_unit(2_000, 0).is_ok());
    assert!(game.set_destination(0, 2_500, 0).is_ok());
    assert!(game.add_target(-1_000, 0).is_ok());
    assert!(game.add_target(2_800, 0).is_ok());
    assert_eq!(game.get_target_costs().clone(), vec![6_552_000_000u64, 12_671_680_000]);
    assert_eq!(game.run_turn().unwrap(), 0);
    assert_eq!(game.get_units().clone(), vec![at(2_500, 0)]);
}

#[test]
fn blast_removes_only_the_caught_units_and_keeps_order() {
    let mut game = Game::new();
    assert!(game.add_unit(-4_000, 0).is_ok());
    assert!(game.add_unit(1_000, 0).is_ok());
    assert!(game.add_unit(4_000, 0).is_ok());
    assert!(game.add_unit(1_200, 100).is_ok());
    assert!(game.add_unit(0, 4_000).is_ok());
    assert!(game.set_destination(4, 0, 4_300).is_ok());
    assert!(game.add_target(1_000, 0).is_ok());
    assert_eq!(game.run_turn().unwrap(), 0);
    assert_eq!(game.get_units().clone(), vec![at(-4_000, 0), at(4_000, 0), at(0, 4_300)]);
    assert_eq!(
        game.get_destinations().clone(),
        vec![at(-4_000, 0), at(4_000, 0), at(0, 4_300)]
    );
}

#[test]
fn rounding_puts_units_on_their_destinations() {
    let mut game = Game::new();
    assert!(game.add_unit(3_333, 1_111).is_ok());
    assert!(game.set_destination(0, 3_033, 711).is_ok());
    assert!(game.add_unit(-2_001, 7).is_ok());
    assert!(game.set_destination(1, -2_300, 406).is_ok());
    assert_eq!(game.run_turn().unwrap(), 0);
    assert_eq!(game.get_units().clone(), vec![at(3_033, 711), at(-2_300, 406)]);
    assert_eq!(game.get_units().clone(), game.get_destinations().clone());
}

#[test]
fn add_unit_on_the_map_edge_and_beyond() {
    let mut game = Game::new();
    assert!(game.add_unit(10_000, 0).is_ok());
    assert!(game.add_unit(6_000, 8_000).is_ok());
    match game.add_unit(6_000, 8_001).unwrap_err() {
        ArtilleryError::DistanceError { op, limit, coord, reference } => {
            assert_eq!(op, "add_unit");
            assert_eq!(limit, DistanceLimit::MapRadius);
            assert_eq!(coord, at(6_000, 8_001));
            assert_eq!(reference, at(0, 0));
        }
        other => panic!("unexpected error {:?}", other),
    }
    assert_eq!(game.get_units().clone(), vec![at(10_000, 0), at(6_000, 8_000)]);
    assert_eq!(game.get_units().len(), game.get_destinations().len());
    assert_eq!(game.get_destinations().clone(), game.get_units().clone());
}

#[test]
fn units_and_destinations_stay_aligned() {
    let mut game = Game::new();
    assert!(game.add_unit(100, 100).is_ok());
    assert!(game.add_unit(20_000, 0).is_err());
    assert!(game.add_unit(-100, 100).is_ok());
    assert!(game.remove_unit(5).is_err());
    assert!(game.set_destination(1, -300, 100).is_ok());
    assert_eq!(game.get_units().len(), game.get_destinations().len());
    assert!(game.remove_unit(0).is_ok());
    assert_eq!(game.get_units().len(), game.get_destinations().len());
    assert_eq!(game.get_units().clone(), vec![at(-100, 100)]);
    assert_eq!(game.get_destinations().clone(), vec![at(-300, 100)]);
}

#[test]
fn add_target_out_of_the_map() {
    let mut game = Game::new();
    match game.add_target(0, 10_001).unwrap_err() {
        ArtilleryError::DistanceError { op, limit, .. } => {
            assert_eq!(op, "add_target");
            assert_eq!(limit, DistanceLimit::MapRadius);
        }
        other => panic!("unexpected error {:?}", other),
    }
    assert!(game.get_targets().is_empty());
}

#[test]
fn shot_cost_is_aimed_from_the_previous_target() {
    let mut game = Game::new();
    assert!(game.add_target(10_000, 0).is_ok());
    assert!(game.add_target(10_000, 0).is_ok());
    assert!(game.add_target(7_000, 4_000).is_ok());
    // 100 from the base; 0 from the first target; 50 from the second.
    assert_eq!(
        game.get_target_costs().clone(),
        vec![33_030_000_000u64, 4_830_000_000, 15_880_000_000]
    );
}

#[test]
fn add_target_beyond_the_budget_is_refused() {
    let mut game = Game::new();
    assert!(game.add_target(10_000, 0).is_ok());
    match game.add_target(-10_000, 0).unwrap_err() {
        ArtilleryError::ResourceError { op, cost, available } => {
            assert_eq!(op, "add_target");
            assert_eq!(cost, 85_630_000_000);
            assert_eq!(available, 66_970_000_000);
        }
        other => panic!("unexpected error {:?}", other),
    }
    assert_eq!(game.get_targets().clone(), vec![at(10_000, 0)]);
    assert_eq!(game.get_target_costs().clone(), vec![33_030_000_000u64]);
}

#[test]
fn add_target_spending_the_whole_budget() {
    let mut game = Game::new();
    // Alternate between the two ends of the map until the budget runs out.
    let mut accepted = 0;
    for i in 0..20 {
        let x = if i % 2 == 0 { 10_000 } else { -10_000 };
        if game.add_target(x, 0).is_ok() {
            accepted += 1;
        }
    }
    let spent: u64 = game.get_target_costs().iter().sum();
    assert!(spent <= game.get_max_resources());
    assert_eq!(accepted, game.get_targets().len());
    assert_eq!(game.get_targets().len(), game.get_target_costs().len());
}

#[test]
fn remove_target_drops_its_cost() {
    let mut game = Game::new();
    assert!(game.add_target(1_000, 0).is_ok());
    assert!(game.add_target(-5_000, 0).is_ok());
    assert!(game.remove_target(0).is_ok());
    assert_eq!(game.get_targets().clone(), vec![at(-5_000, 0)]);
    assert_eq!(game.get_target_costs().len(), 1);
    match game.remove_target(1).unwrap_err() {
        ArtilleryError::IndexError { op, index } => {
            assert_eq!(op, "remove_target");
            assert_eq!(index, 1);
        }
        other => panic!("unexpected error {:?}", other),
    }
}

#[test]
fn index_errors_name_the_operation_and_index() {
    let mut game = Game::new();
    let cases = [
        (game.get_unit(0).map(|_| ()).unwrap_err(), "get_unit", 0usize),
        (game.get_destination(3).map(|_| ()).unwrap_err(), "get_destination", 3),
        (game.get_target(1).map(|_| ()).unwrap_err(), "get_target", 1),
    ];
    for (err, name, idx) in cases {
        match err {
            ArtilleryError::IndexError { op, index } => {
                assert_eq!(op, name);
                assert_eq!(index, idx);
            }
            other => panic!("unexpected error {:?}", other),
        }
    }
    assert!(matches!(
        game.remove_unit(0),
        Err(ArtilleryError::IndexError { op: "remove_unit", index: 0 })
    ));
    assert!(matches!(
        game.set_destination(2, 0, 0),
        Err(ArtilleryError::IndexError { op: "set_destination", index: 2 })
    ));
    assert!(matches!(
        game.set_position(4, 0, 0),
        Err(ArtilleryError::IndexError { op: "set_position", index: 4 })
    ));
}

#[test]
fn set_destination_at_exactly_the_unit_range() {
    let mut game = Game::new();
    assert!(game.add_unit(0, 5_000).is_ok());
    assert!(game.set_destination(0, 300, 5_400).is_ok());
    assert!(game.set_destination(0, 300, 5_401).is_err());
    assert_eq!(*game.get_destination(0).unwrap(), at(300, 5_400));
}

#[test]
fn set_destination_within_the_map_but_out_of_range() {
    let mut game = Game::new();
    assert!(game.add_unit(0, 0).is_ok());
    assert!(matches!(
        game.set_destination(0, 501, 0),
        Err(ArtilleryError::DistanceError { limit: DistanceLimit::UnitRange, .. })
    ));
    assert_eq!(game.get_destinations().clone(), vec![at(0, 0)]);
}

#[test]
fn set_destination_off_the_map() {
    let mut game = Game::new();
    assert!(game.add_unit(10_000, 0).is_ok());
    assert!(matches!(
        game.set_destination(0, 10_100, 0),
        Err(ArtilleryError::DistanceError {
            op: "set_destination",
            limit: DistanceLimit::MapRadius,
            ..
        })
    ));
}

#[test]
fn set_position_moves_the_unit_but_not_its_destination() {
    let mut game = Game::new();
    assert!(game.add_unit(100, 100).is_ok());
    assert!(game.set_position(0, -2_000, 3_000).is_ok());
    assert_eq!(*game.get_unit(0).unwrap(), at(-2_000, 3_000));
    assert_eq!(*game.get_destination(0).unwrap(), at(100, 100));
    assert!(matches!(
        game.set_position(0, 0, -10_001),
        Err(ArtilleryError::DistanceError { op: "set_position", .. })
    ));
}

#[test]
fn reset_targets_twice_leaves_them_empty() {
    let mut game = Game::new();
    assert!(game.add_unit(100, 100).is_ok());
    assert!(game.add_target(1_000, 0).is_ok());
    game.reset_targets();
    assert!(game.get_targets().is_empty());
    assert!(game.get_target_costs().is_empty());
    game.reset_targets();
    assert!(game.get_targets().is_empty());
    assert!(game.get_target_costs().is_empty());
    assert_eq!(game.get_units().clone(), vec![at(100, 100)]);
}

#[test]
fn reset_game_restores_a_fresh_game() {
    let mut game = Game::new();
    assert!(game.add_unit(100, 100).is_ok());
    assert!(game.add_target(1_000, 0).is_ok());
    game.reset_game();
    assert!(game.get_units().is_empty());
    assert!(game.get_targets().is_empty());
    assert_eq!(game.get_max_resources(), 100_000_000_000);
}

#[test]
fn error_constructors_carry_their_context() {
    assert!(matches!(
        ArtilleryError::index_error("f", 7),
        ArtilleryError::IndexError { op: "f", index: 7 }
    ));
    match ArtilleryError::maximum_distance_error(
        "g",
        DistanceLimit::MapRadius,
        &at(1, 2),
        &at(3, 4),
    ) {
        ArtilleryError::DistanceError { op, limit, coord, reference } => {
            assert_eq!(op, "g");
            assert_eq!(limit, DistanceLimit::MapRadius);
            assert_eq!(coord, at(1, 2));
            assert_eq!(reference, at(3, 4));
        }
        other => panic!("unexpected error {:?}", other),
    }
    assert!(matches!(
        ArtilleryError::resource_error("h", 5, 4),
        ArtilleryError::ResourceError { op: "h", cost: 5, available: 4 }
    ));
}
