use super_game::build_construction::build_construction;
use super_game::errors::{ActionError, ConstructionError, GameError, UnitError};
use super_game::recruit::recruit_units;
use super_game::states::{
    Building, BuildingType, Game, GameStatus, MapSize, PlayerInfo, Tile, UnitType, Units,
};
use super_game::unit::move_unit;

const HUMAN: u32 = 7;
const RIVAL: u32 = 9;

fn player(pubkey: u32, is_bot: bool) -> PlayerInfo {
    PlayerInfo {
        pubkey,
        is_bot,
        balance: 20,
        attack_points: 3,
        is_alive: true,
    }
}

/// A fully populated 7x7 board of neutral level-1 tiles, the human in slot
/// 0 and a rival in slot 1.
fn test_game() -> Game {
    let mut tiles: Vec<Vec<Option<Tile>>> = Vec::new();
    for _ in 0..7 {
        let mut row: Vec<Option<Tile>> = Vec::new();
        for _ in 0..7 {
            row.push(Some(Tile::new(1)));
        }
        tiles.push(row);
    }
    Game {
        game_id: 0,
        creator: HUMAN,
        players: vec![Some(player(HUMAN, false)), Some(player(RIVAL, false)), None, None],
        status: GameStatus::Live,
        winner: None,
        max_players: 2,
        is_multiplayer: false,
        map_size: MapSize::Small,
        round: 1,
        current_player_index: 0,
        turn_timestamp: 0,
        turn_time_limit: 60,
        tiles,
    }
}

fn own_tile(game: &mut Game, r: usize, c: usize, owner: u32, units: Option<Units>) {
    game.tiles[r][c] = Some(Tile {
        owner,
        level: 1,
        units,
        building: None,
    });
}

fn stack(unit_type: UnitType, quantity: u16, stamina: u8) -> Units {
    Units {
        unit_type,
        quantity,
        stamina,
    }
}

// ----------------------------------------------------------------
// Moving and attacking.
// ----------------------------------------------------------------

#[test]
fn move_to_empty_own_tile() {
    let mut game = test_game();
    own_tile(&mut game, 2, 2, HUMAN, Some(stack(UnitType::Tank, 4, 3)));
    own_tile(&mut game, 2, 3, HUMAN, None);
    let r = move_unit(&mut game, HUMAN, 2, 2, 2, 3);
    assert_eq!(r, Ok(()));
    assert!(game.tiles[2][2].unwrap().units.is_none());
    let moved = game.tiles[2][3].unwrap().units.unwrap();
    assert_eq!(moved.quantity, 4);
    assert_eq!(moved.stamina, 2);
}

#[test]
fn diagonal_move_costs_two() {
    let mut game = test_game();
    own_tile(&mut game, 2, 2, HUMAN, Some(stack(UnitType::Tank, 4, 3)));
    own_tile(&mut game, 3, 3, HUMAN, None);
    let r = move_unit(&mut game, HUMAN, 2, 2, 3, 3);
    assert_eq!(r, Ok(()));
    let moved = game.tiles[3][3].unwrap().units.unwrap();
    assert_eq!(moved.stamina, 1);
}

#[test]
fn merge_same_kind_keeps_lower_stamina() {
    let mut game = test_game();
    own_tile(&mut game, 2, 2, HUMAN, Some(stack(UnitType::Tank, 4, 3)));
    own_tile(&mut game, 2, 3, HUMAN, Some(stack(UnitType::Tank, 5, 1)));
    let r = move_unit(&mut game, HUMAN, 2, 2, 2, 3);
    assert_eq!(r, Ok(()));
    let merged = game.tiles[2][3].unwrap().units.unwrap();
    assert_eq!(merged.quantity, 9);
    assert_eq!(merged.stamina, 1);
    assert!(game.tiles[2][2].unwrap().units.is_none());
}

#[test]
fn swap_different_kinds_debits_both() {
    let mut game = test_game();
    own_tile(&mut game, 2, 2, HUMAN, Some(stack(UnitType::Tank, 4, 3)));
    own_tile(&mut game, 2, 3, HUMAN, Some(stack(UnitType::Infantry, 2, 1)));
    let r = move_unit(&mut game, HUMAN, 2, 2, 2, 3);
    assert_eq!(r, Ok(()));
    let at_source = game.tiles[2][2].unwrap().units.unwrap();
    let at_target = game.tiles[2][3].unwrap().units.unwrap();
    assert_eq!(at_source.unit_type, UnitType::Infantry);
    assert_eq!(at_source.stamina, 0);
    assert_eq!(at_target.unit_type, UnitType::Tank);
    assert_eq!(at_target.stamina, 2);
}

#[test]
fn swap_without_stamina_is_rejected() {
    let mut game = test_game();
    own_tile(&mut game, 2, 2, HUMAN, Some(stack(UnitType::Tank, 4, 3)));
    own_tile(&mut game, 2, 3, HUMAN, Some(stack(UnitType::Infantry, 2, 0)));
    let before = game.tiles[2][3];
    let r = move_unit(&mut game, HUMAN, 2, 2, 2, 3);
    assert_eq!(
        r,
        Err(ActionError::Unit(UnitError::TileOccupiedByOtherUnitType))
    );
    assert_eq!(game.tiles[2][3], before);
}

#[test]
fn move_out_of_bounds_is_rejected() {
    let mut game = test_game();
    let r = move_unit(&mut game, HUMAN, 2, 2, 2, 7);
    assert_eq!(r, Err(ActionError::Game(GameError::OutOfBounds)));
}

#[test]
fn move_from_foreign_tile_is_rejected() {
    let mut game = test_game();
    own_tile(&mut game, 2, 2, RIVAL, Some(stack(UnitType::Tank, 4, 3)));
    let r = move_unit(&mut game, HUMAN, 2, 2, 2, 3);
    assert_eq!(r, Err(ActionError::Unit(UnitError::NotYourTile)));
}

#[test]
fn move_without_units_is_rejected() {
    let mut game = test_game();
    own_tile(&mut game, 2, 2, HUMAN, None);
    let r = move_unit(&mut game, HUMAN, 2, 2, 2, 3);
    assert_eq!(r, Err(ActionError::Unit(UnitError::NoUnitsToMove)));
}

#[test]
fn move_beyond_adjacency_is_rejected() {
    let mut game = test_game();
    own_tile(&mut game, 2, 2, HUMAN, Some(stack(UnitType::Plane, 1, 5)));
    own_tile(&mut game, 2, 4, HUMAN, None);
    let r = move_unit(&mut game, HUMAN, 2, 2, 2, 4);
    assert_eq!(r, Err(ActionError::Unit(UnitError::InvalidMovement)));
}

#[test]
fn move_onto_itself_is_rejected() {
    let mut game = test_game();
    own_tile(&mut game, 2, 2, HUMAN, Some(stack(UnitType::Tank, 4, 3)));
    let r = move_unit(&mut game, HUMAN, 2, 2, 2, 2);
    assert_eq!(r, Err(ActionError::Unit(UnitError::InvalidMovement)));
}

#[test]
fn move_without_stamina_is_rejected() {
    let mut game = test_game();
    own_tile(&mut game, 2, 2, HUMAN, Some(stack(UnitType::Infantry, 4, 0)));
    own_tile(&mut game, 2, 3, HUMAN, None);
    let r = move_unit(&mut game, HUMAN, 2, 2, 2, 3);
    assert_eq!(r, Err(ActionError::Unit(UnitError::NotEnoughStamina)));
}

#[test]
fn attack_spends_an_attack_point() {
    let mut game = test_game();
    own_tile(&mut game, 2, 2, HUMAN, Some(stack(UnitType::Infantry, 10, 1)));
    // Target: the neutral tile at (2, 3) holding one Mutant.
    let r = move_unit(&mut game, HUMAN, 2, 2, 2, 3);
    assert_eq!(r, Ok(()));
    assert_eq!(game.players[0].unwrap().attack_points, 2);
    let conquered = game.tiles[2][3].unwrap();
    assert_eq!(conquered.owner, HUMAN);
    assert_eq!(conquered.units.unwrap().quantity, 9);
}

#[test]
fn attack_without_attack_points_is_rejected() {
    let mut game = test_game();
    game.players[0] = Some(PlayerInfo {
        attack_points: 0,
        ..player(HUMAN, false)
    });
    own_tile(&mut game, 2, 2, HUMAN, Some(stack(UnitType::Infantry, 10, 1)));
    let r = move_unit(&mut game, HUMAN, 2, 2, 2, 3);
    assert_eq!(r, Err(ActionError::Unit(UnitError::NotEnoughAttackPoints)));
}

#[test]
fn attack_out_of_turn_is_rejected() {
    let mut game = test_game();
    game.current_player_index = 1;
    own_tile(&mut game, 2, 2, HUMAN, Some(stack(UnitType::Infantry, 10, 1)));
    let r = move_unit(&mut game, HUMAN, 2, 2, 2, 3);
    assert_eq!(r, Err(ActionError::Game(GameError::NotYourTurn)));
}

#[test]
fn attack_on_base_marks_owner_not_alive() {
    let mut game = test_game();
    own_tile(&mut game, 2, 2, HUMAN, Some(stack(UnitType::Infantry, 6, 1)));
    game.tiles[2][3] = Some(Tile {
        owner: RIVAL,
        level: 1,
        units: None,
        building: Some(Building {
            building_type: BuildingType::Base,
            level: 1,
        }),
    });
    let r = move_unit(&mut game, HUMAN, 2, 2, 2, 3);
    assert_eq!(r, Ok(()));
    let conquered = game.tiles[2][3].unwrap();
    assert_eq!(conquered.owner, HUMAN);
    assert!(conquered.building.is_none());
    assert_eq!(conquered.units.unwrap().quantity, 1);
    assert!(!game.players[1].unwrap().is_alive);
}

#[test]
fn futile_attack_still_costs_the_engagement() {
    let mut game = test_game();
    own_tile(&mut game, 2, 2, HUMAN, Some(stack(UnitType::Infantry, 1, 1)));
    // A fortified level-3 rival tile swallows a power-1 attack whole.
    game.tiles[2][3] = Some(Tile {
        owner: RIVAL,
        level: 3,
        units: None,
        building: Some(Building {
            building_type: BuildingType::Fort,
            level: 2,
        }),
    });
    let before_target = game.tiles[2][3];
    let r = move_unit(&mut game, HUMAN, 2, 2, 2, 3);
    // A futile attack is a zero-effect outcome, not an error: the stack is
    // lost, the attack point is spent, the target is untouched.
    assert_eq!(r, Ok(()));
    assert!(game.tiles[2][2].unwrap().units.is_none());
    assert_eq!(game.tiles[2][3], before_target);
    assert_eq!(game.players[0].unwrap().attack_points, 2);
}

// ----------------------------------------------------------------
// Recruiting.
// ----------------------------------------------------------------

#[test]
fn recruit_debits_full_price() {
    let mut game = test_game();
    own_tile(&mut game, 2, 2, HUMAN, None);
    let r = recruit_units(&mut game, HUMAN, UnitType::Infantry, 5, 2, 2);
    assert_eq!(r, Ok(()));
    assert_eq!(game.players[0].unwrap().balance, 15);
    let units = game.tiles[2][2].unwrap().units.unwrap();
    assert_eq!(units.unit_type, UnitType::Infantry);
    assert_eq!(units.quantity, 5);
    assert_eq!(units.stamina, 1);
}

#[test]
fn recruit_grows_existing_stack() {
    let mut game = test_game();
    own_tile(&mut game, 2, 2, HUMAN, Some(stack(UnitType::Infantry, 3, 0)));
    let r = recruit_units(&mut game, HUMAN, UnitType::Infantry, 4, 2, 2);
    assert_eq!(r, Ok(()));
    assert_eq!(game.tiles[2][2].unwrap().units.unwrap().quantity, 7);
    assert_eq!(game.players[0].unwrap().balance, 16);
}

#[test]
fn recruit_bad_coordinates() {
    let mut game = test_game();
    let r = recruit_units(&mut game, HUMAN, UnitType::Infantry, 1, 9, 0);
    assert_eq!(r, Err(GameError::InvalidCoordinates));
}

#[test]
fn recruit_missing_tile() {
    let mut game = test_game();
    game.tiles[2][2] = None;
    let r = recruit_units(&mut game, HUMAN, UnitType::Infantry, 1, 2, 2);
    assert_eq!(r, Err(GameError::InvalidTile));
}

#[test]
fn recruit_foreign_tile() {
    let mut game = test_game();
    own_tile(&mut game, 2, 2, RIVAL, None);
    let r = recruit_units(&mut game, HUMAN, UnitType::Infantry, 1, 2, 2);
    assert_eq!(r, Err(GameError::TileNotOwned));
}

#[test]
fn recruit_mismatched_kind() {
    let mut game = test_game();
    own_tile(&mut game, 2, 2, HUMAN, Some(stack(UnitType::Tank, 1, 3)));
    let r = recruit_units(&mut game, HUMAN, UnitType::Infantry, 1, 2, 2);
    assert_eq!(r, Err(GameError::DifferentUnitTypeOnTile));
}

#[test]
fn recruit_tank_needs_factory() {
    let mut game = test_game();
    own_tile(&mut game, 2, 2, HUMAN, None);
    let r = recruit_units(&mut game, HUMAN, UnitType::Tank, 1, 2, 2);
    assert_eq!(r, Err(GameError::RequiresTankFactory));
}

#[test]
fn recruit_plane_needs_factory() {
    let mut game = test_game();
    own_tile(&mut game, 2, 2, HUMAN, None);
    let r = recruit_units(&mut game, HUMAN, UnitType::Plane, 1, 2, 2);
    assert_eq!(r, Err(GameError::RequiresPlaneFactory));
}

#[test]
fn recruit_mutants_is_invalid() {
    let mut game = test_game();
    own_tile(&mut game, 2, 2, HUMAN, None);
    let r = recruit_units(&mut game, HUMAN, UnitType::Mutants, 1, 2, 2);
    assert_eq!(r, Err(GameError::InvalidUnitType));
}

#[test]
fn recruit_beyond_balance_is_rejected() {
    let mut game = test_game();
    own_tile(&mut game, 2, 2, HUMAN, None);
    let r = recruit_units(&mut game, HUMAN, UnitType::Infantry, 21, 2, 2);
    assert_eq!(r, Err(GameError::InsufficientFunds));
    assert_eq!(game.players[0].unwrap().balance, 20);
    assert!(game.tiles[2][2].unwrap().units.is_none());
}

#[test]
fn recruit_overflowing_stack_is_rejected() {
    let mut game = test_game();
    game.players[0] = Some(PlayerInfo {
        balance: u32::MAX,
        ..player(HUMAN, false)
    });
    own_tile(
        &mut game,
        2,
        2,
        HUMAN,
        Some(stack(UnitType::Infantry, u16::MAX - 1, 0)),
    );
    let r = recruit_units(&mut game, HUMAN, UnitType::Infantry, 2, 2, 2);
    assert_eq!(r, Err(GameError::TooManyUnits));
}

#[test]
fn recruit_with_tank_factory_succeeds() {
    let mut game = test_game();
    game.tiles[2][2] = Some(Tile {
        owner: HUMAN,
        level: 1,
        units: None,
        building: Some(Building {
            building_type: BuildingType::TankFactory,
            level: 1,
        }),
    });
    let r = recruit_units(&mut game, HUMAN, UnitType::Tank, 3, 2, 2);
    assert_eq!(r, Ok(()));
    let units = game.tiles[2][2].unwrap().units.unwrap();
    assert_eq!(units.unit_type, UnitType::Tank);
    assert_eq!(units.quantity, 3);
    assert_eq!(units.stamina, 3);
    // Three tanks at cost 3 each.
    assert_eq!(game.players[0].unwrap().balance, 11);
}

// ----------------------------------------------------------------
// Construction.
// ----------------------------------------------------------------

#[test]
fn build_new_gas_plant() {
    let mut game = test_game();
    own_tile(&mut game, 2, 2, HUMAN, None);
    let r = build_construction(&mut game, HUMAN, 2, 2, BuildingType::GasPlant);
    assert_eq!(r, Ok(()));
    let building = game.tiles[2][2].unwrap().building.unwrap();
    assert_eq!(building.building_type, BuildingType::GasPlant);
    assert_eq!(building.level, 1);
    assert_eq!(game.players[0].unwrap().balance, 8);
}

#[test]
fn upgrade_base_costs_level_price() {
    let mut game = test_game();
    game.tiles[2][2] = Some(Tile {
        owner: HUMAN,
        level: 1,
        units: None,
        building: Some(Building {
            building_type: BuildingType::Base,
            level: 1,
        }),
    });
    let r = build_construction(&mut game, HUMAN, 2, 2, BuildingType::Base);
    assert_eq!(r, Ok(()));
    assert_eq!(game.tiles[2][2].unwrap().building.unwrap().level, 2);
    assert_eq!(game.players[0].unwrap().balance, 8);
}

#[test]
fn build_base_directly_is_rejected() {
    let mut game = test_game();
    own_tile(&mut game, 2, 2, HUMAN, None);
    let r = build_construction(&mut game, HUMAN, 2, 2, BuildingType::Base);
    assert_eq!(
        r,
        Err(ActionError::Construction(ConstructionError::CannotBuildBase))
    );
}

#[test]
fn build_mismatched_kind_is_rejected() {
    let mut game = test_game();
    game.tiles[2][2] = Some(Tile {
        owner: HUMAN,
        level: 1,
        units: None,
        building: Some(Building {
            building_type: BuildingType::GasPlant,
            level: 1,
        }),
    });
    let r = build_construction(&mut game, HUMAN, 2, 2, BuildingType::Fort);
    assert_eq!(
        r,
        Err(ActionError::Construction(
            ConstructionError::BuildingTypeMismatch
        ))
    );
}

#[test]
fn upgrade_past_max_level_is_rejected() {
    let mut game = test_game();
    game.tiles[2][2] = Some(Tile {
        owner: HUMAN,
        level: 1,
        units: None,
        building: Some(Building {
            building_type: BuildingType::GasPlant,
            level: 1,
        }),
    });
    let r = build_construction(&mut game, HUMAN, 2, 2, BuildingType::GasPlant);
    assert_eq!(
        r,
        Err(ActionError::Construction(ConstructionError::MaxLevelReached))
    );
}

#[test]
fn build_beyond_balance_is_rejected() {
    let mut game = test_game();
    game.players[0] = Some(PlayerInfo {
        balance: 5,
        ..player(HUMAN, false)
    });
    own_tile(&mut game, 2, 2, HUMAN, None);
    let r = build_construction(&mut game, HUMAN, 2, 2, BuildingType::Fort);
    assert_eq!(
        r,
        Err(ActionError::Construction(ConstructionError::NotEnoughFunds))
    );
}

#[test]
fn build_on_foreign_tile_is_rejected() {
    let mut game = test_game();
    own_tile(&mut game, 2, 2, RIVAL, None);
    let r = build_construction(&mut game, HUMAN, 2, 2, BuildingType::Fort);
    assert_eq!(
        r,
        Err(ActionError::Construction(ConstructionError::NotYourTile))
    );
}
