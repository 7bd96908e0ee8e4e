use super_game::ai::process_bot_turn;
use super_game::end_turn::end_turn;
use super_game::errors::GameError;
use super_game::states::{
    Building, BuildingType, Game, GameStatus, MapSize, PlayerInfo, Tile, UnitType, Units,
};

const HUMAN: u32 = 7;
const BOT: u32 = 1001;

fn player(pubkey: u32, is_bot: bool, balance: u32) -> PlayerInfo {
    PlayerInfo {
        pubkey,
        is_bot,
        balance,
        attack_points: 1,
        is_alive: true,
    }
}

fn base(level: u8) -> Option<Building> {
    Some(Building {
        building_type: BuildingType::Base,
        level,
    })
}

fn test_game() -> Game {
    let mut tiles: Vec<Vec<Option<Tile>>> = Vec::new();
    for _ in 0..7 {
        let mut row: Vec<Option<Tile>> = Vec::new();
        for _ in 0..7 {
            row.push(Some(Tile::new(1)));
        }
        tiles.push(row);
    }
    Game {
        game_id: 0,
        creator: HUMAN,
        players: vec![Some(player(HUMAN, false, 10)), Some(player(BOT, true, 10)), None, None],
        status: GameStatus::Live,
        winner: None,
        max_players: 2,
        is_multiplayer: false,
        map_size: MapSize::Small,
        round: 1,
        current_player_index: 0,
        turn_timestamp: 0,
        turn_time_limit: 60,
        tiles,
    }
}

fn with_bases(mut game: Game) -> Game {
    game.tiles[1][1] = Some(Tile {
        owner: HUMAN,
        level: 1,
        units: Some(Units {
            unit_type: UnitType::Infantry,
            quantity: 5,
            stamina: 0,
        }),
        building: base(1),
    });
    game.tiles[5][5] = Some(Tile {
        owner: BOT,
        level: 1,
        units: Some(Units {
            unit_type: UnitType::Infantry,
            quantity: 5,
            stamina: 0,
        }),
        building: base(1),
    });
    game
}

#[test]
fn end_turn_by_wrong_player_is_rejected() {
    let mut game = with_bases(test_game());
    let before_round = game.round;
    let r = end_turn(&mut game, BOT, 99);
    assert_eq!(r, Err(GameError::NotYourTurn));
    assert_eq!(game.round, before_round);
    assert_eq!(game.turn_timestamp, 0);
}

#[test]
fn single_player_turn_advances_round() {
    let mut game = with_bases(test_game());
    let r = end_turn(&mut game, HUMAN, 42);
    assert_eq!(r, Ok(()));
    assert_eq!(game.round, 2);
    assert_eq!(game.turn_timestamp, 42);
    assert_eq!(game.status, GameStatus::Live);
}

#[test]
fn end_turn_restores_stamina_and_pays_income() {
    let mut game = with_bases(test_game());
    // Prevent the bot from acting into the human's tiles this turn.
    game.players[1] = Some(PlayerInfo {
        is_alive: true,
        ..player(BOT, true, 0)
    });
    game.players[0] = Some(PlayerInfo {
        attack_points: 1,
        ..player(HUMAN, false, 10)
    });
    let r = end_turn(&mut game, HUMAN, 1);
    assert_eq!(r, Ok(()));
    // The human's Base tile: level-1 terrain yields 0, Base level 1 yields 3.
    assert_eq!(game.players[0].unwrap().balance, 13);
    // Attack points regenerate by one.
    assert_eq!(game.players[0].unwrap().attack_points, 2);
    // Stamina of the garrison is restored to Infantry's maximum.
    assert_eq!(game.tiles[1][1].unwrap().units.unwrap().stamina, 1);
}

#[test]
fn player_without_base_is_eliminated_and_wiped() {
    let mut game = with_bases(test_game());
    // The bot's Base vanishes; its other territory must be wiped.
    game.tiles[5][5] = Some(Tile {
        owner: BOT,
        level: 1,
        units: None,
        building: None,
    });
    game.tiles[5][4] = Some(Tile {
        owner: BOT,
        level: 1,
        units: Some(Units {
            unit_type: UnitType::Tank,
            quantity: 2,
            stamina: 0,
        }),
        building: None,
    });
    let r = end_turn(&mut game, HUMAN, 1);
    assert_eq!(r, Ok(()));
    assert!(!game.players[1].unwrap().is_alive);
    assert!(game.tiles[5][5].is_none());
    assert!(game.tiles[5][4].is_none());
    // The sole survivor wins and the game completes.
    assert_eq!(game.status, GameStatus::Completed);
    assert_eq!(game.winner, Some(HUMAN));
}

#[test]
fn game_without_survivors_completes_without_winner() {
    let mut game = test_game();
    // Nobody owns a Base.
    let r = end_turn(&mut game, HUMAN, 1);
    assert_eq!(r, Ok(()));
    assert_eq!(game.status, GameStatus::Completed);
    assert_eq!(game.winner, None);
}

#[test]
fn multiplayer_turn_rotates_to_next_human() {
    let mut game = with_bases(test_game());
    game.is_multiplayer = true;
    game.players[2] = Some(player(11, false, 5));
    game.tiles[1][5] = Some(Tile {
        owner: 11,
        level: 1,
        units: None,
        building: base(1),
    });
    let r = end_turn(&mut game, HUMAN, 1);
    assert_eq!(r, Ok(()));
    // Slot 1 is a bot; slot 2 holds the next human.
    assert_eq!(game.current_player_index, 2);
    // No wrap to slot 0, so the round stands.
    assert_eq!(game.round, 1);
}

#[test]
fn multiplayer_wrap_to_first_slot_advances_round() {
    let mut game = with_bases(test_game());
    game.is_multiplayer = true;
    game.players[2] = Some(player(11, false, 5));
    game.tiles[1][5] = Some(Tile {
        owner: 11,
        level: 1,
        units: None,
        building: base(1),
    });
    game.current_player_index = 2;
    let r = end_turn(&mut game, 11, 1);
    assert_eq!(r, Ok(()));
    assert_eq!(game.current_player_index, 0);
    assert_eq!(game.round, 2);
}

#[test]
fn multiplayer_rotation_skips_dead_humans() {
    let mut game = with_bases(test_game());
    game.is_multiplayer = true;
    // Slot 2 holds a human who already lost their Base and is marked dead.
    game.players[2] = Some(PlayerInfo {
        is_alive: false,
        ..player(11, false, 5)
    });
    let r = end_turn(&mut game, HUMAN, 1);
    assert_eq!(r, Ok(()));
    // The bot in slot 1 and the dead human in slot 2 are passed over; the
    // turn wraps back to slot 0 and the round advances.
    assert_eq!(game.current_player_index, 0);
    assert_eq!(game.round, 2);
}

#[test]
fn bot_recruits_infantry_with_its_funds() {
    let mut game = with_bases(test_game());
    game.players[1] = Some(player(BOT, true, 4));
    // A garrison of four keeps the bot below the Base-upgrade threshold,
    // so the priority chain falls through to recruiting.
    game.tiles[5][5] = Some(Tile {
        owner: BOT,
        level: 1,
        units: Some(Units {
            unit_type: UnitType::Infantry,
            quantity: 4,
            stamina: 0,
        }),
        building: base(1),
    });
    let r = process_bot_turn(&mut game, 1);
    assert_eq!(r, Ok(()));
    // Four affordable infantry on its only tile, funds exhausted.
    let units = game.tiles[5][5].unwrap().units.unwrap();
    assert_eq!(units.unit_type, UnitType::Infantry);
    assert_eq!(units.quantity, 8);
    assert_eq!(game.players[1].unwrap().balance, 0);
}

#[test]
fn bot_upgrades_base_with_enough_units() {
    let mut game = with_bases(test_game());
    game.players[1] = Some(player(BOT, true, 15));
    game.tiles[5][5] = Some(Tile {
        owner: BOT,
        level: 1,
        units: Some(Units {
            unit_type: UnitType::Infantry,
            quantity: 6,
            stamina: 0,
        }),
        building: base(1),
    });
    let r = process_bot_turn(&mut game, 1);
    assert_eq!(r, Ok(()));
    assert_eq!(game.tiles[5][5].unwrap().building.unwrap().level, 2);
    assert_eq!(game.players[1].unwrap().balance, 3);
}

#[test]
fn bot_attacks_weaker_neighbour() {
    let mut game = with_bases(test_game());
    // A rested bot stack next to a weakly garrisoned neutral tile.
    game.tiles[5][4] = Some(Tile {
        owner: BOT,
        level: 1,
        units: Some(Units {
            unit_type: UnitType::Tank,
            quantity: 4,
            stamina: 3,
        }),
        building: None,
    });
    // Give the bot nothing to recruit with so the board stays readable.
    game.players[1] = Some(player(BOT, true, 0));
    let r = process_bot_turn(&mut game, 1);
    assert_eq!(r, Ok(()));
    // The scan order is up, down, left, right: (4, 4) is neutral with one
    // Mutant, so the stack conquers it.
    let conquered = game.tiles[4][4].unwrap();
    assert_eq!(conquered.owner, BOT);
    assert!(conquered.units.unwrap().quantity <= 4);
    assert!(game.tiles[5][4].unwrap().units.is_none());
}

#[test]
fn bot_turn_on_empty_slot_is_rejected() {
    let mut game = test_game();
    let r = process_bot_turn(&mut game, 3);
    assert_eq!(r, Err(GameError::InvalidPlayer));
}
