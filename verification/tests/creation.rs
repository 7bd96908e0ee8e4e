use super_game::create_game::{create_game, get_random_tile_level, tile_level_from_roll};
use super_game::errors::GameError;
use super_game::states::{
    create_player_profile, initialize_super, BuildingType, Game, GameStatus, MapSize, Tile,
    UnitType,
};

#[test]
fn registry_starts_empty() {
    let state = initialize_super();
    assert_eq!(state.game_count, 0);
}

#[test]
fn fresh_profile_is_blank() {
    let profile = create_player_profile(7);
    assert_eq!(profile.player, 7);
    assert_eq!(profile.experience, 0);
    assert_eq!(profile.completed_games, 0);
    assert!(profile.active_games.is_empty());
}

#[test]
fn map_layouts_are_diamonds() {
    assert_eq!(Game::get_map_layout(MapSize::Small), vec![3, 5, 7, 7, 7, 5, 3]);
    assert_eq!(
        Game::get_map_layout(MapSize::Large),
        vec![3, 5, 7, 9, 9, 9, 7, 5, 3]
    );
}

#[test]
fn unit_tables() {
    assert_eq!(UnitType::Infantry.strength(), 1);
    assert_eq!(UnitType::Tank.strength(), 3);
    assert_eq!(UnitType::Plane.strength(), 4);
    assert_eq!(UnitType::Mutants.strength(), 1);
    assert_eq!(UnitType::Infantry.cost(), 1);
    assert_eq!(UnitType::Tank.cost(), 3);
    assert_eq!(UnitType::Plane.cost(), 5);
    assert_eq!(UnitType::Mutants.cost(), 0);
    assert_eq!(UnitType::Infantry.max_stamina(), 1);
    assert_eq!(UnitType::Tank.max_stamina(), 3);
    assert_eq!(UnitType::Plane.max_stamina(), 5);
    assert_eq!(UnitType::Mutants.max_stamina(), 0);
}

#[test]
fn tile_tables() {
    assert_eq!(Tile::default_mutants(1), 1);
    assert_eq!(Tile::default_mutants(2), 3);
    assert_eq!(Tile::default_mutants(3), 8);
    let t = Tile::new(3);
    assert!(t.is_neutral());
    assert_eq!(t.get_defense_bonus(), 0);
    assert_eq!(t.get_yield(), 1);
    let garrison = t.units.unwrap();
    assert_eq!(garrison.unit_type, UnitType::Mutants);
    assert_eq!(garrison.quantity, 8);
}

#[test]
fn roll_mapping_matches_band_bounds() {
    // The 1-100 roll bands: 1-40 give level 1, 41-80 level 2, 81-100
    // level 3; the roll is byte % 100 + 1.
    assert_eq!(tile_level_from_roll(0), 1); // roll 1
    assert_eq!(tile_level_from_roll(39), 1); // roll 40
    assert_eq!(tile_level_from_roll(40), 2); // roll 41
    assert_eq!(tile_level_from_roll(79), 2); // roll 80
    assert_eq!(tile_level_from_roll(80), 3); // roll 81
    assert_eq!(tile_level_from_roll(99), 3); // roll 100
    assert_eq!(tile_level_from_roll(100), 1); // roll 1 again
    assert_eq!(tile_level_from_roll(255), 2); // roll 56
}

#[test]
fn tile_level_follows_the_digest() {
    // The terrain roll must come from the SHA-256 digest of the game id,
    // tile index and slot, not from the inputs themselves.
    for (game_id, tile_index, slot) in [(0u32, 0u64, 0u64), (1, 8, 42), (9, 80, 7)] {
        let digest = anchor_lang::solana_program::hash::hashv(&[
            &game_id.to_le_bytes(),
            &tile_index.to_le_bytes(),
            &slot.to_le_bytes(),
        ]);
        let expected = tile_level_from_roll(digest.to_bytes()[0]);
        assert_eq!(get_random_tile_level(game_id, tile_index, slot), expected);
        // Deterministic: the same inputs give the same level.
        assert_eq!(
            get_random_tile_level(game_id, tile_index, slot),
            get_random_tile_level(game_id, tile_index, slot)
        );
    }
}

#[test]
fn create_game_places_bases_and_counts_games() {
    let mut state = initialize_super();
    let mut profile = create_player_profile(7);
    let game = create_game(&mut state, &mut profile, 7, 4, false, MapSize::Small, 5, 0)
        .expect("creation should succeed");
    assert_eq!(state.game_count, 1);
    assert_eq!(profile.active_games, vec![0]);
    assert_eq!(game.game_id, 0);
    assert_eq!(game.creator, 7);
    assert_eq!(game.status, GameStatus::Live);
    assert_eq!(game.round, 1);
    assert_eq!(game.current_player_index, 0);
    assert_eq!(game.turn_time_limit, 60);
    assert_eq!(game.winner, None);

    // Slot 0 is the human creator, slots 1-3 the pre-designated bots.
    let creator = game.players[0].unwrap();
    assert_eq!(creator.pubkey, 7);
    assert!(!creator.is_bot);
    assert_eq!(creator.balance, 2);
    assert_eq!(creator.attack_points, 1);
    assert!(creator.is_alive);
    for slot in 1..4 {
        let bot = game.players[slot].unwrap();
        assert!(bot.is_bot);
        assert!(bot.is_alive);
        assert_ne!(bot.pubkey, 0);
    }

    // The four bases stand at the fixed symmetric positions.
    let base_positions = [(1, 1), (1, 5), (5, 1), (5, 5)];
    for (k, (r, c)) in base_positions.iter().enumerate() {
        let tile = game.tiles[*r][*c].expect("base tile exists");
        assert_eq!(tile.owner, game.players[k].unwrap().pubkey);
        assert_eq!(tile.level, 1);
        let building = tile.building.unwrap();
        assert_eq!(building.building_type, BuildingType::Base);
        assert_eq!(building.level, 1);
        let garrison = tile.units.unwrap();
        assert_eq!(garrison.unit_type, UnitType::Infantry);
        assert_eq!(garrison.quantity, 5);
        assert_eq!(garrison.stamina, 1);
    }

    // The diamond: row widths 3,5,7,7,7,5,3 centered, the rest empty.
    let layout = [3usize, 5, 7, 7, 7, 5, 3];
    for r in 0..7 {
        let width = layout[r];
        let empty = (7 - width) / 2;
        for c in 0..7 {
            let populated = c >= empty && c < empty + width;
            assert_eq!(game.tiles[r][c].is_some(), populated);
            if populated {
                let tile = game.tiles[r][c].unwrap();
                assert!(tile.level >= 1 && tile.level <= 3);
            }
        }
    }
}

#[test]
fn create_multiplayer_game_waits_for_players() {
    let mut state = initialize_super();
    let mut profile = create_player_profile(7);
    let game = create_game(&mut state, &mut profile, 7, 4, true, MapSize::Large, 5, 1234)
        .expect("creation should succeed");
    assert_eq!(game.status, GameStatus::NotStarted);
    assert_eq!(game.turn_timestamp, 1234);
    // Two slots for humans: the creator and two bots, one slot left open.
    assert!(game.players[0].unwrap().is_bot == false);
    assert!(game.players[1].unwrap().is_bot);
    assert!(game.players[2].unwrap().is_bot);
    assert!(game.players[3].is_none());
    // Large boards are 9x9.
    assert_eq!(game.tiles.len(), 9);
    assert!(game.tiles[0][4].is_some());
}

#[test]
fn created_game_plays_a_first_round() {
    let mut state = initialize_super();
    let mut profile = create_player_profile(7);
    let mut game = create_game(&mut state, &mut profile, 7, 4, false, MapSize::Small, 5, 0)
        .expect("creation should succeed");
    let r = super_game::end_turn::end_turn(&mut game, 7, 99);
    assert_eq!(r, Ok(()));
    assert_eq!(game.round, 2);
    assert_eq!(game.turn_timestamp, 99);
    assert_eq!(game.status, GameStatus::Live);
    assert_eq!(game.winner, None);
    // The creator holds one level-1 Base tile: income is exactly the Base
    // yield of 3, and one attack point regenerates.
    let creator = game.players[0].unwrap();
    assert_eq!(creator.balance, 5);
    assert_eq!(creator.attack_points, 2);
    assert!(creator.is_alive);
    // The creator's garrison comes back to full stamina.
    assert_eq!(game.tiles[1][1].unwrap().units.unwrap().stamina, 1);
}

#[test]
fn create_game_with_full_profile_is_rejected() {
    let mut state = initialize_super();
    let mut profile = create_player_profile(7);
    for k in 0..10 {
        profile.active_games.push(k);
    }
    let r = create_game(&mut state, &mut profile, 7, 2, false, MapSize::Small, 5, 0);
    assert!(matches!(r, Err(GameError::TooManyActiveGames)));
    assert_eq!(state.game_count, 0);
    assert_eq!(profile.active_games.len(), 10);
}

#[test]
fn create_game_without_enough_bot_identities_is_rejected() {
    let mut state = initialize_super();
    let mut profile = create_player_profile(7);
    let r = create_game(&mut state, &mut profile, 7, 5, false, MapSize::Small, 5, 0);
    assert!(matches!(r, Err(GameError::BotKeyNotFound)));
    assert_eq!(state.game_count, 0);
}
