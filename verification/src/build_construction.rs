//! Constructing or upgrading a building on an owned tile. An existing
//! building of the same kind below its maximum level is upgraded at the
//! level-indexed price; an empty tile takes a new level-1 building of any
//! kind but a Base.

use vstd::prelude::*;

use crate::errors::{ActionError, ConstructionError, GameError};
use crate::recruit::{spec_set_balance, spec_slot_balance};
use crate::states::{
    building_wf, find_player, lemma_set_tile_keeps_wf, lemma_update_slot_keeps_wf,
    spec_find_player, tile_wf, Building, BuildingType, Game, GameView, PlayerInfo, Tile,
    NEUTRAL_OWNER,
};

verus! {

/// What the build request would do to the tile and what it costs: the
/// upgraded or newly constructed building, or the error refusing it.
pub open spec fn spec_build_result(t: Tile, building_type: BuildingType) -> Result<
    (Building, int),
    ActionError,
> {
    match t.building {
        Some(existing) => {
            if existing.building_type != building_type {
                Err(ActionError::Construction(ConstructionError::BuildingTypeMismatch))
            } else if existing.level >= existing.building_type.spec_max_level() {
                Err(ActionError::Construction(ConstructionError::MaxLevelReached))
            } else {
                Ok(
                    (
                        Building {
                            building_type: existing.building_type,
                            level: (existing.level + 1) as u8,
                        },
                        existing.spec_upgrade_cost() as int,
                    ),
                )
            }
        },
        None => {
            if building_type == BuildingType::Base {
                Err(ActionError::Construction(ConstructionError::CannotBuildBase))
            } else {
                Ok(
                    (
                        Building { building_type, level: 1 },
                        building_type.spec_construction_cost() as int,
                    ),
                )
            }
        },
    }
}

/// The full construction rule: validation in order (bounds, a known player
/// slot, tile existence, ownership, the build request itself,
/// affordability), then the debit and the new building.
pub open spec fn spec_build_construction(
    g: GameView,
    player: u32,
    row: int,
    col: int,
    building_type: BuildingType,
) -> (GameView, Result<(), ActionError>) {
    let n = g.grid.len() as int;
    if !(row < n && col < n) {
        (g, Err(ActionError::Game(GameError::OutOfBounds)))
    } else {
        match spec_find_player(g.players, player) {
            None => (g, Err(ActionError::Game(GameError::InvalidPlayer))),
            Some(idx) => match g.grid[row][col] {
                None => (g, Err(ActionError::Game(GameError::InvalidTile))),
                Some(tile) => {
                    if tile.owner != player {
                        (g, Err(ActionError::Construction(ConstructionError::NotYourTile)))
                    } else {
                        match spec_build_result(tile, building_type) {
                            Err(e) => (g, Err(e)),
                            Ok((building, cost)) => {
                                if spec_slot_balance(g.players, idx) < cost {
                                    (
                                        g,
                                        Err(
                                            ActionError::Construction(
                                                ConstructionError::NotEnoughFunds,
                                            ),
                                        ),
                                    )
                                } else {
                                    let new_balance = spec_slot_balance(g.players, idx) - cost;
                                    let g1 = g.with_players(
                                        spec_set_balance(g.players, idx, new_balance as u32),
                                    );
                                    let g2 = g1.set_tile(
                                        row,
                                        col,
                                        Some(
                                            Tile {
                                                owner: tile.owner,
                                                level: tile.level,
                                                units: tile.units,
                                                building: Some(building),
                                            },
                                        ),
                                    );
                                    (g2, Ok(()))
                                }
                            },
                        }
                    }
                },
            },
        }
    }
}

/// Constructs or upgrades a building at (`row`, `col`), exactly as
/// `spec_build_construction` describes, preserving the game invariant.
#[verifier::rlimit(50)]
pub fn build_construction(
    game: &mut Game,
    player: u32,
    row: usize,
    col: usize,
    building_type: BuildingType,
) -> (r: Result<(), ActionError>)
    requires
        old(game)@.wf(),
        player != NEUTRAL_OWNER,
    ensures
        final(game)@.wf(),
        ({
            let (g2, r2) = spec_build_construction(
                old(game)@,
                player,
                row as int,
                col as int,
                building_type,
            );
            final(game)@ == g2 && r == r2
        }),
{
    let ghost g0 = game@;
    let n = game.tiles.len();
    if row >= n || col >= n {
        return Err(ActionError::Game(GameError::OutOfBounds));
    }
    proof {
        assert(g0.grid[row as int] == game.tiles@[row as int]@);
    }
    let idx = match find_player(&game.players, player) {
        Some(i) => i,
        None => {
            return Err(ActionError::Game(GameError::InvalidPlayer));
        },
    };
    let tile = match &game.tiles[row][col] {
        Some(t) => *t,
        None => {
            return Err(ActionError::Game(GameError::InvalidTile));
        },
    };
    if tile.owner != player {
        return Err(ActionError::Construction(ConstructionError::NotYourTile));
    }

    let (building, cost): (Building, u32) = match &tile.building {
        Some(existing) => {
            if existing.building_type != building_type {
                return Err(ActionError::Construction(ConstructionError::BuildingTypeMismatch));
            }
            if existing.level >= existing.max_level() {
                return Err(ActionError::Construction(ConstructionError::MaxLevelReached));
            }
            (
                Building { building_type: existing.building_type, level: existing.level + 1 },
                existing.get_upgrade_cost() as u32,
            )
        },
        None => {
            if building_type == BuildingType::Base {
                return Err(ActionError::Construction(ConstructionError::CannotBuildBase));
            }
            (
                Building { building_type, level: 1 },
                building_type.get_construction_cost() as u32,
            )
        },
    };

    let p = match &game.players[idx] {
        Some(p) => *p,
        None => unreached(),
    };
    if p.balance < cost {
        return Err(ActionError::Construction(ConstructionError::NotEnoughFunds));
    }

    let new_balance = p.balance - cost;
    game.players[idx] = Some(
        PlayerInfo {
            pubkey: p.pubkey,
            is_bot: p.is_bot,
            balance: new_balance,
            attack_points: p.attack_points,
            is_alive: p.is_alive,
        },
    );
    let new_tile = Tile {
        owner: tile.owner,
        level: tile.level,
        units: tile.units,
        building: Some(building),
    };
    game.tiles[row][col] = Some(new_tile);

    proof {
        let players1 = spec_set_balance(g0.players, idx as int, new_balance);
        assert(game@.players =~= players1);
        let g1 = g0.with_players(players1);
        let target = g1.set_tile(row as int, col as int, Some(new_tile));
        assert(game@.grid =~~= target.grid);
        assert(game@ == target);
        lemma_update_slot_keeps_wf(
            g0.players,
            idx as int,
            PlayerInfo {
                pubkey: p.pubkey,
                is_bot: p.is_bot,
                balance: new_balance,
                attack_points: p.attack_points,
                is_alive: p.is_alive,
            },
        );
        assert(building_wf(building));
        assert(tile_wf(new_tile));
        lemma_set_tile_keeps_wf(g1, row as int, col as int, Some(new_tile));
    }
    Ok(())
}

} // verus!
