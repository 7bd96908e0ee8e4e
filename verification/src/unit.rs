//! Moving a unit stack: relocation and merging on own territory, swaps of
//! mismatched stacks, and attacks on foreign tiles resolved by the combat
//! rule. The whole operation either fully applies or rejects the request
//! with the game unchanged.

use vstd::prelude::*;

use crate::combat::{
    lemma_resolve_attack_wf, resolve_attack, spec_resolve_attack, spec_stamina_after,
};
use crate::errors::{ActionError, GameError, UnitError};
use crate::states::{
    find_player, lemma_mark_status_keeps_wf, lemma_set_tile_keeps_wf, lemma_update_slot_keeps_wf,
    spec_find_player, spec_mark_player_status, tile_wf, update_player_status, Game, GameView,
    PlayerInfo, Tile, Units, NEUTRAL_OWNER,
};

verus! {

/// A move is legal when the target is within the eight surrounding
/// positions and differs from the source.
pub open spec fn spec_is_valid_move(fr: int, fc: int, tr: int, tc: int) -> bool {
    let rd = if fr >= tr {
        fr - tr
    } else {
        tr - fr
    };
    let cd = if fc >= tc {
        fc - tc
    } else {
        tc - fc
    };
    rd <= 1 && cd <= 1 && !(rd == 0 && cd == 0)
}

/// Stamina cost of a legal move: diagonal steps cost 2, orthogonal steps 1.
pub open spec fn spec_move_cost(fr: int, fc: int, tr: int, tc: int) -> u8 {
    let rd = if fr >= tr {
        fr - tr
    } else {
        tr - fr
    };
    let cd = if fc >= tc {
        fc - tc
    } else {
        tc - fc
    };
    if rd == 1 && cd == 1 {
        2
    } else {
        1
    }
}

/// Moving onto a tile the mover already owns: relocate onto an empty tile,
/// merge with a same-kind stack (stamina becomes the lower of the two
/// remaining budgets), or swap with a different-kind stack when both sides
/// can pay the move cost.
pub open spec fn spec_handle_move(from_units: Units, from_tile: Tile, to_tile: Tile, cost: u8) -> Result<
    (Tile, Tile),
    ActionError,
> {
    let from_cleared = Tile {
        owner: from_tile.owner,
        level: from_tile.level,
        units: None,
        building: from_tile.building,
    };
    match to_tile.units {
        Some(to_units) => {
            if from_units.unit_type == to_units.unit_type {
                if from_units.quantity + to_units.quantity > u16::MAX {
                    Err(ActionError::Game(GameError::TooManyUnits))
                } else {
                    let moved = spec_stamina_after(from_units.stamina, cost);
                    let stamina = if moved >= to_units.stamina {
                        to_units.stamina
                    } else {
                        moved
                    };
                    Ok(
                        (
                            from_cleared,
                            Tile {
                                owner: to_tile.owner,
                                level: to_tile.level,
                                units: Some(
                                    Units {
                                        unit_type: from_units.unit_type,
                                        quantity: (from_units.quantity + to_units.quantity) as u16,
                                        stamina,
                                    },
                                ),
                                building: to_tile.building,
                            },
                        ),
                    )
                }
            } else if from_units.stamina >= cost && to_units.stamina >= cost {
                Ok(
                    (
                        Tile {
                            owner: from_tile.owner,
                            level: from_tile.level,
                            units: Some(
                                Units {
                                    unit_type: to_units.unit_type,
                                    quantity: to_units.quantity,
                                    stamina: (to_units.stamina - cost) as u8,
                                },
                            ),
                            building: from_tile.building,
                        },
                        Tile {
                            owner: to_tile.owner,
                            level: to_tile.level,
                            units: Some(
                                Units {
                                    unit_type: from_units.unit_type,
                                    quantity: from_units.quantity,
                                    stamina: (from_units.stamina - cost) as u8,
                                },
                            ),
                            building: to_tile.building,
                        },
                    ),
                )
            } else {
                Err(ActionError::Unit(UnitError::TileOccupiedByOtherUnitType))
            }
        },
        None => Ok(
            (
                from_cleared,
                Tile {
                    owner: to_tile.owner,
                    level: to_tile.level,
                    units: Some(
                        Units {
                            unit_type: from_units.unit_type,
                            quantity: from_units.quantity,
                            stamina: spec_stamina_after(from_units.stamina, cost),
                        },
                    ),
                    building: to_tile.building,
                },
            ),
        ),
    }
}

/// Attack-point budget of the slot at `idx`, 0 for an empty slot.
pub open spec fn spec_slot_attack_points(players: Seq<Option<PlayerInfo>>, idx: int) -> int {
    match players[idx] {
        Some(p) => p.attack_points as int,
        None => 0,
    }
}

/// The slot at `idx` with one attack point spent.
pub open spec fn spec_deduct_attack_point(players: Seq<Option<PlayerInfo>>, idx: int) -> Seq<
    Option<PlayerInfo>,
> {
    match players[idx] {
        Some(p) => players.update(
            idx,
            Some(PlayerInfo { attack_points: (p.attack_points - 1) as u8, ..p }),
        ),
        None => players,
    }
}

/// The later checks and the application of a unit move, once both tiles are
/// known to exist, the source belongs to the mover and carries a stack.
pub open spec fn spec_move_unit_checked(
    g: GameView,
    player: u32,
    fr: int,
    fc: int,
    tr: int,
    tc: int,
    from_tile: Tile,
    to_tile: Tile,
    from_units: Units,
) -> (GameView, Result<(), ActionError>) {
    let is_attack = to_tile.owner != player;
    let found = spec_find_player(g.players, player);
    let idx = match found {
        Some(i) => i,
        None => 0,
    };
    if is_attack && found is None {
        (g, Err(ActionError::Game(GameError::InvalidPlayer)))
    } else if is_attack && spec_slot_attack_points(g.players, idx) < 1 {
        (g, Err(ActionError::Unit(UnitError::NotEnoughAttackPoints)))
    } else if !spec_is_valid_move(fr, fc, tr, tc) {
        (g, Err(ActionError::Unit(UnitError::InvalidMovement)))
    } else {
        let cost = spec_move_cost(fr, fc, tr, tc);
        if from_units.stamina < cost {
            (g, Err(ActionError::Unit(UnitError::NotEnoughStamina)))
        } else if !is_attack {
            match spec_handle_move(from_units, from_tile, to_tile, cost) {
                Ok((f2, t2)) => (g.set_tile(fr, fc, Some(f2)).set_tile(tr, tc, Some(t2)), Ok(())),
                Err(e) => (g, Err(e)),
            }
        } else if idx != g.current_player_index as int {
            (g, Err(ActionError::Game(GameError::NotYourTurn)))
        } else {
            let oc = spec_resolve_attack(from_units, from_tile, to_tile, player, cost);
            let g1 = g.set_tile(fr, fc, Some(oc.from_tile)).set_tile(tr, tc, Some(oc.to_tile));
            let g2 = g1.with_players(spec_deduct_attack_point(g1.players, idx));
            let g3 = match oc.base_destroyed {
                Some(pid) => g2.with_players(spec_mark_player_status(g2.players, pid, false)),
                None => g2,
            };
            (g3, Ok(()))
        }
    }
}

/// The full unit-move rule: validation in order (bounds, tile existence,
/// ownership, stack presence, attack budget, adjacency, stamina, then the
/// move or attack itself), and the resulting game on success.
pub open spec fn spec_move_unit(g: GameView, player: u32, fr: int, fc: int, tr: int, tc: int) -> (
    GameView,
    Result<(), ActionError>,
) {
    let n = g.grid.len() as int;
    if !(fr < n && fc < n && tr < n && tc < n) {
        (g, Err(ActionError::Game(GameError::OutOfBounds)))
    } else {
        match (g.grid[fr][fc], g.grid[tr][tc]) {
            (Some(from_tile), Some(to_tile)) => {
                if from_tile.owner != player {
                    (g, Err(ActionError::Unit(UnitError::NotYourTile)))
                } else {
                    match from_tile.units {
                        None => (g, Err(ActionError::Unit(UnitError::NoUnitsToMove))),
                        Some(from_units) => spec_move_unit_checked(
                            g,
                            player,
                            fr,
                            fc,
                            tr,
                            tc,
                            from_tile,
                            to_tile,
                            from_units,
                        ),
                    }
                }
            },
            _ => (g, Err(ActionError::Unit(UnitError::InvalidTile))),
        }
    }
}

/// Applies one unit move or attack for `player`, exactly as
/// `spec_move_unit` describes, preserving the game invariant.
#[verifier::rlimit(100)]
#[verifier::spinoff_prover]
pub fn move_unit(
    game: &mut Game,
    player: u32,
    from_row: usize,
    from_col: usize,
    to_row: usize,
    to_col: usize,
) -> (r: Result<(), ActionError>)
    requires
        old(game)@.wf(),
        player != NEUTRAL_OWNER,
    ensures
        final(game)@.wf(),
        ({
            let (g2, r2) = spec_move_unit(
                old(game)@,
                player,
                from_row as int,
                from_col as int,
                to_row as int,
                to_col as int,
            );
            final(game)@ == g2 && r == r2
        }),
{
    let ghost g0 = game@;
    let n = game.tiles.len();
    if from_row >= n || from_col >= n || to_row >= n || to_col >= n {
        return Err(ActionError::Game(GameError::OutOfBounds));
    }
    proof {
        assert(g0.grid[from_row as int] == game.tiles@[from_row as int]@);
        assert(g0.grid[to_row as int] == game.tiles@[to_row as int]@);
    }
    let from_tile = match &game.tiles[from_row][from_col] {
        Some(t) => *t,
        None => {
            return Err(ActionError::Unit(UnitError::InvalidTile));
        },
    };
    let to_tile = match &game.tiles[to_row][to_col] {
        Some(t) => *t,
        None => {
            return Err(ActionError::Unit(UnitError::InvalidTile));
        },
    };
    if from_tile.owner != player {
        return Err(ActionError::Unit(UnitError::NotYourTile));
    }
    let from_units = match &from_tile.units {
        Some(u) => *u,
        None => {
            return Err(ActionError::Unit(UnitError::NoUnitsToMove));
        },
    };

    let is_attack = to_tile.owner != player;
    let mut player_index: usize = 0;
    if is_attack {
        match find_player(&game.players, player) {
            Some(i) => {
                player_index = i;
                let ap = match &game.players[i] {
                    Some(p) => p.attack_points,
                    None => unreached(),
                };
                if ap < 1 {
                    return Err(ActionError::Unit(UnitError::NotEnoughAttackPoints));
                }
            },
            None => {
                return Err(ActionError::Game(GameError::InvalidPlayer));
            },
        }
    }

    // Adjacency and cost, over small in-bounds coordinates.
    let row_diff = if from_row >= to_row {
        from_row - to_row
    } else {
        to_row - from_row
    };
    let col_diff = if from_col >= to_col {
        from_col - to_col
    } else {
        to_col - from_col
    };
    if !(row_diff <= 1 && col_diff <= 1 && !(row_diff == 0 && col_diff == 0)) {
        return Err(ActionError::Unit(UnitError::InvalidMovement));
    }
    let move_cost: u8 = if row_diff == 1 && col_diff == 1 {
        2
    } else {
        1
    };

    if from_units.stamina < move_cost {
        return Err(ActionError::Unit(UnitError::NotEnoughStamina));
    }

    if !is_attack {
        // Relocate, merge or swap on own territory.
        let (new_from, new_to) = match &to_tile.units {
            Some(to_units) => {
                if from_units.unit_type == to_units.unit_type {
                    let summed = match from_units.quantity.checked_add(to_units.quantity) {
                        Some(q) => q,
                        None => {
                            return Err(ActionError::Game(GameError::TooManyUnits));
                        },
                    };
                    let moved = from_units.stamina - move_cost;
                    let stamina = if moved >= to_units.stamina {
                        to_units.stamina
                    } else {
                        moved
                    };
                    (
                        Tile {
                            owner: from_tile.owner,
                            level: from_tile.level,
                            units: None,
                            building: from_tile.building,
                        },
                        Tile {
                            owner: to_tile.owner,
                            level: to_tile.level,
                            units: Some(
                                Units { unit_type: from_units.unit_type, quantity: summed, stamina },
                            ),
                            building: to_tile.building,
                        },
                    )
                } else if to_units.stamina >= move_cost {
                    (
                        Tile {
                            owner: from_tile.owner,
                            level: from_tile.level,
                            units: Some(
                                Units {
                                    unit_type: to_units.unit_type,
                                    quantity: to_units.quantity,
                                    stamina: to_units.stamina - move_cost,
                                },
                            ),
                            building: from_tile.building,
                        },
                        Tile {
                            owner: to_tile.owner,
                            level: to_tile.level,
                            units: Some(
                                Units {
                                    unit_type: from_units.unit_type,
                                    quantity: from_units.quantity,
                                    stamina: from_units.stamina - move_cost,
                                },
                            ),
                            building: to_tile.building,
                        },
                    )
                } else {
                    return Err(ActionError::Unit(UnitError::TileOccupiedByOtherUnitType));
                }
            },
            None => (
                Tile {
                    owner: from_tile.owner,
                    level: from_tile.level,
                    units: None,
                    building: from_tile.building,
                },
                Tile {
                    owner: to_tile.owner,
                    level: to_tile.level,
                    units: Some(
                        Units {
                            unit_type: from_units.unit_type,
                            quantity: from_units.quantity,
                            stamina: from_units.stamina - move_cost,
                        },
                    ),
                    building: to_tile.building,
                },
            ),
        };
        game.tiles[from_row][from_col] = Some(new_from);
        game.tiles[to_row][to_col] = Some(new_to);
        proof {
            let target = g0.set_tile(from_row as int, from_col as int, Some(new_from)).set_tile(
                to_row as int,
                to_col as int,
                Some(new_to),
            );
            assert(game@.grid =~~= target.grid);
            assert(game@ == target);
            assert(tile_wf(new_from) && tile_wf(new_to));
            lemma_set_tile_keeps_wf(g0, from_row as int, from_col as int, Some(new_from));
            lemma_set_tile_keeps_wf(
                g0.set_tile(from_row as int, from_col as int, Some(new_from)),
                to_row as int,
                to_col as int,
                Some(new_to),
            );
        }
        return Ok(());
    }

    // Attack: only the active player may initiate one.
    if player_index != game.current_player_index as usize {
        return Err(ActionError::Game(GameError::NotYourTurn));
    }

    let outcome = resolve_attack(from_units, from_tile, to_tile, player, move_cost);
    game.tiles[from_row][from_col] = Some(outcome.from_tile);
    game.tiles[to_row][to_col] = Some(outcome.to_tile);
    proof {
        let target = g0.set_tile(from_row as int, from_col as int, Some(outcome.from_tile))
            .set_tile(to_row as int, to_col as int, Some(outcome.to_tile));
        assert(game@.grid =~~= target.grid);
        assert(game@ == target);
        lemma_resolve_attack_wf(from_units, from_tile, to_tile, player, move_cost);
        lemma_set_tile_keeps_wf(
            g0,
            from_row as int,
            from_col as int,
            Some(outcome.from_tile),
        );
        lemma_set_tile_keeps_wf(
            g0.set_tile(from_row as int, from_col as int, Some(outcome.from_tile)),
            to_row as int,
            to_col as int,
            Some(outcome.to_tile),
        );
    }

    // Spend the attack point.
    let ghost g1 = game@;
    let p = match &game.players[player_index] {
        Some(p) => *p,
        None => unreached(),
    };
    game.players[player_index] = Some(
        PlayerInfo {
            pubkey: p.pubkey,
            is_bot: p.is_bot,
            balance: p.balance,
            attack_points: p.attack_points - 1,
            is_alive: p.is_alive,
        },
    );
    proof {
        assert(game@.players =~= spec_deduct_attack_point(g1.players, player_index as int));
        assert(game@ == g1.with_players(spec_deduct_attack_point(g1.players, player_index as int)));
        lemma_update_slot_keeps_wf(
            g1.players,
            player_index as int,
            PlayerInfo {
                pubkey: p.pubkey,
                is_bot: p.is_bot,
                balance: p.balance,
                attack_points: (p.attack_points - 1) as u8,
                is_alive: p.is_alive,
            },
        );
    }

    // A destroyed Base eliminates its owner.
    match outcome.base_destroyed {
        Some(pid) => {
            proof {
                lemma_mark_status_keeps_wf(game@.players, pid, false);
            }
            update_player_status(game, pid, false);
        },
        None => {},
    }

    Ok(())
}

} // verus!
