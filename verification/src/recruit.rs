//! Recruiting units onto an owned tile: the stack must be compatible, the
//! kind purchasable (Tank and Plane only next to their factory), and the
//! full price affordable; the balance is debited and the stack grows.

use vstd::prelude::*;

use crate::errors::GameError;
use crate::states::{
    find_player, lemma_set_tile_keeps_wf, lemma_update_slot_keeps_wf, spec_find_player, tile_wf,
    BuildingType, Game, GameView, PlayerInfo, Tile, Units, UnitType, NEUTRAL_OWNER,
};

verus! {

/// Balance of the slot at `idx`, 0 for an empty slot.
pub open spec fn spec_slot_balance(players: Seq<Option<PlayerInfo>>, idx: int) -> int {
    match players[idx] {
        Some(p) => p.balance as int,
        None => 0,
    }
}

/// The slot at `idx` with its balance replaced.
pub open spec fn spec_set_balance(players: Seq<Option<PlayerInfo>>, idx: int, balance: u32) -> Seq<
    Option<PlayerInfo>,
> {
    match players[idx] {
        Some(p) => players.update(idx, Some(PlayerInfo { balance, ..p })),
        None => players,
    }
}

/// Whether the tile's building satisfies the requirement for recruiting the
/// given unit kind.
pub open spec fn spec_building_requirement_met(t: Tile, unit_type: UnitType) -> bool {
    match unit_type {
        UnitType::Infantry => true,
        UnitType::Tank => match t.building {
            Some(b) => b.building_type == BuildingType::TankFactory,
            None => false,
        },
        UnitType::Plane => match t.building {
            Some(b) => b.building_type == BuildingType::PlaneFactory,
            None => false,
        },
        UnitType::Mutants => false,
    }
}

/// The tile with `quantity` fresh units of the given kind added: an
/// existing stack grows, an empty tile gains a full-stamina stack, and
/// adding nothing changes nothing.
pub open spec fn spec_tile_with_recruits(t: Tile, unit_type: UnitType, quantity: u16) -> Tile {
    match t.units {
        Some(u) => Tile {
            owner: t.owner,
            level: t.level,
            units: Some(
                Units {
                    unit_type: u.unit_type,
                    quantity: (u.quantity + quantity) as u16,
                    stamina: u.stamina,
                },
            ),
            building: t.building,
        },
        None => if quantity == 0 {
            t
        } else {
            Tile {
                owner: t.owner,
                level: t.level,
                units: Some(
                    Units { unit_type, quantity, stamina: unit_type.spec_max_stamina() },
                ),
                building: t.building,
            }
        },
    }
}

/// The full recruiting rule: validation in order (coordinates, tile
/// existence, ownership, stack compatibility, required factory and a
/// purchasable kind, a known player slot, quantity overflow, affordability),
/// then the debit and the enlarged stack.
pub open spec fn spec_recruit_units(
    g: GameView,
    player: u32,
    unit_type: UnitType,
    quantity: u16,
    row: int,
    col: int,
) -> (GameView, Result<(), GameError>) {
    let n = g.grid.len() as int;
    if !(row < n && col < n) {
        (g, Err(GameError::InvalidCoordinates))
    } else {
        match g.grid[row][col] {
            None => (g, Err(GameError::InvalidTile)),
            Some(tile) => {
                if tile.owner != player {
                    (g, Err(GameError::TileNotOwned))
                } else if match tile.units {
                    Some(u) => u.unit_type != unit_type,
                    None => false,
                } {
                    (g, Err(GameError::DifferentUnitTypeOnTile))
                } else if unit_type == UnitType::Mutants {
                    (g, Err(GameError::InvalidUnitType))
                } else if unit_type == UnitType::Tank && !spec_building_requirement_met(
                    tile,
                    unit_type,
                ) {
                    (g, Err(GameError::RequiresTankFactory))
                } else if unit_type == UnitType::Plane && !spec_building_requirement_met(
                    tile,
                    unit_type,
                ) {
                    (g, Err(GameError::RequiresPlaneFactory))
                } else {
                    match spec_find_player(g.players, player) {
                        None => (g, Err(GameError::InvalidPlayer)),
                        Some(idx) => {
                            let total_cost = unit_type.spec_cost() * quantity;
                            let existing: int = match tile.units {
                                Some(u) => u.quantity as int,
                                None => 0,
                            };
                            if existing + quantity > u16::MAX {
                                (g, Err(GameError::TooManyUnits))
                            } else if spec_slot_balance(g.players, idx) < total_cost {
                                (g, Err(GameError::InsufficientFunds))
                            } else {
                                let new_balance = spec_slot_balance(g.players, idx) - total_cost;
                                let g1 = g.with_players(
                                    spec_set_balance(g.players, idx, new_balance as u32),
                                );
                                let g2 = g1.set_tile(
                                    row,
                                    col,
                                    Some(spec_tile_with_recruits(tile, unit_type, quantity)),
                                );
                                (g2, Ok(()))
                            }
                        },
                    }
                }
            },
        }
    }
}

/// The units stationed on a board position, 0 when none are.
pub open spec fn spec_quantity_at(grid: Seq<Seq<Option<Tile>>>, row: int, col: int) -> int {
    match grid[row][col] {
        Some(t) => match t.units {
            Some(u) => u.quantity as int,
            None => 0,
        },
        None => 0,
    }
}

/// Law: recruiting `quantity` units of a kind costing `c` either succeeds
/// fully — the buyer's balance is debited by exactly `quantity * c` and the
/// stack grows by exactly `quantity` — or is rejected with the game
/// unchanged. It never spends more than the balance held.
pub proof fn lemma_recruit_full_or_nothing(
    g: GameView,
    player: u32,
    unit_type: UnitType,
    quantity: u16,
    row: int,
    col: int,
)
    requires
        g.wf(),
        0 <= row,
        0 <= col,
    ensures
        ({
            let (g2, r) = spec_recruit_units(g, player, unit_type, quantity, row, col);
            match r {
                Ok(()) => match spec_find_player(g.players, player) {
                    Some(idx) => {
                        &&& spec_slot_balance(g.players, idx) >= unit_type.spec_cost() * quantity
                        &&& spec_slot_balance(g2.players, idx) == spec_slot_balance(g.players, idx)
                            - unit_type.spec_cost() * quantity
                        &&& spec_quantity_at(g2.grid, row, col) == spec_quantity_at(g.grid, row, col)
                            + quantity
                    },
                    None => false,
                },
                Err(_) => g2 == g,
            }
        }),
{
    let (g2, r) = spec_recruit_units(g, player, unit_type, quantity, row, col);
    if r is Ok {
        match spec_find_player(g.players, player) {
            Some(idx) => {
                crate::states::lemma_find_player_found(g.players, player, 0, idx);
                match g.grid[row][col] {
                    Some(tile) => {
                        let total = spec_slot_balance(g.players, idx) - unit_type.spec_cost()
                            * quantity;
                        let players1 = spec_set_balance(g.players, idx, total as u32);
                        assert(players1[idx] == match g.players[idx] {
                            Some(p) => Some(PlayerInfo { balance: total as u32, ..p }),
                            None => None::<PlayerInfo>,
                        });
                        let g1 = g.with_players(players1);
                        let t2 = spec_tile_with_recruits(tile, unit_type, quantity);
                        assert(0 <= row < g.grid.len() && 0 <= col < g.grid.len());
                        assert(g.grid[row].len() == g.grid.len());
                        assert(g2.grid == g1.grid.update(row, g1.grid[row].update(col, Some(t2))));
                        assert(g2.grid[row] == g1.grid[row].update(col, Some(t2)));
                        assert(g2.grid[row][col] == Some(t2));
                    },
                    None => {},
                }
            },
            None => {},
        }
    }
}

/// Recruits `quantity` units of `unit_type` onto the tile at (`row`,
/// `col`), exactly as `spec_recruit_units` describes, preserving the game
/// invariant.
#[verifier::rlimit(50)]
pub fn recruit_units(
    game: &mut Game,
    player: u32,
    unit_type: UnitType,
    quantity: u16,
    row: usize,
    col: usize,
) -> (r: Result<(), GameError>)
    requires
        old(game)@.wf(),
        player != NEUTRAL_OWNER,
    ensures
        final(game)@.wf(),
        ({
            let (g2, r2) = spec_recruit_units(
                old(game)@,
                player,
                unit_type,
                quantity,
                row as int,
                col as int,
            );
            final(game)@ == g2 && r == r2
        }),
{
    let ghost g0 = game@;
    let n = game.tiles.len();
    if row >= n || col >= n {
        return Err(GameError::InvalidCoordinates);
    }
    proof {
        assert(g0.grid[row as int] == game.tiles@[row as int]@);
    }
    let tile = match &game.tiles[row][col] {
        Some(t) => *t,
        None => {
            return Err(GameError::InvalidTile);
        },
    };
    if tile.owner != player {
        return Err(GameError::TileNotOwned);
    }
    match &tile.units {
        Some(u) => {
            if u.unit_type != unit_type {
                return Err(GameError::DifferentUnitTypeOnTile);
            }
        },
        None => {},
    }
    match unit_type {
        UnitType::Infantry => {},
        UnitType::Tank => {
            let ok = match &tile.building {
                Some(b) => b.building_type == BuildingType::TankFactory,
                None => false,
            };
            if !ok {
                return Err(GameError::RequiresTankFactory);
            }
        },
        UnitType::Plane => {
            let ok = match &tile.building {
                Some(b) => b.building_type == BuildingType::PlaneFactory,
                None => false,
            };
            if !ok {
                return Err(GameError::RequiresPlaneFactory);
            }
        },
        UnitType::Mutants => {
            return Err(GameError::InvalidUnitType);
        },
    }

    let idx = match find_player(&game.players, player) {
        Some(i) => i,
        None => {
            return Err(GameError::InvalidPlayer);
        },
    };

    let total_cost: u32 = unit_type.cost() as u32 * quantity as u32;

    let existing: u16 = match &tile.units {
        Some(u) => u.quantity,
        None => 0,
    };
    if existing as u32 + quantity as u32 > u16::MAX as u32 {
        return Err(GameError::TooManyUnits);
    }

    let p = match &game.players[idx] {
        Some(p) => *p,
        None => unreached(),
    };
    if p.balance < total_cost {
        return Err(GameError::InsufficientFunds);
    }

    let new_balance = p.balance - total_cost;
    game.players[idx] = Some(
        PlayerInfo {
            pubkey: p.pubkey,
            is_bot: p.is_bot,
            balance: new_balance,
            attack_points: p.attack_points,
            is_alive: p.is_alive,
        },
    );
    let new_tile = match &tile.units {
        Some(u) => Tile {
            owner: tile.owner,
            level: tile.level,
            units: Some(
                Units {
                    unit_type: u.unit_type,
                    quantity: u.quantity + quantity,
                    stamina: u.stamina,
                },
            ),
            building: tile.building,
        },
        None => if quantity == 0 {
            tile
        } else {
            Tile {
                owner: tile.owner,
                level: tile.level,
                units: Some(
                    Units { unit_type, quantity, stamina: unit_type.max_stamina() },
                ),
                building: tile.building,
            }
        },
    };
    game.tiles[row][col] = Some(new_tile);

    proof {
        let players1 = spec_set_balance(g0.players, idx as int, new_balance);
        assert(game@.players =~= players1);
        let g1 = g0.with_players(players1);
        let target = g1.set_tile(row as int, col as int, Some(new_tile));
        assert(new_tile == spec_tile_with_recruits(tile, unit_type, quantity));
        assert(game@.grid =~~= target.grid);
        assert(game@ == target);
        lemma_update_slot_keeps_wf(
            g0.players,
            idx as int,
            PlayerInfo {
                pubkey: p.pubkey,
                is_bot: p.is_bot,
                balance: new_balance,
                attack_points: p.attack_points,
                is_alive: p.is_alive,
            },
        );
        assert(tile_wf(new_tile));
        lemma_set_tile_keeps_wf(g1, row as int, col as int, Some(new_tile));
    }
    Ok(())
}

} // verus!
