//! Creating a game: registering it with the caller's profile, laying out
//! the diamond board with digest-randomized terrain levels, and placing
//! each player's starting Base at its fixed symmetric position.

use vstd::prelude::*;

use crate::errors::GameError;
use crate::states::{
    spec_map_layout, tile_wf, Building, BuildingType, Game, GameStatus, GameView, MapSize,
    PlayerInfo, PlayerProfile, SuperState, Tile, Units, UnitType, MAX_ACTIVE_GAMES, MAX_PLAYERS,
    NEUTRAL_OWNER,
};

verus! {

/// The byte the terrain randomizer derives from a game identity, a tile
/// index and the creation-time slot value.
pub uninterp spec fn roll_byte(game_id: u32, tile_index: u64, slot: u64) -> u8;

/// Relies on anchor_lang::solana_program::hash::hashv: a SHA-256 digest of
/// the concatenated input slices, a function of the arguments alone. This
/// wrapper returns the digest's first byte, named `roll_byte`.
#[verifier::external_body]
fn hash_roll_byte(game_id: u32, tile_index: u64, slot: u64) -> (r: u8)
    ensures
        r == roll_byte(game_id, tile_index, slot),
{
    let id_bytes = game_id.to_le_bytes();
    let index_bytes = tile_index.to_le_bytes();
    let slot_bytes = slot.to_le_bytes();
    let digest = anchor_lang::solana_program::hash::hashv(
        &[&id_bytes, &index_bytes, &slot_bytes],
    );
    digest.to_bytes()[0]
}

/// Terrain level for a roll byte: the byte maps to a 1-100 roll, of which
/// 1-40 gives level 1, 41-80 level 2 and 81-100 level 3.
pub open spec fn spec_level_from_roll(b: u8) -> u8 {
    let roll = b % 100 + 1;
    if roll <= 40 {
        1
    } else if roll <= 80 {
        2
    } else {
        3
    }
}

/// Maps a roll byte to its terrain level.
pub fn tile_level_from_roll(b: u8) -> (r: u8)
    ensures
        r == spec_level_from_roll(b),
        1 <= r <= 3,
{
    let roll = b % 100 + 1;
    if roll <= 40 {
        1
    } else if roll <= 80 {
        2
    } else {
        3
    }
}

/// Terrain level of the tile at `tile_index`, derived deterministically
/// from the game identity and the creation-time slot.
pub open spec fn spec_random_tile_level(game_id: u32, tile_index: u64, slot: u64) -> u8 {
    spec_level_from_roll(roll_byte(game_id, tile_index, slot))
}

pub fn get_random_tile_level(game_id: u32, tile_index: u64, slot: u64) -> (r: u8)
    ensures
        r == spec_random_tile_level(game_id, tile_index, slot),
        1 <= r <= 3,
{
    tile_level_from_roll(hash_roll_byte(game_id, tile_index, slot))
}

/// The fixed identities of the pre-designated bot players, numbered 1-3.
pub open spec fn spec_bot_id(i: int) -> u32 {
    if i == 1 {
        1001
    } else if i == 2 {
        1002
    } else {
        1003
    }
}

pub fn bot_id(i: usize) -> (r: u32)
    requires
        1 <= i <= 3,
    ensures
        r == spec_bot_id(i as int),
{
    if i == 1 {
        1001
    } else if i == 2 {
        1002
    } else {
        1003
    }
}

/// The fixed symmetric Base positions for each board size, in slot order.
pub open spec fn spec_base_positions(map_size: MapSize) -> Seq<(int, int)> {
    match map_size {
        MapSize::Small => seq![(1int, 1int), (1int, 5int), (5int, 1int), (5int, 5int)],
        MapSize::Large => seq![(0int, 4int), (4int, 0int), (4int, 8int), (8int, 4int)],
    }
}

/// The slot (among the first `count`) whose Base stands at (`r`, `c`).
pub open spec fn spec_base_slot_at(map_size: MapSize, count: int, r: int, c: int) -> Option<int> {
    let ps = spec_base_positions(map_size);
    if count > 0 && ps[0] == (r, c) {
        Some(0)
    } else if count > 1 && ps[1] == (r, c) {
        Some(1)
    } else if count > 2 && ps[2] == (r, c) {
        Some(2)
    } else if count > 3 && ps[3] == (r, c) {
        Some(3)
    } else {
        None
    }
}

fn base_slot_at(map_size: &MapSize, count: usize, r: usize, c: usize) -> (res: Option<usize>)
    ensures
        match res {
            Some(k) => 0 <= k < 4 && spec_base_slot_at(*map_size, count as int, r as int, c as int)
                == Some(k as int),
            None => spec_base_slot_at(*map_size, count as int, r as int, c as int) is None,
        },
{
    let (r0, c0, r1, c1, r2, c2, r3, c3): (
        usize,
        usize,
        usize,
        usize,
        usize,
        usize,
        usize,
        usize,
    ) = match map_size {
        MapSize::Small => (1, 1, 1, 5, 5, 1, 5, 5),
        MapSize::Large => (0, 4, 4, 0, 4, 8, 8, 4),
    };
    if count > 0 && r == r0 && c == c0 {
        Some(0)
    } else if count > 1 && r == r1 && c == c1 {
        Some(1)
    } else if count > 2 && r == r2 && c == c2 {
        Some(2)
    } else if count > 3 && r == r3 && c == c3 {
        Some(3)
    } else {
        None
    }
}

/// The identity owning player slot `k` at creation: the creator in slot 0,
/// the pre-designated bots after it.
pub open spec fn spec_initial_id(creator: u32, k: int) -> u32 {
    if k == 0 {
        creator
    } else {
        spec_bot_id(k)
    }
}

/// The player slots a game starts with: the creator, then `num_bots` bots,
/// every one with the starting balance, one attack point and alive.
pub open spec fn spec_initial_players(creator: u32, num_bots: int) -> Seq<Option<PlayerInfo>> {
    Seq::new(
        MAX_PLAYERS as nat,
        |i: int|
            if i == 0 {
                Some(
                    PlayerInfo {
                        pubkey: creator,
                        is_bot: false,
                        balance: 2,
                        attack_points: 1,
                        is_alive: true,
                    },
                )
            } else if 1 <= i <= num_bots {
                Some(
                    PlayerInfo {
                        pubkey: spec_bot_id(i),
                        is_bot: true,
                        balance: 2,
                        attack_points: 1,
                        is_alive: true,
                    },
                )
            } else {
                None
            },
    )
}

/// Whether (`r`, `c`) lies inside the populated diamond of the board.
pub open spec fn spec_in_diamond(map_size: MapSize, r: int, c: int) -> bool {
    let layout = spec_map_layout(map_size);
    let n = layout.len() as int;
    0 <= r < n && {
        let w = layout[r] as int;
        let empty = (n - w) / 2;
        empty <= c < empty + w
    }
}

/// The board position at (`r`, `c`) right after creation: empty outside
/// the diamond; a starting Base tile (level 1, five Infantry, Base level 1)
/// at a base position of one of the first `count` slots; elsewhere a fresh
/// neutral tile at its digest-randomized terrain level.
pub open spec fn spec_created_tile(
    game_id: u32,
    slot: u64,
    map_size: MapSize,
    creator: u32,
    count: int,
    r: int,
    c: int,
) -> Option<Tile> {
    if !spec_in_diamond(map_size, r, c) {
        None
    } else {
        let n = spec_map_layout(map_size).len() as int;
        match spec_base_slot_at(map_size, count, r, c) {
            Some(k) => Some(
                Tile {
                    owner: spec_initial_id(creator, k),
                    level: 1,
                    units: Some(Units { unit_type: UnitType::Infantry, quantity: 5, stamina: 1 }),
                    building: Some(Building { building_type: BuildingType::Base, level: 1 }),
                },
            ),
            None => Some(
                Tile::spec_new(spec_random_tile_level(game_id, (r * n + c) as u64, slot)),
            ),
        }
    }
}

/// The whole board right after creation.
pub open spec fn spec_created_grid(
    game_id: u32,
    slot: u64,
    map_size: MapSize,
    creator: u32,
    count: int,
) -> Seq<Seq<Option<Tile>>> {
    let n = spec_map_layout(map_size).len() as nat;
    Seq::new(
        n,
        |r: int|
            Seq::new(
                n,
                |c: int| spec_created_tile(game_id, slot, map_size, creator, count, r, c),
            ),
    )
}

/// The complete game record creation builds.
pub open spec fn spec_created_game(
    game_id: u32,
    creator: u32,
    max_players: u8,
    is_multiplayer: bool,
    map_size: MapSize,
    slot: u64,
    now: u64,
    num_bots: int,
) -> GameView {
    GameView {
        game_id,
        creator,
        players: spec_initial_players(creator, num_bots),
        status: if is_multiplayer {
            GameStatus::NotStarted
        } else {
            GameStatus::Live
        },
        winner: None,
        max_players,
        is_multiplayer,
        map_size,
        round: 1,
        current_player_index: 0,
        turn_timestamp: if is_multiplayer {
            now
        } else {
            0
        },
        turn_time_limit: 60,
        grid: spec_created_grid(game_id, slot, map_size, creator, num_bots + 1),
    }
}

/// Lays out the board: the diamond populated with fresh neutral tiles at
/// digest-randomized levels, and a starting Base tile for each of the
/// first `count` player slots.
fn initialize_tiles(game_id: u32, slot: u64, map_size: &MapSize, creator: u32, count: usize) -> (r:
    Vec<Vec<Option<Tile>>>)
    requires
        creator != NEUTRAL_OWNER,
        count <= 4,
    ensures
        r@.map_values(|row: Vec<Option<Tile>>| row@) =~~= spec_created_grid(
            game_id,
            slot,
            *map_size,
            creator,
            count as int,
        ),
{
    let layout = Game::get_map_layout(*map_size);
    let grid_size = layout.len();
    let ghost target = spec_created_grid(game_id, slot, *map_size, creator, count as int);
    proof {
        assert(grid_size == spec_map_layout(*map_size).len());
        assert(grid_size == 7 || grid_size == 9);
    }

    let mut grid: Vec<Vec<Option<Tile>>> = Vec::new();
    let mut r: usize = 0;
    while r < grid_size
        invariant
            r <= grid_size,
            grid_size == spec_map_layout(*map_size).len(),
            grid_size <= 9,
            layout@ == spec_map_layout(*map_size),
            creator != NEUTRAL_OWNER,
            count <= 4,
            grid@.len() == r,
            forall|i: int| 0 <= i < r ==> #[trigger] grid@[i]@ =~= target[i],
            target == spec_created_grid(game_id, slot, *map_size, creator, count as int),
        decreases grid_size - r,
    {
        let width = layout[r] as usize;
        let empty_spaces = (grid_size - width) / 2;
        let mut row: Vec<Option<Tile>> = Vec::new();
        let mut c: usize = 0;
        while c < grid_size
            invariant
                c <= grid_size,
                r < grid_size,
                grid_size == spec_map_layout(*map_size).len(),
                grid_size <= 9,
                layout@ == spec_map_layout(*map_size),
                creator != NEUTRAL_OWNER,
                count <= 4,
                width == spec_map_layout(*map_size)[r as int] as usize,
                empty_spaces == (grid_size - width) / 2,
                row@.len() == c,
                forall|j: int|
                    0 <= j < c ==> #[trigger] row@[j] == spec_created_tile(
                        game_id,
                        slot,
                        *map_size,
                        creator,
                        count as int,
                        r as int,
                        j,
                    ),
                target == spec_created_grid(game_id, slot, *map_size, creator, count as int),
            decreases grid_size - c,
        {
            let in_diamond = empty_spaces <= c && c < empty_spaces + width;
            if !in_diamond {
                row.push(None);
            } else {
                match base_slot_at(map_size, count, r, c) {
                    Some(k) => {
                        let owner = if k == 0 {
                            creator
                        } else {
                            bot_id(k)
                        };
                        row.push(
                            Some(
                                Tile {
                                    owner,
                                    level: 1,
                                    units: Some(
                                        Units {
                                            unit_type: UnitType::Infantry,
                                            quantity: 5,
                                            stamina: 1,
                                        },
                                    ),
                                    building: Some(
                                        Building { building_type: BuildingType::Base, level: 1 },
                                    ),
                                },
                            ),
                        );
                    },
                    None => {
                        proof {
                            assert(r * grid_size + c < 90) by (nonlinear_arith)
                                requires
                                    r < grid_size,
                                    c < grid_size,
                                    grid_size <= 9,
                            ;
                        }
                        let tile_index: u64 = (r * grid_size + c) as u64;
                        let level = get_random_tile_level(game_id, tile_index, slot);
                        row.push(Some(Tile::new(level)));
                    },
                }
            }
            c = c + 1;
        }
        proof {
            assert(row@ =~= target[r as int]);
        }
        grid.push(row);
        r = r + 1;
    }
    grid
}

/// Creates a game for `creator`: checks the profile's active-game budget
/// and the supply of pre-designated bot identities, then registers the
/// game, numbers it, and builds the starting record exactly as
/// `spec_created_game` describes.
#[verifier::rlimit(50)]
pub fn create_game(
    super_state: &mut SuperState,
    profile: &mut PlayerProfile,
    creator: u32,
    max_players: u8,
    is_multiplayer: bool,
    map_size: MapSize,
    slot: u64,
    now: u64,
) -> (r: Result<Game, GameError>)
    requires
        old(super_state).game_count < u32::MAX,
        creator != NEUTRAL_OWNER,
        forall|k: int| 1 <= k <= 3 ==> creator != spec_bot_id(k),
        max_players as int >= if is_multiplayer {
            2int
        } else {
            1int
        },
    ensures
        match r {
            Ok(game) => {
                let humans: int = if is_multiplayer {
                    2
                } else {
                    1
                };
                let num_bots = max_players - humans;
                &&& old(profile).active_games@.len() < MAX_ACTIVE_GAMES
                &&& num_bots <= 3
                &&& final(super_state).game_count == old(super_state).game_count + 1
                &&& final(profile).player == old(profile).player
                &&& final(profile).experience == old(profile).experience
                &&& final(profile).completed_games == old(profile).completed_games
                &&& final(profile).active_games@ == old(profile).active_games@.push(
                    old(super_state).game_count,
                )
                &&& game@ == spec_created_game(
                    old(super_state).game_count,
                    creator,
                    max_players,
                    is_multiplayer,
                    map_size,
                    slot,
                    now,
                    num_bots,
                )
                &&& game@.wf()
            },
            Err(GameError::TooManyActiveGames) => {
                &&& old(profile).active_games@.len() >= MAX_ACTIVE_GAMES
                &&& *final(super_state) == *old(super_state)
                &&& *final(profile) == *old(profile)
            },
            Err(GameError::BotKeyNotFound) => {
                let humans: int = if is_multiplayer {
                    2
                } else {
                    1
                };
                &&& old(profile).active_games@.len() < MAX_ACTIVE_GAMES
                &&& max_players - humans > 3
                &&& *final(super_state) == *old(super_state)
                &&& *final(profile) == *old(profile)
            },
            _ => false,
        },
{
    if profile.active_games.len() >= MAX_ACTIVE_GAMES {
        return Err(GameError::TooManyActiveGames);
    }

    let humans: u8 = if is_multiplayer {
        2
    } else {
        1
    };
    let num_bots: usize = (max_players - humans) as usize;
    if num_bots > 3 {
        return Err(GameError::BotKeyNotFound);
    }

    let game_id = super_state.game_count;
    super_state.game_count = super_state.game_count + 1;
    profile.active_games.push(game_id);

    let mut players: Vec<Option<PlayerInfo>> = Vec::new();
    players.push(
        Some(
            PlayerInfo {
                pubkey: creator,
                is_bot: false,
                balance: 2,
                attack_points: 1,
                is_alive: true,
            },
        ),
    );
    let mut i: usize = 1;
    while i < MAX_PLAYERS
        invariant
            1 <= i <= MAX_PLAYERS,
            num_bots <= 3,
            creator != NEUTRAL_OWNER,
            players@.len() == i,
            forall|j: int|
                0 <= j < i ==> #[trigger] players@[j] == spec_initial_players(
                    creator,
                    num_bots as int,
                )[j],
        decreases MAX_PLAYERS - i,
    {
        if i <= num_bots {
            players.push(
                Some(
                    PlayerInfo {
                        pubkey: bot_id(i),
                        is_bot: true,
                        balance: 2,
                        attack_points: 1,
                        is_alive: true,
                    },
                ),
            );
        } else {
            players.push(None);
        }
        i = i + 1;
    }
    proof {
        assert(players@ =~= spec_initial_players(creator, num_bots as int));
    }

    let tiles = initialize_tiles(game_id, slot, &map_size, creator, num_bots + 1);

    let game = Game {
        game_id,
        creator,
        players,
        status: if is_multiplayer {
            GameStatus::NotStarted
        } else {
            GameStatus::Live
        },
        winner: None,
        max_players,
        is_multiplayer,
        map_size,
        round: 1,
        current_player_index: 0,
        turn_timestamp: if is_multiplayer {
            now
        } else {
            0
        },
        turn_time_limit: 60,
        tiles,
    };
    proof {
        let gv = spec_created_game(
            game_id,
            creator,
            max_players,
            is_multiplayer,
            map_size,
            slot,
            now,
            num_bots as int,
        );
        assert(game@.grid =~~= gv.grid);
        assert(game@ == gv);
        lemma_created_game_wf(
            game_id,
            creator,
            max_players,
            is_multiplayer,
            map_size,
            slot,
            now,
            num_bots as int,
        );
    }
    Ok(game)
}

/// The freshly created game satisfies the whole-game invariant.
proof fn lemma_created_game_wf(
    game_id: u32,
    creator: u32,
    max_players: u8,
    is_multiplayer: bool,
    map_size: MapSize,
    slot: u64,
    now: u64,
    num_bots: int,
)
    requires
        creator != NEUTRAL_OWNER,
        forall|k: int| 1 <= k <= 3 ==> creator != spec_bot_id(k),
        0 <= num_bots <= 3,
    ensures
        spec_created_game(
            game_id,
            creator,
            max_players,
            is_multiplayer,
            map_size,
            slot,
            now,
            num_bots,
        ).wf(),
{
    let g = spec_created_game(
        game_id,
        creator,
        max_players,
        is_multiplayer,
        map_size,
        slot,
        now,
        num_bots,
    );
    let players = g.players;
    assert forall|i: int, j: int|
        #![trigger players[i], players[j]]
        0 <= i < j < players.len() implies match (players[i], players[j]) {
        (Some(a), Some(b)) => a.pubkey != b.pubkey,
        _ => true,
    } by {
        assert(spec_bot_id(1) != spec_bot_id(2));
    }
    let n = spec_map_layout(map_size).len() as int;
    assert forall|r: int, c: int|
        0 <= r < g.grid.len() && 0 <= c < g.grid.len() implies match #[trigger] g.grid[r][c] {
        Some(t) => tile_wf(t),
        None => true,
    } by {
        match spec_created_tile(game_id, slot, map_size, creator, num_bots + 1, r, c) {
            Some(t) => {
                if spec_base_slot_at(map_size, num_bots + 1, r, c) is None {
                    assert(1 <= spec_random_tile_level(game_id, (r * n + c) as u64, slot) <= 3);
                }
            },
            None => {},
        }
    }
}

} // verus!
