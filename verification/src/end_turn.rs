//! The end-of-turn pass: in single-player games the bots act first, then
//! every stack's stamina is restored, tile yields are paid out, attack
//! points regenerate, players without a Base are eliminated and their
//! territory wiped, and the game completes once at most one player lives.
//! Multiplayer turns also rotate the active player and count rounds.

use vstd::prelude::*;

use crate::ai::{process_bot_turn, spec_process_bot_turn};
use crate::errors::GameError;
use crate::states::{
    find_player, grid_view, grid_wf, players_wf, spec_find_player, tile_wf, Game, GameStatus,
    GameView, PlayerInfo, Tile, Units, MAX_ATTACK_POINTS, MAX_PLAYERS, NEUTRAL_OWNER,
};

verus! {

// ---------------------------------------------------------------------
// Stamina restoration and income.
// ---------------------------------------------------------------------

/// The tile with its stack's stamina restored to the kind's maximum.
pub open spec fn spec_restore_tile(t: Tile) -> Tile {
    match t.units {
        Some(u) => Tile {
            owner: t.owner,
            level: t.level,
            units: Some(
                Units {
                    unit_type: u.unit_type,
                    quantity: u.quantity,
                    stamina: u.unit_type.spec_max_stamina(),
                },
            ),
            building: t.building,
        },
        None => t,
    }
}

/// The whole board with every stack's stamina restored.
pub open spec fn spec_restored_grid(grid: Seq<Seq<Option<Tile>>>) -> Seq<Seq<Option<Tile>>> {
    grid.map_values(
        |row: Seq<Option<Tile>>|
            row.map_values(
                |slot: Option<Tile>|
                    match slot {
                        Some(t) => Some(spec_restore_tile(t)),
                        None => None,
                    },
            ),
    )
}

/// Yield the first `c` tiles of a row pay to the given player.
pub open spec fn spec_income_row_upto(row: Seq<Option<Tile>>, pid: u32, c: int) -> int
    decreases c,
{
    if c <= 0 {
        0
    } else {
        spec_income_row_upto(row, pid, c - 1) + match row[c - 1] {
            Some(t) => if t.owner == pid {
                t.spec_yield()
            } else {
                0
            },
            None => 0,
        }
    }
}

/// Yield the first `r` rows pay to the given player.
pub open spec fn spec_income_upto(grid: Seq<Seq<Option<Tile>>>, pid: u32, r: int) -> int
    decreases r,
{
    if r <= 0 {
        0
    } else {
        spec_income_upto(grid, pid, r - 1) + spec_income_row_upto(
            grid[r - 1],
            pid,
            grid[r - 1].len() as int,
        )
    }
}

/// The whole income one player earns from the board in a round.
pub open spec fn spec_income(grid: Seq<Seq<Option<Tile>>>, pid: u32) -> int {
    spec_income_upto(grid, pid, grid.len() as int)
}

proof fn lemma_income_row_bounds(row: Seq<Option<Tile>>, pid: u32, c: int)
    requires
        0 <= c,
    ensures
        0 <= spec_income_row_upto(row, pid, c) <= 7 * c,
    decreases c,
{
    if c > 0 {
        lemma_income_row_bounds(row, pid, c - 1);
        match row[c - 1] {
            Some(t) => {
                assert(t.spec_yield() <= 7);
            },
            None => {},
        }
    }
}

proof fn lemma_income_bounds(grid: Seq<Seq<Option<Tile>>>, pid: u32, r: int)
    requires
        0 <= r <= grid.len(),
        forall|i: int| 0 <= i < grid.len() ==> (#[trigger] grid[i]).len() <= 9,
    ensures
        0 <= spec_income_upto(grid, pid, r) <= 63 * r,
    decreases r,
{
    if r > 0 {
        lemma_income_bounds(grid, pid, r - 1);
        lemma_income_row_bounds(grid[r - 1], pid, grid[r - 1].len() as int);
        assert(7 * grid[r - 1].len() <= 63) by (nonlinear_arith)
            requires
                grid[r - 1].len() <= 9,
        ;
    }
}

/// Restores every stack's stamina and computes each player slot's income
/// for the round: the summed yield of the tiles its player owns.
#[verifier::rlimit(100)]
pub fn calculate_incomes(tiles: &mut Vec<Vec<Option<Tile>>>, players: &Vec<Option<PlayerInfo>>) -> (
    incomes: Vec<u32>)
    requires
        grid_wf(grid_view(*old(tiles))),
        players_wf(players@),
    ensures
        grid_view(*final(tiles)) =~~= spec_restored_grid(grid_view(*old(tiles))),
        grid_wf(grid_view(*final(tiles))),
        incomes@.len() == players@.len(),
        forall|i: int|
            0 <= i < players@.len() ==> match #[trigger] players@[i] {
                Some(p) => incomes@[i] as int == spec_income(grid_view(*old(tiles)), p.pubkey),
                None => true,
            },
{
    let ghost g0 = grid_view(*old(tiles));
    let mut incomes: Vec<u32> = Vec::new();
    let mut s: usize = 0;
    let np = players.len();
    while s < np
        invariant
            s <= np,
            incomes@.len() == s,
            forall|i: int| 0 <= i < s ==> incomes@[i] == 0,
        decreases np - s,
    {
        incomes.push(0);
        s = s + 1;
    }

    let n = tiles.len();
    let mut r: usize = 0;
    while r < n
        invariant
            r <= n,
            n == g0.len(),
            g0 == grid_view(*old(tiles)),
            grid_wf(g0),
            players_wf(players@),
            incomes@.len() == players@.len(),
            grid_view(*tiles).len() == n,
            forall|i: int|
                0 <= i < n ==> (#[trigger] grid_view(*tiles)[i]).len() == g0[i].len(),
            forall|i: int|
                r <= i < n ==> #[trigger] grid_view(*tiles)[i] == g0[i],
            forall|i: int|
                0 <= i < r ==> #[trigger] grid_view(*tiles)[i] == spec_restored_grid(g0)[i],
            forall|i: int|
                0 <= i < players@.len() ==> match #[trigger] players@[i] {
                    Some(p) => incomes@[i] as int == spec_income_upto(g0, p.pubkey, r as int),
                    None => true,
                },
        decreases n - r,
    {
        let mut c: usize = 0;
        proof {
            lemma_income_bounds(g0, 0, 0);
        }
        while c < n
            invariant
                c <= n,
                r < n,
                n == g0.len(),
                g0 == grid_view(*old(tiles)),
                grid_wf(g0),
                players_wf(players@),
                incomes@.len() == players@.len(),
                grid_view(*tiles).len() == n,
                forall|i: int|
                    0 <= i < n ==> (#[trigger] grid_view(*tiles)[i]).len() == g0[i].len(),
                forall|i: int|
                    r < i < n ==> #[trigger] grid_view(*tiles)[i] == g0[i],
                forall|i: int|
                    0 <= i < r ==> #[trigger] grid_view(*tiles)[i] == spec_restored_grid(g0)[i],
                forall|j: int|
                    c <= j < n ==> #[trigger] grid_view(*tiles)[r as int][j] == g0[r as int][j],
                forall|j: int|
                    0 <= j < c ==> #[trigger] grid_view(*tiles)[r as int][j] == match g0[r as int][j] {
                        Some(t) => Some(spec_restore_tile(t)),
                        None => None,
                    },
                forall|i: int|
                    0 <= i < players@.len() ==> match #[trigger] players@[i] {
                        Some(p) => incomes@[i] as int == spec_income_upto(g0, p.pubkey, r as int)
                            + spec_income_row_upto(g0[r as int], p.pubkey, c as int),
                        None => true,
                    },
            decreases n - c,
        {
            proof {
                assert(grid_view(*tiles)[r as int] == tiles@[r as int]@);
                assert(g0[r as int].len() == n);
            }
            let tile = match &tiles[r][c] {
                Some(t) => Some(*t),
                None => None,
            };
            let ghost tiles_before = grid_view(*tiles);
            match tile {
                Some(t) => {
                    // Restore the stack's stamina.
                    let restored = match &t.units {
                        Some(u) => Tile {
                            owner: t.owner,
                            level: t.level,
                            units: Some(
                                Units {
                                    unit_type: u.unit_type,
                                    quantity: u.quantity,
                                    stamina: u.unit_type.max_stamina(),
                                },
                            ),
                            building: t.building,
                        },
                        None => t,
                    };
                    tiles[r][c] = Some(restored);
                    proof {
                        assert(restored == spec_restore_tile(t));
                        assert(tile_wf(t));
                    }
                    // Pay the yield to the owner's slot.
                    let tile_yield = t.get_yield() as u32;
                    match find_player(players, t.owner) {
                        Some(i) => {
                            proof {
                                lemma_income_bounds(g0, 0, 0);
                                match players@[i as int] {
                                    Some(p) => {
                                        lemma_income_bounds(g0, p.pubkey, r as int);
                                        lemma_income_row_bounds(
                                            g0[r as int],
                                            p.pubkey,
                                            c as int,
                                        );
                                        assert(63 * r <= 63 * 9) by (nonlinear_arith)
                                            requires
                                                0 <= r <= 9,
                                        ;
                                        assert(7 * c <= 7 * 9) by (nonlinear_arith)
                                            requires
                                                0 <= c <= 9,
                                        ;
                                    },
                                    None => {
                                        assert(false);
                                    },
                                }
                            }
                            let prev = incomes[i];
                            incomes[i] = prev + tile_yield;
                        },
                        None => {},
                    }
                },
                None => {},
            }
            proof {
                let gv = grid_view(*tiles);
                assert forall|i: int| r < i < n implies #[trigger] gv[i] == g0[i] by {
                    assert(gv[i] == tiles_before[i]);
                }
                assert forall|i: int|
                    0 <= i < r implies #[trigger] gv[i] == spec_restored_grid(g0)[i] by {
                    assert(gv[i] == tiles_before[i]);
                }
                // Income invariant step, slot by slot.
                assert forall|i: int|
                    0 <= i < players@.len() implies match #[trigger] players@[i] {
                    Some(p) => incomes@[i] as int == spec_income_upto(g0, p.pubkey, r as int)
                        + spec_income_row_upto(g0[r as int], p.pubkey, c as int + 1),
                    None => true,
                } by {
                    match players@[i] {
                        Some(p) => {
                            match spec_find_player(players@, p.pubkey) {
                                Some(fi) => {},
                                None => {
                                    crate::states::lemma_find_player_none(players@, p.pubkey, 0);
                                },
                            }
                            match g0[r as int][c as int] {
                                Some(t) => {
                                    if t.owner == p.pubkey {
                                        match spec_find_player(players@, t.owner) {
                                            Some(fi) => {
                                                crate::states::lemma_find_player_found(
                                                    players@,
                                                    t.owner,
                                                    0,
                                                    fi,
                                                );
                                                if fi != i {
                                                    assert(match (
                                                        players@[if fi < i {
                                                            fi
                                                        } else {
                                                            i
                                                        }],
                                                        players@[if fi < i {
                                                            i
                                                        } else {
                                                            fi
                                                        }],
                                                    ) {
                                                        (Some(a), Some(b)) => a.pubkey != b.pubkey,
                                                        _ => true,
                                                    });
                                                }
                                            },
                                            None => {
                                                crate::states::lemma_find_player_none(
                                                    players@,
                                                    t.owner,
                                                    0,
                                                );
                                            },
                                        }
                                    } else {
                                        match spec_find_player(players@, t.owner) {
                                            Some(fi) => {
                                                crate::states::lemma_find_player_found(
                                                    players@,
                                                    t.owner,
                                                    0,
                                                    fi,
                                                );
                                            },
                                            None => {},
                                        }
                                    }
                                },
                                None => {},
                            }
                        },
                        None => {},
                    }
                }
            }
            c = c + 1;
        }
        proof {
            let gv = grid_view(*tiles);
            assert(gv[r as int] =~= spec_restored_grid(g0)[r as int]);
            assert(g0[r as int].len() == n);
        }
        r = r + 1;
    }
    proof {
        assert(grid_view(*tiles) =~~= spec_restored_grid(g0));
        assert forall|i: int, j: int|
            0 <= i < grid_view(*tiles).len() && 0 <= j < grid_view(*tiles).len() implies match
            #[trigger] grid_view(*tiles)[i][j] {
            Some(t) => tile_wf(t),
            None => true,
        } by {
            assert(match g0[i][j] {
                Some(t) => tile_wf(t),
                None => true,
            });
            assert(grid_view(*tiles)[i][j] == spec_restored_grid(g0)[i][j]);
        }
    }
    incomes
}

/// Credits each player's income (saturating) and regenerates one attack
/// point up to the cap.
pub open spec fn spec_apply_to_player(p: PlayerInfo, income: int) -> PlayerInfo {
    let balance: u32 = if p.balance + income > u32::MAX {
        u32::MAX
    } else {
        (p.balance + income) as u32
    };
    let attack_points: u8 = if p.attack_points + 1 >= MAX_ATTACK_POINTS {
        MAX_ATTACK_POINTS
    } else {
        (p.attack_points + 1) as u8
    };
    PlayerInfo {
        pubkey: p.pubkey,
        is_bot: p.is_bot,
        balance,
        attack_points,
        is_alive: p.is_alive,
    }
}

/// Every occupied slot paid its income from the board.
pub open spec fn spec_apply_incomes(players: Seq<Option<PlayerInfo>>, grid: Seq<Seq<Option<Tile>>>) -> Seq<
    Option<PlayerInfo>,
> {
    Seq::new(
        players.len(),
        |i: int|
            match players[i] {
                Some(p) => Some(spec_apply_to_player(p, spec_income(grid, p.pubkey))),
                None => None,
            },
    )
}

/// Applies the computed incomes and attack-point regeneration to every
/// occupied slot.
pub fn apply_incomes(players: &mut Vec<Option<PlayerInfo>>, incomes: &Vec<u32>)
    requires
        players_wf(old(players)@),
        incomes@.len() == old(players)@.len(),
    ensures
        final(players)@.len() == old(players)@.len(),
        forall|i: int|
            0 <= i < old(players)@.len() ==> final(players)@[i] == match old(players)@[i] {
                Some(p) => Some(spec_apply_to_player(p, incomes@[i] as int)),
                None => None::<PlayerInfo>,
            },
        players_wf(final(players)@),
{
    let ghost p0 = players@;
    let n = players.len();
    let mut i: usize = 0;
    while i < n
        invariant
            i <= n,
            n == p0.len(),
            players@.len() == n,
            incomes@.len() == n,
            players_wf(p0),
            forall|j: int| i <= j < n ==> #[trigger] players@[j] == p0[j],
            forall|j: int|
                0 <= j < i ==> #[trigger] players@[j] == match p0[j] {
                    Some(p) => Some(spec_apply_to_player(p, incomes@[j] as int)),
                    None => None::<PlayerInfo>,
                },
        decreases n - i,
    {
        let slot = players[i];
        match slot {
            Some(p) => {
                proof {
                    assert(match p0[i as int] {
                        Some(q) => q.pubkey != NEUTRAL_OWNER && q.attack_points
                            <= MAX_ATTACK_POINTS,
                        None => true,
                    });
                }
                let income = incomes[i];
                let balance: u32 = if p.balance > u32::MAX - income {
                    u32::MAX
                } else {
                    p.balance + income
                };
                let attack_points: u8 = if p.attack_points + 1 >= MAX_ATTACK_POINTS {
                    MAX_ATTACK_POINTS
                } else {
                    p.attack_points + 1
                };
                players[i] = Some(
                    PlayerInfo {
                        pubkey: p.pubkey,
                        is_bot: p.is_bot,
                        balance,
                        attack_points,
                        is_alive: p.is_alive,
                    },
                );
            },
            None => {},
        }
        i = i + 1;
    }
    proof {
        assert forall|a: int, b: int|
            #![trigger final(players)@[a], final(players)@[b]]
            0 <= a < b < players@.len() implies match (players@[a], players@[b]) {
            (Some(x), Some(y)) => x.pubkey != y.pubkey,
            _ => true,
        } by {
            assert(match (p0[a], p0[b]) {
                (Some(x), Some(y)) => x.pubkey != y.pubkey,
                _ => true,
            });
        }
    }
}

// ---------------------------------------------------------------------
// Elimination.
// ---------------------------------------------------------------------

/// Whether the board position holds a Base of the given player.
pub open spec fn spec_tile_base_of(grid: Seq<Seq<Option<Tile>>>, r: int, c: int, pid: u32) -> bool {
    match grid[r][c] {
        Some(t) => t.owner == pid && crate::combat::spec_has_base(t),
        None => false,
    }
}

/// Whether the player owns at least one Base anywhere on the board.
pub open spec fn spec_owns_base(grid: Seq<Seq<Option<Tile>>>, pid: u32) -> bool {
    exists|r: int, c: int|
        0 <= r < grid.len() && 0 <= c < grid[r].len() && #[trigger] spec_tile_base_of(
            grid,
            r,
            c,
            pid,
        )
}

/// Every occupied slot with its alive flag recomputed: alive exactly when
/// the player owns at least one Base.
pub open spec fn spec_eliminated_players(
    players: Seq<Option<PlayerInfo>>,
    grid: Seq<Seq<Option<Tile>>>,
) -> Seq<Option<PlayerInfo>> {
    players.map_values(
        |slot: Option<PlayerInfo>|
            match slot {
                Some(p) => Some(
                    PlayerInfo { is_alive: spec_owns_base(grid, p.pubkey), ..p },
                ),
                None => None,
            },
    )
}

/// The board with every tile of an eliminated slot player cleared to empty.
pub open spec fn spec_wiped_grid(
    grid: Seq<Seq<Option<Tile>>>,
    players: Seq<Option<PlayerInfo>>,
) -> Seq<Seq<Option<Tile>>> {
    Seq::new(
        grid.len(),
        |r: int|
            Seq::new(
                grid[r].len(),
                |c: int|
                    match grid[r][c] {
                        Some(t) => if spec_find_player(players, t.owner) is Some && !spec_owns_base(
                            grid,
                            t.owner,
                        ) {
                            None
                        } else {
                            Some(t)
                        },
                        None => None,
                    },
            ),
    )
}

/// How many occupied slots are alive among the first `k`.
pub open spec fn spec_alive_count_upto(players: Seq<Option<PlayerInfo>>, k: int) -> int
    decreases k,
{
    if k <= 0 {
        0
    } else {
        spec_alive_count_upto(players, k - 1) + match players[k - 1] {
            Some(p) => if p.is_alive {
                1int
            } else {
                0int
            },
            None => 0int,
        }
    }
}

pub open spec fn spec_alive_count(players: Seq<Option<PlayerInfo>>) -> int {
    spec_alive_count_upto(players, players.len() as int)
}

/// The identity of the first living slot from `i` on.
pub open spec fn spec_first_alive_from(players: Seq<Option<PlayerInfo>>, i: int) -> Option<u32>
    decreases players.len() - i,
{
    if i < 0 || i >= players.len() {
        None
    } else {
        match players[i] {
            Some(p) => if p.is_alive {
                Some(p.pubkey)
            } else {
                spec_first_alive_from(players, i + 1)
            },
            None => spec_first_alive_from(players, i + 1),
        }
    }
}

/// The whole elimination pass: alive flags recomputed from Base ownership,
/// eliminated players' territory wiped, the game completed once at most
/// one player lives, and a sole survivor recorded as winner.
pub open spec fn spec_remove_defeated(g: GameView) -> GameView {
    let players2 = spec_eliminated_players(g.players, g.grid);
    let grid2 = spec_wiped_grid(g.grid, g.players);
    let count = spec_alive_count(players2);
    GameView {
        players: players2,
        grid: grid2,
        status: if count <= 1 {
            GameStatus::Completed
        } else {
            g.status
        },
        winner: if count == 1 {
            spec_first_alive_from(players2, 0)
        } else {
            g.winner
        },
        ..g
    }
}

/// Scans the board for a Base of the given player.
fn owns_base(tiles: &Vec<Vec<Option<Tile>>>, pid: u32) -> (res: bool)
    requires
        grid_wf(grid_view(*tiles)),
    ensures
        res == spec_owns_base(grid_view(*tiles), pid),
{
    let ghost g = grid_view(*tiles);
    let n = tiles.len();
    let mut r: usize = 0;
    while r < n
        invariant
            r <= n,
            n == g.len(),
            g == grid_view(*tiles),
            grid_wf(g),
            forall|rr: int, cc: int|
                0 <= rr < r && 0 <= cc < g[rr].len() ==> !#[trigger] spec_tile_base_of(
                    g,
                    rr,
                    cc,
                    pid,
                ),
        decreases n - r,
    {
        let mut c: usize = 0;
        while c < n
            invariant
                c <= n,
                r < n,
                n == g.len(),
                g == grid_view(*tiles),
                grid_wf(g),
                forall|rr: int, cc: int|
                    0 <= rr < r && 0 <= cc < g[rr].len() ==> !#[trigger] spec_tile_base_of(
                        g,
                        rr,
                        cc,
                        pid,
                    ),
                forall|cc: int|
                    0 <= cc < c ==> !#[trigger] spec_tile_base_of(g, r as int, cc, pid),
            decreases n - c,
        {
            proof {
                assert(g[r as int] == tiles@[r as int]@);
                assert(g[r as int].len() == n);
            }
            match &tiles[r][c] {
                Some(t) => {
                    match &t.building {
                        Some(b) => {
                            if t.owner == pid && b.building_type
                                == crate::states::BuildingType::Base {
                                proof {
                                    assert(spec_tile_base_of(g, r as int, c as int, pid));
                                }
                                return true;
                            }
                        },
                        None => {},
                    }
                },
                None => {},
            }
            c = c + 1;
        }
        r = r + 1;
    }
    false
}

/// The scans of two slot sequences with the same identities find the same
/// slot.
proof fn lemma_find_same(
    a: Seq<Option<PlayerInfo>>,
    b: Seq<Option<PlayerInfo>>,
    pid: u32,
    i: nat,
)
    requires
        a.len() == b.len(),
        forall|j: int|
            0 <= j < a.len() ==> match (#[trigger] a[j], b[j]) {
                (Some(x), Some(y)) => x.pubkey == y.pubkey,
                (None, None) => true,
                _ => false,
            },
    ensures
        crate::states::spec_find_player_from(a, pid, i) == crate::states::spec_find_player_from(
            b,
            pid,
            i,
        ),
    decreases a.len() - i,
{
    if i < a.len() {
        lemma_find_same(a, b, pid, i + 1);
        assert(match (a[i as int], b[i as int]) {
            (Some(x), Some(y)) => x.pubkey == y.pubkey,
            (None, None) => true,
            _ => false,
        });
    }
}

/// A positive alive count means a first living slot exists.
proof fn lemma_first_alive_exists(players: Seq<Option<PlayerInfo>>, k: int)
    requires
        0 <= k <= players.len(),
        spec_alive_count_upto(players, k) >= 1,
    ensures
        spec_first_alive_from(players, 0) is Some,
    decreases k,
{
    if k > 0 {
        if spec_alive_count_upto(players, k - 1) >= 1 {
            lemma_first_alive_exists(players, k - 1);
        } else {
            lemma_first_alive_prefix(players, 0, k - 1);
        }
    }
}

/// A living slot at `j` makes the scan from any point at or before `j`
/// find something.
proof fn lemma_first_alive_prefix(players: Seq<Option<PlayerInfo>>, i: int, j: int)
    requires
        0 <= i <= j < players.len(),
        match players[j] {
            Some(p) => p.is_alive,
            None => false,
        },
    ensures
        spec_first_alive_from(players, i) is Some,
    decreases j - i,
{
    if i < j {
        lemma_first_alive_prefix(players, i + 1, j);
    }
}

/// Recomputes alive flags from Base ownership, wipes eliminated players'
/// territory, completes the game when at most one player lives, and
/// records a sole survivor as winner.
#[verifier::rlimit(100)]
pub fn remove_defeated_players(game: &mut Game)
    requires
        old(game)@.wf(),
    ensures
        final(game)@.wf(),
        final(game)@ == spec_remove_defeated(old(game)@),
{
    let ghost g0 = game@;

    // Alive exactly when a Base is owned.
    let np = game.players.len();
    let mut i: usize = 0;
    while i < np
        invariant
            i <= np,
            np == g0.players.len(),
            g0.wf(),
            game@.grid == g0.grid,
            game@ == (GameView { players: game@.players, ..g0 }),
            game@.players.len() == np,
            forall|j: int|
                i <= j < np ==> #[trigger] game@.players[j] == g0.players[j],
            forall|j: int|
                0 <= j < i ==> #[trigger] game@.players[j] == spec_eliminated_players(
                    g0.players,
                    g0.grid,
                )[j],
        decreases np - i,
    {
        let slot = game.players[i];
        match slot {
            Some(p) => {
                let alive = owns_base(&game.tiles, p.pubkey);
                game.players[i] = Some(
                    PlayerInfo {
                        pubkey: p.pubkey,
                        is_bot: p.is_bot,
                        balance: p.balance,
                        attack_points: p.attack_points,
                        is_alive: alive,
                    },
                );
            },
            None => {},
        }
        i = i + 1;
    }
    let ghost p1 = game@.players;
    proof {
        assert(p1 =~= spec_eliminated_players(g0.players, g0.grid));
        assert forall|a: int, b: int|
            #![trigger p1[a], p1[b]]
            0 <= a < b < p1.len() implies match (p1[a], p1[b]) {
            (Some(x), Some(y)) => x.pubkey != y.pubkey,
            _ => true,
        } by {
            assert(match (g0.players[a], g0.players[b]) {
                (Some(x), Some(y)) => x.pubkey != y.pubkey,
                _ => true,
            });
        }
        assert(players_wf(p1));
    }

    // Wipe the territory of every eliminated slot player.
    let n = game.tiles.len();
    let mut r: usize = 0;
    while r < n
        invariant
            r <= n,
            n == g0.grid.len(),
            g0.wf(),
            players_wf(p1),
            p1 == spec_eliminated_players(g0.players, g0.grid),
            game@ == (GameView { players: p1, grid: game@.grid, ..g0 }),
            game@.grid.len() == n,
            forall|ii: int|
                0 <= ii < n ==> (#[trigger] game@.grid[ii]).len() == g0.grid[ii].len(),
            forall|ii: int|
                r <= ii < n ==> #[trigger] game@.grid[ii] == g0.grid[ii],
            forall|ii: int|
                0 <= ii < r ==> #[trigger] game@.grid[ii] == spec_wiped_grid(g0.grid, g0.players)[ii],
        decreases n - r,
    {
        let mut c: usize = 0;
        while c < n
            invariant
                c <= n,
                r < n,
                n == g0.grid.len(),
                g0.wf(),
                players_wf(p1),
                p1 == spec_eliminated_players(g0.players, g0.grid),
                game@ == (GameView { players: p1, grid: game@.grid, ..g0 }),
                game@.grid.len() == n,
                forall|ii: int|
                    0 <= ii < n ==> (#[trigger] game@.grid[ii]).len() == g0.grid[ii].len(),
                forall|ii: int|
                    r < ii < n ==> #[trigger] game@.grid[ii] == g0.grid[ii],
                forall|ii: int|
                    0 <= ii < r ==> #[trigger] game@.grid[ii] == spec_wiped_grid(
                        g0.grid,
                        g0.players,
                    )[ii],
                forall|jj: int|
                    c <= jj < n ==> #[trigger] game@.grid[r as int][jj] == g0.grid[r as int][jj],
                forall|jj: int|
                    0 <= jj < c ==> #[trigger] game@.grid[r as int][jj] == spec_wiped_grid(
                        g0.grid,
                        g0.players,
                    )[r as int][jj],
            decreases n - c,
        {
            proof {
                assert(game@.grid[r as int] == game.tiles@[r as int]@);
                assert(g0.grid[r as int].len() == n);
            }
            let ghost grid_before = game@.grid;
            let tile = match &game.tiles[r][c] {
                Some(t) => Some(*t),
                None => None,
            };
            match tile {
                Some(t) => {
                    match find_player(&game.players, t.owner) {
                        Some(idx) => {
                            let alive = match &game.players[idx] {
                                Some(p) => p.is_alive,
                                None => unreached(),
                            };
                            proof {
                                crate::states::lemma_find_player_found(p1, t.owner, 0, idx as int);
                                lemma_find_same(p1, g0.players, t.owner, 0);
                                assert(match p1[idx as int] {
                                    Some(p) => p.is_alive == spec_owns_base(g0.grid, p.pubkey)
                                        && p.pubkey == t.owner,
                                    None => false,
                                });
                            }
                            if !alive {
                                game.tiles[r][c] = None;
                            }
                        },
                        None => {
                            proof {
                                lemma_find_same(p1, g0.players, t.owner, 0);
                            }
                        },
                    }
                },
                None => {},
            }
            proof {
                let gv = game@.grid;
                assert forall|ii: int| r < ii < n implies #[trigger] gv[ii] == g0.grid[ii] by {
                    assert(gv[ii] == grid_before[ii]);
                }
                assert forall|ii: int|
                    0 <= ii < r implies #[trigger] gv[ii] == spec_wiped_grid(
                    g0.grid,
                    g0.players,
                )[ii] by {
                    assert(gv[ii] == grid_before[ii]);
                }
                assert(gv[r as int][c as int] == spec_wiped_grid(g0.grid, g0.players)[r as int][c
                    as int]);
            }
            c = c + 1;
        }
        proof {
            assert(game@.grid[r as int] =~= spec_wiped_grid(g0.grid, g0.players)[r as int]);
        }
        r = r + 1;
    }
    proof {
        assert(game@.grid =~~= spec_wiped_grid(g0.grid, g0.players));
    }

    // Complete the game once at most one player lives.
    let mut alive_count: usize = 0;
    let mut first_alive: Option<u32> = None;
    let mut j: usize = 0;
    while j < np
        invariant
            j <= np,
            np == p1.len(),
            game@.players == p1,
            alive_count <= j,
            alive_count as int == spec_alive_count_upto(p1, j as int),
            match first_alive {
                Some(x) => spec_first_alive_from(p1, 0) == Some(x) && spec_alive_count_upto(
                    p1,
                    j as int,
                ) >= 1,
                None => spec_first_alive_from(p1, 0) == spec_first_alive_from(p1, j as int)
                    && spec_alive_count_upto(p1, j as int) == 0,
            },
        decreases np - j,
    {
        match &game.players[j] {
            Some(p) => {
                if p.is_alive {
                    alive_count = alive_count + 1;
                    if first_alive.is_none() {
                        first_alive = Some(p.pubkey);
                    }
                }
            },
            None => {},
        }
        j = j + 1;
    }
    if alive_count <= 1 {
        game.status = GameStatus::Completed;
    }
    if alive_count == 1 {
        match first_alive {
            Some(x) => {
                game.winner = Some(x);
            },
            None => unreached(),
        }
    }
    proof {
        assert(game@ == spec_remove_defeated(g0));
        assert forall|ii: int, jj: int|
            0 <= ii < game@.grid.len() && 0 <= jj < game@.grid.len() implies match
            #[trigger] game@.grid[ii][jj] {
            Some(t) => crate::states::tile_wf(t),
            None => true,
        } by {
            assert(match g0.grid[ii][jj] {
                Some(t) => crate::states::tile_wf(t),
                None => true,
            });
        }
        assert(game@.wf());
    }
}

// ---------------------------------------------------------------------
// The whole end-of-turn pass.
// ---------------------------------------------------------------------

/// The economy step: every stack's stamina restored, every occupied slot
/// paid its income and one attack point, up to the caps.
pub open spec fn spec_economy(g: GameView) -> GameView {
    GameView {
        players: spec_apply_incomes(g.players, g.grid),
        grid: spec_restored_grid(g.grid),
        ..g
    }
}

/// The bot pass: every living bot slot from `i` up takes its turn, in slot
/// order, each against the state the previous ones left.
pub open spec fn spec_bot_pass_from(g: GameView, i: int) -> GameView
    decreases MAX_PLAYERS - i,
{
    if i < 0 || i >= MAX_PLAYERS {
        g
    } else {
        let g2 = if 0 <= i < g.players.len() {
            match g.players[i] {
                Some(p) => if p.is_bot && p.is_alive {
                    spec_process_bot_turn(g, i)
                } else {
                    g
                },
                None => g,
            }
        } else {
            g
        };
        spec_bot_pass_from(g2, i + 1)
    }
}

/// The bot pass never touches the turn bookkeeping: everything but the
/// slots and the board stays as it was.
proof fn lemma_bot_pass_frame(g: GameView, i: int)
    ensures
        ({
            let g2 = spec_bot_pass_from(g, i);
            &&& g2.round == g.round
            &&& g2.status == g.status
            &&& g2.winner == g.winner
            &&& g2.current_player_index == g.current_player_index
            &&& g2.is_multiplayer == g.is_multiplayer
            &&& g2.map_size == g.map_size
            &&& g2.turn_timestamp == g.turn_timestamp
            &&& g2.turn_time_limit == g.turn_time_limit
            &&& g2.game_id == g.game_id
            &&& g2.creator == g.creator
            &&& g2.max_players == g.max_players
        }),
    decreases MAX_PLAYERS - i,
{
    if 0 <= i < MAX_PLAYERS {
        let g2 = if 0 <= i < g.players.len() {
            match g.players[i] {
                Some(p) => if p.is_bot && p.is_alive {
                    spec_process_bot_turn(g, i)
                } else {
                    g
                },
                None => g,
            }
        } else {
            g
        };
        lemma_bot_pass_frame(g2, i + 1);
    }
}

/// Runs every living bot slot's turn, in ascending slot order.
pub fn process_bot_turns(game: &mut Game)
    requires
        old(game)@.wf(),
    ensures
        final(game)@.wf(),
        final(game)@ == spec_bot_pass_from(old(game)@, 1),
{
    let ghost g0 = game@;
    let mut i: usize = 1;
    while i < MAX_PLAYERS
        invariant
            1 <= i <= MAX_PLAYERS,
            game@.wf(),
            spec_bot_pass_from(g0, 1) == spec_bot_pass_from(game@, i as int),
        decreases MAX_PLAYERS - i,
    {
        let flags: Option<(bool, bool)> = match &game.players[i] {
            Some(p) => Some((p.is_bot, p.is_alive)),
            None => None,
        };
        match flags {
            Some((is_bot, is_alive)) => {
                if is_bot && is_alive {
                    match process_bot_turn(game, i) {
                        Ok(_) => {},
                        Err(_) => unreached(),
                    }
                }
            },
            None => {},
        }
        i = i + 1;
    }
}

/// A full single-player turn: bots act, the economy runs, eliminations are
/// applied, and the round counter advances.
pub open spec fn spec_single_player_turn(g: GameView) -> GameView {
    let g1 = spec_bot_pass_from(g, 1);
    let g2 = spec_economy(g1);
    let g3 = spec_remove_defeated(g2);
    GameView { round: (g3.round + 1) as u32, ..g3 }
}

/// Runs a single-player end of turn exactly as `spec_single_player_turn`
/// describes.
pub fn process_single_player_turn(game: &mut Game)
    requires
        old(game)@.wf(),
        old(game)@.round < u32::MAX,
    ensures
        final(game)@.wf(),
        final(game)@ == spec_single_player_turn(old(game)@),
{
    let ghost g0 = game@;
    process_bot_turns(game);
    let ghost g1 = game@;
    economy_pass(game);
    proof {
        lemma_bot_pass_frame(g0, 1);
    }
    remove_defeated_players(game);
    game.round = game.round + 1;
    proof {
        assert(game@ == spec_single_player_turn(g0));
    }
}

/// Runs the economy step exactly as `spec_economy` describes.
fn economy_pass(game: &mut Game)
    requires
        old(game)@.wf(),
    ensures
        final(game)@.wf(),
        final(game)@ == spec_economy(old(game)@),
{
    let ghost g0 = game@;
    let incomes = calculate_incomes(&mut game.tiles, &game.players);
    let ghost g1 = game@;
    apply_incomes(&mut game.players, &incomes);
    proof {
        assert(game@.players =~= spec_apply_incomes(g0.players, g0.grid));
        assert(game@ == spec_economy(g0));
        assert(game@.grid.len() == g0.grid.len()) by {
            assert(game@.grid == spec_restored_grid(g0.grid));
        }
        assert(game@.wf());
    }
}

/// The next living human slot after the current one, scanning offsets `i`
/// up to the number of slots, cyclically; the current slot when none
/// qualifies.
pub open spec fn spec_next_human_from(players: Seq<Option<PlayerInfo>>, cur: int, i: int) -> int
    decreases MAX_PLAYERS + 1 - i,
{
    if i < 1 || i > MAX_PLAYERS {
        cur
    } else {
        let idx = (cur + i) % (MAX_PLAYERS as int);
        match players[idx] {
            Some(p) => if !p.is_bot && p.is_alive {
                idx
            } else {
                spec_next_human_from(players, cur, i + 1)
            },
            None => spec_next_human_from(players, cur, i + 1),
        }
    }
}

/// A full multiplayer turn: the turn passes to the next living human,
/// wrapping to slot 0 advances the round, then the economy and the
/// elimination pass run.
pub open spec fn spec_multiplayer_turn(g: GameView) -> GameView {
    let idx = spec_next_human_from(g.players, g.current_player_index as int, 1);
    let g1 = GameView { current_player_index: idx as u8, ..g };
    let g2 = if idx == 0 {
        GameView { round: (g1.round + 1) as u32, ..g1 }
    } else {
        g1
    };
    spec_remove_defeated(spec_economy(g2))
}

/// The scan for the next living human stays within the slot range.
proof fn lemma_next_human_bounds(players: Seq<Option<PlayerInfo>>, cur: int, i: int)
    requires
        0 <= cur < MAX_PLAYERS,
    ensures
        0 <= spec_next_human_from(players, cur, i) < MAX_PLAYERS,
    decreases MAX_PLAYERS + 1 - i,
{
    if 1 <= i <= MAX_PLAYERS {
        lemma_next_human_bounds(players, cur, i + 1);
    }
}

/// Runs a multiplayer end of turn exactly as `spec_multiplayer_turn`
/// describes.
pub fn process_multiplayer_turn(game: &mut Game)
    requires
        old(game)@.wf(),
        old(game)@.round < u32::MAX,
    ensures
        final(game)@.wf(),
        final(game)@ == spec_multiplayer_turn(old(game)@),
{
    let ghost g0 = game@;
    let num_players = game.players.len();
    let cur = game.current_player_index as usize;
    let mut i: usize = 1;
    while i <= num_players
        invariant_except_break
            1 <= i <= num_players + 1,
            num_players == MAX_PLAYERS,
            cur == g0.current_player_index as int,
            cur < MAX_PLAYERS,
            *game == *old(game),
            g0 == game@,
            g0.wf(),
            game@.players.len() == MAX_PLAYERS,
            spec_next_human_from(g0.players, cur as int, 1) == spec_next_human_from(
                g0.players,
                cur as int,
                i as int,
            ),
        ensures
            game@ == (GameView {
                current_player_index: spec_next_human_from(g0.players, cur as int, 1) as u8,
                ..g0
            }),
        decreases num_players + 1 - i,
    {
        let next_index = (cur + i) % num_players;
        let found: bool = match &game.players[next_index] {
            Some(p) => !p.is_bot && p.is_alive,
            None => false,
        };
        if found {
            game.current_player_index = next_index as u8;
            break ;
        }
        i = i + 1;
        proof {
            if i > num_players {
                assert(spec_next_human_from(g0.players, cur as int, i as int) == cur);
            }
        }
    }
    proof {
        if game.current_player_index == 0 {
        }
    }
    if game.current_player_index == 0 {
        game.round = game.round + 1;
    }
    let ghost g2 = game@;
    proof {
        lemma_next_human_bounds(g0.players, cur as int, 1);
        assert(g2.wf());
    }
    economy_pass(game);
    remove_defeated_players(game);
    proof {
        assert(game@ == spec_multiplayer_turn(g0));
    }
}

/// The whole end-of-turn rule: only the active player may end the turn;
/// then the single-player or multiplayer pass runs and the turn timestamp
/// is recorded.
pub open spec fn spec_end_turn(g: GameView, player: u32, now: u64) -> (GameView, Result<
    (),
    GameError,
>) {
    match g.players[g.current_player_index as int] {
        None => (g, Err(GameError::InvalidPlayer)),
        Some(p) => {
            if p.pubkey != player {
                (g, Err(GameError::NotYourTurn))
            } else {
                let g1 = if !g.is_multiplayer {
                    spec_single_player_turn(g)
                } else {
                    spec_multiplayer_turn(g)
                };
                (GameView { turn_timestamp: now, ..g1 }, Ok(()))
            }
        },
    }
}

/// Ends the active player's turn at time `now`, exactly as `spec_end_turn`
/// describes, preserving the game invariant.
pub fn end_turn(game: &mut Game, player: u32, now: u64) -> (r: Result<(), GameError>)
    requires
        old(game)@.wf(),
        old(game)@.round < u32::MAX,
    ensures
        final(game)@.wf(),
        ({
            let (g2, r2) = spec_end_turn(old(game)@, player, now);
            final(game)@ == g2 && r == r2
        }),
{
    let idx = game.current_player_index as usize;
    let current = match &game.players[idx] {
        Some(p) => *p,
        None => {
            return Err(GameError::InvalidPlayer);
        },
    };
    if current.pubkey != player {
        return Err(GameError::NotYourTurn);
    }
    if !game.is_multiplayer {
        process_single_player_turn(game);
    } else {
        process_multiplayer_turn(game);
    }
    game.turn_timestamp = now;
    Ok(())
}

// ---------------------------------------------------------------------
// Laws of the elimination pass and the round counter.
// ---------------------------------------------------------------------

/// Law: elimination is exactly the lack of a Base. After the pass a player
/// is alive precisely when it owns at least one Base on the pre-pass
/// board, and no surviving tile belongs to an eliminated slot player — an
/// eliminated player's whole territory is wiped.
pub proof fn lemma_elimination_exact(g: GameView)
    requires
        g.wf(),
    ensures
        ({
            let g2 = spec_remove_defeated(g);
            &&& g2.players.len() == g.players.len()
            &&& forall|i: int|
                0 <= i < g2.players.len() ==> match #[trigger] g2.players[i] {
                    Some(p) => p.is_alive == spec_owns_base(g.grid, p.pubkey),
                    None => g.players[i] is None,
                }
            &&& forall|r: int, c: int|
                0 <= r < g2.grid.len() && 0 <= c < g2.grid[r].len() ==> match
                    #[trigger] g2.grid[r][c] {
                    Some(t) => !(spec_find_player(g.players, t.owner) is Some && !spec_owns_base(
                        g.grid,
                        t.owner,
                    )),
                    None => true,
                }
        }),
{
    let g2 = spec_remove_defeated(g);
    assert forall|i: int| 0 <= i < g2.players.len() implies match #[trigger] g2.players[i] {
        Some(p) => p.is_alive == spec_owns_base(g.grid, p.pubkey),
        None => g.players[i] is None,
    } by {
        assert(g2.players[i] == match g.players[i] {
            Some(p) => Some(PlayerInfo { is_alive: spec_owns_base(g.grid, p.pubkey), ..p }),
            None => None::<PlayerInfo>,
        });
    }
    assert forall|r: int, c: int|
        0 <= r < g2.grid.len() && 0 <= c < g2.grid[r].len() implies match #[trigger] g2.grid[r][c] {
        Some(t) => !(spec_find_player(g.players, t.owner) is Some && !spec_owns_base(
            g.grid,
            t.owner,
        )),
        None => true,
    } by {
        assert(g2.grid[r] == spec_wiped_grid(g.grid, g.players)[r]);
    }
}

/// Law: the game completes exactly when at most one player is alive after
/// the pass, and a winner is recorded exactly when exactly one is.
pub proof fn lemma_completion_and_winner(g: GameView)
    requires
        g.wf(),
        g.status != GameStatus::Completed,
        g.winner is None,
    ensures
        ({
            let g2 = spec_remove_defeated(g);
            &&& (g2.status == GameStatus::Completed <==> spec_alive_count(g2.players) <= 1)
            &&& (g2.winner is Some <==> spec_alive_count(g2.players) == 1)
        }),
{
    let g2 = spec_remove_defeated(g);
    let count = spec_alive_count(g2.players);
    if count == 1 {
        lemma_first_alive_exists(g2.players, g2.players.len() as int);
    }
}

/// Law: a single-player end of turn always advances the round counter by
/// exactly one.
pub proof fn lemma_round_single_player(g: GameView)
    requires
        g.round < u32::MAX,
    ensures
        spec_single_player_turn(g).round == g.round + 1,
{
    lemma_bot_pass_frame(g, 1);
}

/// Law: a multiplayer end of turn advances the round counter exactly when
/// the turn wraps back to slot 0 — once per full cycle of the living human
/// players — and leaves it unchanged otherwise.
pub proof fn lemma_round_multiplayer(g: GameView)
    requires
        g.round < u32::MAX,
    ensures
        ({
            let idx = spec_next_human_from(g.players, g.current_player_index as int, 1);
            spec_multiplayer_turn(g).round == g.round + if idx == 0 {
                1int
            } else {
                0int
            }
        }),
{
}

} // verus!
