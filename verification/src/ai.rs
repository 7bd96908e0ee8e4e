//! The bot decision policy: once per turn a bot upgrades its Base, builds a
//! construction or recruits infantry, then attacks every adjacent tile it
//! can beat, one attack per owned tile, queued against a snapshot and then
//! applied through the combat rule.

use vstd::prelude::*;

use crate::combat::{
    lemma_resolve_attack_wf, resolve_attack, spec_defender_power, spec_effective_power,
    spec_resolve_attack,
};
use crate::errors::GameError;
use crate::recruit::spec_set_balance;
use crate::states::{
    grid_view, grid_wf, lemma_grid_update_wf, lemma_mark_status_keeps_wf,
    lemma_update_slot_keeps_wf, players_wf, spec_mark_player_status, tile_wf,
    update_player_status, Building, BuildingType, Game, GameView, PlayerInfo, Tile, Units,
    UnitType, NEUTRAL_OWNER,
};

verus! {

/// The stack size a bot tops every tile up toward.
pub const DESIRED_UNIT_QUANTITY: u16 = 30;

// ---------------------------------------------------------------------
// Collecting the bot's tiles, row-major.
// ---------------------------------------------------------------------

/// The owned positions among the first `c` columns of row `r`.
pub open spec fn spec_owned_row_upto(row: Seq<Option<Tile>>, owner: u32, r: usize, c: int) -> Seq<
    (usize, usize),
>
    decreases c,
{
    if c <= 0 {
        Seq::empty()
    } else {
        let prev = spec_owned_row_upto(row, owner, r, c - 1);
        match row[c - 1] {
            Some(t) => if t.owner == owner {
                prev.push((r, (c - 1) as usize))
            } else {
                prev
            },
            None => prev,
        }
    }
}

/// The owned positions among the first `r` rows, row-major.
pub open spec fn spec_owned_tiles_upto(grid: Seq<Seq<Option<Tile>>>, owner: u32, r: int) -> Seq<
    (usize, usize),
>
    decreases r,
{
    if r <= 0 {
        Seq::empty()
    } else {
        spec_owned_tiles_upto(grid, owner, r - 1) + spec_owned_row_upto(
            grid[r - 1],
            owner,
            (r - 1) as usize,
            grid[r - 1].len() as int,
        )
    }
}

/// Every position the given player owns, in row-major order.
pub open spec fn spec_owned_tiles(grid: Seq<Seq<Option<Tile>>>, owner: u32) -> Seq<(usize, usize)> {
    spec_owned_tiles_upto(grid, owner, grid.len() as int)
}

/// A position names an existing tile of the given owner inside the board.
pub open spec fn spec_entry_ok(grid: Seq<Seq<Option<Tile>>>, owner: u32, p: (usize, usize)) -> bool {
    &&& (p.0 as int) < grid.len()
    &&& (p.1 as int) < grid[p.0 as int].len()
    &&& match grid[p.0 as int][p.1 as int] {
        Some(t) => t.owner == owner,
        None => false,
    }
}

proof fn lemma_owned_row_props(row: Seq<Option<Tile>>, owner: u32, r: usize, c: int)
    requires
        0 <= c <= row.len(),
        row.len() <= usize::MAX,
    ensures
        spec_owned_row_upto(row, owner, r, c).len() <= c,
        forall|k: int|
            0 <= k < spec_owned_row_upto(row, owner, r, c).len() ==> {
                let p = #[trigger] spec_owned_row_upto(row, owner, r, c)[k];
                &&& p.0 == r
                &&& (p.1 as int) < c
                &&& match row[p.1 as int] {
                    Some(t) => t.owner == owner,
                    None => false,
                }
            },
    decreases c,
{
    if c > 0 {
        lemma_owned_row_props(row, owner, r, c - 1);
        let prev = spec_owned_row_upto(row, owner, r, c - 1);
        let cur = spec_owned_row_upto(row, owner, r, c);
        assert forall|k: int| 0 <= k < cur.len() implies {
            let p = #[trigger] cur[k];
            &&& p.0 == r
            &&& (p.1 as int) < c
            &&& match row[p.1 as int] {
                Some(t) => t.owner == owner,
                None => false,
            }
        } by {
            match row[c - 1] {
                Some(t) => {
                    if t.owner == owner {
                        let x = (r, (c - 1) as usize);
                        assert(cur == prev.push(x));
                        if k < prev.len() {
                            assert(prev.push(x)[k] == prev[k]);
                        } else {
                            assert(prev.push(x)[k] == x);
                        }
                    } else {
                        assert(cur == prev);
                    }
                },
                None => {
                    assert(cur == prev);
                },
            }
        }
    }
}

/// Every collected position is an existing tile of the owner, and there are
/// at most `r * grid.len()` of them.
proof fn lemma_owned_tiles_props(grid: Seq<Seq<Option<Tile>>>, owner: u32, r: int)
    requires
        0 <= r <= grid.len(),
        grid.len() <= usize::MAX,
        forall|i: int| 0 <= i < grid.len() ==> (#[trigger] grid[i]).len() == grid.len(),
    ensures
        spec_owned_tiles_upto(grid, owner, r).len() <= r * grid.len(),
        forall|k: int|
            0 <= k < spec_owned_tiles_upto(grid, owner, r).len() ==> spec_entry_ok(
                grid,
                owner,
                #[trigger] spec_owned_tiles_upto(grid, owner, r)[k],
            ) && (spec_owned_tiles_upto(grid, owner, r)[k].0 as int) < r,
    decreases r,
{
    if r > 0 {
        lemma_owned_tiles_props(grid, owner, r - 1);
        lemma_owned_row_props(grid[r - 1], owner, (r - 1) as usize, grid[r - 1].len() as int);
        assert((r - 1) * grid.len() + grid.len() == r * grid.len()) by (nonlinear_arith);
        let prev = spec_owned_tiles_upto(grid, owner, r - 1);
        let part = spec_owned_row_upto(grid[r - 1], owner, (r - 1) as usize, grid[r - 1].len() as int);
        let cur = spec_owned_tiles_upto(grid, owner, r);
        assert forall|k: int| 0 <= k < cur.len() implies spec_entry_ok(
            grid,
            owner,
            #[trigger] cur[k],
        ) && (cur[k].0 as int) < r by {
            assert(cur == prev + part);
            if k < prev.len() {
                assert((prev + part)[k] == prev[k]);
            } else {
                assert((prev + part)[k] == part[k - prev.len()]);
            }
        }
    }
}

/// Every listed position lies inside the (square) board.
pub open spec fn spec_entries_in_bounds(
    grid: Seq<Seq<Option<Tile>>>,
    tiles: Seq<(usize, usize)>,
) -> bool {
    forall|k: int|
        0 <= k < tiles.len() ==> ((#[trigger] tiles[k]).0 as int) < grid.len() && (tiles[k].1 as int)
            < grid.len()
}

/// On a well-formed board, the collected positions all name existing tiles
/// of the owner, and a board of side at most 9 yields at most 81 of them.
pub proof fn lemma_owned_tiles_ok(grid: Seq<Seq<Option<Tile>>>, owner: u32)
    requires
        grid_wf(grid),
    ensures
        spec_owned_tiles(grid, owner).len() <= 81,
        forall|k: int|
            0 <= k < spec_owned_tiles(grid, owner).len() ==> spec_entry_ok(
                grid,
                owner,
                #[trigger] spec_owned_tiles(grid, owner)[k],
            ),
        spec_entries_in_bounds(grid, spec_owned_tiles(grid, owner)),
{
    lemma_owned_tiles_props(grid, owner, grid.len() as int);
    assert(grid.len() * grid.len() <= 81) by (nonlinear_arith)
        requires
            grid.len() <= 9,
    ;
    assert forall|k: int| 0 <= k < spec_owned_tiles(grid, owner).len() implies ((
    #[trigger] spec_owned_tiles(grid, owner)[k]).0 as int) < grid.len() && (spec_owned_tiles(
        grid,
        owner,
    )[k].1 as int) < grid.len() by {
        assert(spec_entry_ok(grid, owner, spec_owned_tiles(grid, owner)[k]));
    }
}

/// Collects every position the given player owns, in row-major order.
fn collect_owned_tiles(tiles: &Vec<Vec<Option<Tile>>>, owner: u32) -> (v: Vec<(usize, usize)>)
    requires
        grid_wf(grid_view(*tiles)),
    ensures
        v@ == spec_owned_tiles(grid_view(*tiles), owner),
{
    let ghost g = grid_view(*tiles);
    let n = tiles.len();
    let mut v: Vec<(usize, usize)> = Vec::new();
    proof {
        assert(v@ =~= spec_owned_tiles_upto(g, owner, 0));
    }
    let mut r: usize = 0;
    while r < n
        invariant
            r <= n,
            n == g.len(),
            g == grid_view(*tiles),
            grid_wf(g),
            v@ == spec_owned_tiles_upto(g, owner, r as int),
        decreases n - r,
    {
        let mut c: usize = 0;
        proof {
            assert(v@ =~= spec_owned_tiles_upto(g, owner, r as int) + spec_owned_row_upto(
                g[r as int],
                owner,
                r,
                0,
            ));
        }
        while c < n
            invariant
                c <= n,
                r < n,
                n == g.len(),
                g == grid_view(*tiles),
                grid_wf(g),
                v@ == spec_owned_tiles_upto(g, owner, r as int) + spec_owned_row_upto(
                    g[r as int],
                    owner,
                    r,
                    c as int,
                ),
            decreases n - c,
        {
            proof {
                assert(g[r as int] == tiles@[r as int]@);
                assert(g[r as int].len() == n);
            }
            match &tiles[r][c] {
                Some(t) => {
                    if t.owner == owner {
                        v.push((r, c));
                    }
                },
                None => {},
            }
            proof {
                assert(v@ =~= spec_owned_tiles_upto(g, owner, r as int) + spec_owned_row_upto(
                    g[r as int],
                    owner,
                    r,
                    c as int + 1,
                ));
            }
            c = c + 1;
        }
        proof {
            assert(g[r as int].len() == n);
            assert(v@ == spec_owned_tiles_upto(g, owner, r as int + 1));
        }
        r = r + 1;
    }
    v
}

// ---------------------------------------------------------------------
// Shape preservation: the economy folds never create, remove or re-own
// tiles, they only adjust stacks, buildings and the balance.
// ---------------------------------------------------------------------

/// Two boards of the same shape whose tiles have the same owners.
pub open spec fn spec_same_shape_owners(
    a: Seq<Seq<Option<Tile>>>,
    b: Seq<Seq<Option<Tile>>>,
) -> bool {
    &&& a.len() == b.len()
    &&& forall|i: int| 0 <= i < a.len() ==> (#[trigger] a[i]).len() == b[i].len()
    &&& forall|i: int, j: int|
        0 <= i < a.len() && 0 <= j < a[i].len() ==> match (#[trigger] a[i][j], #[trigger] b[i][j]) {
            (Some(x), Some(y)) => x.owner == y.owner,
            (None, None) => true,
            _ => false,
        }
}

// ---------------------------------------------------------------------
// Bot statistics: total units and Base level over the bot's tiles.
// ---------------------------------------------------------------------

/// Total unit count and (last seen) Base level over the first `k` collected
/// positions.
pub open spec fn spec_stats_upto(
    grid: Seq<Seq<Option<Tile>>>,
    tiles: Seq<(usize, usize)>,
    k: int,
) -> (int, u8)
    decreases k,
{
    if k <= 0 {
        (0, 0)
    } else {
        let prev = spec_stats_upto(grid, tiles, k - 1);
        let p = tiles[k - 1];
        match grid[p.0 as int][p.1 as int] {
            Some(t) => {
                let tu = prev.0 + match t.units {
                    Some(u) => u.quantity as int,
                    None => 0,
                };
                let bl = match t.building {
                    Some(b) => if b.building_type == BuildingType::Base {
                        b.level
                    } else {
                        prev.1
                    },
                    None => prev.1,
                };
                (tu, bl)
            },
            None => prev,
        }
    }
}

proof fn lemma_stats_bound(grid: Seq<Seq<Option<Tile>>>, tiles: Seq<(usize, usize)>, k: int)
    requires
        0 <= k,
    ensures
        0 <= spec_stats_upto(grid, tiles, k).0 <= k * (u16::MAX as int),
    decreases k,
{
    if k > 0 {
        lemma_stats_bound(grid, tiles, k - 1);
        assert((k - 1) * (u16::MAX as int) + (u16::MAX as int) == k * (u16::MAX as int))
            by (nonlinear_arith);
    }
}

/// Sums the bot's units and finds its Base level.
fn get_stats(tiles: &Vec<Vec<Option<Tile>>>, bot_tiles: &Vec<(usize, usize)>) -> (r: (u32, u8))
    requires
        grid_wf(grid_view(*tiles)),
        spec_entries_in_bounds(grid_view(*tiles), bot_tiles@),
        bot_tiles@.len() <= 81,
    ensures
        r.0 as int == spec_stats_upto(grid_view(*tiles), bot_tiles@, bot_tiles@.len() as int).0,
        r.1 == spec_stats_upto(grid_view(*tiles), bot_tiles@, bot_tiles@.len() as int).1,
{
    let ghost g = grid_view(*tiles);
    let mut total_units: u32 = 0;
    let mut base_level: u8 = 0;
    let len = bot_tiles.len();
    let mut k: usize = 0;
    while k < len
        invariant
            k <= len,
            len == bot_tiles@.len() <= 81,
            g == grid_view(*tiles),
            grid_wf(g),
            spec_entries_in_bounds(g, bot_tiles@),
            total_units as int == spec_stats_upto(g, bot_tiles@, k as int).0,
            base_level == spec_stats_upto(g, bot_tiles@, k as int).1,
        decreases len - k,
    {
        proof {
            lemma_stats_bound(g, bot_tiles@, k as int);
        }
        let (r, c) = bot_tiles[k];
        proof {
            assert(bot_tiles@[k as int] == (r, c));
            assert(g[r as int] == tiles@[r as int]@);
            assert(g[r as int].len() == g.len());
        }
        match &tiles[r][c] {
            Some(t) => {
                match &t.units {
                    Some(u) => {
                        proof {
                            assert(k as int * (u16::MAX as int) + (u16::MAX as int) <= 81 * (
                            u16::MAX as int)) by (nonlinear_arith)
                                requires
                                    0 <= k < 81,
                            ;
                        }
                        total_units = total_units + u.quantity as u32;
                    },
                    None => {},
                }
                match &t.building {
                    Some(b) => {
                        if b.building_type == BuildingType::Base {
                            base_level = b.level;
                        }
                    },
                    None => {},
                }
            },
            None => {},
        }
        k = k + 1;
    }
    (total_units, base_level)
}

// ---------------------------------------------------------------------
// Whether any of the bot's tiles carries a building of a given kind.
// ---------------------------------------------------------------------

pub open spec fn spec_has_building_upto(
    grid: Seq<Seq<Option<Tile>>>,
    tiles: Seq<(usize, usize)>,
    k: int,
    bt: BuildingType,
) -> bool
    decreases k,
{
    if k <= 0 {
        false
    } else {
        spec_has_building_upto(grid, tiles, k - 1, bt) || {
            let p = tiles[k - 1];
            match grid[p.0 as int][p.1 as int] {
                Some(t) => match t.building {
                    Some(b) => b.building_type == bt,
                    None => false,
                },
                None => false,
            }
        }
    }
}

/// Whether any of the bot's tiles carries a building of the given kind.
fn has_building(
    tiles: &Vec<Vec<Option<Tile>>>,
    bot_tiles: &Vec<(usize, usize)>,
    building_type: BuildingType,
) -> (r: bool)
    requires
        grid_wf(grid_view(*tiles)),
        spec_entries_in_bounds(grid_view(*tiles), bot_tiles@),
    ensures
        r == spec_has_building_upto(
            grid_view(*tiles),
            bot_tiles@,
            bot_tiles@.len() as int,
            building_type,
        ),
{
    let ghost g = grid_view(*tiles);
    let len = bot_tiles.len();
    let mut k: usize = 0;
    while k < len
        invariant
            k <= len,
            len == bot_tiles@.len(),
            g == grid_view(*tiles),
            grid_wf(g),
            spec_entries_in_bounds(g, bot_tiles@),
            !spec_has_building_upto(g, bot_tiles@, k as int, building_type),
        decreases len - k,
    {
        let (r, c) = bot_tiles[k];
        proof {
            assert(bot_tiles@[k as int] == (r, c));
            assert(g[r as int] == tiles@[r as int]@);
            assert(g[r as int].len() == g.len());
        }
        match &tiles[r][c] {
            Some(t) => {
                match &t.building {
                    Some(b) => {
                        if b.building_type == building_type {
                            proof {
                                lemma_has_building_monotonic(
                                    g,
                                    bot_tiles@,
                                    k as int + 1,
                                    len as int,
                                    building_type,
                                );
                            }
                            return true;
                        }
                    },
                    None => {},
                }
            },
            None => {},
        }
        k = k + 1;
    }
    false
}

/// Once a prefix of the scan has seen the building, every longer prefix
/// has.
proof fn lemma_has_building_monotonic(
    grid: Seq<Seq<Option<Tile>>>,
    tiles: Seq<(usize, usize)>,
    k: int,
    m: int,
    bt: BuildingType,
)
    requires
        0 <= k <= m,
        spec_has_building_upto(grid, tiles, k, bt),
    ensures
        spec_has_building_upto(grid, tiles, m, bt),
    decreases m - k,
{
    if k < m {
        lemma_has_building_monotonic(grid, tiles, k + 1, m, bt);
    }
}

// ---------------------------------------------------------------------
// Strategy 1: upgrade the Base.
// ---------------------------------------------------------------------

/// The level-indexed price of raising the bot's Base one level.
pub open spec fn spec_base_upgrade_cost(level: u8) -> u32 {
    if level == 1 {
        12
    } else if level == 2 {
        22
    } else {
        0
    }
}

/// One step of the upgrade pass at position `p`: a Base below its maximum
/// level is raised when affordable.
pub open spec fn spec_upgrade_step(grid: Seq<Seq<Option<Tile>>>, balance: u32, p: (usize, usize)) -> (
    Seq<Seq<Option<Tile>>>,
    u32,
) {
    let r = p.0 as int;
    let c = p.1 as int;
    match grid[r][c] {
        Some(t) => match t.building {
            Some(b) => if b.building_type == BuildingType::Base && b.level < 3 {
                let cost = spec_base_upgrade_cost(b.level);
                if balance >= cost {
                    let t2 = Tile {
                        owner: t.owner,
                        level: t.level,
                        units: t.units,
                        building: Some(
                            Building {
                                building_type: b.building_type,
                                level: (b.level + 1) as u8,
                            },
                        ),
                    };
                    (grid.update(r, grid[r].update(c, Some(t2))), (balance - cost) as u32)
                } else {
                    (grid, balance)
                }
            } else {
                (grid, balance)
            },
            None => (grid, balance),
        },
        None => (grid, balance),
    }
}

pub open spec fn spec_upgrade_upto(
    grid: Seq<Seq<Option<Tile>>>,
    balance: u32,
    tiles: Seq<(usize, usize)>,
    k: int,
) -> (Seq<Seq<Option<Tile>>>, u32)
    decreases k,
{
    if k <= 0 {
        (grid, balance)
    } else {
        let prev = spec_upgrade_upto(grid, balance, tiles, k - 1);
        spec_upgrade_step(prev.0, prev.1, tiles[k - 1])
    }
}

/// Raises the bot's Base (each Base among its tiles) one level where
/// affordable.
fn upgrade_base(tiles: &mut Vec<Vec<Option<Tile>>>, balance: &mut u32, bot_tiles: &Vec<(usize, usize)>)
    requires
        grid_wf(grid_view(*old(tiles))),
        spec_entries_in_bounds(grid_view(*old(tiles)), bot_tiles@),
    ensures
        grid_view(*final(tiles)) == spec_upgrade_upto(
            grid_view(*old(tiles)),
            *old(balance),
            bot_tiles@,
            bot_tiles@.len() as int,
        ).0,
        *final(balance) == spec_upgrade_upto(
            grid_view(*old(tiles)),
            *old(balance),
            bot_tiles@,
            bot_tiles@.len() as int,
        ).1,
        grid_wf(grid_view(*final(tiles))),
        grid_view(*final(tiles)).len() == grid_view(*old(tiles)).len(),
{
    let ghost g0 = grid_view(*old(tiles));
    let ghost b0 = *old(balance);
    let len = bot_tiles.len();
    let mut k: usize = 0;
    while k < len
        invariant
            k <= len,
            len == bot_tiles@.len(),
            grid_wf(g0),
            spec_entries_in_bounds(g0, bot_tiles@),
            grid_wf(grid_view(*tiles)),
            grid_view(*tiles).len() == g0.len(),
            grid_view(*tiles) == spec_upgrade_upto(g0, b0, bot_tiles@, k as int).0,
            *balance == spec_upgrade_upto(g0, b0, bot_tiles@, k as int).1,
        decreases len - k,
    {
        let ghost gk = grid_view(*tiles);
        let ghost bk = *balance;
        let (r, c) = bot_tiles[k];
        proof {
            assert(bot_tiles@[k as int] == (r, c));
            assert(gk[r as int] == tiles@[r as int]@);
            assert(gk[r as int].len() == gk.len());
        }
        let tile = match &tiles[r][c] {
            Some(t) => Some(*t),
            None => None,
        };
        match tile {
            Some(t) => {
                match &t.building {
                    Some(b) => {
                        if b.building_type == BuildingType::Base && b.level < 3 {
                            let cost: u32 = if b.level == 1 {
                                12
                            } else if b.level == 2 {
                                22
                            } else {
                                0
                            };
                            if *balance >= cost {
                                *balance = *balance - cost;
                                let t2 = Tile {
                                    owner: t.owner,
                                    level: t.level,
                                    units: t.units,
                                    building: Some(
                                        Building {
                                            building_type: b.building_type,
                                            level: b.level + 1,
                                        },
                                    ),
                                };
                                tiles[r][c] = Some(t2);
                                proof {
                                    assert(grid_view(*tiles) =~~= gk.update(
                                        r as int,
                                        gk[r as int].update(c as int, Some(t2)),
                                    ));
                                    assert(tile_wf(t2));
                                    lemma_grid_update_wf(gk, r as int, c as int, Some(t2));
                                }
                            }
                        }
                    },
                    None => {},
                }
            },
            None => {},
        }
        proof {
            assert(grid_view(*tiles) == spec_upgrade_step(gk, bk, bot_tiles@[k as int]).0);
            assert(*balance == spec_upgrade_step(gk, bk, bot_tiles@[k as int]).1);
        }
        k = k + 1;
    }
}

// ---------------------------------------------------------------------
// Strategy 2: build a GasPlant on the first building-less tile.
// ---------------------------------------------------------------------

/// The first collected position from `i` on whose tile has no building.
pub open spec fn spec_first_buildable_from(
    grid: Seq<Seq<Option<Tile>>>,
    tiles: Seq<(usize, usize)>,
    i: int,
) -> Option<(usize, usize)>
    decreases tiles.len() - i,
{
    if i < 0 || i >= tiles.len() {
        None
    } else {
        let p = tiles[i];
        match grid[p.0 as int][p.1 as int] {
            Some(t) => if t.building is None {
                Some(p)
            } else {
                spec_first_buildable_from(grid, tiles, i + 1)
            },
            None => spec_first_buildable_from(grid, tiles, i + 1),
        }
    }
}

/// The build pass: when the price of a GasPlant is affordable and the bot
/// has none, a level-1 GasPlant rises on the first building-less tile.
pub open spec fn spec_build_constructions(
    grid: Seq<Seq<Option<Tile>>>,
    balance: u32,
    tiles: Seq<(usize, usize)>,
) -> (Seq<Seq<Option<Tile>>>, u32) {
    let cost = BuildingType::GasPlant.spec_construction_cost() as u32;
    if balance >= cost {
        if !spec_has_building_upto(grid, tiles, tiles.len() as int, BuildingType::GasPlant) {
            match spec_first_buildable_from(grid, tiles, 0) {
                Some(p) => {
                    let r = p.0 as int;
                    let c = p.1 as int;
                    match grid[r][c] {
                        Some(t) => {
                            let t2 = Tile {
                                owner: t.owner,
                                level: t.level,
                                units: t.units,
                                building: Some(
                                    Building { building_type: BuildingType::GasPlant, level: 1 },
                                ),
                            };
                            (
                                grid.update(r, grid[r].update(c, Some(t2))),
                                (balance - cost) as u32,
                            )
                        },
                        None => (grid, balance),
                    }
                },
                None => (grid, balance),
            }
        } else {
            (grid, balance)
        }
    } else {
        (grid, balance)
    }
}

/// Every listed position whose tile exists is not neutral.
pub open spec fn spec_entries_not_neutral(
    grid: Seq<Seq<Option<Tile>>>,
    tiles: Seq<(usize, usize)>,
) -> bool {
    forall|k: int|
        0 <= k < tiles.len() ==> match grid[(#[trigger] tiles[k]).0 as int][tiles[k].1 as int] {
            Some(t) => t.owner != NEUTRAL_OWNER,
            None => true,
        }
}

/// Builds one level-1 GasPlant on the first building-less tile of the bot,
/// when affordable and the bot has none yet.
fn build_constructions(
    tiles: &mut Vec<Vec<Option<Tile>>>,
    balance: &mut u32,
    bot_tiles: &Vec<(usize, usize)>,
)
    requires
        grid_wf(grid_view(*old(tiles))),
        spec_entries_in_bounds(grid_view(*old(tiles)), bot_tiles@),
        spec_entries_not_neutral(grid_view(*old(tiles)), bot_tiles@),
    ensures
        grid_view(*final(tiles)) == spec_build_constructions(
            grid_view(*old(tiles)),
            *old(balance),
            bot_tiles@,
        ).0,
        *final(balance) == spec_build_constructions(
            grid_view(*old(tiles)),
            *old(balance),
            bot_tiles@,
        ).1,
        grid_wf(grid_view(*final(tiles))),
        grid_view(*final(tiles)).len() == grid_view(*old(tiles)).len(),
{
    let ghost g0 = grid_view(*old(tiles));
    let cost = BuildingType::GasPlant.get_construction_cost() as u32;
    if *balance < cost {
        return ;
    }
    if has_building(tiles, bot_tiles, BuildingType::GasPlant) {
        return ;
    }
    let len = bot_tiles.len();
    let mut k: usize = 0;
    while k < len
        invariant
            k <= len,
            len == bot_tiles@.len(),
            grid_wf(g0),
            spec_entries_in_bounds(g0, bot_tiles@),
            spec_entries_not_neutral(g0, bot_tiles@),
            g0 == grid_view(*tiles),
            g0 == grid_view(*old(tiles)),
            *balance == *old(balance),
            *balance >= cost,
            cost == BuildingType::GasPlant.spec_construction_cost() as u32,
            !spec_has_building_upto(
                g0,
                bot_tiles@,
                bot_tiles@.len() as int,
                BuildingType::GasPlant,
            ),
            spec_first_buildable_from(g0, bot_tiles@, 0) == spec_first_buildable_from(
                g0,
                bot_tiles@,
                k as int,
            ),
        decreases len - k,
    {
        let (r, c) = bot_tiles[k];
        proof {
            assert(bot_tiles@[k as int] == (r, c));
            assert(g0[r as int] == tiles@[r as int]@);
            assert(g0[r as int].len() == g0.len());
        }
        let tile = match &tiles[r][c] {
            Some(t) => Some(*t),
            None => None,
        };
        match tile {
            Some(t) => {
                if t.building.is_none() {
                    let t2 = Tile {
                        owner: t.owner,
                        level: t.level,
                        units: t.units,
                        building: Some(
                            Building { building_type: BuildingType::GasPlant, level: 1 },
                        ),
                    };
                    tiles[r][c] = Some(t2);
                    *balance = *balance - cost;
                    proof {
                        assert(grid_view(*tiles) =~~= g0.update(
                            r as int,
                            g0[r as int].update(c as int, Some(t2)),
                        ));
                        assert(tile_wf(t2));
                        lemma_grid_update_wf(g0, r as int, c as int, Some(t2));
                    }
                    return ;
                }
            },
            None => {},
        }
        k = k + 1;
    }
}

// ---------------------------------------------------------------------
// Strategy 3: top every tile up with infantry while funds last.
// ---------------------------------------------------------------------

/// One step of the recruit pass at position `p`: top the stack up toward
/// the desired quantity with the cheapest unit kind, then stop the whole
/// pass once the balance cannot buy another unit.
pub open spec fn spec_bot_recruit_step(
    grid: Seq<Seq<Option<Tile>>>,
    balance: u32,
    stopped: bool,
    p: (usize, usize),
) -> (Seq<Seq<Option<Tile>>>, u32, bool) {
    if stopped {
        (grid, balance, stopped)
    } else {
        let r = p.0 as int;
        let c = p.1 as int;
        let cost = UnitType::Infantry.spec_cost() as u32;
        match grid[r][c] {
            Some(t) => {
                let current: int = match t.units {
                    Some(u) => u.quantity as int,
                    None => 0,
                };
                if current < DESIRED_UNIT_QUANTITY {
                    let needed = DESIRED_UNIT_QUANTITY - current;
                    let affordable: int = if (balance / cost) as int <= needed {
                        (balance / cost) as int
                    } else {
                        needed
                    };
                    let (grid2, balance2): (Seq<Seq<Option<Tile>>>, u32) = if affordable > 0 {
                        let units2 = match t.units {
                            Some(u) => Units {
                                unit_type: u.unit_type,
                                quantity: (u.quantity + affordable) as u16,
                                stamina: u.stamina,
                            },
                            None => Units {
                                unit_type: UnitType::Infantry,
                                quantity: affordable as u16,
                                stamina: UnitType::Infantry.spec_max_stamina(),
                            },
                        };
                        let t2 = Tile {
                            owner: t.owner,
                            level: t.level,
                            units: Some(units2),
                            building: t.building,
                        };
                        (
                            grid.update(r, grid[r].update(c, Some(t2))),
                            (balance - affordable * cost) as u32,
                        )
                    } else {
                        (grid, balance)
                    };
                    (grid2, balance2, balance2 < cost)
                } else {
                    (grid, balance, stopped)
                }
            },
            None => (grid, balance, stopped),
        }
    }
}

pub open spec fn spec_bot_recruit_upto(
    grid: Seq<Seq<Option<Tile>>>,
    balance: u32,
    tiles: Seq<(usize, usize)>,
    k: int,
) -> (Seq<Seq<Option<Tile>>>, u32, bool)
    decreases k,
{
    if k <= 0 {
        (grid, balance, false)
    } else {
        let prev = spec_bot_recruit_upto(grid, balance, tiles, k - 1);
        spec_bot_recruit_step(prev.0, prev.1, prev.2, tiles[k - 1])
    }
}

/// Once the recruit pass has stopped for want of funds, the remaining
/// steps change nothing.
proof fn lemma_recruit_stopped(
    grid: Seq<Seq<Option<Tile>>>,
    balance: u32,
    tiles: Seq<(usize, usize)>,
    k: int,
    m: int,
)
    requires
        0 <= k <= m,
        spec_bot_recruit_upto(grid, balance, tiles, k).2,
    ensures
        spec_bot_recruit_upto(grid, balance, tiles, m) == spec_bot_recruit_upto(
            grid,
            balance,
            tiles,
            k,
        ),
    decreases m - k,
{
    if k < m {
        lemma_recruit_stopped(grid, balance, tiles, k + 1, m);
    }
}

/// Tops every tile of the bot up toward the desired stack size with
/// infantry, until the funds run out.
#[verifier::rlimit(50)]
fn recruit_units(
    tiles: &mut Vec<Vec<Option<Tile>>>,
    balance: &mut u32,
    bot_tiles: &Vec<(usize, usize)>,
)
    requires
        grid_wf(grid_view(*old(tiles))),
        spec_entries_in_bounds(grid_view(*old(tiles)), bot_tiles@),
        spec_entries_not_neutral(grid_view(*old(tiles)), bot_tiles@),
    ensures
        grid_view(*final(tiles)) == spec_bot_recruit_upto(
            grid_view(*old(tiles)),
            *old(balance),
            bot_tiles@,
            bot_tiles@.len() as int,
        ).0,
        *final(balance) == spec_bot_recruit_upto(
            grid_view(*old(tiles)),
            *old(balance),
            bot_tiles@,
            bot_tiles@.len() as int,
        ).1,
        grid_wf(grid_view(*final(tiles))),
        grid_view(*final(tiles)).len() == grid_view(*old(tiles)).len(),
{
    let ghost g0 = grid_view(*old(tiles));
    let ghost b0 = *old(balance);
    let ghost seq = bot_tiles@;
    let cost = UnitType::Infantry.cost() as u32;
    let len = bot_tiles.len();
    let mut k: usize = 0;
    while k < len
        invariant_except_break
            k <= len,
            len == seq.len(),
            seq == bot_tiles@,
            cost == UnitType::Infantry.spec_cost() as u32,
            grid_wf(g0),
            spec_entries_in_bounds(g0, seq),
            spec_entries_not_neutral(g0, seq),
            grid_wf(grid_view(*tiles)),
            grid_view(*tiles).len() == g0.len(),
            spec_same_shape_owners(g0, grid_view(*tiles)),
            grid_view(*tiles) == spec_bot_recruit_upto(g0, b0, seq, k as int).0,
            *balance == spec_bot_recruit_upto(g0, b0, seq, k as int).1,
            !spec_bot_recruit_upto(g0, b0, seq, k as int).2,
        ensures
            grid_wf(grid_view(*tiles)),
            grid_view(*tiles).len() == g0.len(),
            grid_view(*tiles) == spec_bot_recruit_upto(g0, b0, seq, seq.len() as int).0,
            *balance == spec_bot_recruit_upto(g0, b0, seq, seq.len() as int).1,
        decreases len - k,
    {
        let ghost gk = grid_view(*tiles);
        let ghost bk = *balance;
        let (r, c) = bot_tiles[k];
        proof {
            assert(seq[k as int] == (r, c));
            assert(gk[r as int] == tiles@[r as int]@);
            assert(gk[r as int].len() == gk.len());
        }
        let tile = match &tiles[r][c] {
            Some(t) => Some(*t),
            None => None,
        };
        let mut stopped = false;
        match tile {
            Some(t) => {
                let current: u16 = match &t.units {
                    Some(u) => u.quantity,
                    None => 0,
                };
                if current < DESIRED_UNIT_QUANTITY {
                    let needed: u16 = DESIRED_UNIT_QUANTITY - current;
                    let by_funds: u32 = *balance / cost;
                    let affordable: u16 = if by_funds <= needed as u32 {
                        by_funds as u16
                    } else {
                        needed
                    };
                    if affordable > 0 {
                        let units2 = match &t.units {
                            Some(u) => Units {
                                unit_type: u.unit_type,
                                quantity: u.quantity + affordable,
                                stamina: u.stamina,
                            },
                            None => Units {
                                unit_type: UnitType::Infantry,
                                quantity: affordable,
                                stamina: UnitType::Infantry.max_stamina(),
                            },
                        };
                        let t2 = Tile {
                            owner: t.owner,
                            level: t.level,
                            units: Some(units2),
                            building: t.building,
                        };
                        tiles[r][c] = Some(t2);
                        proof {
                            assert(affordable as u32 * cost <= bk) by (nonlinear_arith)
                                requires
                                    cost == 1,
                                    affordable as u32 <= bk / cost,
                            ;
                        }
                        *balance = *balance - affordable as u32 * cost;
                        proof {
                            assert(grid_view(*tiles) =~~= gk.update(
                                r as int,
                                gk[r as int].update(c as int, Some(t2)),
                            ));
                            assert(match g0[r as int][c as int] {
                                Some(x) => x.owner == t.owner,
                                None => false,
                            });
                            assert(t.owner != NEUTRAL_OWNER);
                            assert(tile_wf(t2));
                            lemma_grid_update_wf(gk, r as int, c as int, Some(t2));
                        }
                    }
                    if *balance < cost {
                        stopped = true;
                    }
                }
            },
            None => {},
        }
        proof {
            let step = spec_bot_recruit_step(gk, bk, false, seq[k as int]);
            assert(grid_view(*tiles) == step.0);
            assert(*balance == step.1);
            assert(stopped == step.2);
            assert(spec_same_shape_owners(g0, grid_view(*tiles)));
        }
        if stopped {
            proof {
                lemma_recruit_stopped(g0, b0, seq, k as int + 1, seq.len() as int);
            }
            break ;
        }
        k = k + 1;
    }
}

/// Law: the bot's recruit pass never spends more than the balance it
/// started with — a partial fill stops at what the funds cover.
pub proof fn lemma_bot_recruit_never_overspends(
    grid: Seq<Seq<Option<Tile>>>,
    balance: u32,
    tiles: Seq<(usize, usize)>,
    k: int,
)
    requires
        0 <= k,
    ensures
        spec_bot_recruit_upto(grid, balance, tiles, k).1 <= balance,
    decreases k,
{
    if k > 0 {
        lemma_bot_recruit_never_overspends(grid, balance, tiles, k - 1);
    }
}

// ---------------------------------------------------------------------
// The decision: one economy action per turn.
// ---------------------------------------------------------------------

/// The grid and bot balance after the one economy action the priority
/// chain picks from the bot's statistics.
pub open spec fn spec_bot_economy_action(
    grid: Seq<Seq<Option<Tile>>>,
    balance: u32,
    tiles: Seq<(usize, usize)>,
) -> (Seq<Seq<Option<Tile>>>, u32) {
    let stats = spec_stats_upto(grid, tiles, tiles.len() as int);
    let total_units = stats.0;
    let base_level = stats.1;
    if (base_level == 1 && total_units >= 5) || (base_level == 2 && total_units >= 20) {
        spec_upgrade_upto(grid, balance, tiles, tiles.len() as int)
    } else if base_level >= 2 && total_units > 10 && !spec_has_building_upto(
        grid,
        tiles,
        tiles.len() as int,
        BuildingType::GasPlant,
    ) {
        spec_build_constructions(grid, balance, tiles)
    } else {
        let rec = spec_bot_recruit_upto(grid, balance, tiles, tiles.len() as int);
        (rec.0, rec.1)
    }
}

// ---------------------------------------------------------------------
// The attack pass: queue one winning attack per tile, then apply them.
// ---------------------------------------------------------------------

/// Whether attacking (`rr`, `cc`) from a stack `u` is worthwhile: an
/// existing foreign tile the stack strictly beats after its defense bonus.
pub open spec fn spec_attack_ok(
    grid: Seq<Seq<Option<Tile>>>,
    bot: u32,
    u: Units,
    rr: int,
    cc: int,
) -> bool {
    &&& 0 <= rr < grid.len()
    &&& 0 <= cc < grid[rr].len()
    &&& match grid[rr][cc] {
        Some(adj) => {
            &&& adj.owner != bot
            &&& spec_effective_power(u, adj) > 0
            &&& spec_effective_power(u, adj) > spec_defender_power(adj)
        },
        None => false,
    }
}

/// The first worthwhile target around (`r`, `c`), scanning up, down, left,
/// right.
pub open spec fn spec_pick_target(
    grid: Seq<Seq<Option<Tile>>>,
    bot: u32,
    u: Units,
    r: int,
    c: int,
) -> Option<(usize, usize)> {
    if spec_attack_ok(grid, bot, u, r - 1, c) {
        Some(((r - 1) as usize, c as usize))
    } else if spec_attack_ok(grid, bot, u, r + 1, c) {
        Some(((r + 1) as usize, c as usize))
    } else if spec_attack_ok(grid, bot, u, r, c - 1) {
        Some((r as usize, (c - 1) as usize))
    } else if spec_attack_ok(grid, bot, u, r, c + 1) {
        Some((r as usize, (c + 1) as usize))
    } else {
        None
    }
}

/// The attack queue over the first `k` collected positions: each tile with
/// a rested stack queues its first worthwhile target.
pub open spec fn spec_pending_moves_upto(
    grid: Seq<Seq<Option<Tile>>>,
    bot: u32,
    tiles: Seq<(usize, usize)>,
    k: int,
) -> Seq<((usize, usize), (usize, usize))>
    decreases k,
{
    if k <= 0 {
        Seq::empty()
    } else {
        let prev = spec_pending_moves_upto(grid, bot, tiles, k - 1);
        let p = tiles[k - 1];
        match grid[p.0 as int][p.1 as int] {
            Some(t) => match t.units {
                Some(u) => if u.stamina > 0 {
                    match spec_pick_target(grid, bot, u, p.0 as int, p.1 as int) {
                        Some(q) => prev.push((p, q)),
                        None => prev,
                    }
                } else {
                    prev
                },
                None => prev,
            },
            None => prev,
        }
    }
}

/// Decides whether attacking (`rr`, `cc`) from a stack `u` is worthwhile.
fn attack_ok(tiles: &Vec<Vec<Option<Tile>>>, bot: u32, u: Units, rr: usize, cc: usize) -> (res:
    bool)
    requires
        grid_wf(grid_view(*tiles)),
    ensures
        res == spec_attack_ok(grid_view(*tiles), bot, u, rr as int, cc as int),
{
    let ghost g = grid_view(*tiles);
    let n = tiles.len();
    if rr >= n || cc >= n {
        return false;
    }
    proof {
        assert(g[rr as int] == tiles@[rr as int]@);
        assert(g[rr as int].len() == g.len());
    }
    match &tiles[rr][cc] {
        Some(adj) => {
            if adj.owner == bot {
                return false;
            }
            proof {
                assert(u.quantity as int * u.unit_type.spec_strength() as int <= 65535 * 4)
                    by (nonlinear_arith)
                    requires
                        u.quantity <= 65535,
                        u.unit_type.spec_strength() <= 4,
                ;
            }
            let power: u32 = u.quantity as u32 * u.unit_type.strength() as u32;
            let bonus: u32 = adj.get_defense_bonus() as u32;
            let eff: u32 = if power > bonus {
                power - bonus
            } else {
                0
            };
            if eff == 0 {
                return false;
            }
            let dup: u32 = match &adj.units {
                Some(du) => {
                    proof {
                        assert(du.quantity as int * du.unit_type.spec_strength() as int <= 65535
                            * 4) by (nonlinear_arith)
                            requires
                                du.quantity <= 65535,
                                du.unit_type.spec_strength() <= 4,
                        ;
                    }
                    du.quantity as u32 * du.unit_type.strength() as u32
                },
                None => 0,
            };
            let dbp: u32 = match &adj.building {
                Some(b) => b.get_strength() as u32,
                None => 0,
            };
            eff > dup + dbp
        },
        None => false,
    }
}

/// Scans up, down, left, right for the first worthwhile target.
fn pick_target(tiles: &Vec<Vec<Option<Tile>>>, bot: u32, u: Units, r: usize, c: usize) -> (res:
    Option<(usize, usize)>)
    requires
        grid_wf(grid_view(*tiles)),
        r < grid_view(*tiles).len(),
        c < grid_view(*tiles).len(),
    ensures
        res == spec_pick_target(grid_view(*tiles), bot, u, r as int, c as int),
{
    let ghost g = grid_view(*tiles);
    if r > 0 && attack_ok(tiles, bot, u, r - 1, c) {
        return Some((r - 1, c));
    }
    proof {
        if r == 0 {
            assert(!spec_attack_ok(g, bot, u, r as int - 1, c as int));
        }
    }
    if attack_ok(tiles, bot, u, r + 1, c) {
        return Some((r + 1, c));
    }
    if c > 0 && attack_ok(tiles, bot, u, r, c - 1) {
        return Some((r, c - 1));
    }
    proof {
        if c == 0 {
            assert(!spec_attack_ok(g, bot, u, r as int, c as int - 1));
        }
    }
    if attack_ok(tiles, bot, u, r, c + 1) {
        return Some((r, c + 1));
    }
    None
}

/// Applying one queued attack: combat between the stack still on the
/// source tile and the target, both written back; the owner of a destroyed
/// Base is reported.
pub open spec fn spec_apply_move(
    grid: Seq<Seq<Option<Tile>>>,
    bot: u32,
    m: ((usize, usize), (usize, usize)),
) -> (Seq<Seq<Option<Tile>>>, Option<u32>) {
    let f = m.0;
    let t = m.1;
    if f == t {
        (grid, None)
    } else {
        match (grid[f.0 as int][f.1 as int], grid[t.0 as int][t.1 as int]) {
            (Some(ft), Some(tt)) => match ft.units {
                Some(fu) => {
                    let oc = spec_resolve_attack(fu, ft, tt, bot, 1);
                    let grid1 = grid.update(
                        f.0 as int,
                        grid[f.0 as int].update(f.1 as int, Some(oc.from_tile)),
                    );
                    let grid2 = grid1.update(
                        t.0 as int,
                        grid1[t.0 as int].update(t.1 as int, Some(oc.to_tile)),
                    );
                    (grid2, oc.base_destroyed)
                },
                None => (grid, None),
            },
            _ => (grid, None),
        }
    }
}

/// The whole attack queue applied in order, collecting the owners of the
/// Bases destroyed along the way.
pub open spec fn spec_apply_moves_upto(
    grid: Seq<Seq<Option<Tile>>>,
    bot: u32,
    moves: Seq<((usize, usize), (usize, usize))>,
    k: int,
) -> (Seq<Seq<Option<Tile>>>, Seq<u32>)
    decreases k,
{
    if k <= 0 {
        (grid, Seq::empty())
    } else {
        let prev = spec_apply_moves_upto(grid, bot, moves, k - 1);
        let step = spec_apply_move(prev.0, bot, moves[k - 1]);
        (
            step.0,
            match step.1 {
                Some(pid) => prev.1.push(pid),
                None => prev.1,
            },
        )
    }
}

/// Every reported Base owner marked not alive, in order.
pub open spec fn spec_mark_all_upto(players: Seq<Option<PlayerInfo>>, ids: Seq<u32>, k: int) -> Seq<
    Option<PlayerInfo>,
>
    decreases k,
{
    if k <= 0 {
        players
    } else {
        spec_mark_player_status(spec_mark_all_upto(players, ids, k - 1), ids[k - 1], false)
    }
}

/// Every queued attack names in-bounds source and target positions.
proof fn lemma_pending_moves_in_bounds(
    grid: Seq<Seq<Option<Tile>>>,
    bot: u32,
    tiles: Seq<(usize, usize)>,
    k: int,
)
    requires
        grid_wf(grid),
        spec_entries_in_bounds(grid, tiles),
        0 <= k <= tiles.len(),
    ensures
        forall|j: int|
            0 <= j < spec_pending_moves_upto(grid, bot, tiles, k).len() ==> {
                let m = #[trigger] spec_pending_moves_upto(grid, bot, tiles, k)[j];
                &&& (m.0.0 as int) < grid.len()
                &&& (m.0.1 as int) < grid.len()
                &&& (m.1.0 as int) < grid.len()
                &&& (m.1.1 as int) < grid.len()
            },
    decreases k,
{
    if k > 0 {
        lemma_pending_moves_in_bounds(grid, bot, tiles, k - 1);
        let prev = spec_pending_moves_upto(grid, bot, tiles, k - 1);
        let cur = spec_pending_moves_upto(grid, bot, tiles, k);
        let p = tiles[k - 1];
        assert forall|j: int| 0 <= j < cur.len() implies {
            let m = #[trigger] cur[j];
            &&& (m.0.0 as int) < grid.len()
            &&& (m.0.1 as int) < grid.len()
            &&& (m.1.0 as int) < grid.len()
            &&& (m.1.1 as int) < grid.len()
        } by {
            if j < prev.len() {
                assert(cur[j] == prev[j]);
            } else {
                match grid[p.0 as int][p.1 as int] {
                    Some(t) => match t.units {
                        Some(u) => {
                            match spec_pick_target(grid, bot, u, p.0 as int, p.1 as int) {
                                Some(q) => {
                                    assert(cur == prev.push((p, q)));
                                    assert(prev.push((p, q))[j] == (p, q));
                                    assert((q.0 as int) < grid.len() && (q.1 as int)
                                        < grid.len()) by {
                                        let r = p.0 as int;
                                        let c = p.1 as int;
                                        if spec_attack_ok(grid, bot, u, r - 1, c) {
                                        } else if spec_attack_ok(grid, bot, u, r + 1, c) {
                                        } else if spec_attack_ok(grid, bot, u, r, c - 1) {
                                        } else {
                                            assert(spec_attack_ok(grid, bot, u, r, c + 1));
                                        }
                                    }
                                },
                                None => {},
                            }
                        },
                        None => {},
                    },
                    None => {},
                }
            }
        }
    }
}

/// Applies the queued attacks of one bot: queue one winning attack per
/// rested tile against the current board, resolve them in order, and mark
/// the owners of destroyed Bases not alive.
#[verifier::rlimit(100)]
pub(crate) fn attack_adjacent_tiles(
    game: &mut Game,
    bot_pubkey: u32,
    bot_tiles: &Vec<(usize, usize)>,
)
    requires
        old(game)@.wf(),
        bot_pubkey != NEUTRAL_OWNER,
        spec_entries_in_bounds(old(game)@.grid, bot_tiles@),
    ensures
        final(game)@.wf(),
        ({
            let g = old(game)@;
            let moves = spec_pending_moves_upto(
                g.grid,
                bot_pubkey,
                bot_tiles@,
                bot_tiles@.len() as int,
            );
            let applied = spec_apply_moves_upto(g.grid, bot_pubkey, moves, moves.len() as int);
            final(game)@ == GameView {
                players: spec_mark_all_upto(g.players, applied.1, applied.1.len() as int),
                grid: applied.0,
                ..g
            }
        }),
{
    let ghost g0 = game@;

    // Queue the attacks against the current board.
    let mut pending: Vec<((usize, usize), (usize, usize))> = Vec::new();
    let len = bot_tiles.len();
    let mut k: usize = 0;
    while k < len
        invariant
            k <= len,
            len == bot_tiles@.len(),
            *game == *old(game),
            g0 == game@,
            g0.wf(),
            spec_entries_in_bounds(g0.grid, bot_tiles@),
            pending@ == spec_pending_moves_upto(g0.grid, bot_pubkey, bot_tiles@, k as int),
        decreases len - k,
    {
        let (r, c) = bot_tiles[k];
        proof {
            assert(bot_tiles@[k as int] == (r, c));
            assert(g0.grid[r as int] == game.tiles@[r as int]@);
            assert(g0.grid[r as int].len() == g0.grid.len());
        }
        match &game.tiles[r][c] {
            Some(t) => {
                match &t.units {
                    Some(u) => {
                        if u.stamina > 0 {
                            let u_copy = *u;
                            match pick_target(&game.tiles, bot_pubkey, u_copy, r, c) {
                                Some(q) => {
                                    pending.push(((r, c), q));
                                },
                                None => {},
                            }
                        }
                    },
                    None => {},
                }
            },
            None => {},
        }
        k = k + 1;
    }
    let ghost moves = spec_pending_moves_upto(g0.grid, bot_pubkey, bot_tiles@, len as int);
    proof {
        lemma_pending_moves_in_bounds(g0.grid, bot_pubkey, bot_tiles@, len as int);
    }

    // Resolve them in order against the live board.
    let mut destroyed: Vec<u32> = Vec::new();
    let mlen = pending.len();
    let mut j: usize = 0;
    while j < mlen
        invariant
            j <= mlen,
            mlen == moves.len(),
            pending@ == moves,
            bot_pubkey != NEUTRAL_OWNER,
            g0.wf(),
            forall|i: int|
                0 <= i < moves.len() ==> {
                    let m = #[trigger] moves[i];
                    &&& (m.0.0 as int) < g0.grid.len()
                    &&& (m.0.1 as int) < g0.grid.len()
                    &&& (m.1.0 as int) < g0.grid.len()
                    &&& (m.1.1 as int) < g0.grid.len()
                },
            game@.grid == spec_apply_moves_upto(g0.grid, bot_pubkey, moves, j as int).0,
            destroyed@ == spec_apply_moves_upto(g0.grid, bot_pubkey, moves, j as int).1,
            game@ == (GameView {
                grid: spec_apply_moves_upto(g0.grid, bot_pubkey, moves, j as int).0,
                ..g0
            }),
            grid_wf(game@.grid),
            game@.grid.len() == g0.grid.len(),
        decreases mlen - j,
    {
        let ghost gj = game@.grid;
        let ((fr, fc), (tr, tc)) = pending[j];
        proof {
            assert(moves[j as int] == ((fr, fc), (tr, tc)));
        }
        if !(fr == tr && fc == tc) {
            proof {
                assert(gj[fr as int] == game.tiles@[fr as int]@);
                assert(gj[tr as int] == game.tiles@[tr as int]@);
                assert(gj[fr as int].len() == gj.len());
                assert(gj[tr as int].len() == gj.len());
            }
            let from_tile = match &game.tiles[fr][fc] {
                Some(t) => Some(*t),
                None => None,
            };
            let to_tile = match &game.tiles[tr][tc] {
                Some(t) => Some(*t),
                None => None,
            };
            match (from_tile, to_tile) {
                (Some(ft), Some(tt)) => {
                    match &ft.units {
                        Some(fu) => {
                            let oc = resolve_attack(*fu, ft, tt, bot_pubkey, 1);
                            game.tiles[fr][fc] = Some(oc.from_tile);
                            game.tiles[tr][tc] = Some(oc.to_tile);
                            match oc.base_destroyed {
                                Some(pid) => {
                                    destroyed.push(pid);
                                },
                                None => {},
                            }
                            proof {
                                let g1 = gj.update(
                                    fr as int,
                                    gj[fr as int].update(fc as int, Some(oc.from_tile)),
                                );
                                let g2 = g1.update(
                                    tr as int,
                                    g1[tr as int].update(tc as int, Some(oc.to_tile)),
                                );
                                assert(game@.grid =~~= g2);
                                lemma_resolve_attack_wf(*fu, ft, tt, bot_pubkey, 1);
                                lemma_grid_update_wf(
                                    gj,
                                    fr as int,
                                    fc as int,
                                    Some(oc.from_tile),
                                );
                                lemma_grid_update_wf(g1, tr as int, tc as int, Some(oc.to_tile));
                            }
                        },
                        None => {},
                    }
                },
                _ => {},
            }
        }
        proof {
            let step = spec_apply_move(gj, bot_pubkey, moves[j as int]);
            assert(game@.grid == step.0);
            assert(game@ == GameView { grid: step.0, ..g0 });
        }
        j = j + 1;
    }

    // Mark the owners of destroyed Bases not alive.
    let ghost players_mid = game@.players;
    let ghost grid_mid = game@.grid;
    let ghost dseq = destroyed@;
    let dlen = destroyed.len();
    let mut i: usize = 0;
    while i < dlen
        invariant
            i <= dlen,
            dlen == dseq.len(),
            destroyed@ == dseq,
            players_wf(game@.players),
            game@.players == spec_mark_all_upto(players_mid, dseq, i as int),
            game@ == (GameView { players: spec_mark_all_upto(players_mid, dseq, i as int), grid: grid_mid, ..g0 }),
            players_wf(players_mid),
            grid_wf(grid_mid),
            grid_mid.len() == g0.grid.len(),
            g0.wf(),
        decreases dlen - i,
    {
        let pid = destroyed[i];
        update_player_status(game, pid, false);
        proof {
            lemma_mark_status_keeps_wf(spec_mark_all_upto(players_mid, dseq, i as int), pid, false);
        }
        i = i + 1;
    }
}

/// One full bot turn: collect the bot's tiles, take the one economy action
/// the priority chain picks, queue the attacks against that snapshot, apply
/// them in order, and mark the owners of destroyed Bases not alive. An
/// empty slot leaves the game unchanged.
pub open spec fn spec_process_bot_turn(g: GameView, bot_index: int) -> GameView {
    if !(0 <= bot_index < g.players.len()) {
        g
    } else {
        match g.players[bot_index] {
            None => g,
            Some(bot) => {
                let tiles = spec_owned_tiles(g.grid, bot.pubkey);
                let eco = spec_bot_economy_action(g.grid, bot.balance, tiles);
                let players1 = spec_set_balance(g.players, bot_index, eco.1);
                let moves = spec_pending_moves_upto(eco.0, bot.pubkey, tiles, tiles.len() as int);
                let applied = spec_apply_moves_upto(eco.0, bot.pubkey, moves, moves.len() as int);
                GameView {
                    players: spec_mark_all_upto(players1, applied.1, applied.1.len() as int),
                    grid: applied.0,
                    ..g
                }
            },
        }
    }
}

/// Runs one bot's whole turn, exactly as `spec_process_bot_turn` describes,
/// preserving the game invariant. An empty or out-of-range slot is refused
/// with the game unchanged.
#[verifier::rlimit(100)]
pub fn process_bot_turn(game: &mut Game, bot_index: usize) -> (r: Result<(), GameError>)
    requires
        old(game)@.wf(),
    ensures
        final(game)@.wf(),
        match r {
            Ok(()) => {
                &&& (bot_index as int) < old(game)@.players.len()
                &&& old(game)@.players[bot_index as int] is Some
                &&& final(game)@ == spec_process_bot_turn(old(game)@, bot_index as int)
            },
            Err(GameError::InvalidPlayer) => {
                &&& ((bot_index as int) >= old(game)@.players.len() || old(
                    game,
                )@.players[bot_index as int] is None)
                &&& *final(game) == *old(game)
            },
            _ => false,
        },
{
    let ghost g0 = game@;
    if bot_index >= game.players.len() {
        return Err(GameError::InvalidPlayer);
    }
    let bot = match &game.players[bot_index] {
        Some(p) => *p,
        None => {
            return Err(GameError::InvalidPlayer);
        },
    };
    proof {
        assert(match g0.players[bot_index as int] {
            Some(p) => p.pubkey != NEUTRAL_OWNER && p.attack_points <= 3,
            None => true,
        });
    }
    let bot_tiles = collect_owned_tiles(&game.tiles, bot.pubkey);
    proof {
        lemma_owned_tiles_ok(g0.grid, bot.pubkey);
        assert forall|k: int|
            0 <= k < bot_tiles@.len() implies match g0.grid[(
        #[trigger] bot_tiles@[k]).0 as int][bot_tiles@[k].1 as int] {
            Some(t) => t.owner != NEUTRAL_OWNER,
            None => true,
        } by {
            assert(spec_entry_ok(g0.grid, bot.pubkey, bot_tiles@[k]));
        }
        assert(spec_entries_not_neutral(g0.grid, bot_tiles@));
    }
    let stats = get_stats(&game.tiles, &bot_tiles);
    let total_units = stats.0;
    let base_level = stats.1;
    let mut balance = bot.balance;
    if (base_level == 1 && total_units >= 5) || (base_level == 2 && total_units >= 20) {
        upgrade_base(&mut game.tiles, &mut balance, &bot_tiles);
    } else if base_level >= 2 && total_units > 10 && !has_building(
        &game.tiles,
        &bot_tiles,
        BuildingType::GasPlant,
    ) {
        build_constructions(&mut game.tiles, &mut balance, &bot_tiles);
    } else {
        recruit_units(&mut game.tiles, &mut balance, &bot_tiles);
    }
    proof {
        assert(game@.grid == spec_bot_economy_action(g0.grid, bot.balance, bot_tiles@).0);
        assert(balance == spec_bot_economy_action(g0.grid, bot.balance, bot_tiles@).1);
    }
    game.players[bot_index] = Some(
        PlayerInfo {
            pubkey: bot.pubkey,
            is_bot: bot.is_bot,
            balance,
            attack_points: bot.attack_points,
            is_alive: bot.is_alive,
        },
    );
    let ghost g1 = game@;
    proof {
        assert(g1.players =~= spec_set_balance(g0.players, bot_index as int, balance));
        lemma_update_slot_keeps_wf(
            g0.players,
            bot_index as int,
            PlayerInfo {
                pubkey: bot.pubkey,
                is_bot: bot.is_bot,
                balance,
                attack_points: bot.attack_points,
                is_alive: bot.is_alive,
            },
        );
        assert(g1.wf());
        assert(spec_entries_in_bounds(g1.grid, bot_tiles@));
    }
    attack_adjacent_tiles(game, bot.pubkey, &bot_tiles);
    proof {
        let tiles_spec = spec_owned_tiles(g0.grid, bot.pubkey);
        let eco = spec_bot_economy_action(g0.grid, bot.balance, tiles_spec);
        let players1 = spec_set_balance(g0.players, bot_index as int, eco.1);
        let moves = spec_pending_moves_upto(eco.0, bot.pubkey, tiles_spec, tiles_spec.len() as int);
        let applied = spec_apply_moves_upto(eco.0, bot.pubkey, moves, moves.len() as int);
        assert(g1.players == players1);
        assert(game@ == (GameView {
            players: spec_mark_all_upto(players1, applied.1, applied.1.len() as int),
            grid: applied.0,
            ..g1
        }));
        assert(game@ == spec_process_bot_turn(g0, bot_index as int));
    }
    Ok(())
}

} // verus!
