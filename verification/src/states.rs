//! The data model: board tiles, unit stacks, buildings, players and the game
//! record itself, together with the per-type constant tables and the
//! well-formedness invariants that every operation preserves.

use vstd::prelude::*;

verus! {

/// Identity of a player. The value `NEUTRAL_OWNER` is the sentinel for an
/// unowned tile and never names a player slot.
pub const NEUTRAL_OWNER: u32 = 0;

/// Number of player slots in every game.
pub const MAX_PLAYERS: usize = 4;

/// Cap on a player's attack-point budget.
pub const MAX_ATTACK_POINTS: u8 = 3;

/// Global registry state: how many games have been created.
#[derive(Clone, Copy, Debug, PartialEq, Eq, Structural)]
pub struct SuperState {
    pub game_count: u32,
}

/// Creates the registry state with no games recorded yet.
pub fn initialize_super() -> (r: SuperState)
    ensures
        r.game_count == 0,
{
    SuperState { game_count: 0 }
}

/// Per-player profile: identity, progression counters and the games the
/// player currently takes part in (recorded by game id).
#[derive(Clone, Debug, PartialEq, Eq)]
pub struct PlayerProfile {
    pub player: u32,
    pub experience: u32,
    pub completed_games: u32,
    pub active_games: Vec<u32>,
}

/// Most games a profile may be active in at once.
pub const MAX_ACTIVE_GAMES: usize = 10;

/// Creates a fresh profile for the given player identity.
pub fn create_player_profile(player: u32) -> (r: PlayerProfile)
    ensures
        r.player == player,
        r.experience == 0,
        r.completed_games == 0,
        r.active_games@ == Seq::<u32>::empty(),
{
    PlayerProfile { player, experience: 0, completed_games: 0, active_games: Vec::new() }
}

/// Lifecycle of a game record.
#[derive(Clone, Copy, Debug, PartialEq, Eq, Structural)]
pub enum GameStatus {
    NotStarted,
    Live,
    Completed,
}

/// The two supported board sizes.
#[derive(Clone, Copy, Debug, PartialEq, Eq, Structural)]
pub enum MapSize {
    Small,
    Large,
}

/// One player slot: identity, whether a bot plays it, its currency balance,
/// its per-round attack budget and whether it is still in the game.
#[derive(Clone, Copy, Debug, PartialEq, Eq, Structural)]
pub struct PlayerInfo {
    pub pubkey: u32,
    pub is_bot: bool,
    pub balance: u32,
    pub attack_points: u8,
    pub is_alive: bool,
}

/// Unit kinds that can garrison a tile. `Mutants` is the neutral kind that
/// garrisons unowned tiles and can never be purchased.
#[derive(Clone, Copy, Debug, PartialEq, Eq, Structural)]
pub enum UnitType {
    Infantry,
    Tank,
    Plane,
    Mutants,
}

impl UnitType {
    /// Movement/attack budget a stack of this kind gets back each round.
    pub open spec fn spec_max_stamina(self) -> u8 {
        match self {
            UnitType::Infantry => 1,
            UnitType::Tank => 3,
            UnitType::Plane => 5,
            UnitType::Mutants => 0,
        }
    }

    pub fn max_stamina(&self) -> (r: u8)
        ensures
            r == self.spec_max_stamina(),
    {
        match self {
            UnitType::Infantry => 1,
            UnitType::Tank => 3,
            UnitType::Plane => 5,
            UnitType::Mutants => 0,
        }
    }

    /// Combat power contributed by each unit of this kind.
    pub open spec fn spec_strength(self) -> u8 {
        match self {
            UnitType::Infantry => 1,
            UnitType::Tank => 3,
            UnitType::Plane => 4,
            UnitType::Mutants => 1,
        }
    }

    pub fn strength(&self) -> (r: u8)
        ensures
            r == self.spec_strength(),
    {
        match self {
            UnitType::Infantry => 1,
            UnitType::Tank => 3,
            UnitType::Plane => 4,
            UnitType::Mutants => 1,
        }
    }

    /// Currency price of one unit of this kind; `Mutants` cannot be bought.
    pub open spec fn spec_cost(self) -> u8 {
        match self {
            UnitType::Infantry => 1,
            UnitType::Tank => 3,
            UnitType::Plane => 5,
            UnitType::Mutants => 0,
        }
    }

    pub fn cost(&self) -> (r: u8)
        ensures
            r == self.spec_cost(),
    {
        match self {
            UnitType::Infantry => 1,
            UnitType::Tank => 3,
            UnitType::Plane => 5,
            UnitType::Mutants => 0,
        }
    }
}

/// A stack of units stationed on one tile: a single kind, a positive
/// quantity, and the stamina left for this round.
#[derive(Clone, Copy, Debug, PartialEq, Eq, Structural)]
pub struct Units {
    pub unit_type: UnitType,
    pub quantity: u16,
    pub stamina: u8,
}

/// A stack is well formed when it is non-empty and its stamina does not
/// exceed its kind's maximum.
pub open spec fn units_wf(u: Units) -> bool {
    &&& u.quantity > 0
    &&& u.stamina <= u.unit_type.spec_max_stamina()
}

/// Building kinds. A `Base` is only pre-placed at game start and decides
/// whether its owner is still alive.
#[derive(Clone, Copy, Debug, PartialEq, Eq, Structural)]
pub enum BuildingType {
    Base,
    GasPlant,
    TankFactory,
    PlaneFactory,
    Fort,
}

impl BuildingType {
    /// Highest level a building of this kind can reach.
    pub open spec fn spec_max_level(self) -> u8 {
        match self {
            BuildingType::Base => 3,
            BuildingType::GasPlant => 1,
            BuildingType::TankFactory => 1,
            BuildingType::PlaneFactory => 1,
            BuildingType::Fort => 3,
        }
    }

    /// Price of constructing a new level-1 building of this kind.
    pub open spec fn spec_construction_cost(self) -> u8 {
        match self {
            BuildingType::Base => 0,
            BuildingType::GasPlant => 12,
            BuildingType::TankFactory => 10,
            BuildingType::PlaneFactory => 16,
            BuildingType::Fort => 8,
        }
    }

    pub fn get_construction_cost(&self) -> (r: u8)
        ensures
            r == self.spec_construction_cost(),
    {
        match self {
            BuildingType::Base => 0,
            BuildingType::GasPlant => 12,
            BuildingType::TankFactory => 10,
            BuildingType::PlaneFactory => 16,
            BuildingType::Fort => 8,
        }
    }
}

/// A building standing on a tile, at some level between 1 and its kind's
/// maximum.
#[derive(Clone, Copy, Debug, PartialEq, Eq, Structural)]
pub struct Building {
    pub building_type: BuildingType,
    pub level: u8,
}

pub open spec fn building_wf(b: Building) -> bool {
    1 <= b.level <= b.building_type.spec_max_level()
}

impl Building {
    /// Currency this building yields to its owner each round.
    pub open spec fn spec_yield(self) -> u8 {
        match self.building_type {
            BuildingType::Base => match self.level {
                1u8 => 3,
                2u8 => 4,
                3u8 => 6,
                _ => 0,
            },
            BuildingType::GasPlant => 1,
            _ => 0,
        }
    }

    pub fn get_yield(&self) -> (r: u8)
        ensures
            r == self.spec_yield(),
    {
        match self.building_type {
            BuildingType::Base => match self.level {
                1u8 => 3,
                2u8 => 4,
                3u8 => 6,
                _ => 0,
            },
            BuildingType::GasPlant => 1,
            _ => 0,
        }
    }

    /// Combat power this building adds to its tile's defenders. Only a Base
    /// garrison fights back.
    pub open spec fn spec_strength(self) -> u8 {
        match self.building_type {
            BuildingType::Base => 4,
            _ => 0,
        }
    }

    pub fn get_strength(&self) -> (r: u8)
        ensures
            r == self.spec_strength(),
    {
        match self.building_type {
            BuildingType::Base => 4,
            _ => 0,
        }
    }

    pub fn max_level(&self) -> (r: u8)
        ensures
            r == self.building_type.spec_max_level(),
    {
        match self.building_type {
            BuildingType::Base => 3,
            BuildingType::GasPlant => 1,
            BuildingType::TankFactory => 1,
            BuildingType::PlaneFactory => 1,
            BuildingType::Fort => 3,
        }
    }

    /// Price of raising this building from its current level to the next.
    pub open spec fn spec_upgrade_cost(self) -> u8 {
        match self.building_type {
            BuildingType::Base => match self.level {
                1u8 => 12,
                2u8 => 22,
                _ => 0,
            },
            BuildingType::Fort => match self.level {
                1u8 => 8,
                2u8 => 14,
                _ => 0,
            },
            _ => 0,
        }
    }

    pub fn get_upgrade_cost(&self) -> (r: u8)
        ensures
            r == self.spec_upgrade_cost(),
    {
        match self.building_type {
            BuildingType::Base => match self.level {
                1u8 => 12,
                2u8 => 22,
                _ => 0,
            },
            BuildingType::Fort => match self.level {
                1u8 => 8,
                2u8 => 14,
                _ => 0,
            },
            _ => 0,
        }
    }
}

/// One populated board position: its owner (or the neutral sentinel), its
/// terrain level, and the stack and building standing on it, if any.
#[derive(Clone, Copy, Debug, PartialEq, Eq, Structural)]
pub struct Tile {
    pub owner: u32,
    pub level: u8,
    pub units: Option<Units>,
    pub building: Option<Building>,
}

/// Tile invariant: terrain level 1-3, any stack and building well formed,
/// and a neutral tile hosts at most the neutral unit kind and no building.
pub open spec fn tile_wf(t: Tile) -> bool {
    &&& 1 <= t.level <= 3
    &&& match t.units {
        Some(u) => units_wf(u),
        None => true,
    }
    &&& match t.building {
        Some(b) => building_wf(b),
        None => true,
    }
    &&& t.owner == NEUTRAL_OWNER ==> {
        &&& match t.units {
            Some(u) => u.unit_type == UnitType::Mutants,
            None => true,
        }
        &&& t.building is None
    }
}

impl Tile {
    /// Size of the neutral garrison a fresh tile of the given terrain level
    /// starts with.
    pub open spec fn spec_default_mutants(level: u8) -> u16 {
        match level {
            1u8 => 1,
            2u8 => 3,
            3u8 => 8,
            _ => 0,
        }
    }

    pub fn default_mutants(level: u8) -> (r: u16)
        ensures
            r == Self::spec_default_mutants(level),
    {
        match level {
            1u8 => 1,
            2u8 => 3,
            3u8 => 8,
            _ => 0,
        }
    }

    /// A fresh neutral tile of the given terrain level, garrisoned by its
    /// default mutant stack.
    pub open spec fn spec_new(level: u8) -> Tile {
        Tile {
            owner: NEUTRAL_OWNER,
            level,
            units: Some(
                Units {
                    unit_type: UnitType::Mutants,
                    quantity: Self::spec_default_mutants(level),
                    stamina: 0,
                },
            ),
            building: None,
        }
    }

    pub fn new(level: u8) -> (r: Tile)
        ensures
            r == Self::spec_new(level),
    {
        let mutants = Self::default_mutants(level);
        Tile {
            owner: NEUTRAL_OWNER,
            level,
            units: Some(Units { unit_type: UnitType::Mutants, quantity: mutants, stamina: 0 }),
            building: None,
        }
    }

    /// Currency this tile yields each round: terrain-derived base plus the
    /// building's own yield.
    pub open spec fn spec_yield(self) -> int {
        let tile_yield: int = if self.level == 3 {
            1
        } else {
            0
        };
        let building_yield: int = match self.building {
            Some(b) => b.spec_yield() as int,
            None => 0,
        };
        tile_yield + building_yield
    }

    pub fn get_yield(&self) -> (r: u8)
        requires
            tile_wf(*self),
        ensures
            r == self.spec_yield(),
    {
        let tile_yield: u8 = match self.level {
            1u8 => 0,
            2u8 => 0,
            3u8 => 1,
            _ => 0,
        };
        let building_yield: u8 = match &self.building {
            Some(building) => building.get_yield(),
            None => 0,
        };
        tile_yield + building_yield
    }

    pub open spec fn spec_is_neutral(self) -> bool {
        self.owner == NEUTRAL_OWNER
    }

    pub fn is_neutral(&self) -> (r: bool)
        ensures
            r == self.spec_is_neutral(),
    {
        self.owner == NEUTRAL_OWNER
    }

    /// Additive reduction applied to an attacker's power: nothing for a
    /// neutral tile, otherwise terrain level plus a Fort's level.
    pub open spec fn spec_defense_bonus(self) -> int {
        if self.spec_is_neutral() {
            0
        } else {
            let fort: int = match self.building {
                Some(b) => if b.building_type == BuildingType::Fort {
                    b.level as int
                } else {
                    0
                },
                None => 0,
            };
            self.level + fort
        }
    }

    pub fn get_defense_bonus(&self) -> (r: u8)
        requires
            tile_wf(*self),
        ensures
            r == self.spec_defense_bonus(),
    {
        if self.is_neutral() {
            0
        } else {
            let mut bonus: u8 = self.level;
            match &self.building {
                Some(building) => {
                    if building.building_type == BuildingType::Fort {
                        bonus = bonus + building.level;
                    }
                },
                None => {},
            }
            bonus
        }
    }
}

/// A full game record: the player slots, lifecycle data and the board.
#[derive(Clone, Debug, PartialEq, Eq)]
pub struct Game {
    pub game_id: u32,
    pub creator: u32,
    pub players: Vec<Option<PlayerInfo>>,
    pub status: GameStatus,
    pub winner: Option<u32>,
    pub max_players: u8,
    pub is_multiplayer: bool,
    pub map_size: MapSize,
    pub round: u32,
    pub current_player_index: u8,
    pub turn_timestamp: u64,
    pub turn_time_limit: u64,
    pub tiles: Vec<Vec<Option<Tile>>>,
}

/// Widths of the populated diamond rows for each board size.
pub open spec fn spec_map_layout(map_size: MapSize) -> Seq<u8> {
    match map_size {
        MapSize::Small => seq![3u8, 5, 7, 7, 7, 5, 3],
        MapSize::Large => seq![3u8, 5, 7, 9, 9, 9, 7, 5, 3],
    }
}

/// Side length of the square grid holding the diamond of the given size.
pub open spec fn spec_grid_size(map_size: MapSize) -> int {
    spec_map_layout(map_size).len() as int
}

/// The board invariant: a square grid of bounded size in which every
/// populated tile is well formed.
pub open spec fn grid_wf(tiles: Seq<Seq<Option<Tile>>>) -> bool {
    &&& tiles.len() <= 9
    &&& forall|r: int| 0 <= r < tiles.len() ==> (#[trigger] tiles[r]).len() == tiles.len()
    &&& forall|r: int, c: int|
        0 <= r < tiles.len() && 0 <= c < tiles.len() ==> match #[trigger] tiles[r][c] {
            Some(t) => tile_wf(t),
            None => true,
        }
}

/// The player-slot invariant: exactly `MAX_PLAYERS` slots, every occupied
/// slot holding a non-neutral identity and a capped attack budget, and no
/// two occupied slots sharing an identity.
pub open spec fn players_wf(players: Seq<Option<PlayerInfo>>) -> bool {
    &&& players.len() == MAX_PLAYERS
    &&& forall|i: int|
        0 <= i < players.len() ==> match #[trigger] players[i] {
            Some(p) => p.pubkey != NEUTRAL_OWNER && p.attack_points <= MAX_ATTACK_POINTS,
            None => true,
        }
    &&& forall|i: int, j: int|
        #![trigger players[i], players[j]]
        0 <= i < j < players.len() ==> match (players[i], players[j]) {
            (Some(a), Some(b)) => a.pubkey != b.pubkey,
            _ => true,
        }
}

/// The mathematical model of a game record: the same data with the board
/// and the player slots as sequences. All contracts speak of this view.
pub struct GameView {
    pub game_id: u32,
    pub creator: u32,
    pub players: Seq<Option<PlayerInfo>>,
    pub status: GameStatus,
    pub winner: Option<u32>,
    pub max_players: u8,
    pub is_multiplayer: bool,
    pub map_size: MapSize,
    pub round: u32,
    pub current_player_index: u8,
    pub turn_timestamp: u64,
    pub turn_time_limit: u64,
    pub grid: Seq<Seq<Option<Tile>>>,
}

impl View for Game {
    type V = GameView;

    open spec fn view(&self) -> GameView {
        GameView {
            game_id: self.game_id,
            creator: self.creator,
            players: self.players@,
            status: self.status,
            winner: self.winner,
            max_players: self.max_players,
            is_multiplayer: self.is_multiplayer,
            map_size: self.map_size,
            round: self.round,
            current_player_index: self.current_player_index,
            turn_timestamp: self.turn_timestamp,
            turn_time_limit: self.turn_time_limit,
            grid: self.tiles@.map_values(|row: Vec<Option<Tile>>| row@),
        }
    }
}

impl GameView {
    /// The whole-game invariant every operation preserves.
    pub open spec fn wf(self) -> bool {
        &&& players_wf(self.players)
        &&& (self.current_player_index as int) < MAX_PLAYERS
        &&& grid_wf(self.grid)
        &&& self.grid.len() == spec_grid_size(self.map_size)
    }

    /// The same game with one board position replaced.
    pub open spec fn set_tile(self, r: int, c: int, t: Option<Tile>) -> GameView {
        GameView { grid: self.grid.update(r, self.grid[r].update(c, t)), ..self }
    }

    /// The same game with the player slots replaced.
    pub open spec fn with_players(self, players: Seq<Option<PlayerInfo>>) -> GameView {
        GameView { players, ..self }
    }
}

/// Every occupied slot holding the given identity, with its alive flag set
/// to `alive`. Under `players_wf` at most one slot is affected.
pub open spec fn spec_mark_player_status(
    players: Seq<Option<PlayerInfo>>,
    pubkey: u32,
    alive: bool,
) -> Seq<Option<PlayerInfo>> {
    players.map_values(
        |slot: Option<PlayerInfo>|
            match slot {
                Some(p) => if p.pubkey == pubkey {
                    Some(PlayerInfo { is_alive: alive, ..p })
                } else {
                    Some(p)
                },
                None => None,
            },
    )
}

/// Index of the first occupied slot holding the given identity, scanning
/// from slot `i`.
pub open spec fn spec_find_player_from(
    players: Seq<Option<PlayerInfo>>,
    pubkey: u32,
    i: nat,
) -> Option<int>
    decreases players.len() - i,
{
    if i >= players.len() {
        None
    } else {
        match players[i as int] {
            Some(p) => if p.pubkey == pubkey {
                Some(i as int)
            } else {
                spec_find_player_from(players, pubkey, (i + 1) as nat)
            },
            None => spec_find_player_from(players, pubkey, (i + 1) as nat),
        }
    }
}

/// Index of the slot holding the given identity, if any.
pub open spec fn spec_find_player(players: Seq<Option<PlayerInfo>>, pubkey: u32) -> Option<int> {
    spec_find_player_from(players, pubkey, 0)
}

/// A found slot really holds the identity searched for, and nothing before
/// it does.
pub proof fn lemma_find_player_found(players: Seq<Option<PlayerInfo>>, pubkey: u32, i: nat, j: int)
    requires
        spec_find_player_from(players, pubkey, i) == Some(j),
    ensures
        i <= j < players.len(),
        match players[j] {
            Some(p) => p.pubkey == pubkey,
            None => false,
        },
        forall|k: int|
            i <= k < j ==> match #[trigger] players[k] {
                Some(p) => p.pubkey != pubkey,
                None => true,
            },
    decreases players.len() - i,
{
    if i < players.len() {
        match players[i as int] {
            Some(p) => {
                if p.pubkey != pubkey {
                    lemma_find_player_found(players, pubkey, (i + 1) as nat, j);
                }
            },
            None => {
                lemma_find_player_found(players, pubkey, (i + 1) as nat, j);
            },
        }
    }
}

/// When the scan finds nothing, no slot from its start holds the identity.
pub proof fn lemma_find_player_none(players: Seq<Option<PlayerInfo>>, pubkey: u32, i: nat)
    requires
        spec_find_player_from(players, pubkey, i) is None,
    ensures
        forall|k: int|
            i <= k < players.len() ==> match #[trigger] players[k] {
                Some(p) => p.pubkey != pubkey,
                None => true,
            },
    decreases players.len() - i,
{
    if i < players.len() {
        lemma_find_player_none(players, pubkey, (i + 1) as nat);
    }
}

/// Finds the slot of the player with the given identity.
pub fn find_player(players: &Vec<Option<PlayerInfo>>, pubkey: u32) -> (r: Option<usize>)
    ensures
        match r {
            Some(i) => i < players@.len() && spec_find_player(players@, pubkey) == Some(i as int)
                && match players@[i as int] {
                Some(p) => p.pubkey == pubkey,
                None => false,
            },
            None => spec_find_player(players@, pubkey) is None,
        },
{
    let n = players.len();
    let mut i: usize = 0;
    while i < n
        invariant
            i <= n,
            n == players@.len(),
            spec_find_player(players@, pubkey) == spec_find_player_from(players@, pubkey, i as nat),
        decreases n - i,
    {
        match &players[i] {
            Some(p) => {
                if p.pubkey == pubkey {
                    return Some(i);
                }
            },
            None => {},
        }
        i = i + 1;
    }
    None
}

/// Replacing one occupied slot with a same-identity, budget-capped record
/// keeps the player-slot invariant.
pub proof fn lemma_update_slot_keeps_wf(players: Seq<Option<PlayerInfo>>, idx: int, p: PlayerInfo)
    requires
        players_wf(players),
        0 <= idx < players.len(),
        match players[idx] {
            Some(q) => q.pubkey == p.pubkey,
            None => false,
        },
        p.pubkey != NEUTRAL_OWNER,
        p.attack_points <= MAX_ATTACK_POINTS,
    ensures
        players_wf(players.update(idx, Some(p))),
{
    let players2 = players.update(idx, Some(p));
    assert forall|i: int, j: int|
        #![trigger players2[i], players2[j]]
        0 <= i < j < players2.len() implies match (players2[i], players2[j]) {
        (Some(a), Some(b)) => a.pubkey != b.pubkey,
        _ => true,
    } by {
        assert(match (players[i], players[j]) {
            (Some(a), Some(b)) => a.pubkey != b.pubkey,
            _ => true,
        });
    }
}

/// Setting alive flags never touches identities or budgets, so the
/// player-slot invariant survives.
pub proof fn lemma_mark_status_keeps_wf(players: Seq<Option<PlayerInfo>>, pubkey: u32, alive: bool)
    requires
        players_wf(players),
    ensures
        players_wf(spec_mark_player_status(players, pubkey, alive)),
{
    let players2 = spec_mark_player_status(players, pubkey, alive);
    assert(players2.len() == players.len());
    assert forall|i: int, j: int|
        #![trigger players2[i], players2[j]]
        0 <= i < j < players2.len() implies match (players2[i], players2[j]) {
        (Some(a), Some(b)) => a.pubkey != b.pubkey,
        _ => true,
    } by {
        assert(match (players[i], players[j]) {
            (Some(a), Some(b)) => a.pubkey != b.pubkey,
            _ => true,
        });
    }
}

/// The board a tile matrix holds, as a mathematical sequence of rows.
pub open spec fn grid_view(tiles: Vec<Vec<Option<Tile>>>) -> Seq<Seq<Option<Tile>>> {
    tiles@.map_values(|row: Vec<Option<Tile>>| row@)
}

/// Replacing one board position with a well-formed (or empty) tile keeps
/// the board invariant.
pub proof fn lemma_grid_update_wf(grid: Seq<Seq<Option<Tile>>>, r: int, c: int, t: Option<Tile>)
    requires
        grid_wf(grid),
        0 <= r < grid.len(),
        0 <= c < grid.len(),
        match t {
            Some(x) => tile_wf(x),
            None => true,
        },
    ensures
        grid_wf(grid.update(r, grid[r].update(c, t))),
{
    let g2 = grid.update(r, grid[r].update(c, t));
    assert forall|i: int| 0 <= i < g2.len() implies (#[trigger] g2[i]).len() == g2.len() by {
        assert(grid[i].len() == grid.len());
    }
    assert forall|i: int, j: int| 0 <= i < g2.len() && 0 <= j < g2.len() implies match #[trigger] g2[i][j] {
        Some(x) => tile_wf(x),
        None => true,
    } by {
        if i == r && j == c {
        } else {
            assert(match grid[i][j] {
                Some(x) => tile_wf(x),
                None => true,
            });
        }
    }
}

/// Replacing a board position with a well-formed (or empty) tile keeps the
/// whole-game invariant.
pub proof fn lemma_set_tile_keeps_wf(g: GameView, r: int, c: int, t: Option<Tile>)
    requires
        g.wf(),
        0 <= r < g.grid.len(),
        0 <= c < g.grid.len(),
        match t {
            Some(x) => tile_wf(x),
            None => true,
        },
    ensures
        g.set_tile(r, c, t).wf(),
{
    let g2 = g.set_tile(r, c, t);
    assert forall|i: int| 0 <= i < g2.grid.len() implies (#[trigger] g2.grid[i]).len()
        == g2.grid.len() by {
        assert(g.grid[i].len() == g.grid.len());
    }
    assert forall|i: int, j: int|
        0 <= i < g2.grid.len() && 0 <= j < g2.grid.len() implies match #[trigger] g2.grid[i][j] {
        Some(x) => tile_wf(x),
        None => true,
    } by {
        if i == r && j == c {
        } else {
            assert(match g.grid[i][j] {
                Some(x) => tile_wf(x),
                None => true,
            });
        }
    }
}

/// Marks the player with the given identity alive or not. Leaves the game
/// unchanged when no slot holds that identity.
pub(crate) fn update_player_status(game: &mut Game, pubkey: u32, is_alive: bool)
    requires
        players_wf(old(game)@.players),
    ensures
        final(game)@ == old(game)@.with_players(
            spec_mark_player_status(old(game)@.players, pubkey, is_alive),
        ),
{
    let ghost old_players = game@.players;
    let ghost marked = spec_mark_player_status(old_players, pubkey, is_alive);
    let found = find_player(&game.players, pubkey);
    match found {
        Some(i) => {
            let p = match &game.players[i] {
                Some(p) => *p,
                None => unreached(),
            };
            game.players[i] = Some(
                PlayerInfo {
                    pubkey: p.pubkey,
                    is_bot: p.is_bot,
                    balance: p.balance,
                    attack_points: p.attack_points,
                    is_alive,
                },
            );
            proof {
                assert forall|j: int| 0 <= j < old_players.len() implies game@.players[j]
                    == marked[j] by {
                    if j < i as int {
                        assert(match (old_players[j], old_players[i as int]) {
                            (Some(a), Some(b)) => a.pubkey != b.pubkey,
                            _ => true,
                        });
                    } else if j > i as int {
                        assert(match (old_players[i as int], old_players[j]) {
                            (Some(a), Some(b)) => a.pubkey != b.pubkey,
                            _ => true,
                        });
                    }
                }
                assert(game@.players =~= marked);
                assert(game@ == old(game)@.with_players(marked));
            }
        },
        None => {
            proof {
                lemma_find_player_none(old_players, pubkey, 0);
                assert forall|j: int| 0 <= j < old_players.len() implies game@.players[j]
                    == marked[j] by {
                    assert(match old_players[j] {
                        Some(p) => p.pubkey != pubkey,
                        None => true,
                    });
                }
                assert(game@.players =~= marked);
                assert(game@ == old(game)@.with_players(marked));
            }
        },
    }
}

impl Game {
    pub fn get_map_layout(map_size: MapSize) -> (r: Vec<u8>)
        ensures
            r@ == spec_map_layout(map_size),
    {
        let r: Vec<u8> = match map_size {
            MapSize::Small => vec![3u8, 5, 7, 7, 7, 5, 3],
            MapSize::Large => vec![3u8, 5, 7, 9, 9, 9, 7, 5, 3],
        };
        proof {
            assert(r@ =~= spec_map_layout(map_size));
        }
        r
    }
}

} // verus!
