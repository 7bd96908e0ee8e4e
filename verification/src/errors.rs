//! Error taxonomy of the rules engine. Every rejected operation reports one
//! of these and leaves the game state exactly as it was.

use vstd::prelude::*;

verus! {

/// Game-level failures: authorization, bounds and existence, resources.
#[derive(Clone, Copy, Debug, PartialEq, Eq, Structural)]
pub enum GameError {
    GameAlreadyStarted,
    GameIsFull,
    PlayerAlreadyInGame,
    NotEnoughPlayers,
    TooManyActiveGames,
    InvalidMapSize,
    GameIsSinglePlayer,
    InvalidPlayer,
    NotYourTurn,
    OutOfBounds,
    BotKeyNotFound,
    InvalidCoordinates,
    InvalidTile,
    TileNotOwned,
    DifferentUnitTypeOnTile,
    RequiresTankFactory,
    RequiresPlaneFactory,
    InvalidUnitType,
    InsufficientFunds,
    TooManyUnits,
}

/// Failures of a unit move or attack.
#[derive(Clone, Copy, Debug, PartialEq, Eq, Structural)]
pub enum UnitError {
    NotYourTile,
    NoUnitsToMove,
    InvalidMovement,
    NotEnoughStamina,
    InvalidTile,
    TileOccupiedByOtherUnitType,
    TileOccupiedByEnemy,
    NotEnoughAttackPoints,
}

/// Failures of constructing or upgrading a building.
#[derive(Clone, Copy, Debug, PartialEq, Eq, Structural)]
pub enum ConstructionError {
    NotYourTile,
    NotEnoughFunds,
    BuildingTypeMismatch,
    MaxLevelReached,
    CannotBuildBase,
}

/// Any failure an operation on the game can report.
#[derive(Clone, Copy, Debug, PartialEq, Eq, Structural)]
pub enum ActionError {
    Game(GameError),
    Unit(UnitError),
    Construction(ConstructionError),
}

} // verus!
