//! Combat resolution: the outcome of moving one unit stack onto a tile that
//! is not owned by the mover. A pure function of the two tiles involved;
//! callers write the resulting tiles back and mark an owner whose Base was
//! destroyed as no longer alive.

use vstd::prelude::*;

use crate::states::{tile_wf, units_wf, BuildingType, Tile, Units, NEUTRAL_OWNER};

verus! {

/// Total combat power of a stack: quantity times per-unit strength.
pub open spec fn spec_unit_power(u: Units) -> int {
    u.quantity * u.unit_type.spec_strength()
}

/// Power of the stack defending a tile, 0 when none is stationed there.
pub open spec fn spec_defender_units_power(t: Tile) -> int {
    match t.units {
        Some(u) => spec_unit_power(u),
        None => 0,
    }
}

/// Power contributed by the tile's building, 0 when there is none.
pub open spec fn spec_defender_building_power(t: Tile) -> int {
    match t.building {
        Some(b) => b.spec_strength() as int,
        None => 0,
    }
}

/// Total power defending a tile: stationed stack plus building.
pub open spec fn spec_defender_power(t: Tile) -> int {
    spec_defender_units_power(t) + spec_defender_building_power(t)
}

/// Attacker power after the target's defense bonus, floored at 0
/// (saturating subtraction).
pub open spec fn spec_effective_power(attacker: Units, target: Tile) -> int {
    let raw = spec_unit_power(attacker);
    let bonus = target.spec_defense_bonus();
    if raw > bonus {
        raw - bonus
    } else {
        0
    }
}

/// Ceiling division: any positive remaining power yields at least one unit.
pub open spec fn spec_ceil_div(a: int, b: int) -> int {
    (a + b - 1) / b
}

/// Whether a Base stands on the tile.
pub open spec fn spec_has_base(t: Tile) -> bool {
    match t.building {
        Some(b) => b.building_type == BuildingType::Base,
        None => false,
    }
}

/// The owner about to lose a Base standing on the tile, if one does.
pub open spec fn spec_base_owner(t: Tile) -> Option<u32> {
    if spec_has_base(t) {
        Some(t.owner)
    } else {
        None
    }
}

/// Stamina left after paying a move's cost, floored at 0.
pub open spec fn spec_stamina_after(stamina: u8, move_cost: u8) -> u8 {
    if stamina >= move_cost {
        (stamina - move_cost) as u8
    } else {
        0
    }
}

/// What one attack leaves behind: the attacker's tile, the target tile, and
/// the player whose Base was destroyed, if any.
#[derive(Clone, Copy, Debug, PartialEq, Eq)]
pub struct CombatOutcome {
    pub from_tile: Tile,
    pub to_tile: Tile,
    pub base_destroyed: Option<u32>,
}

/// The surviving defender stack when the attacker loses: the defenders'
/// remaining power, divided (rounding up) by their per-unit strength,
/// clamped to the original quantity; an emptied stack is absent.
pub open spec fn spec_defender_survivors(eff: int, u: Units) -> Option<Units> {
    let dup = spec_unit_power(u);
    let s = u.unit_type.spec_strength() as int;
    let remaining = if dup > eff {
        dup - eff
    } else {
        0
    };
    let q = spec_ceil_div(remaining, s);
    let q_clamped = if q > u.quantity {
        u.quantity as int
    } else {
        q
    };
    if q_clamped == 0 {
        None
    } else {
        Some(Units { unit_type: u.unit_type, quantity: q_clamped as u16, stamina: u.stamina })
    }
}

/// The full combat rule. `attacker` is the stack leaving `from_tile` for
/// `to_tile`; `attacker_id` is the moving player; `move_cost` the stamina the
/// move costs. Effective power 0 is a futile attack: the attacking stack is
/// destroyed and the target is untouched. Equal powers destroy both stacks
/// (and a Base, marking its owner). Greater attacker power conquers the
/// tile: survivors by ceiling division, every building removed, ownership
/// transferred.
pub open spec fn spec_resolve_attack(
    attacker: Units,
    from_tile: Tile,
    to_tile: Tile,
    attacker_id: u32,
    move_cost: u8,
) -> CombatOutcome {
    let eff = spec_effective_power(attacker, to_tile);
    let dp = spec_defender_power(to_tile);
    let from_after = Tile {
        owner: from_tile.owner,
        level: from_tile.level,
        units: None,
        building: from_tile.building,
    };
    if eff == 0 {
        CombatOutcome { from_tile: from_after, to_tile, base_destroyed: None }
    } else if eff == dp {
        CombatOutcome {
            from_tile: from_after,
            to_tile: Tile {
                owner: to_tile.owner,
                level: to_tile.level,
                units: None,
                building: if spec_has_base(to_tile) {
                    None
                } else {
                    to_tile.building
                },
            },
            base_destroyed: spec_base_owner(to_tile),
        }
    } else if eff < dp {
        let survivors = match to_tile.units {
            Some(u) => spec_defender_survivors(eff, u),
            None => None,
        };
        CombatOutcome {
            from_tile: from_after,
            to_tile: Tile {
                owner: to_tile.owner,
                level: to_tile.level,
                units: survivors,
                building: to_tile.building,
            },
            base_destroyed: None,
        }
    } else {
        let s = attacker.unit_type.spec_strength() as int;
        let q = spec_ceil_div(eff - dp, s);
        CombatOutcome {
            from_tile: from_after,
            to_tile: Tile {
                owner: attacker_id,
                level: to_tile.level,
                units: Some(
                    Units {
                        unit_type: attacker.unit_type,
                        quantity: q as u16,
                        stamina: spec_stamina_after(attacker.stamina, move_cost),
                    },
                ),
                building: None,
            },
            base_destroyed: spec_base_owner(to_tile),
        }
    }
}

/// Ceiling division facts used to bound survivor counts: with power at most
/// `q * s`, at most `q` units survive, and any positive power leaves at
/// least one.
proof fn lemma_ceil_div_bounds(a: int, b: int, q: int)
    requires
        0 <= a,
        1 <= b,
        a <= q * b,
    ensures
        spec_ceil_div(a, b) <= q,
        a >= 1 ==> spec_ceil_div(a, b) >= 1,
        a == 0 ==> spec_ceil_div(a, b) == 0,
{
    assert((a + b - 1) / b <= q) by (nonlinear_arith)
        requires
            0 <= a,
            1 <= b,
            a <= q * b,
    ;
    assert(a >= 1 ==> (a + b - 1) / b >= 1) by (nonlinear_arith)
        requires
            1 <= b,
    ;
    assert(a == 0 ==> (a + b - 1) / b == 0) by (nonlinear_arith)
        requires
            1 <= b,
    ;
}

/// Executes the combat rule on copies of the two tiles.
pub fn resolve_attack(
    attacker: Units,
    from_tile: Tile,
    to_tile: Tile,
    attacker_id: u32,
    move_cost: u8,
) -> (r: CombatOutcome)
    requires
        tile_wf(to_tile),
        attacker.quantity > 0,
    ensures
        r == spec_resolve_attack(attacker, from_tile, to_tile, attacker_id, move_cost),
{
    proof {
        assert(attacker.unit_type.spec_strength() <= 4);
        assert(attacker.quantity as int * attacker.unit_type.spec_strength() as int <= 65535 * 4)
            by (nonlinear_arith)
            requires
                attacker.quantity <= 65535,
                attacker.unit_type.spec_strength() <= 4,
                attacker.quantity > 0,
        ;
    }
    let attacker_power: u32 = attacker.quantity as u32 * attacker.unit_type.strength() as u32;
    let defense_bonus: u32 = to_tile.get_defense_bonus() as u32;
    let eff: u32 = if attacker_power > defense_bonus {
        attacker_power - defense_bonus
    } else {
        0
    };

    let from_after = Tile {
        owner: from_tile.owner,
        level: from_tile.level,
        units: None,
        building: from_tile.building,
    };

    if eff == 0 {
        return CombatOutcome { from_tile: from_after, to_tile, base_destroyed: None };
    }

    let defender_units_power: u32 = match &to_tile.units {
        Some(u) => {
            proof {
                assert(u.quantity as int * u.unit_type.spec_strength() as int <= 65535 * 4)
                    by (nonlinear_arith)
                    requires
                        u.quantity <= 65535,
                        u.unit_type.spec_strength() <= 4,
                ;
            }
            u.quantity as u32 * u.unit_type.strength() as u32
        },
        None => 0,
    };
    let defender_building_power: u32 = match &to_tile.building {
        Some(b) => b.get_strength() as u32,
        None => 0,
    };
    let defender_power: u32 = defender_units_power + defender_building_power;

    let has_base: bool = match &to_tile.building {
        Some(b) => b.building_type == BuildingType::Base,
        None => false,
    };
    let base_destroyed: Option<u32> = if has_base {
        Some(to_tile.owner)
    } else {
        None
    };

    if eff == defender_power {
        CombatOutcome {
            from_tile: from_after,
            to_tile: Tile {
                owner: to_tile.owner,
                level: to_tile.level,
                units: None,
                building: if has_base {
                    None
                } else {
                    to_tile.building
                },
            },
            base_destroyed,
        }
    } else if eff < defender_power {
        let survivors: Option<Units> = match &to_tile.units {
            Some(u) => {
                let s: u32 = u.unit_type.strength() as u32;
                let remaining: u32 = if defender_units_power > eff {
                    defender_units_power - eff
                } else {
                    0
                };
                proof {
                    lemma_ceil_div_bounds(remaining as int, s as int, u.quantity as int);
                }
                let q: u32 = (remaining + s - 1) / s;
                let q_clamped: u32 = if q > u.quantity as u32 {
                    u.quantity as u32
                } else {
                    q
                };
                if q_clamped == 0 {
                    None
                } else {
                    Some(
                        Units {
                            unit_type: u.unit_type,
                            quantity: q_clamped as u16,
                            stamina: u.stamina,
                        },
                    )
                }
            },
            None => None,
        };
        CombatOutcome {
            from_tile: from_after,
            to_tile: Tile {
                owner: to_tile.owner,
                level: to_tile.level,
                units: survivors,
                building: to_tile.building,
            },
            base_destroyed: None,
        }
    } else {
        let s: u32 = attacker.unit_type.strength() as u32;
        let remaining: u32 = eff - defender_power;
        proof {
            lemma_ceil_div_bounds(remaining as int, s as int, attacker.quantity as int);
        }
        let q: u32 = (remaining + s - 1) / s;
        let stamina: u8 = if attacker.stamina >= move_cost {
            attacker.stamina - move_cost
        } else {
            0
        };
        CombatOutcome {
            from_tile: from_after,
            to_tile: Tile {
                owner: attacker_id,
                level: to_tile.level,
                units: Some(
                    Units { unit_type: attacker.unit_type, quantity: q as u16, stamina },
                ),
                building: None,
            },
            base_destroyed,
        }
    }
}

/// Combat leaves both tiles well formed: survivor stacks are non-empty with
/// bounded stamina, and a conquered tile belongs to the (non-neutral)
/// attacker with no building left.
pub proof fn lemma_resolve_attack_wf(
    attacker: Units,
    from_tile: Tile,
    to_tile: Tile,
    attacker_id: u32,
    move_cost: u8,
)
    requires
        tile_wf(from_tile),
        tile_wf(to_tile),
        units_wf(attacker),
        attacker_id != NEUTRAL_OWNER,
    ensures
        tile_wf(spec_resolve_attack(attacker, from_tile, to_tile, attacker_id, move_cost).from_tile),
        tile_wf(spec_resolve_attack(attacker, from_tile, to_tile, attacker_id, move_cost).to_tile),
{
    let eff = spec_effective_power(attacker, to_tile);
    let dp = spec_defender_power(to_tile);
    let r = spec_resolve_attack(attacker, from_tile, to_tile, attacker_id, move_cost);
    if eff == 0 {
    } else if eff == dp {
    } else if eff < dp {
        match to_tile.units {
            Some(u) => {
                let s = u.unit_type.spec_strength() as int;
                let dup = spec_unit_power(u);
                let remaining = if dup > eff {
                    dup - eff
                } else {
                    0
                };
                lemma_ceil_div_bounds(remaining, s, u.quantity as int);
            },
            None => {},
        }
    } else {
        let s = attacker.unit_type.spec_strength() as int;
        assert(dp >= 0) by {
            match to_tile.units {
                Some(u) => {
                    assert(spec_unit_power(u) >= 0) by (nonlinear_arith)
                        requires
                            u.quantity >= 0,
                            u.unit_type.spec_strength() >= 0,
                    ;
                },
                None => {},
            }
        }
        assert(eff - dp <= attacker.quantity * s) by (nonlinear_arith)
            requires
                eff <= attacker.quantity * s,
                dp >= 0,
        ;
        lemma_ceil_div_bounds(eff - dp, s, attacker.quantity as int);
    }
}

/// Law: combat quantities are monotonically non-increasing. A surviving
/// defender stack keeps its kind and never exceeds its pre-combat quantity;
/// a conquering attacker stack never exceeds the attacking quantity.
pub proof fn lemma_combat_quantities_monotonic(
    attacker: Units,
    from_tile: Tile,
    to_tile: Tile,
    attacker_id: u32,
    move_cost: u8,
)
    requires
        tile_wf(to_tile),
        attacker.quantity > 0,
    ensures
        ({
            let r = spec_resolve_attack(attacker, from_tile, to_tile, attacker_id, move_cost);
            &&& r.from_tile.units is None
            &&& match r.to_tile.units {
                Some(u) => if u.unit_type == attacker.unit_type && r.to_tile.owner == attacker_id
                    && spec_effective_power(attacker, to_tile) > spec_defender_power(to_tile) {
                    u.quantity <= attacker.quantity
                } else {
                    match to_tile.units {
                        Some(d) => u.unit_type == d.unit_type && u.quantity <= d.quantity,
                        None => false,
                    }
                },
                None => true,
            }
        }),
{
    let eff = spec_effective_power(attacker, to_tile);
    let dp = spec_defender_power(to_tile);
    let r = spec_resolve_attack(attacker, from_tile, to_tile, attacker_id, move_cost);
    if eff == 0 {
        assert(r.to_tile == to_tile);
    } else if eff == dp {
    } else if eff < dp {
        match to_tile.units {
            Some(u) => {
                let s = u.unit_type.spec_strength() as int;
                let dup = spec_unit_power(u);
                let remaining = if dup > eff {
                    dup - eff
                } else {
                    0
                };
                lemma_ceil_div_bounds(remaining, s, u.quantity as int);
            },
            None => {},
        }
    } else {
        let s = attacker.unit_type.spec_strength() as int;
        assert(eff - dp <= attacker.quantity * s) by (nonlinear_arith)
            requires
                eff <= attacker.quantity * s,
                dp >= 0,
        ;
        lemma_ceil_div_bounds(eff - dp, s, attacker.quantity as int);
    }
}

/// Law: equal effective powers destroy both stacks, and a strictly greater
/// attacking power never leaves any defending stack behind — the target
/// holds either nothing or attacking survivors only.
pub proof fn lemma_decisive_combat(
    attacker: Units,
    from_tile: Tile,
    to_tile: Tile,
    attacker_id: u32,
    move_cost: u8,
)
    requires
        tile_wf(to_tile),
        attacker.quantity > 0,
    ensures
        ({
            let r = spec_resolve_attack(attacker, from_tile, to_tile, attacker_id, move_cost);
            let eff = spec_effective_power(attacker, to_tile);
            let dp = spec_defender_power(to_tile);
            &&& (eff > 0 && eff == dp) ==> (r.from_tile.units is None && r.to_tile.units is None)
            &&& (eff > 0 && eff > dp) ==> (r.to_tile.owner == attacker_id && match r.to_tile.units {
                Some(u) => u.unit_type == attacker.unit_type && u.quantity >= 1,
                None => false,
            })
        }),
{
    let eff = spec_effective_power(attacker, to_tile);
    let dp = spec_defender_power(to_tile);
    if eff > 0 && eff > dp {
        let s = attacker.unit_type.spec_strength() as int;
        assert(s >= 1);
        assert(dp >= 0) by {
            match to_tile.units {
                Some(u) => {
                    assert(spec_unit_power(u) >= 0) by (nonlinear_arith)
                        requires
                            u.quantity >= 0,
                            u.unit_type.spec_strength() >= 0,
                    ;
                },
                None => {},
            }
        }
        assert(eff - dp <= attacker.quantity * s) by (nonlinear_arith)
            requires
                eff <= attacker.quantity * s,
                dp >= 0,
        ;
        lemma_ceil_div_bounds(eff - dp, s, attacker.quantity as int);
    }
}

} // verus!
