use super_game::combat::resolve_attack;
use super_game::states::{Building, BuildingType, Tile, UnitType, Units};

fn neutral_tile(level: u8) -> Tile {
    Tile::new(level)
}

fn stack(unit_type: UnitType, quantity: u16, stamina: u8) -> Units {
    Units {
        unit_type,
        quantity,
        stamina,
    }
}

#[test]
fn infantry_overruns_mutants() {
    // Ten Infantry (strength 1 each) attack a neutral tile holding three
    // Mutants (strength 1 each): defense bonus 0, effective power 10 vs 3,
    // so the attacker wins with ceil((10 - 3) / 1) = 7 survivors and takes
    // the tile.
    let attacker = stack(UnitType::Infantry, 10, 1);
    let from = Tile {
        owner: 7,
        level: 1,
        units: Some(attacker),
        building: None,
    };
    let to = Tile {
        owner: 0,
        level: 2,
        units: Some(stack(UnitType::Mutants, 3, 0)),
        building: None,
    };
    let outcome = resolve_attack(attacker, from, to, 7, 1);
    assert!(outcome.from_tile.units.is_none());
    let survivors = outcome.to_tile.units.expect("attacker should survive");
    assert_eq!(survivors.unit_type, UnitType::Infantry);
    assert_eq!(survivors.quantity, 7);
    assert_eq!(survivors.stamina, 0);
    assert_eq!(outcome.to_tile.owner, 7);
    assert!(outcome.to_tile.building.is_none());
    assert_eq!(outcome.base_destroyed, None);
}

#[test]
fn equal_power_tanks_destroy_both() {
    // Five attacking Tanks (power 15) against four Tanks on a level-3 tile
    // (defense bonus 3, effective power 12) with defender power 12: equal
    // effective powers destroy both stacks and the tile keeps its owner.
    let attacker = stack(UnitType::Tank, 5, 3);
    let from = Tile {
        owner: 7,
        level: 1,
        units: Some(attacker),
        building: None,
    };
    let to = Tile {
        owner: 9,
        level: 3,
        units: Some(stack(UnitType::Tank, 4, 3)),
        building: None,
    };
    let outcome = resolve_attack(attacker, from, to, 7, 1);
    assert!(outcome.from_tile.units.is_none());
    assert!(outcome.to_tile.units.is_none());
    assert_eq!(outcome.to_tile.owner, 9);
    assert_eq!(outcome.base_destroyed, None);
}

#[test]
fn equal_power_zero_bonus_destroys_both() {
    // On a neutral tile the defense bonus is zero: an attack whose power
    // equals the defenders' power head-on leaves no stack on either side.
    let attacker = stack(UnitType::Infantry, 3, 1);
    let from = Tile {
        owner: 7,
        level: 1,
        units: Some(attacker),
        building: None,
    };
    let to = neutral_tile(2); // three Mutants, strength 3 in total
    let outcome = resolve_attack(attacker, from, to, 7, 1);
    assert!(outcome.from_tile.units.is_none());
    assert!(outcome.to_tile.units.is_none());
    assert_eq!(outcome.to_tile.owner, 0);
}

#[test]
fn exceeding_base_power_destroys_base() {
    // A level-1 tile bearing a Base (strength 4) and no garrison defends
    // with power 4 behind defense bonus 1. Six Infantry bring effective
    // power 5: the attacker wins with one survivor, the Base is destroyed
    // and its owner reported for elimination.
    let attacker = stack(UnitType::Infantry, 6, 1);
    let from = Tile {
        owner: 7,
        level: 1,
        units: Some(attacker),
        building: None,
    };
    let to = Tile {
        owner: 9,
        level: 1,
        units: None,
        building: Some(Building {
            building_type: BuildingType::Base,
            level: 1,
        }),
    };
    let outcome = resolve_attack(attacker, from, to, 7, 1);
    let survivors = outcome.to_tile.units.expect("attacker should survive");
    assert_eq!(survivors.quantity, 1);
    assert_eq!(outcome.to_tile.owner, 7);
    assert!(outcome.to_tile.building.is_none());
    assert_eq!(outcome.base_destroyed, Some(9));
}

#[test]
fn futile_attack_destroys_attacker_only() {
    // One Infantry against a fortified level-3 tile: the defense bonus
    // swallows the whole attack. The attacking stack dies and the target
    // is untouched.
    let attacker = stack(UnitType::Infantry, 1, 1);
    let from = Tile {
        owner: 7,
        level: 1,
        units: Some(attacker),
        building: None,
    };
    let to = Tile {
        owner: 9,
        level: 3,
        units: Some(stack(UnitType::Infantry, 2, 1)),
        building: Some(Building {
            building_type: BuildingType::Fort,
            level: 2,
        }),
    };
    let outcome = resolve_attack(attacker, from, to, 7, 1);
    assert!(outcome.from_tile.units.is_none());
    let defenders = outcome.to_tile.units.expect("defenders untouched");
    assert_eq!(defenders.quantity, 2);
    assert_eq!(outcome.to_tile.owner, 9);
    assert_eq!(outcome.base_destroyed, None);
}

#[test]
fn losing_attacker_thins_defenders() {
    // Four Infantry (effective 3 after bonus 1) against six Infantry:
    // the attacker dies, the defenders keep ceil((6 - 3) / 1) = 3 units.
    let attacker = stack(UnitType::Infantry, 4, 1);
    let from = Tile {
        owner: 7,
        level: 1,
        units: Some(attacker),
        building: None,
    };
    let to = Tile {
        owner: 9,
        level: 1,
        units: Some(stack(UnitType::Infantry, 6, 1)),
        building: None,
    };
    let outcome = resolve_attack(attacker, from, to, 7, 1);
    assert!(outcome.from_tile.units.is_none());
    let defenders = outcome.to_tile.units.expect("defenders survive");
    assert_eq!(defenders.quantity, 3);
    assert_eq!(defenders.unit_type, UnitType::Infantry);
    assert_eq!(outcome.to_tile.owner, 9);
}

#[test]
fn overwhelmed_defenders_become_absent() {
    // Defenders whose remaining power is fully drained are removed, never
    // left as an empty stack.
    let attacker = stack(UnitType::Tank, 2, 3); // power 6, effective 5
    let from = Tile {
        owner: 7,
        level: 1,
        units: Some(attacker),
        building: None,
    };
    // Defender: 2 Infantry (power 2) plus a Base (4): total 6 > 5, the
    // attacker loses; remaining defender unit power 2 - 5 saturates to 0,
    // so the garrison is wiped out entirely.
    let to = Tile {
        owner: 9,
        level: 1,
        units: Some(stack(UnitType::Infantry, 2, 1)),
        building: Some(Building {
            building_type: BuildingType::Base,
            level: 1,
        }),
    };
    let outcome = resolve_attack(attacker, from, to, 7, 1);
    assert!(outcome.from_tile.units.is_none());
    assert!(outcome.to_tile.units.is_none());
    assert_eq!(outcome.to_tile.owner, 9);
    // The Base stands: the attack failed.
    assert!(outcome.to_tile.building.is_some());
    assert_eq!(outcome.base_destroyed, None);
}

#[test]
fn survivors_never_exceed_original_quantity() {
    // Quantities are monotonically non-increasing through combat.
    let attacker = stack(UnitType::Plane, 100, 5);
    let from = Tile {
        owner: 7,
        level: 2,
        units: Some(attacker),
        building: None,
    };
    let to = Tile {
        owner: 9,
        level: 2,
        units: Some(stack(UnitType::Tank, 30, 3)),
        building: None,
    };
    let outcome = resolve_attack(attacker, from, to, 7, 2);
    if let Some(u) = outcome.to_tile.units {
        if outcome.to_tile.owner == 7 {
            assert!(u.quantity <= 100);
        } else {
            assert!(u.quantity <= 30);
        }
    }
}
