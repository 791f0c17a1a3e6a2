//! The four kinds of unit: their starting statistics, and the squares each
//! can reach or strike, written from the attacking side's point of view.

use vstd::prelude::*;

verus! {

/// A square offset or a square on the board, row first.
#[derive(Debug, Clone, Copy, PartialEq, Eq, Structural)]
pub struct Position {
    pub y: i32,
    pub x: i32,
}

/// The kinds of unit.
#[derive(Debug, Clone, Copy, PartialEq, Eq, Structural)]
pub enum UnitType {
    Infantry,
    Cavalry,
    Artillery,
    Mage,
}

/// Starting statistics of a kind of unit. `default_evasion_percent` is the
/// evasion rate as a whole percentage (0 never evades, 100 always does).
#[derive(Debug, Clone, Copy, PartialEq, Eq, Structural)]
pub struct Unit {
    /// Turns until the next action.
    pub default_delay: i32,
    /// Number of soldiers.
    pub default_manpower: i32,
    /// Attack strength, weighed against the target's defense.
    pub default_attack: i32,
    /// Defense strength, weighed against the attacker's attack.
    pub default_defense: i32,
    /// Chance, in percent, that an attack on this unit is evaded.
    pub default_evasion_percent: i32,
    pub can_move: Option<bool>,
}

pub open spec fn spec_unit(unit_type: UnitType) -> Unit {
    match unit_type {
        UnitType::Infantry => Unit {
            default_delay: 3,
            default_manpower: 300,
            default_attack: 30,
            default_defense: 30,
            default_evasion_percent: 20,
            can_move: Some(true),
        },
        UnitType::Cavalry => Unit {
            default_delay: 1,
            default_manpower: 200,
            default_attack: 40,
            default_defense: 20,
            default_evasion_percent: 30,
            can_move: Some(true),
        },
        UnitType::Artillery => Unit {
            default_delay: 5,
            default_manpower: 100,
            default_attack: 50,
            default_defense: 100,
            default_evasion_percent: 10,
            can_move: Some(true),
        },
        UnitType::Mage => Unit {
            default_delay: 1,
            default_manpower: 10,
            default_attack: 40,
            default_defense: 200,
            default_evasion_percent: 50,
            can_move: Some(true),
        },
    }
}

/// The starting statistics of a kind of unit.
pub fn unit_stats(unit_type: UnitType) -> (r: Unit)
    ensures
        r == spec_unit(unit_type),
{
    match unit_type {
        UnitType::Infantry => Unit {
            default_delay: 3,
            default_manpower: 300,
            default_attack: 30,
            default_defense: 30,
            default_evasion_percent: 20,
            can_move: Some(true),
        },
        UnitType::Cavalry => Unit {
            default_delay: 1,
            default_manpower: 200,
            default_attack: 40,
            default_defense: 20,
            default_evasion_percent: 30,
            can_move: Some(true),
        },
        UnitType::Artillery => Unit {
            default_delay: 5,
            default_manpower: 100,
            default_attack: 50,
            default_defense: 100,
            default_evasion_percent: 10,
            can_move: Some(true),
        },
        UnitType::Mage => Unit {
            default_delay: 1,
            default_manpower: 10,
            default_attack: 40,
            default_defense: 200,
            default_evasion_percent: 50,
            can_move: Some(true),
        },
    }
}

pub open spec fn pos(y: int, x: int) -> Position {
    Position { y: y as i32, x: x as i32 }
}

/// The squares a unit may strike, relative to its own square.
pub open spec fn spec_attacks(unit_type: UnitType) -> Seq<Position> {
    match unit_type {
        UnitType::Infantry => seq![pos(0, 1), pos(0, -1)],
        UnitType::Cavalry => seq![pos(-1, -1), pos(1, -1)],
        UnitType::Artillery => seq![pos(-1, -2), pos(0, -3), pos(1, -2)],
        UnitType::Mage => seq![
            pos(-1, -1),
            pos(-1, 0),
            pos(-1, 1),
            pos(1, -1),
            pos(1, 1),
            pos(1, 0),
            pos(0, 1),
            pos(0, -1),
        ],
    }
}

/// The squares a unit may move to, relative to its own square.
pub open spec fn spec_moves(unit_type: UnitType) -> Seq<Position> {
    match unit_type {
        UnitType::Infantry => seq![pos(-1, 0), pos(1, 0), pos(0, 1), pos(0, -1)],
        UnitType::Cavalry => seq![pos(-1, -1), pos(0, -2), pos(1, -1), pos(0, 1)],
        UnitType::Artillery => seq![pos(-1, -1), pos(0, -1), pos(1, -1), pos(0, 1)],
        UnitType::Mage => seq![
            pos(-1, -1),
            pos(-1, 0),
            pos(-1, 1),
            pos(1, -1),
            pos(1, 1),
            pos(1, 0),
            pos(0, 1),
            pos(0, -1),
            pos(-2, 0),
            pos(2, 0),
            pos(0, 2),
            pos(0, -2),
        ],
    }
}

/// Every offset in either table moves at most three squares along each axis.
pub open spec fn small_offset(p: Position) -> bool {
    -3 <= p.y <= 3 && -3 <= p.x <= 3
}

/// Every offset of the move and strike tables is small.
pub proof fn lemma_offsets_small(unit_type: UnitType)
    ensures
        forall|i: int| 0 <= i < spec_moves(unit_type).len() ==> small_offset(#[trigger] spec_moves(unit_type)[i]),
        forall|i: int| 0 <= i < spec_attacks(unit_type).len() ==> small_offset(#[trigger] spec_attacks(unit_type)[i]),
{
}

/// The strike offsets of a kind of unit.
pub fn attacks_of(unit_type: UnitType) -> (r: Vec<Position>)
    ensures
        r@ == spec_attacks(unit_type),
{
    let r = match unit_type {
        UnitType::Infantry => vec![Position { y: 0, x: 1 }, Position { y: 0, x: -1 }],
        UnitType::Cavalry => vec![Position { y: -1, x: -1 }, Position { y: 1, x: -1 }],
        UnitType::Artillery => vec![
            Position { y: -1, x: -2 },
            Position { y: 0, x: -3 },
            Position { y: 1, x: -2 },
        ],
        UnitType::Mage => vec![
            Position { y: -1, x: -1 },
            Position { y: -1, x: 0 },
            Position { y: -1, x: 1 },
            Position { y: 1, x: -1 },
            Position { y: 1, x: 1 },
            Position { y: 1, x: 0 },
            Position { y: 0, x: 1 },
            Position { y: 0, x: -1 },
        ],
    };
    proof {
        assert(r@ =~= spec_attacks(unit_type));
    }
    r
}

/// The move offsets of a kind of unit.
pub fn moves_of(unit_type: UnitType) -> (r: Vec<Position>)
    ensures
        r@ == spec_moves(unit_type),
{
    let r = match unit_type {
        UnitType::Infantry => vec![
            Position { y: -1, x: 0 },
            Position { y: 1, x: 0 },
            Position { y: 0, x: 1 },
            Position { y: 0, x: -1 },
        ],
        UnitType::Cavalry => vec![
            Position { y: -1, x: -1 },
            Position { y: 0, x: -2 },
            Position { y: 1, x: -1 },
            Position { y: 0, x: 1 },
        ],
        UnitType::Artillery => vec![
            Position { y: -1, x: -1 },
            Position { y: 0, x: -1 },
            Position { y: 1, x: -1 },
            Position { y: 0, x: 1 },
        ],
        UnitType::Mage => vec![
            Position { y: -1, x: -1 },
            Position { y: -1, x: 0 },
            Position { y: -1, x: 1 },
            Position { y: 1, x: -1 },
            Position { y: 1, x: 1 },
            Position { y: 1, x: 0 },
            Position { y: 0, x: 1 },
            Position { y: 0, x: -1 },
            Position { y: -2, x: 0 },
            Position { y: 2, x: 0 },
            Position { y: 0, x: 2 },
            Position { y: 0, x: -2 },
        ],
    };
    proof {
        assert(r@ =~= spec_moves(unit_type));
    }
    r
}

} // verus!
