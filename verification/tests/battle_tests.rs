use aae::battle::units::{attacks_of, moves_of, unit_stats, Position, UnitType};
use aae::battle::{cast_attacks, cast_moves, BattleState, Cell};

fn cell(unit_type: UnitType, owner_id: i32) -> Cell {
    Cell::template(unit_type, 0, owner_id)
}

fn empty_board(rows: usize, cols: usize) -> Vec<Vec<Option<Cell>>> {
    let mut board = Vec::new();
    for _ in 0..rows {
        let mut row = Vec::new();
        for _ in 0..cols {
            row.push(None);
        }
        board.push(row);
    }
    board
}

fn state(board: Vec<Vec<Option<Cell>>>) -> BattleState {
    BattleState {
        board,
        round: 0,
        attacker_id: 1,
        defender_id: 2,
        start_timestamp: 5,
        end_timestamp: None,
    }
}

fn message(c: &Option<Cell>) -> String {
    c.as_ref().unwrap().message.clone().unwrap()
}

#[test]
fn unit_statistics() {
    let i = unit_stats(UnitType::Infantry);
    assert_eq!((i.default_delay, i.default_manpower, i.default_attack, i.default_defense), (3, 300, 30, 30));
    assert_eq!(i.default_evasion_percent, 20);
    let m = unit_stats(UnitType::Mage);
    assert_eq!((m.default_manpower, m.default_defense, m.default_evasion_percent), (10, 200, 50));
    assert_eq!(attacks_of(UnitType::Artillery), vec![
        Position { y: -1, x: -2 },
        Position { y: 0, x: -3 },
        Position { y: 1, x: -2 },
    ]);
    assert_eq!(moves_of(UnitType::Mage).len(), 12);
}

#[test]
fn cell_template_takes_unit_statistics() {
    let c = Cell::template(UnitType::Cavalry, 7, 2);
    assert_eq!((c.delay, c.manpower, c.attack, c.defense, c.evasion_percent), (0, 200, 40, 20, 30));
    assert_eq!((c.unit_id, c.owner_id), (7, 2));
    assert_eq!(c.message, Some(String::new()));
}

#[test]
fn defender_offsets_are_mirrored() {
    assert_eq!(cast_moves(UnitType::Cavalry, true), moves_of(UnitType::Cavalry));
    assert_eq!(cast_moves(UnitType::Cavalry, false), vec![
        Position { y: 1, x: 1 },
        Position { y: 0, x: 2 },
        Position { y: -1, x: 1 },
        Position { y: 0, x: -1 },
    ]);
    assert_eq!(cast_attacks(UnitType::Infantry, false), vec![Position { y: 0, x: -1 }, Position { y: 0, x: 1 }]);
}

#[test]
fn opening_position() {
    let s = BattleState::template(1, 2, 42);
    assert_eq!(s.board.len(), 7);
    assert!(s.board.iter().all(|row| row.len() == 9));
    assert_eq!((s.round, s.start_timestamp, s.end_timestamp), (0, 42, None));
    let a = s.board[0][0].as_ref().unwrap();
    assert_eq!((a.unit_type, a.unit_id, a.owner_id), (UnitType::Artillery, 0, 1));
    let b = s.board[3][1].as_ref().unwrap();
    assert_eq!((b.unit_type, b.unit_id, b.owner_id), (UnitType::Cavalry, 13, 1));
    let c = s.board[1][7].as_ref().unwrap();
    assert_eq!((c.unit_type, c.unit_id, c.owner_id), (UnitType::Infantry, 6, 2));
    let d = s.board[5][8].as_ref().unwrap();
    assert_eq!((d.unit_type, d.unit_id, d.owner_id), (UnitType::Mage, 23, 2));
    assert!(s.board[2][4].is_none());
    assert_eq!(s.attacker_units_count(), 14);
    assert_eq!(s.defender_units_count(), 14);
    assert_eq!(s.units_count(1), 14);
    assert_eq!(s.units_count(2), 14);
}

#[test]
fn who_attack_alternates() {
    let mut s = state(empty_board(1, 1));
    assert_eq!(s.who_attack(), 1);
    s.round = 1;
    assert_eq!(s.who_attack(), 2);
}

#[test]
fn possible_moves_in_opening_position() {
    let s = BattleState::template(1, 2, 0);
    assert_eq!(s.get_possible_moves(Position { y: 0, x: 1 }), vec![Position { y: 0, x: 2 }]);
    // A defending infantry moves right-to-left: (0, -1) mirrored is (0, 1), off the board.
    assert_eq!(s.get_possible_moves(Position { y: 1, x: 7 }), vec![Position { y: 1, x: 6 }]);
    assert!(s.get_possible_moves(Position { y: 2, x: 4 }).is_empty());
}

#[test]
fn waiting_unit_cannot_move() {
    let mut board = empty_board(3, 3);
    let mut c = cell(UnitType::Infantry, 1);
    c.delay = 2;
    board[1][1] = Some(c);
    let s = state(board);
    assert!(s.get_possible_moves(Position { y: 1, x: 1 }).is_empty());
}

#[test]
fn possible_attacks_skip_own_units() {
    let mut board = empty_board(3, 3);
    board[1][1] = Some(cell(UnitType::Mage, 1));
    board[0][0] = Some(cell(UnitType::Infantry, 2));
    board[2][2] = Some(cell(UnitType::Infantry, 1));
    let s = state(board);
    assert_eq!(s.get_possible_attacks(Position { y: 1, x: 1 }, false), vec![Position { y: 0, x: 0 }]);
    assert_eq!(
        s.get_possible_attacks(Position { y: 1, x: 1 }, true),
        vec![Position { y: 0, x: 0 }, Position { y: 2, x: 2 }]
    );
}

#[test]
fn moving_onto_an_empty_square_removes_the_unit() {
    let mut s = BattleState::template(1, 2, 0);
    s.move_unit(Position { y: 0, x: 1 }, Position { y: 0, x: 2 });
    assert!(s.board[0][1].is_none());
    assert!(s.board[0][2].is_none());
    assert_eq!(s.units_count(1), 13);
}

#[test]
fn moving_onto_a_unit_captures_it_and_delays_tick() {
    let mut board = empty_board(1, 3);
    let mut mover = cell(UnitType::Cavalry, 1);
    mover.delay = 3;
    mover.unit_id = 9;
    board[0][0] = Some(mover);
    board[0][1] = Some(cell(UnitType::Mage, 2));
    let mut other = cell(UnitType::Infantry, 2);
    other.delay = 1;
    board[0][2] = Some(other);
    let mut s = state(board);
    s.move_unit(Position { y: 0, x: 0 }, Position { y: 0, x: 1 });
    assert!(s.board[0][0].is_none());
    let moved = s.board[0][1].as_ref().unwrap();
    assert_eq!((moved.unit_id, moved.owner_id, moved.delay), (9, 1, 2));
    assert_eq!(s.board[0][2].as_ref().unwrap().delay, 0);
}

#[test]
fn moves_are_refused_out_of_turn_or_after_the_end() {
    let mut s = BattleState::template(1, 2, 0);
    s.move_unit(Position { y: 0, x: 7 }, Position { y: 0, x: 6 });
    assert!(s.board[0][7].is_some());
    s.end_timestamp = Some(3);
    s.move_unit(Position { y: 0, x: 1 }, Position { y: 0, x: 2 });
    assert!(s.board[0][1].is_some());
}

#[test]
fn attack_turn_hit_deals_damage() {
    let mut board = empty_board(1, 2);
    board[0][0] = Some(cell(UnitType::Mage, 1));
    board[0][1] = Some(cell(UnitType::Infantry, 2));
    let mut s = state(board);
    s.attack_turn(0, 0, Some(Position { y: 0, x: 1 }), true);
    // attack 40, defense 30: 40 * (40 / 30) = 40 soldiers lost
    let target = s.board[0][1].as_ref().unwrap();
    assert_eq!(target.manpower, 260);
    assert_eq!(message(&s.board[0][1]), "hit!!");
    assert_eq!(message(&s.board[0][0]), "attacked!!");
}

#[test]
fn attack_turn_evasion_and_removal() {
    let mut board = empty_board(1, 2);
    board[0][0] = Some(cell(UnitType::Mage, 1));
    let mut weak = cell(UnitType::Mage, 2);
    weak.defense = 10;
    board[0][1] = Some(weak);
    let mut s = state(board);
    s.attack_turn(0, 0, Some(Position { y: 0, x: 1 }), false);
    assert_eq!(s.board[0][1].as_ref().unwrap().manpower, 10);
    assert_eq!(message(&s.board[0][1]), "evasion!!");
    assert_eq!(message(&s.board[0][0]), "");
    // attack 40, defense 10: 160 soldiers lost, far more than the 10 it has
    s.attack_turn(0, 0, Some(Position { y: 0, x: 1 }), true);
    assert!(s.board[0][1].is_none());
}

#[test]
fn end_round_advances_and_detects_the_end() {
    let mut s = BattleState::template(1, 2, 0);
    assert_eq!(s.who_attack(), 1);
    s.end_round(7);
    assert_eq!(s.round, 1);
    assert_eq!(s.who_attack(), 2);
    assert_eq!(s.end_timestamp, None);
    assert_eq!(s.units_count(1), 14);
    assert_eq!(message(&s.board[0][0]), "");

    let mut board = empty_board(2, 2);
    board[0][0] = Some(cell(UnitType::Infantry, 1));
    let mut lone = state(board);
    lone.end_round(9);
    assert_eq!(lone.round, 1);
    assert_eq!(lone.end_timestamp, Some(9));
}

#[test]
fn opening_position_is_mirrored() {
    let s = BattleState::template(1, 2, 0);
    for y in 0..7 {
        for x in 0..9 {
            match (&s.board[y][x], &s.board[y][8 - x]) {
                (None, None) => {},
                (Some(a), Some(b)) => {
                    assert_eq!(a.unit_type, b.unit_type);
                    assert_ne!(a.owner_id, b.owner_id);
                },
                _ => panic!("square ({}, {}) is not mirrored", y, x),
            }
        }
    }
}

fn same_cell(a: &Option<Cell>, b: &Option<Cell>) -> bool {
    match (a, b) {
        (None, None) => true,
        (Some(a), Some(b)) => {
            (a.delay, a.manpower, a.attack, a.defense, a.evasion_percent, a.unit_type, a.unit_id, a.owner_id)
                == (b.delay, b.manpower, b.attack, b.defense, b.evasion_percent, b.unit_type, b.unit_id, b.owner_id)
                && a.message == b.message
        },
        _ => false,
    }
}

fn duel() -> BattleState {
    let mut board = empty_board(1, 2);
    board[0][0] = Some(cell(UnitType::Infantry, 2));
    board[0][1] = Some(cell(UnitType::Mage, 1));
    state(board)
}

#[test]
fn end_round_with_given_draws() {
    // the infantry's turn comes first (it does not act), then the mage strikes it
    let mut s = duel();
    s.end_round_with(6, vec![(None, false), (Some(Position { y: 0, x: 0 }), true)]);
    // attack 40, defense 30: 40 * (40 / 30) = 40 soldiers lost
    assert_eq!(s.board[0][0].as_ref().unwrap().manpower, 260);
    assert_eq!(message(&s.board[0][0]), "hit!!");
    assert_eq!(message(&s.board[0][1]), "attacked!!");
    assert_eq!(s.board[0][1].as_ref().unwrap().manpower, 10);
    assert_eq!((s.round, s.end_timestamp), (1, None));

    let mut e = duel();
    e.end_round_with(6, vec![(None, false), (Some(Position { y: 0, x: 0 }), false)]);
    assert_eq!(e.board[0][0].as_ref().unwrap().manpower, 300);
    assert_eq!(message(&e.board[0][0]), "evasion!!");
    assert_eq!(message(&e.board[0][1]), "");

    let mut quiet = duel();
    quiet.end_round_with(6, vec![(None, false), (None, false)]);
    assert_eq!(quiet.board[0][0].as_ref().unwrap().manpower, 300);
    assert_eq!(message(&quiet.board[0][0]), "");
}

#[test]
fn a_later_turn_clears_an_earlier_strike_message() {
    // the mage strikes first; the infantry's own turn then clears its message
    let mut board = empty_board(1, 2);
    board[0][0] = Some(cell(UnitType::Mage, 1));
    board[0][1] = Some(cell(UnitType::Infantry, 2));
    let mut s = state(board);
    s.end_round_with(1, vec![(Some(Position { y: 0, x: 1 }), true), (None, false)]);
    assert_eq!(s.board[0][1].as_ref().unwrap().manpower, 260);
    assert_eq!(message(&s.board[0][1]), "");
    assert_eq!(message(&s.board[0][0]), "attacked!!");
}

#[test]
fn end_round_with_removes_and_ends() {
    let mut board = empty_board(1, 2);
    let mut weak = cell(UnitType::Infantry, 2);
    weak.defense = 10;
    weak.manpower = 10;
    board[0][0] = Some(weak);
    board[0][1] = Some(cell(UnitType::Mage, 1));
    let mut s = state(board);
    // attack 40, defense 10: 160 soldiers lost, far more than the 10 it has
    s.end_round_with(8, vec![(None, false), (Some(Position { y: 0, x: 0 }), true)]);
    assert!(s.board[0][0].is_none());
    assert_eq!(s.defender_units_count(), 0);
    assert_eq!((s.round, s.end_timestamp), (1, Some(8)));
}

#[test]
fn a_round_without_strikes_changes_only_messages() {
    // the attacking country 0 has no unit on the opening board
    let opening = BattleState::template(0, 1, 0);
    let mut s = BattleState::template(0, 1, 0);
    s.end_round(0);
    assert_eq!(s.round, 1);
    assert_eq!((s.attacker_id, s.defender_id), (0, 1));
    assert_eq!(s.end_timestamp, Some(0));
    for y in 0..7 {
        for x in 0..9 {
            assert!(same_cell(&s.board[y][x], &opening.board[y][x]));
        }
    }
}

#[test]
fn a_never_evading_target_is_always_hit() {
    for _ in 0..20 {
        let mut board = empty_board(1, 2);
        let mut target = cell(UnitType::Infantry, 2);
        target.evasion_percent = 0;
        board[0][0] = Some(target);
        board[0][1] = Some(cell(UnitType::Mage, 1));
        let mut s = state(board);
        s.end_round(3);
        assert_eq!(s.board[0][0].as_ref().unwrap().manpower, 260);
        assert_eq!(message(&s.board[0][0]), "hit!!");
        assert_eq!(message(&s.board[0][1]), "attacked!!");
    }
}

#[test]
fn an_empty_board_ends_at_once() {
    let mut s = state(Vec::new());
    s.end_round(4);
    assert_eq!((s.round, s.end_timestamp), (1, Some(4)));
    assert_eq!(s.units_count(1), 0);
}

#[test]
fn an_ended_battle_ignores_any_move() {
    let mut s = BattleState::template(1, 2, 0);
    s.end_timestamp = Some(2);
    s.move_unit(Position { y: 50, x: -3 }, Position { y: 0, x: 0 });
    assert_eq!(s.end_timestamp, Some(2));
    assert!(s.board[0][0].is_some());
    assert_eq!(s.board.len(), 7);
}

#[test]
fn units_are_counted_on_rows_of_any_length() {
    let board = vec![
        vec![Some(cell(UnitType::Infantry, 1))],
        vec![None, Some(cell(UnitType::Mage, 2)), Some(cell(UnitType::Cavalry, 1))],
        vec![],
    ];
    let s = state(board);
    assert_eq!(s.attacker_units_count(), 2);
    assert_eq!(s.defender_units_count(), 1);
    assert_eq!(s.units_count(3), 0);
}

#[test]
fn a_strike_against_a_negative_defense_does_no_damage() {
    let mut board = empty_board(1, 2);
    let mut odd = cell(UnitType::Infantry, 2);
    odd.defense = -100;
    board[0][0] = Some(odd);
    board[0][1] = Some(cell(UnitType::Mage, 1));
    let mut s = state(board);
    // attack 40, defense -100: 40 * (40 / -100) = 0 soldiers lost
    s.end_round_with(2, vec![(None, false), (Some(Position { y: 0, x: 0 }), true)]);
    assert_eq!(s.board[0][0].as_ref().unwrap().manpower, 300);
    assert_eq!(message(&s.board[0][0]), "hit!!");
    assert_eq!(message(&s.board[0][1]), "attacked!!");
}

#[test]
fn a_strike_with_negative_damage_adds_soldiers() {
    let mut board = empty_board(1, 2);
    let mut odd = cell(UnitType::Infantry, 2);
    odd.defense = -10;
    board[0][0] = Some(odd);
    board[0][1] = Some(cell(UnitType::Mage, 1));
    let mut s = state(board);
    // attack 40, defense -10: 40 * (40 / -10) = -160, so 160 soldiers are added
    s.end_round_with(2, vec![(None, false), (Some(Position { y: 0, x: 0 }), true)]);
    assert_eq!(s.board[0][0].as_ref().unwrap().manpower, 460);
    assert_eq!(message(&s.board[0][0]), "hit!!");
}

#[test]
fn a_unit_at_the_lowest_delay_may_move_to_an_empty_square() {
    let mut board = empty_board(1, 3);
    let mut mover = cell(UnitType::Infantry, 1);
    mover.delay = i32::MIN;
    board[0][0] = Some(mover);
    let mut other = cell(UnitType::Infantry, 2);
    other.delay = 2;
    board[0][2] = Some(other);
    let mut s = state(board);
    s.move_unit(Position { y: 0, x: 0 }, Position { y: 0, x: 1 });
    assert!(s.board[0][0].is_none());
    assert!(s.board[0][1].is_none());
    assert_eq!(s.board[0][2].as_ref().unwrap().delay, 1);
}

#[test]
fn the_replaced_unit_may_have_the_lowest_delay() {
    let mut board = empty_board(1, 2);
    let mut mover = cell(UnitType::Cavalry, 1);
    mover.delay = 3;
    board[0][0] = Some(mover);
    let mut occupant = cell(UnitType::Infantry, 2);
    occupant.delay = i32::MIN;
    board[0][1] = Some(occupant);
    let mut s = state(board);
    s.move_unit(Position { y: 0, x: 0 }, Position { y: 0, x: 1 });
    assert!(s.board[0][0].is_none());
    let moved = s.board[0][1].as_ref().unwrap();
    assert_eq!((moved.unit_type, moved.owner_id, moved.delay), (UnitType::Cavalry, 1, 2));
}
