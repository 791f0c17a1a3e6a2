//! The tactical battle: a board of unit cells, whose turn it is, moves,
//! attacks, and the end of a round.

pub mod round;
pub mod units;

use crate::utils::{pick, percentage};
use vstd::prelude::*;
use units::{attacks_of, moves_of, unit_stats, Position, UnitType};

verus! {

/// A unit standing on a square of the board.
#[derive(Debug)]
pub struct Cell {
    /// Turns until the unit may move again.
    pub delay: i32,
    /// Number of soldiers; the unit is removed once it drops below zero.
    pub manpower: i32,
    pub attack: i32,
    pub defense: i32,
    /// Chance, in percent, that an attack on this unit is evaded.
    pub evasion_percent: i32,
    pub unit_type: UnitType,
    pub unit_id: i32,
    pub owner_id: i32,
    pub message: Option<String>,
}

impl Clone for Cell {
    fn clone(&self) -> (r: Self)
        ensures
            r == *self,
    {
        Cell {
            delay: self.delay,
            manpower: self.manpower,
            attack: self.attack,
            defense: self.defense,
            evasion_percent: self.evasion_percent,
            unit_type: self.unit_type,
            unit_id: self.unit_id,
            owner_id: self.owner_id,
            message: match &self.message {
                Some(s) => Some(s.clone()),
                None => None,
            },
        }
    }
}

/// A cell as its contents read, with the message as text.
pub struct CellView {
    pub delay: i32,
    pub manpower: i32,
    pub attack: i32,
    pub defense: i32,
    pub evasion_percent: i32,
    pub unit_type: UnitType,
    pub unit_id: i32,
    pub owner_id: i32,
    pub message: Option<Seq<char>>,
}

impl View for Cell {
    type V = CellView;

    open spec fn view(&self) -> CellView {
        CellView {
            delay: self.delay,
            manpower: self.manpower,
            attack: self.attack,
            defense: self.defense,
            evasion_percent: self.evasion_percent,
            unit_type: self.unit_type,
            unit_id: self.unit_id,
            owner_id: self.owner_id,
            message: match self.message {
                Some(m) => Some(m@),
                None => None,
            },
        }
    }
}

/// A fresh unit of the given kind: no delay, the kind's starting statistics
/// and an empty message.
pub open spec fn spec_cell_template(unit_type: UnitType, unit_id: i32, owner_id: i32, msg: String) -> Cell {
    let unit = units::spec_unit(unit_type);
    Cell {
        delay: 0,
        manpower: unit.default_manpower,
        attack: unit.default_attack,
        defense: unit.default_defense,
        evasion_percent: unit.default_evasion_percent,
        unit_type,
        unit_id,
        owner_id,
        message: Some(msg),
    }
}

/// `c` is a fresh unit of that kind, id and owner, with an empty message.
pub open spec fn is_fresh(c: Cell, unit_type: UnitType, unit_id: i32, owner_id: i32) -> bool {
    &&& c.message matches Some(m) && m@.len() == 0
    &&& c == spec_cell_template(unit_type, unit_id, owner_id, c.message->0)
}

impl Cell {
    /// A fresh unit of the given kind for the given owner.
    pub fn template(unit_type: UnitType, unit_id: i32, owner_id: i32) -> (r: Cell)
        ensures
            is_fresh(r, unit_type, unit_id, owner_id),
    {
        let unit = unit_stats(unit_type);
        Cell {
            delay: 0,
            manpower: unit.default_manpower,
            attack: unit.default_attack,
            defense: unit.default_defense,
            evasion_percent: unit.default_evasion_percent,
            unit_type,
            unit_id,
            owner_id,
            message: Some(String::new()),
        }
    }
}

/// The board, row by row; `None` is an empty square.
pub type Board = Vec<Vec<Option<Cell>>>;

/// A battle between an attacking and a defending country.
#[derive(Debug, Clone)]
pub struct BattleState {
    pub board: Board,
    pub round: u16,
    pub attacker_id: i32,
    pub defender_id: i32,
    pub start_timestamp: u32,
    pub end_timestamp: Option<u32>,
}

/// The square reached from `from` by the offset `m`.
pub open spec fn shift(from: Position, m: Position) -> Position {
    Position { y: (from.y + m.y) as i32, x: (from.x + m.x) as i32 }
}

/// An offset mirrored through the origin.
pub open spec fn flip(p: Position) -> Position {
    Position { y: (-p.y) as i32, x: (-p.x) as i32 }
}

/// The offsets of a table as seen by one side: the attacker uses them as
/// written, the defender mirrored.
pub open spec fn oriented(offsets: Seq<Position>, is_attacker: bool) -> Seq<Position> {
    if is_attacker {
        offsets
    } else {
        offsets.map_values(|p: Position| flip(p))
    }
}

/// The board as a sequence of rows.
pub open spec fn grid(board: Board) -> Seq<Seq<Option<Cell>>> {
    board@.map_values(|row: Vec<Option<Cell>>| row@)
}

impl BattleState {
    pub open spec fn rows(self) -> int {
        self.board@.len() as int
    }

    /// The length of the first row (none on an empty board).
    pub open spec fn cols(self) -> int {
        if self.rows() > 0 {
            self.board@[0]@.len() as int
        } else {
            0
        }
    }

    /// `(y, x)` is a square of the board, whatever the lengths of the rows.
    pub open spec fn on_square(self, y: int, x: int) -> bool {
        0 <= y < self.rows() && 0 <= x < self.board@[y]@.len()
    }

    pub open spec fn at(self, y: int, x: int) -> Option<Cell> {
        self.board@[y]@[x]
    }

    pub open spec fn in_bounds(self, y: int, x: int) -> bool {
        0 <= y < self.rows() && 0 <= x < self.cols()
    }

    /// A rectangular board (possibly empty), small enough that square
    /// arithmetic in `i32` and square counts in `usize` cannot overflow.
    pub open spec fn wf(self) -> bool {
        &&& self.rows() + 3 <= i32::MAX
        &&& self.cols() + 3 <= i32::MAX
        &&& self.rows() * self.cols() <= usize::MAX
        &&& forall|y: int| 0 <= y < self.rows() ==> (#[trigger] self.board@[y]@.len()) == self.cols()
    }

    /// `from` names a square of the board.
    pub open spec fn valid_square(self, from: Position) -> bool {
        self.in_bounds(from.y as int, from.x as int)
    }

    /// The country whose units act this round: the attacker on even rounds,
    /// the defender on odd ones.
    pub open spec fn spec_who_attack(self) -> i32 {
        if self.round % 2 == 0 {
            self.attacker_id
        } else {
            self.defender_id
        }
    }

    pub fn who_attack(&self) -> (r: i32)
        ensures
            r == self.spec_who_attack(),
    {
        if self.round % 2 == 0 {
            self.attacker_id
        } else {
            self.defender_id
        }
    }

    /// Whether a unit `sel` on `from` may move by `m`: it must have no delay
    /// left, and the square reached must be on the board and empty.
    pub open spec fn move_ok(self, from: Position, sel: Cell, m: Position) -> bool {
        let t = shift(from, m);
        &&& sel.delay == 0
        &&& self.in_bounds(from.y + m.y, from.x + m.x)
        &&& self.at(t.y as int, t.x as int) is None
    }

    pub open spec fn move_step(self, from: Position, sel: Cell) -> spec_fn(Position) -> Option<Position> {
        |m: Position| if self.move_ok(from, sel, m) { Some(shift(from, m)) } else { None }
    }

    /// The squares the unit on `from` may move to, in the order of its move
    /// table; none when `from` is empty.
    pub open spec fn spec_possible_moves(self, from: Position) -> Seq<Position> {
        match self.at(from.y as int, from.x as int) {
            Some(sel) => oriented(units::spec_moves(sel.unit_type), sel.owner_id == self.attacker_id)
                .filter_map(self.move_step(from, sel)),
            None => Seq::empty(),
        }
    }

    /// Whether a unit `sel` on `from` may strike by `m`: the square reached
    /// must be on the board and hold a unit, which must belong to another
    /// country unless `ignore_self_piece` is set.
    pub open spec fn attack_ok(self, from: Position, sel: Cell, m: Position, ignore_self_piece: bool) -> bool {
        let t = shift(from, m);
        &&& self.in_bounds(from.y + m.y, from.x + m.x)
        &&& self.at(t.y as int, t.x as int) matches Some(dest)
        &&& (ignore_self_piece || dest.owner_id != sel.owner_id)
    }

    pub open spec fn attack_step(self, from: Position, sel: Cell, ignore_self_piece: bool) -> spec_fn(Position) -> Option<Position> {
        |m: Position| if self.attack_ok(from, sel, m, ignore_self_piece) { Some(shift(from, m)) } else { None }
    }

    /// The squares the unit on `from` may strike, in the order of its strike
    /// table; none when `from` is empty.
    pub open spec fn spec_possible_attacks(self, from: Position, ignore_self_piece: bool) -> Seq<Position> {
        match self.at(from.y as int, from.x as int) {
            Some(sel) => oriented(units::spec_attacks(sel.unit_type), sel.owner_id == self.attacker_id)
                .filter_map(self.attack_step(from, sel, ignore_self_piece)),
            None => Seq::empty(),
        }
    }
}

/// Orients a table of offsets for one side: kept for the attacker,
/// mirrored for the defender.
fn orient(offsets: Vec<Position>, is_attacker: bool) -> (r: Vec<Position>)
    requires
        forall|i: int| 0 <= i < offsets@.len() ==> units::small_offset(#[trigger] offsets@[i]),
    ensures
        r@ == oriented(offsets@, is_attacker),
        forall|i: int| 0 <= i < r@.len() ==> units::small_offset(#[trigger] r@[i]),
{
    let mut r: Vec<Position> = Vec::new();
    let n = offsets.len();
    for i in 0..n
        invariant
            n == offsets@.len(),
            forall|k: int| 0 <= k < offsets@.len() ==> units::small_offset(#[trigger] offsets@[k]),
            r@ == oriented(offsets@, is_attacker).take(i as int),
            forall|k: int| 0 <= k < r@.len() ==> units::small_offset(#[trigger] r@[k]),
    {
        let m = offsets[i];
        assert(units::small_offset(offsets@[i as int]));
        if is_attacker {
            r.push(m);
        } else {
            r.push(Position { y: -m.y, x: -m.x });
        }
        assert(r@ =~= oriented(offsets@, is_attacker).take(i + 1));
    }
    assert(oriented(offsets@, is_attacker).take(n as int) =~= oriented(offsets@, is_attacker));
    r
}

/// The move offsets of a kind of unit, as seen by the attacker
/// (`is_attacker`) or by the defender (mirrored).
pub fn cast_moves(unit_type: UnitType, is_attacker: bool) -> (r: Vec<Position>)
    ensures
        r@ == oriented(units::spec_moves(unit_type), is_attacker),
        forall|i: int| 0 <= i < r@.len() ==> units::small_offset(#[trigger] r@[i]),
{
    proof {
        units::lemma_offsets_small(unit_type);
    }
    orient(moves_of(unit_type), is_attacker)
}

/// The strike offsets of a kind of unit, as seen by the attacker
/// (`is_attacker`) or by the defender (mirrored).
pub fn cast_attacks(unit_type: UnitType, is_attacker: bool) -> (r: Vec<Position>)
    ensures
        r@ == oriented(units::spec_attacks(unit_type), is_attacker),
        forall|i: int| 0 <= i < r@.len() ==> units::small_offset(#[trigger] r@[i]),
{
    proof {
        units::lemma_offsets_small(unit_type);
    }
    orient(attacks_of(unit_type), is_attacker)
}

impl BattleState {
    /// Whether the square `(y, x)`, given as signed numbers, lies on the board.
    fn on_board(&self, y: i32, x: i32) -> (r: bool)
        requires
            self.wf(),
            self.rows() > 0,
        ensures
            r == self.in_bounds(y as int, x as int),
    {
        let rows = self.board.len() as i32;
        let cols = self.board[0].len() as i32;
        !(y < 0 || y >= rows || x < 0 || x >= cols)
    }

    /// The squares the unit on `from` may move to: empty squares on the board
    /// reached by its move table, and only when its delay is zero.
    pub fn get_possible_moves(&self, from: Position) -> (r: Vec<Position>)
        requires
            self.wf(),
            self.valid_square(from),
        ensures
            r@ == self.spec_possible_moves(from),
    {
        let fy = from.y as usize;
        let fx = from.x as usize;
        assert(self.board@[fy as int]@.len() == self.cols());
        match &self.board[fy][fx] {
            Some(selected) => {
                let defs = cast_moves(selected.unit_type, selected.owner_id == self.attacker_id);
                let ghost f = self.move_step(from, *selected);
                let mut r: Vec<Position> = Vec::new();
                let n = defs.len();
                for i in 0..n
                    invariant
                        n == defs@.len(),
                        self.wf(),
                        self.valid_square(from),
                        self.at(from.y as int, from.x as int) == Some(*selected),
                        f == self.move_step(from, *selected),
                        forall|k: int| 0 <= k < defs@.len() ==> units::small_offset(#[trigger] defs@[k]),
                        r@ == defs@.take(i as int).filter_map(f),
                {
                    proof {
                        defs@.lemma_filter_map_take_succ(f, i as int);
                    }
                    let m = defs[i];
                    assert(units::small_offset(defs@[i as int]));
                    let ny = from.y + m.y;
                    let nx = from.x + m.x;
                    if selected.delay == 0 && self.on_board(ny, nx) {
                        assert(self.board@[ny as int]@.len() == self.cols());
                        if self.board[ny as usize][nx as usize].is_none() {
                            r.push(Position { y: ny, x: nx });
                        }
                    }
                }
                assert(defs@.take(n as int) =~= defs@);
                r
            },
            None => Vec::new(),
        }
    }

    /// The squares the unit on `from` may strike: occupied squares on the
    /// board reached by its strike table, and, unless `ignore_self_piece` is
    /// set, only those held by another country.
    pub fn get_possible_attacks(&self, from: Position, ignore_self_piece: bool) -> (r: Vec<Position>)
        requires
            self.wf(),
            self.valid_square(from),
        ensures
            r@ == self.spec_possible_attacks(from, ignore_self_piece),
    {
        let fy = from.y as usize;
        let fx = from.x as usize;
        assert(self.board@[fy as int]@.len() == self.cols());
        match &self.board[fy][fx] {
            Some(selected) => {
                let defs = cast_attacks(selected.unit_type, selected.owner_id == self.attacker_id);
                let ghost f = self.attack_step(from, *selected, ignore_self_piece);
                let mut r: Vec<Position> = Vec::new();
                let n = defs.len();
                for i in 0..n
                    invariant
                        n == defs@.len(),
                        self.wf(),
                        self.valid_square(from),
                        self.at(from.y as int, from.x as int) == Some(*selected),
                        f == self.attack_step(from, *selected, ignore_self_piece),
                        forall|k: int| 0 <= k < defs@.len() ==> units::small_offset(#[trigger] defs@[k]),
                        r@ == defs@.take(i as int).filter_map(f),
                {
                    proof {
                        defs@.lemma_filter_map_take_succ(f, i as int);
                    }
                    let m = defs[i];
                    assert(units::small_offset(defs@[i as int]));
                    let ny = from.y + m.y;
                    let nx = from.x + m.x;
                    if self.on_board(ny, nx) {
                        assert(self.board@[ny as int]@.len() == self.cols());
                        match &self.board[ny as usize][nx as usize] {
                            Some(dest) => {
                                if ignore_self_piece || dest.owner_id != selected.owner_id {
                                    r.push(Position { y: ny, x: nx });
                                }
                            },
                            None => {},
                        }
                    }
                }
                assert(defs@.take(n as int) =~= defs@);
                r
            },
            None => Vec::new(),
        }
    }
}

/// `max(d - 1, 0)`: one turn less to wait, never below zero.
pub open spec fn decay(d: i32) -> i32 {
    if d - 1 > 0 {
        (d - 1) as i32
    } else {
        0
    }
}

/// The cell with another delay.
pub open spec fn with_delay(c: Cell, d: i32) -> Cell {
    Cell { delay: d, ..c }
}

impl BattleState {
    /// No unit on the board has the smallest `i32` delay (which could not be
    /// decreased).
    pub open spec fn delays_ok(self) -> bool {
        forall|y: int, x: int|
            self.on_square(y, x) ==> (#[trigger] self.at(y, x) matches Some(c) ==> c.delay > i32::MIN)
    }

    /// The delays that moving the unit on `from` to `to` decreases can be
    /// decreased: those of all units but the ones on `from` and on `to`, and
    /// that of the moving unit when it lands on a unit (as it does when `to`
    /// is `from`).
    pub open spec fn move_delays_ok(self, from: Position, to: Position) -> bool {
        &&& forall|y: int, x: int|
            self.on_square(y, x) && !(y == from.y && x == from.x) && !(y == to.y && x == to.x) ==> (
            #[trigger] self.at(y, x) matches Some(c) ==> c.delay > i32::MIN)
        &&& (self.on_square(to.y as int, to.x as int) && self.at(to.y as int, to.x as int) is Some) ==> self.at(
            from.y as int,
            from.x as int,
        )->0.delay > i32::MIN
    }

    /// Whether `move_unit(from, _)` changes anything: the battle has not
    /// ended and `from` holds a unit of the country to act.
    pub open spec fn move_applies(self, from: Position) -> bool {
        &&& self.end_timestamp is None
        &&& self.on_square(from.y as int, from.x as int)
        &&& self.at(from.y as int, from.x as int) matches Some(sel)
        &&& sel.owner_id == self.spec_who_attack()
    }

    /// What square `(y, x)` holds after the unit `sel` on `from` is moved to
    /// `to`: an empty square stays empty; `to`, if occupied, receives the
    /// moving unit; `from` is emptied; every other unit keeps its place. Every
    /// unit left on the board waits one turn less.
    pub open spec fn moved_square(self, from: Position, to: Position, sel: Cell, y: int, x: int) -> Option<Cell> {
        match self.at(y, x) {
            None => None,
            Some(c) => if y == to.y && x == to.x {
                Some(with_delay(sel, decay(sel.delay)))
            } else if y == from.y && x == from.x {
                None
            } else {
                Some(with_delay(c, decay(c.delay)))
            },
        }
    }

    /// One square after a move, given the moving unit.
    fn moved_cell(&self, from: Position, to: Position, selected: &Cell, y: usize, x: usize) -> (r: Option<Cell>)
        requires
            self.move_delays_ok(from, to),
            self.on_square(y as int, x as int),
            self.at(from.y as int, from.x as int) == Some(*selected),
        ensures
            r == self.moved_square(from, to, *selected, y as int, x as int),
    {
        match &self.board[y][x] {
            None => None,
            Some(cell) => {
                assert(self.at(y as int, x as int) == Some(*cell));
                if to.y >= 0 && to.x >= 0 && y == to.y as usize && x == to.x as usize {
                    let mut moved = selected.clone();
                    moved.delay = if selected.delay - 1 > 0 { selected.delay - 1 } else { 0 };
                    Some(moved)
                } else if from.y >= 0 && from.x >= 0 && y == from.y as usize && x == from.x as usize {
                    None
                } else {
                    let mut kept = cell.clone();
                    kept.delay = if cell.delay - 1 > 0 { cell.delay - 1 } else { 0 };
                    Some(kept)
                }
            },
        }
    }

    /// Moves the unit on `from` to `to`, if the battle is still on and the
    /// unit belongs to the country to act; see `moved_square` for the board
    /// that results. Otherwise nothing changes. `from` must name a square
    /// while the battle is on (it is looked up then), and the delays the move
    /// decreases must be decreasable (`move_delays_ok`).
    pub fn move_unit(&mut self, from: Position, to: Position)
        requires
            old(self).end_timestamp is None ==> old(self).on_square(from.y as int, from.x as int),
            old(self).move_applies(from) ==> old(self).move_delays_ok(from, to),
        ensures
            !old(self).move_applies(from) ==> *final(self) == *old(self),
            old(self).move_applies(from) ==> {
                &&& final(self).round == old(self).round
                &&& final(self).attacker_id == old(self).attacker_id
                &&& final(self).defender_id == old(self).defender_id
                &&& final(self).start_timestamp == old(self).start_timestamp
                &&& final(self).end_timestamp == old(self).end_timestamp
                &&& final(self).rows() == old(self).rows()
                &&& final(self).cols() == old(self).cols()
                &&& forall|y: int| 0 <= y < old(self).rows() ==> (#[trigger] final(self).board@[y]@.len())
                    == old(self).board@[y]@.len()
                &&& old(self).wf() ==> final(self).wf()
                &&& forall|y: int, x: int| old(self).on_square(y, x) ==> #[trigger] final(self).at(y, x)
                    == old(self).moved_square(from, to, old(self).at(from.y as int, from.x as int)->0, y, x)
            },
    {
        if self.end_timestamp.is_some() {
            return;
        }
        let fy = from.y as usize;
        let fx = from.x as usize;
        let selected = match &self.board[fy][fx] {
            Some(c) => c.clone(),
            None => {
                return;
            },
        };
        if selected.owner_id != self.who_attack() {
            return;
        }
        let rows = self.board.len();
        let mut new_board: Board = Vec::new();
        for y in 0..rows
            invariant
                rows == self.rows(),
                self.move_delays_ok(from, to),
                self.at(from.y as int, from.x as int) == Some(selected),
                new_board@.len() == y,
                forall|k: int| 0 <= k < y ==> (#[trigger] new_board@[k])@.len() == self.board@[k]@.len(),
                forall|k: int, x: int| 0 <= k < y && 0 <= x < self.board@[k]@.len() ==> (#[trigger] new_board@[k]@[x])
                    == self.moved_square(from, to, selected, k, x),
        {
            let cols = self.board[y].len();
            let mut row: Vec<Option<Cell>> = Vec::new();
            for x in 0..cols
                invariant
                    rows == self.rows(),
                    cols == self.board@[y as int]@.len(),
                    y < rows,
                    self.move_delays_ok(from, to),
                    self.at(from.y as int, from.x as int) == Some(selected),
                    row@.len() == x,
                    forall|j: int| 0 <= j < x ==> (#[trigger] row@[j]) == self.moved_square(from, to, selected, y as int, j),
            {
                let c = self.moved_cell(from, to, &selected, y, x);
                row.push(c);
            }
            new_board.push(row);
        }
        self.board = new_board;
    }
}

/// The units of `owner` in one row.
pub open spec fn row_count(row: Seq<Option<Cell>>, owner: i32) -> nat
    decreases row.len(),
{
    if row.len() == 0 {
        0
    } else {
        row_count(row.drop_last(), owner) + if row.last() matches Some(c) && c.owner_id == owner {
            1nat
        } else {
            0nat
        }
    }
}

/// The units of `owner` on the board.
pub open spec fn board_count(g: Seq<Seq<Option<Cell>>>, owner: i32) -> nat
    decreases g.len(),
{
    if g.len() == 0 {
        0
    } else {
        board_count(g.drop_last(), owner) + row_count(g.last(), owner)
    }
}

proof fn lemma_row_count_bound(row: Seq<Option<Cell>>, owner: i32)
    ensures
        row_count(row, owner) <= row.len(),
    decreases row.len(),
{
    if row.len() > 0 {
        lemma_row_count_bound(row.drop_last(), owner);
    }
}

/// The number of squares of a board, row by row.
pub open spec fn total_cells(g: Seq<Seq<Option<Cell>>>) -> nat
    decreases g.len(),
{
    if g.len() == 0 {
        0
    } else {
        total_cells(g.drop_last()) + g.last().len()
    }
}

proof fn lemma_board_count_bound(g: Seq<Seq<Option<Cell>>>, owner: i32)
    ensures
        board_count(g, owner) <= total_cells(g),
    decreases g.len(),
{
    if g.len() > 0 {
        lemma_board_count_bound(g.drop_last(), owner);
        lemma_row_count_bound(g.last(), owner);
    }
}

proof fn lemma_total_cells_prefix(g: Seq<Seq<Option<Cell>>>, k: int)
    requires
        0 <= k <= g.len(),
    ensures
        total_cells(g.take(k)) <= total_cells(g),
    decreases g.len(),
{
    if k < g.len() {
        assert(g.take(k) =~= g.drop_last().take(k));
        lemma_total_cells_prefix(g.drop_last(), k);
    } else {
        assert(g.take(k) =~= g);
    }
}

/// A board of equal rows has rows times columns squares.
proof fn lemma_total_cells_rect(g: Seq<Seq<Option<Cell>>>, cols: int)
    requires
        forall|k: int| 0 <= k < g.len() ==> (#[trigger] g[k]).len() == cols,
        cols >= 0,
    ensures
        total_cells(g) == g.len() * cols,
    decreases g.len(),
{
    if g.len() > 0 {
        lemma_total_cells_rect(g.drop_last(), cols);
        assert(g.len() * cols == (g.len() - 1) * cols + cols) by (nonlinear_arith);
    }
}

impl BattleState {
    /// How many units `owner` has on the board (rows may differ in length).
    pub fn units_count(&self, owner: i32) -> (r: usize)
        requires
            total_cells(grid(self.board)) <= usize::MAX,
        ensures
            r == board_count(grid(self.board), owner),
    {
        let rows = self.board.len();
        let ghost g = grid(self.board);
        let mut total: usize = 0;
        for y in 0..rows
            invariant
                rows == self.rows(),
                g == grid(self.board),
                total_cells(g) <= usize::MAX,
                total == board_count(g.take(y as int), owner),
        {
            let row = &self.board[y];
            let cols = row.len();
            let mut n: usize = 0;
            for x in 0..cols
                invariant
                    cols == row@.len(),
                    n == row_count(row@.take(x as int), owner),
                    n <= x,
            {
                assert(row@.take(x + 1).drop_last() =~= row@.take(x as int));
                match &row[x] {
                    Some(c) => {
                        if c.owner_id == owner {
                            n = n + 1;
                        }
                    },
                    None => {},
                }
            }
            assert(row@.take(cols as int) =~= row@);
            assert(g.take(y + 1).drop_last() =~= g.take(y as int));
            assert(g[y as int] == row@);
            proof {
                lemma_board_count_bound(g.take(y + 1), owner);
                lemma_total_cells_prefix(g, y + 1);
            }
            total = total + n;
        }
        assert(g.take(rows as int) =~= g);
        total
    }

    /// How many units the attacking country has on the board.
    pub fn attacker_units_count(&self) -> (r: usize)
        requires
            total_cells(grid(self.board)) <= usize::MAX,
        ensures
            r == board_count(grid(self.board), self.attacker_id),
    {
        self.units_count(self.attacker_id)
    }

    /// How many units the defending country has on the board.
    pub fn defender_units_count(&self) -> (r: usize)
        requires
            total_cells(grid(self.board)) <= usize::MAX,
        ensures
            r == board_count(grid(self.board), self.defender_id),
    {
        self.units_count(self.defender_id)
    }

    /// Puts `v` on the square `(y, x)` and leaves everything else as it was.
    fn set_square(&mut self, y: usize, x: usize, v: Option<Cell>)
        requires
            old(self).wf(),
            old(self).in_bounds(y as int, x as int),
        ensures
            final(self).wf(),
            final(self).rows() == old(self).rows(),
            final(self).cols() == old(self).cols(),
            final(self).round == old(self).round,
            final(self).attacker_id == old(self).attacker_id,
            final(self).defender_id == old(self).defender_id,
            final(self).start_timestamp == old(self).start_timestamp,
            final(self).end_timestamp == old(self).end_timestamp,
            final(self).at(y as int, x as int) == v,
            forall|j: int, i: int|
                old(self).in_bounds(j, i) && !(j == y && i == x) ==> #[trigger] final(self).at(j, i) == old(self).at(j, i),
            round::board_view(final(self).board) == round::put(
                round::board_view(old(self).board),
                y as int,
                x as int,
                round::square_view(v),
            ),
    {
        assert(self.board@[y as int]@.len() == self.cols());
        let mut row: Vec<Option<Cell>> = Vec::new();
        self.board.set_and_swap(y, &mut row);
        row.set(x, v);
        self.board.set_and_swap(y, &mut row);
        assert(self.board@[y as int]@.len() == old(self).cols());
        assert forall|k: int| 0 <= k < self.rows() implies (#[trigger] self.board@[k]@.len()) == self.cols() by {
            if k != y {
                assert(self.board@[k] == old(self).board@[k]);
            }
            if y != 0 {
                assert(self.board@[0] == old(self).board@[0]);
            }
            assert(old(self).board@[k]@.len() == old(self).cols());
        }
        let ghost nb = round::board_view(self.board);
        let ghost ob = round::put(round::board_view(old(self).board), y as int, x as int, round::square_view(v));
        assert forall|k: int| 0 <= k < nb.len() implies nb[k] == ob[k] by {
            if k == y {
                assert(nb[k] =~= ob[k]);
            } else {
                assert(self.board@[k] == old(self).board@[k]);
            }
        }
        assert(nb =~= ob);
    }
}

impl BattleState {
    /// Every square the unit on `from` may strike is on the board and holds
    /// a unit of another country.
    pub proof fn lemma_attack_target(self, from: Position, t: Position)
        requires
            self.wf(),
            self.valid_square(from),
            self.spec_possible_attacks(from, false).contains(t),
        ensures
            self.in_bounds(t.y as int, t.x as int),
            self.at(t.y as int, t.x as int) matches Some(dest) && dest.owner_id
                != self.at(from.y as int, from.x as int)->0.owner_id,
    {
        let sel = self.at(from.y as int, from.x as int)->0;
        let defs = oriented(units::spec_attacks(sel.unit_type), sel.owner_id == self.attacker_id);
        let f = self.attack_step(from, sel, false);
        defs.lemma_filter_map_contains(f, t);
        let m = choose|m: Position| #[trigger] defs.contains(m) && f(m) == Some(t);
        assert(self.attack_ok(from, sel, m, false));
    }

    /// The view of the board has the board's shape and shows each square's
    /// view, and what a unit may strike reads the same on both.
    pub proof fn lemma_view_targets(self, from: Position)
        requires
            self.wf(),
            self.valid_square(from),
        ensures
            round::rectangular(round::board_view(self.board)),
            round::view_cols(round::board_view(self.board)) == self.cols(),
            round::targets(round::board_view(self.board), self.attacker_id, from) == self.spec_possible_attacks(from, false),
    {
        let b = round::board_view(self.board);
        assert(b.len() == self.rows());
        assert(b[0].len() == self.board@[0]@.len());
        assert forall|y: int| 0 <= y < b.len() implies (#[trigger] b[y]).len() == round::view_cols(b) by {
            assert(self.board@[y]@.len() == self.cols());
        }
        let fy = from.y as int;
        let fx = from.x as int;
        assert(self.board@[fy]@.len() == self.cols());
        assert(b[fy][fx] == round::square_view(self.at(fy, fx)));
        match self.at(fy, fx) {
            Some(sel) => {
                let fs = self.attack_step(from, sel, false);
                let fv = round::strike_step(b, from, sel.owner_id);
                assert forall|m: Position| #[trigger] fv(m) == fs(m) by {
                    let t = shift(from, m);
                    if self.in_bounds(from.y + m.y, from.x + m.x) {
                        assert(self.board@[t.y as int]@.len() == self.cols());
                        assert(b[t.y as int][t.x as int] == round::square_view(self.at(t.y as int, t.x as int)));
                    }
                }
                assert(fv =~= fs);
            },
            None => {},
        }
    }

    /// The state's board, read through the views: its shape and the view of
    /// each square.
    pub proof fn lemma_board_view(self)
        requires
            self.wf(),
        ensures
            round::rectangular(round::board_view(self.board)),
            round::fits_i32(round::board_view(self.board)),
            round::board_view(self.board).len() == self.rows(),
            round::view_cols(round::board_view(self.board)) == self.cols(),
            forall|y: int, x: int| self.in_bounds(y, x) ==> #[trigger] round::board_view(self.board)[y][x]
                == round::square_view(self.at(y, x)),
    {
        let b = round::board_view(self.board);
        if self.rows() > 0 {
            assert(b[0].len() == self.board@[0]@.len());
        }
        assert forall|y: int| 0 <= y < b.len() implies (#[trigger] b[y]).len() == round::view_cols(b) by {
            assert(self.board@[y]@.len() == self.cols());
            assert(b[0].len() == self.board@[0]@.len());
        }
        assert forall|y: int, x: int| self.in_bounds(y, x) implies #[trigger] b[y][x] == round::square_view(self.at(y, x)) by {
            assert(self.board@[y]@.len() == self.cols());
        }
    }

    /// The unit on `(y, x)` takes its turn (see `round::turn`): its message is
    /// cleared; if it belongs to the country to act and `target` names a
    /// square it may strike, it strikes that unit, which on `hit` loses
    /// `round::damage` soldiers and shows "hit!!" (the striker then shows
    /// "attacked!!"), otherwise shows "evasion!!", and is removed if its
    /// soldiers are then below zero. The strike must be computable in `i32` (`round::strike_computes`).
    pub fn attack_turn(&mut self, y: usize, x: usize, target: Option<Position>, hit: bool)
        requires
            old(self).wf(),
            old(self).in_bounds(y as int, x as int),
            target matches Some(t) ==> old(self).spec_possible_attacks(units::pos(y as int, x as int), false).contains(t),
            round::board_view(old(self).board)[y as int][x as int] matches Some(c) ==> (c.owner_id
                == old(self).spec_who_attack() && target is Some ==> round::strike_computes(
                c,
                round::board_view(old(self).board)[target->0.y as int][target->0.x as int]->0,
            )),
        ensures
            final(self).wf(),
            final(self).rows() == old(self).rows(),
            final(self).cols() == old(self).cols(),
            final(self).round == old(self).round,
            final(self).attacker_id == old(self).attacker_id,
            final(self).defender_id == old(self).defender_id,
            final(self).start_timestamp == old(self).start_timestamp,
            final(self).end_timestamp == old(self).end_timestamp,
            round::board_view(final(self).board) == round::turn(
                round::board_view(old(self).board),
                old(self).spec_who_attack(),
                y as int,
                x as int,
                target,
                hit,
            ),
    {
        proof {
            self.lemma_board_view();
        }
        assert(self.board@[y as int]@.len() == self.cols());
        let mut cell = match &self.board[y][x] {
            Some(c) => c.clone(),
            None => {
                return;
            },
        };
        cell.message = Some(String::new());
        let ghost c0 = self.at(y as int, x as int)->0;
        let ghost b0 = round::board_view(self.board);
        if self.who_attack() == cell.owner_id {
            if let Some(t) = target {
                proof {
                    self.lemma_attack_target(units::pos(y as int, x as int), t);
                }
                let ty = t.y as usize;
                let tx = t.x as usize;
                assert(self.board@[ty as int]@.len() == self.cols());
                let mut enemy = match &self.board[ty][tx] {
                    Some(e) => e.clone(),
                    None => {
                        return;
                    },
                };
                let ghost e0 = enemy;
                assert(round::strike_computes(c0@, e0@));
                if hit {
                    proof {
                        round::lemma_trunc_div_range(cell.attack as int, enemy.defense as int);
                    }
                    let q = cell.attack / enemy.defense;
                    assert(q == round::trunc_div(cell.attack as int, enemy.defense as int));
                    enemy.manpower = enemy.manpower - cell.attack * q;
                    enemy.message = Some("hit!!".to_string());
                    cell.message = Some("attacked!!".to_string());
                } else {
                    enemy.message = Some("evasion!!".to_string());
                }
                if enemy.manpower < 0 {
                    self.set_square(ty, tx, None);
                } else {
                    self.set_square(ty, tx, Some(enemy));
                }
                assert(round::square_view(if enemy.manpower < 0 { None } else { Some(enemy) })
                    == round::struck_target(c0@, e0@, hit));
            }
        }
        self.set_square(y, x, Some(cell));
    }
}

impl BattleState {
    /// Draws the strike of the unit on `(y, x)`: when it belongs to the
    /// country to act and may strike somewhere, a random square among those
    /// it may strike and whether the strike lands (otherwise no square and
    /// no hit); the target evades it with a chance of its `evasion_percent`
    /// percent.
    fn draw_strike(&self, y: usize, x: usize) -> (r: (Option<Position>, bool))
        requires
            self.wf(),
            self.in_bounds(y as int, x as int),
        ensures
            round::fair_draw(round::board_view(self.board), self.attacker_id, self.spec_who_attack(), y as int, x as int, r),
    {
        proof {
            self.lemma_board_view();
            self.lemma_view_targets(units::pos(y as int, x as int));
        }
        assert(self.board@[y as int]@.len() == self.cols());
        let from = Position { y: y as i32, x: x as i32 };
        let acts = match &self.board[y][x] {
            Some(c) => c.owner_id == self.who_attack(),
            None => false,
        };
        if !acts {
            return (None, false);
        }
        let possible = self.get_possible_attacks(from, false);
        match pick(possible) {
            Some(t) => {
                proof {
                    self.lemma_attack_target(from, t);
                }
                let ty = t.y as usize;
                let tx = t.x as usize;
                assert(self.board@[ty as int]@.len() == self.cols());
                let evasion = match &self.board[ty][tx] {
                    Some(e) => e.evasion_percent,
                    None => 0,
                };
                (Some(t), !percentage(evasion, 100))
            },
            None => (None, false),
        }
    }

    /// The square `(y, x)` is number `y * cols + x` in row-major order, and
    /// lies before the end of the board.
    proof fn lemma_round_square(self, y: int, x: int, cols: int)
        requires
            self.wf(),
            cols == self.cols(),
            0 <= y < self.rows(),
            0 <= x < cols,
        ensures
            (y * cols + x) / cols == y,
            (y * cols + x) % cols == x,
            y * cols + x + 1 <= self.rows() * cols,
            (y + 1) * cols == y * cols + x + 1 || x + 1 < cols,
    {
        vstd::arithmetic::div_mod::lemma_fundamental_div_mod_converse(y * cols + x, cols, y, x);
        assert(y * cols + x + 1 <= self.rows() * cols) by (nonlinear_arith)
            requires 0 <= y < self.rows(), 0 <= x < cols;
        assert((y + 1) * cols == y * cols + cols) by (nonlinear_arith);
    }

    /// The end of a round, once every square has taken its turn: the round
    /// counter advances, and the battle ends at `now` if either country has
    /// no unit left.
    fn close_round(&mut self, now: u32)
        requires
            old(self).wf(),
            old(self).round < u16::MAX,
        ensures
            final(self).board == old(self).board,
            final(self).round == old(self).round + 1,
            final(self).attacker_id == old(self).attacker_id,
            final(self).defender_id == old(self).defender_id,
            final(self).start_timestamp == old(self).start_timestamp,
            final(self).end_timestamp == if board_count(grid(old(self).board), old(self).attacker_id) == 0
                || board_count(grid(old(self).board), old(self).defender_id) == 0 {
                Some(now)
            } else {
                old(self).end_timestamp
            },
    {
        proof {
            let g = grid(self.board);
            assert forall|k: int| 0 <= k < g.len() implies (#[trigger] g[k]).len() == self.cols() by {
                assert(self.board@[k]@.len() == self.cols());
            }
            lemma_total_cells_rect(g, self.cols());
        }
        self.round = self.round + 1;
        if self.attacker_units_count() == 0 || self.defender_units_count() == 0 {
            self.end_timestamp = Some(now);
        }
    }

    /// Ends the round with the given draws, one per square in row-major
    /// order (`round::round_view`): every unit takes its turn
    /// (`attack_turn`), the round counter advances, and the battle ends at
    /// `now` once either country has no unit left. Each draw must name, if
    /// anything, a square the unit may strike when its turn comes, and the
    /// strikes the acting units could make must fit in `i32`
    /// (`round::strikes_fit`, which also bounds the soldiers a unit may gain
    /// from strikes with a negative damage).
    pub fn end_round_with(&mut self, now: u32, draws: Vec<(Option<Position>, bool)>)
        requires
            old(self).wf(),
            old(self).round < u16::MAX,
            round::strikes_fit(round::board_view(old(self).board), old(self).attacker_id, old(self).spec_who_attack()),
            round::draws_valid(round::board_view(old(self).board), old(self).attacker_id, old(self).spec_who_attack(), draws@),
        ensures
            round::board_view(final(self).board) == round::round_view(
                round::board_view(old(self).board),
                old(self).spec_who_attack(),
                draws@,
            ),
            final(self).wf(),
            final(self).rows() == old(self).rows(),
            final(self).cols() == old(self).cols(),
            final(self).round == old(self).round + 1,
            final(self).attacker_id == old(self).attacker_id,
            final(self).defender_id == old(self).defender_id,
            final(self).start_timestamp == old(self).start_timestamp,
            round::struck_by(
                round::board_view(old(self).board),
                round::board_view(final(self).board),
                old(self).attacker_id,
                old(self).spec_who_attack(),
                (old(self).rows() * old(self).cols()) as nat,
            ),
            round::no_strikes(round::board_view(old(self).board), old(self).attacker_id, old(self).spec_who_attack())
                ==> round::board_view(final(self).board) == round::hushed(
                round::board_view(old(self).board),
                old(self).rows() * old(self).cols(),
            ),
            forall|y: int, x: int| #![trigger final(self).at(y, x)]
                final(self).in_bounds(y, x) && final(self).at(y, x) is Some ==> round::round_message(
                    final(self).at(y, x)->0@,
                    old(self).spec_who_attack(),
                ),
            final(self).end_timestamp == if board_count(grid(final(self).board), final(self).attacker_id) == 0
                || board_count(grid(final(self).board), final(self).defender_id) == 0 {
                Some(now)
            } else {
                old(self).end_timestamp
            },
    {
        proof {
            self.lemma_board_view();
        }
        let rows = self.board.len();
        let cols = if rows > 0 { self.board[0].len() } else { 0 };
        let ghost start = *self;
        let ghost b0 = round::board_view(self.board);
        let ghost side = self.spec_who_attack();
        let ghost d = draws@;
        assert(cols == self.cols());
        assert(0 * cols == 0 && 0 <= rows * cols) by (nonlinear_arith);
        for y in 0..rows
            invariant
                rows == self.rows(),
                cols == self.cols(),
                self.wf(),
                start.wf(),
                b0 == round::board_view(start.board),
                rows == b0.len(),
                cols == round::view_cols(b0),
                round::rectangular(b0),
                round::fits_i32(b0),
                side == start.spec_who_attack(),
                d == draws@,
                round::strikes_fit(b0, start.attacker_id, side),
                round::draws_valid(b0, start.attacker_id, side, d),
                round::board_view(self.board) == round::round_upto(b0, side, d, (y * cols) as nat),
                y * cols <= rows * cols,
                self.round == start.round,
                self.attacker_id == start.attacker_id,
                self.defender_id == start.defender_id,
                self.start_timestamp == start.start_timestamp,
                self.end_timestamp == start.end_timestamp,
        {
            for x in 0..cols
                invariant
                    rows == self.rows(),
                    cols == self.cols(),
                    y < rows,
                    self.wf(),
                    b0 == round::board_view(start.board),
                    rows == b0.len(),
                    cols == round::view_cols(b0),
                    round::rectangular(b0),
                    round::fits_i32(b0),
                    side == start.spec_who_attack(),
                    d == draws@,
                    round::strikes_fit(b0, start.attacker_id, side),
                    round::draws_valid(b0, start.attacker_id, side, d),
                    round::board_view(self.board) == round::round_upto(b0, side, d, (y * cols + x) as nat),
                    self.round == start.round,
                    self.attacker_id == start.attacker_id,
                    self.defender_id == start.defender_id,
                    self.start_timestamp == start.start_timestamp,
                    self.end_timestamp == start.end_timestamp,
            {
                let ghost k = y * cols + x;
                proof {
                    self.lemma_round_square(y as int, x as int, cols as int);
                    round::lemma_round_struck(b0, start.attacker_id, side, d, k as nat);
                    self.lemma_board_view();
                    self.lemma_view_targets(units::pos(y as int, x as int));
                    assert(d[k] == d[k]);
                }
                let (target, hit) = draws[y * cols + x];
                proof {
                    let p = round::board_view(self.board);
                    if p[y as int][x as int] matches Some(c) && c.owner_id == side && target is Some {
                        round::lemma_strike_still_fits(b0, p, start.attacker_id, side, y as int, x as int, target->0, k as nat);
                    }
                }
                self.attack_turn(y, x, target, hit);
            }
            assert((y + 1) * cols == y * cols + cols && (y + 1) * cols <= rows * cols) by (nonlinear_arith)
                requires y < rows;
        }
        proof {
            round::lemma_round_struck(b0, start.attacker_id, side, d, (rows * cols) as nat);
            self.lemma_round_outcome(start, b0, side, d);
        }
        let ghost played = *self;
        self.close_round(now);
        assert forall|y: int, x: int| #![trigger self.at(y, x)]
            self.in_bounds(y, x) && self.at(y, x) is Some implies round::round_message(self.at(y, x)->0@, side) by {
            assert(self.at(y, x) == played.at(y, x));
        }
    }

    /// What a whole round played with valid draws `d` from `start` shows on
    /// the board reached (`self`): every unit shows a round's message, and a
    /// round in which no unit could strike changed only the messages.
    proof fn lemma_round_outcome(self, start: BattleState, b0: round::BoardView, side: i32, d: Seq<round::Draw>)
        requires
            start.wf(),
            self.wf(),
            b0 == round::board_view(start.board),
            side == start.spec_who_attack(),
            self.rows() == start.rows(),
            self.cols() == start.cols(),
            round::strikes_fit(b0, start.attacker_id, side),
            round::draws_valid(b0, start.attacker_id, side, d),
            round::board_view(self.board) == round::round_view(b0, side, d),
        ensures
            round::no_strikes(b0, start.attacker_id, side) ==> round::board_view(self.board) == round::hushed(
                b0,
                start.rows() * start.cols(),
            ),
            forall|y: int, x: int| #![trigger self.at(y, x)]
                self.in_bounds(y, x) && self.at(y, x) is Some ==> round::round_message(self.at(y, x)->0@, side),
    {
        start.lemma_board_view();
        self.lemma_board_view();
        round::lemma_round_messages(b0, start.attacker_id, side, d);
        if round::no_strikes(b0, start.attacker_id, side) {
            round::lemma_quiet_round(b0, start.attacker_id, side, d);
        }
        assert forall|y: int, x: int| #![trigger self.at(y, x)]
            self.in_bounds(y, x) && self.at(y, x) is Some implies round::round_message(self.at(y, x)->0@, side) by {
            assert(round::board_view(self.board)[y][x] == round::square_view(self.at(y, x)));
        }
    }
}

impl BattleState {
    /// Ends the round: every unit on the board, row by row, takes its turn
    /// (`attack_turn`) with a random draw (`draw_strike`: a random square
    /// among those it may strike, evaded with the target's evasion chance),
    /// the round counter advances, and the battle ends at `now` once either
    /// country has no unit left. The board that results is the round played
    /// with some fair draws (`round::fair_draws`); the strikes the acting
    /// units could make must fit in `i32` (`round::strikes_fit`).
    pub fn end_round(&mut self, now: u32)
        requires
            old(self).wf(),
            old(self).round < u16::MAX,
            round::strikes_fit(round::board_view(old(self).board), old(self).attacker_id, old(self).spec_who_attack()),
        ensures
            exists|d: Seq<round::Draw>|
                round::fair_draws(round::board_view(old(self).board), old(self).attacker_id, old(self).spec_who_attack(), d)
                && #[trigger] round::round_view(round::board_view(old(self).board), old(self).spec_who_attack(), d)
                == round::board_view(final(self).board),
            final(self).wf(),
            final(self).rows() == old(self).rows(),
            final(self).cols() == old(self).cols(),
            final(self).round == old(self).round + 1,
            final(self).attacker_id == old(self).attacker_id,
            final(self).defender_id == old(self).defender_id,
            final(self).start_timestamp == old(self).start_timestamp,
            round::struck_by(
                round::board_view(old(self).board),
                round::board_view(final(self).board),
                old(self).attacker_id,
                old(self).spec_who_attack(),
                (old(self).rows() * old(self).cols()) as nat,
            ),
            round::no_strikes(round::board_view(old(self).board), old(self).attacker_id, old(self).spec_who_attack())
                ==> round::board_view(final(self).board) == round::hushed(
                round::board_view(old(self).board),
                old(self).rows() * old(self).cols(),
            ),
            forall|y: int, x: int| #![trigger final(self).at(y, x)]
                final(self).in_bounds(y, x) && final(self).at(y, x) is Some ==> round::round_message(
                    final(self).at(y, x)->0@,
                    old(self).spec_who_attack(),
                ),
            final(self).end_timestamp == if board_count(grid(final(self).board), final(self).attacker_id) == 0
                || board_count(grid(final(self).board), final(self).defender_id) == 0 {
                Some(now)
            } else {
                old(self).end_timestamp
            },
    {
        proof {
            self.lemma_board_view();
        }
        let rows = self.board.len();
        let cols = if rows > 0 { self.board[0].len() } else { 0 };
        let ghost start = *self;
        let ghost b0 = round::board_view(self.board);
        let ghost side = self.spec_who_attack();
        let ghost mut d: Seq<round::Draw> = Seq::empty();
        assert(cols == self.cols());
        assert(0 * cols == 0 && 0 <= rows * cols) by (nonlinear_arith);
        for y in 0..rows
            invariant
                rows == self.rows(),
                cols == self.cols(),
                self.wf(),
                start.wf(),
                b0 == round::board_view(start.board),
                rows == b0.len(),
                cols == round::view_cols(b0),
                round::rectangular(b0),
                round::fits_i32(b0),
                side == start.spec_who_attack(),
                round::strikes_fit(b0, start.attacker_id, side),
                d.len() == y * cols,
                y * cols <= rows * cols,
                round::fair_prefix(b0, start.attacker_id, side, d, d.len() as int),
                round::struck_by(b0, round::board_view(self.board), start.attacker_id, side, d.len()),
                round::board_view(self.board) == round::round_upto(b0, side, d, d.len()),
                self.round == start.round,
                self.attacker_id == start.attacker_id,
                self.defender_id == start.defender_id,
                self.start_timestamp == start.start_timestamp,
                self.end_timestamp == start.end_timestamp,
        {
            for x in 0..cols
                invariant
                    rows == self.rows(),
                    cols == self.cols(),
                    y < rows,
                    self.wf(),
                    b0 == round::board_view(start.board),
                    rows == b0.len(),
                    cols == round::view_cols(b0),
                    round::rectangular(b0),
                    round::fits_i32(b0),
                    side == start.spec_who_attack(),
                    round::strikes_fit(b0, start.attacker_id, side),
                    d.len() == y * cols + x,
                    round::fair_prefix(b0, start.attacker_id, side, d, d.len() as int),
                    round::struck_by(b0, round::board_view(self.board), start.attacker_id, side, d.len()),
                    round::board_view(self.board) == round::round_upto(b0, side, d, d.len()),
                    self.round == start.round,
                    self.attacker_id == start.attacker_id,
                    self.defender_id == start.defender_id,
                    self.start_timestamp == start.start_timestamp,
                    self.end_timestamp == start.end_timestamp,
            {
                proof {
                    self.lemma_round_square(y as int, x as int, cols as int);
                    self.lemma_board_view();
                    self.lemma_view_targets(units::pos(y as int, x as int));
                }
                let (target, hit) = self.draw_strike(y, x);
                let ghost p = round::board_view(self.board);
                proof {
                    if p[y as int][x as int] is Some && p[y as int][x as int]->0.owner_id == side && target is Some {
                        round::lemma_strike_still_fits(b0, p, start.attacker_id, side, y as int, x as int, target->0, d.len());
                    }
                    round::lemma_turn_struck(b0, p, start.attacker_id, side, y as int, x as int, target, hit, d.len());
                }
                self.attack_turn(y, x, target, hit);
                proof {
                    let k = d.len();
                    let before = d;
                    d = d.push((target, hit));
                    round::lemma_round_prefix(b0, side, before, d, k);
                    assert(d[k as int] == (target, hit));
                    assert(round::round_upto(b0, side, d, k + 1) == round::board_view(self.board));
                    assert forall|j: int| 0 <= j < d.len() implies round::fair_draw(
                        round::round_upto(b0, side, d, j as nat),
                        start.attacker_id,
                        side,
                        j / cols as int,
                        j % cols as int,
                        #[trigger] d[j],
                    ) by {
                        round::lemma_round_prefix(b0, side, before, d, j as nat);
                        if j < k {
                            assert(d[j] == before[j]);
                        }
                    }
                }
            }
            assert((y + 1) * cols == y * cols + cols && (y + 1) * cols <= rows * cols) by (nonlinear_arith)
                requires y < rows;
        }
        assert(round::fair_draws(b0, start.attacker_id, side, d));
        assert(round::round_view(b0, side, d) == round::board_view(self.board));
        proof {
            round::lemma_fair_draws_valid(b0, start.attacker_id, side, d);
            self.lemma_round_outcome(start, b0, side, d);
        }
        let ghost played = *self;
        self.close_round(now);
        assert forall|y: int, x: int| #![trigger self.at(y, x)]
            self.in_bounds(y, x) && self.at(y, x) is Some implies round::round_message(self.at(y, x)->0@, side) by {
            assert(self.at(y, x) == played.at(y, x));
        }
        assert(round::round_view(b0, side, d) == round::board_view(self.board));
    }
}

/// The opening position, seven rows of nine squares: each country lines up
/// two columns at its own edge, country 1 on the left (columns 0 and 1) and
/// country 2 on the right (columns 7 and 8), mirror images of each other.
/// The outer column alternates artillery (even rows) and mages (odd rows);
/// the inner one has cavalry on rows 0, 3 and 6 and infantry elsewhere.
/// Units are numbered 0 to 27 row by row, left to right.
pub open spec fn template_square(y: int, x: int) -> Option<(UnitType, i32, i32)> {
    let outer = if y % 2 == 0 { UnitType::Artillery } else { UnitType::Mage };
    let inner = if y % 3 == 0 { UnitType::Cavalry } else { UnitType::Infantry };
    if x == 0 {
        Some((outer, (4 * y) as i32, 1i32))
    } else if x == 1 {
        Some((inner, (4 * y + 1) as i32, 1i32))
    } else if x == 7 {
        Some((inner, (4 * y + 2) as i32, 2i32))
    } else if x == 8 {
        Some((outer, (4 * y + 3) as i32, 2i32))
    } else {
        None
    }
}

/// The opening square `(y, x)` as the exec code builds it.
fn opening_square(y: usize, x: usize) -> (r: Option<Cell>)
    requires
        y < 7,
        x < 9,
    ensures
        match template_square(y as int, x as int) {
            None => r is None,
            Some((t, id, owner)) => r matches Some(c) && is_fresh(c, t, id, owner),
        },
{
    let outer = if y % 2 == 0 { UnitType::Artillery } else { UnitType::Mage };
    let inner = if y % 3 == 0 { UnitType::Cavalry } else { UnitType::Infantry };
    let base = 4 * y as i32;
    if x == 0 {
        Some(Cell::template(outer, base, 1))
    } else if x == 1 {
        Some(Cell::template(inner, base + 1, 1))
    } else if x == 7 {
        Some(Cell::template(inner, base + 2, 2))
    } else if x == 8 {
        Some(Cell::template(outer, base + 3, 2))
    } else {
        None
    }
}

impl BattleState {
    /// A new battle in the opening position (`template_square`), at round
    /// 0, started at `now` and not yet ended.
    pub fn template(attacker_id: i32, defender_id: i32, now: u32) -> (r: BattleState)
        ensures
            r.wf(),
            r.delays_ok(),
            round::small_units(round::board_view(r.board)),
            round::strikes_fit(round::board_view(r.board), attacker_id, r.spec_who_attack()),
            r.rows() == 7,
            r.cols() == 9,
            r.round == 0,
            r.attacker_id == attacker_id,
            r.defender_id == defender_id,
            r.start_timestamp == now,
            r.end_timestamp is None,
            forall|y: int, x: int| #![trigger r.at(y, x)] 0 <= y < 7 && 0 <= x < 9 ==>
                match template_square(y, x) {
                    None => r.at(y, x) is None,
                    Some((t, id, owner)) => r.at(y, x) matches Some(c) && is_fresh(c, t, id, owner),
                },
    {
        let mut board: Board = Vec::new();
        for y in 0..7usize
            invariant
                board@.len() == y,
                forall|k: int| 0 <= k < y ==> (#[trigger] board@[k])@.len() == 9,
                forall|k: int, x: int| #![trigger board@[k]@[x]] 0 <= k < y && 0 <= x < 9 ==>
                    match template_square(k, x) {
                        None => board@[k]@[x] is None,
                        Some((t, id, owner)) => board@[k]@[x] matches Some(c) && is_fresh(c, t, id, owner),
                    },
        {
            let mut row: Vec<Option<Cell>> = Vec::new();
            for x in 0..9usize
                invariant
                    y < 7,
                    row@.len() == x,
                    forall|j: int| #![trigger row@[j]] 0 <= j < x ==>
                        match template_square(y as int, j) {
                            None => row@[j] is None,
                            Some((t, id, owner)) => row@[j] matches Some(c) && is_fresh(c, t, id, owner),
                        },
            {
                row.push(opening_square(y, x));
            }
            board.push(row);
        }
        let r = BattleState {
            board,
            round: 0,
            attacker_id,
            defender_id,
            start_timestamp: now,
            end_timestamp: None,
        };
        assert(r.board@[0]@.len() == 9);
        assert(r.rows() == 7 && r.cols() == 9);
        assert(r.rows() * r.cols() == 63) by (nonlinear_arith)
            requires r.rows() == 7 && r.cols() == 9;
        assert forall|y: int, x: int| #![trigger r.at(y, x)] r.in_bounds(y, x) implies
            (r.at(y, x) matches Some(c) ==> c.delay > i32::MIN) by {
            match template_square(y, x) {
                None => {},
                Some((t, id, owner)) => {
                    assert(r.at(y, x) matches Some(c) && is_fresh(c, t, id, owner));
                },
            }
        }
        proof {
            r.lemma_board_view();
            let b = round::board_view(r.board);
            assert forall|y: int, x: int| #![trigger b[y][x]] round::view_in_bounds(b, y, x) && b[y][x] is Some implies round::small_unit(
                b[y][x]->0,
            ) by {
                assert(b[y][x] == round::square_view(r.at(y, x)));
                match template_square(y, x) {
                    None => {},
                    Some((t, id, owner)) => {
                        assert(r.at(y, x) matches Some(c) && is_fresh(c, t, id, owner));
                        match t {
                            UnitType::Infantry => {},
                            UnitType::Cavalry => {},
                            UnitType::Artillery => {},
                            UnitType::Mage => {},
                        }
                    },
                }
            }
            round::lemma_small_units_fit(b, attacker_id, r.spec_who_attack());
        }
        r
    }
}

/// The side to act alternates: after a round the other country acts (the
/// defender after an even round, the attacker after an odd one).
pub proof fn lemma_turns_alternate(before: BattleState, after: BattleState)
    requires
        after.round == before.round + 1,
        after.attacker_id == before.attacker_id,
        after.defender_id == before.defender_id,
    ensures
        after.spec_who_attack() == if before.round % 2 == 0 {
            before.defender_id
        } else {
            before.attacker_id
        },
{
}

/// Every square a unit may move to is on the board and empty, and a unit
/// with turns left to wait may move nowhere.
pub proof fn lemma_moves_reach_empty_squares(s: BattleState, from: Position, t: Position)
    requires
        s.wf(),
        s.valid_square(from),
        s.spec_possible_moves(from).contains(t),
    ensures
        s.in_bounds(t.y as int, t.x as int),
        s.at(t.y as int, t.x as int) is None,
        s.at(from.y as int, from.x as int) matches Some(sel) && sel.delay == 0,
{
    let sel = s.at(from.y as int, from.x as int)->0;
    let defs = oriented(units::spec_moves(sel.unit_type), sel.owner_id == s.attacker_id);
    let f = s.move_step(from, sel);
    defs.lemma_filter_map_contains(f, t);
    let m = choose|m: Position| #[trigger] defs.contains(m) && f(m) == Some(t);
    assert(s.move_ok(from, sel, m));
}

/// The opening position is symmetric: each unit of country 1 faces a unit
/// of the same kind of country 2 in the mirrored column of its row.
pub proof fn lemma_template_mirrored(y: int, x: int)
    requires
        0 <= y < 7,
        0 <= x < 9,
    ensures
        template_square(y, x) matches Some((t, _, 1i32)) ==> template_square(y, 8 - x) matches Some((u, _, 2i32))
            && t == u,
        template_square(y, x) is None <==> template_square(y, 8 - x) is None,
{
}

/// A unit moved onto one of the squares `get_possible_moves` offers (all of
/// them empty) does not arrive: an empty square stays empty and the square
/// it left is emptied, so the unit leaves the board.
pub proof fn lemma_move_to_empty_square_loses_unit(s: BattleState, from: Position, t: Position)
    requires
        s.wf(),
        s.valid_square(from),
        s.spec_possible_moves(from).contains(t),
    ensures
        s.moved_square(from, t, s.at(from.y as int, from.x as int)->0, t.y as int, t.x as int) is None,
        s.moved_square(from, t, s.at(from.y as int, from.x as int)->0, from.y as int, from.x as int) is None,
{
    lemma_moves_reach_empty_squares(s, from, t);
}

} // verus!

verus! {

/// The square reached from `from` by the offset `m`, mirrored through `from`
/// for a unit of the defending side (`forward` false): `from + m` or
/// `from - m`, coordinate by coordinate.
pub open spec fn reached(from: Position, m: Position, forward: bool, t: Position) -> bool {
    if forward {
        t.y == from.y + m.y && t.x == from.x + m.x
    } else {
        t.y == from.y - m.y && t.x == from.x - m.x
    }
}

/// The table offset `m` is one that the side of the unit on `from` uses:
/// a member of `table`, and the square it reaches is `t`.
proof fn lemma_oriented_member(table: Seq<Position>, forward: bool, from: Position, t: Position, m2: Position)
    requires
        forall|i: int| 0 <= i < table.len() ==> units::small_offset(#[trigger] table[i]),
        oriented(table, forward).contains(m2),
        0 <= from.y <= i32::MAX - 4,
        0 <= from.x <= i32::MAX - 4,
        t == shift(from, m2),
    ensures
        exists|m: Position| #[trigger] table.contains(m) && reached(from, m, forward, t),
{
    let i = choose|i: int| 0 <= i < oriented(table, forward).len() && oriented(table, forward)[i] == m2;
    let m = table[i];
    assert(units::small_offset(m));
    assert(table.contains(m));
    assert(reached(from, m, forward, t));
}

/// A member of `table` gives the offset its side uses.
proof fn lemma_table_member(table: Seq<Position>, forward: bool, m: Position) -> (m2: Position)
    requires
        forall|i: int| 0 <= i < table.len() ==> units::small_offset(#[trigger] table[i]),
        table.contains(m),
    ensures
        oriented(table, forward).contains(m2),
        m2 == (if forward { m } else { flip(m) }),
        units::small_offset(m),
{
    let i = choose|i: int| 0 <= i < table.len() && table[i] == m;
    assert(units::small_offset(table[i]));
    let m2 = if forward { m } else { flip(m) };
    assert(oriented(table, forward)[i] == m2);
    m2
}

/// The squares a unit may move to follow its kind's move table: as written
/// for a unit of the attacking country, mirrored through its square for any
/// other. A square is offered exactly when some offset of the table reaches
/// it, it is on the board and empty, and the unit has no delay left.
pub proof fn lemma_moves_follow_table(s: BattleState, from: Position, t: Position)
    requires
        s.wf(),
        s.valid_square(from),
        s.at(from.y as int, from.x as int) is Some,
    ensures
        ({
            let sel = s.at(from.y as int, from.x as int)->0;
            s.spec_possible_moves(from).contains(t) <==> {
                &&& sel.delay == 0
                &&& s.in_bounds(t.y as int, t.x as int)
                &&& s.at(t.y as int, t.x as int) is None
                &&& exists|m: Position| #[trigger] units::spec_moves(sel.unit_type).contains(m)
                    && reached(from, m, sel.owner_id == s.attacker_id, t)
            }
        }),
{
    let sel = s.at(from.y as int, from.x as int)->0;
    let forward = sel.owner_id == s.attacker_id;
    let table = units::spec_moves(sel.unit_type);
    let defs = oriented(table, forward);
    let f = s.move_step(from, sel);
    units::lemma_offsets_small(sel.unit_type);
    if s.spec_possible_moves(from).contains(t) {
        defs.lemma_filter_map_contains(f, t);
        let m2 = choose|m2: Position| #[trigger] defs.contains(m2) && f(m2) == Some(t);
        assert(s.move_ok(from, sel, m2));
        lemma_oriented_member(table, forward, from, t, m2);
    }
    if sel.delay == 0 && s.in_bounds(t.y as int, t.x as int) && s.at(t.y as int, t.x as int) is None && exists|m: Position|
        #[trigger] table.contains(m) && reached(from, m, forward, t) {
        let m = choose|m: Position| #[trigger] table.contains(m) && reached(from, m, forward, t);
        let m2 = lemma_table_member(table, forward, m);
        assert(shift(from, m2) == t);
        assert(s.move_ok(from, sel, m2));
        round::lemma_filter_map_hit(defs, f, m2, t);
    }
}

/// The squares a unit may strike follow its kind's strike table: as written
/// for a unit of the attacking country, mirrored through its square for any
/// other. A square is offered exactly when some offset of the table reaches
/// it, it is on the board and holds a unit, and that unit belongs to another
/// country unless `ignore_self_piece` is set.
pub proof fn lemma_attacks_follow_table(s: BattleState, from: Position, ignore_self_piece: bool, t: Position)
    requires
        s.wf(),
        s.valid_square(from),
        s.at(from.y as int, from.x as int) is Some,
    ensures
        ({
            let sel = s.at(from.y as int, from.x as int)->0;
            s.spec_possible_attacks(from, ignore_self_piece).contains(t) <==> {
                &&& s.in_bounds(t.y as int, t.x as int)
                &&& s.at(t.y as int, t.x as int) is Some
                &&& (ignore_self_piece || s.at(t.y as int, t.x as int)->0.owner_id != sel.owner_id)
                &&& exists|m: Position| #[trigger] units::spec_attacks(sel.unit_type).contains(m)
                    && reached(from, m, sel.owner_id == s.attacker_id, t)
            }
        }),
{
    let sel = s.at(from.y as int, from.x as int)->0;
    let forward = sel.owner_id == s.attacker_id;
    let table = units::spec_attacks(sel.unit_type);
    let defs = oriented(table, forward);
    let f = s.attack_step(from, sel, ignore_self_piece);
    units::lemma_offsets_small(sel.unit_type);
    if s.spec_possible_attacks(from, ignore_self_piece).contains(t) {
        defs.lemma_filter_map_contains(f, t);
        let m2 = choose|m2: Position| #[trigger] defs.contains(m2) && f(m2) == Some(t);
        assert(s.attack_ok(from, sel, m2, ignore_self_piece));
        lemma_oriented_member(table, forward, from, t, m2);
    }
    if s.in_bounds(t.y as int, t.x as int) && s.at(t.y as int, t.x as int) is Some && (ignore_self_piece || s.at(
        t.y as int,
        t.x as int,
    )->0.owner_id != sel.owner_id) && exists|m: Position| #[trigger] table.contains(m) && reached(from, m, forward, t) {
        let m = choose|m: Position| #[trigger] table.contains(m) && reached(from, m, forward, t);
        let m2 = lemma_table_member(table, forward, m);
        assert(shift(from, m2) == t);
        assert(s.attack_ok(from, sel, m2, ignore_self_piece));
        round::lemma_filter_map_hit(defs, f, m2, t);
    }
}

} // verus!
