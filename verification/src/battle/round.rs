//! What a round of battle does to the board, read through the cells' views:
//! the rules of one strike, the turn of one square, the row-major round, and
//! which draws a round may be played with.

use super::units::Position;
use super::{Board, Cell, CellView};
use vstd::prelude::*;

verus! {

/// The board as its contents read, row by row.
pub type BoardView = Seq<Seq<Option<CellView>>>;

/// One square's draw: the square struck, if any, and whether the strike lands.
pub type Draw = (Option<Position>, bool);

pub open spec fn square_view(c: Option<Cell>) -> Option<CellView> {
    match c {
        Some(c) => Some(c@),
        None => None,
    }
}

pub open spec fn board_view(board: Board) -> BoardView {
    board@.map_values(|row: Vec<Option<Cell>>| row@.map_values(|c: Option<Cell>| square_view(c)))
}

/// The length of the first row (none on an empty board).
pub open spec fn view_cols(b: BoardView) -> int {
    if b.len() > 0 {
        b[0].len() as int
    } else {
        0
    }
}

pub open spec fn view_in_bounds(b: BoardView, y: int, x: int) -> bool {
    0 <= y < b.len() && 0 <= x < view_cols(b)
}

/// Every row is as long as the first.
pub open spec fn rectangular(b: BoardView) -> bool {
    forall|y: int| 0 <= y < b.len() ==> (#[trigger] b[y]).len() == view_cols(b)
}

/// Square numbers of the board fit in `i32`.
pub open spec fn fits_i32(b: BoardView) -> bool {
    b.len() <= i32::MAX && view_cols(b) <= i32::MAX
}

/// Division rounding toward zero, as Rust's `/` does.
pub open spec fn trunc_div(a: int, b: int) -> int {
    if a >= 0 {
        a / b
    } else {
        -((-a) / b)
    }
}

/// The soldiers a strike of `attacker` costs `target`: the attack times the
/// attack-to-defense ratio, rounded toward zero.
pub open spec fn damage(attacker: CellView, target: CellView) -> int {
    attacker.attack * trunc_div(attacker.attack as int, target.defense as int)
}

/// The soldiers `target` has left after `attacker` strikes it: `damage`
/// fewer on a hit, as many as before when it evades.
pub open spec fn struck_manpower(attacker: CellView, target: CellView, hit: bool) -> int {
    if hit {
        target.manpower - damage(attacker, target)
    } else {
        target.manpower as int
    }
}

/// A strike of `attacker` on `target`, as the board stands at the start of
/// a round, can be computed in `i32`: the defense is not zero, the quotient
/// is not the overflowing `i32::MIN / -1`, the damage fits in `i32`, and the
/// soldiers left do not pass below `i32::MIN`. A negative damage adds
/// soldiers; how many a target may gain in a round `strikes_fit` bounds.
pub open spec fn strike_fits(attacker: CellView, target: CellView) -> bool {
    &&& target.defense != 0
    &&& !(attacker.attack == i32::MIN && target.defense == -1)
    &&& i32::MIN <= damage(attacker, target) <= i32::MAX
    &&& target.manpower - damage(attacker, target) >= i32::MIN
}

/// A strike that can be computed in `i32` as the board stands now:
/// `strike_fits`, and the soldiers left do not pass `i32::MAX` either.
pub open spec fn strike_computes(attacker: CellView, target: CellView) -> bool {
    &&& strike_fits(attacker, target)
    &&& target.manpower - damage(attacker, target) <= i32::MAX
}

/// Two cells hold the same unit with the same statistics; only the
/// soldiers and the message may differ.
pub open spec fn same_unit(a: CellView, b: CellView) -> bool {
    &&& a.delay == b.delay
    &&& a.attack == b.attack
    &&& a.defense == b.defense
    &&& a.evasion_percent == b.evasion_percent
    &&& a.unit_type == b.unit_type
    &&& a.unit_id == b.unit_id
    &&& a.owner_id == b.owner_id
}

/// Whether the unit of `owner` on `from` may strike by the offset `m`: the
/// square reached is on the board and holds a unit of another country.
pub open spec fn strike_ok(b: BoardView, from: Position, owner: i32, m: Position) -> bool {
    let t = super::shift(from, m);
    &&& view_in_bounds(b, from.y + m.y, from.x + m.x)
    &&& b[t.y as int][t.x as int] matches Some(d)
    &&& d.owner_id != owner
}

pub open spec fn strike_step(b: BoardView, from: Position, owner: i32) -> spec_fn(Position) -> Option<Position> {
    |m: Position| if strike_ok(b, from, owner, m) { Some(super::shift(from, m)) } else { None }
}

/// The squares the unit on `from` may strike, in the order of its strike
/// table (mirrored unless it belongs to `attacker_id`); none when `from` is
/// empty.
pub open spec fn targets(b: BoardView, attacker_id: i32, from: Position) -> Seq<Position> {
    match b[from.y as int][from.x as int] {
        Some(sel) => super::oriented(super::units::spec_attacks(sel.unit_type), sel.owner_id == attacker_id)
            .filter_map(strike_step(b, from, sel.owner_id)),
        None => Seq::empty(),
    }
}

/// The board with `v` on the square `(y, x)`.
pub open spec fn put(b: BoardView, y: int, x: int, v: Option<CellView>) -> BoardView {
    b.update(y, b[y].update(x, v))
}

/// The cell showing the message `text`.
pub open spec fn showing(c: CellView, text: Seq<char>) -> CellView {
    CellView { message: Some(text), ..c }
}

/// The target of a strike after it: removed once its soldiers fall below
/// zero, otherwise with the soldiers left and "hit!!" or "evasion!!".
pub open spec fn struck_target(attacker: CellView, target: CellView, hit: bool) -> Option<CellView> {
    let left = struck_manpower(attacker, target, hit);
    if left < 0 {
        None
    } else {
        Some(
            CellView {
                manpower: left as i32,
                message: Some(if hit { "hit!!"@ } else { "evasion!!"@ }),
                ..target
            },
        )
    }
}

/// The turn of the square `(y, x)` when `side` acts, with the draw
/// `(target, hit)`. An empty square stays empty. A unit of `side` with a
/// target strikes it (`struck_target`) and shows "attacked!!" on a hit and
/// an empty message otherwise; any other unit just shows an empty message.
pub open spec fn turn(b: BoardView, side: i32, y: int, x: int, target: Option<Position>, hit: bool) -> BoardView {
    match b[y][x] {
        None => b,
        Some(c) => if c.owner_id == side && target is Some {
            let t = target->0;
            let struck = put(b, t.y as int, t.x as int, struck_target(c, b[t.y as int][t.x as int]->0, hit));
            put(struck, y, x, Some(showing(c, if hit { "attacked!!"@ } else { Seq::empty() })))
        } else {
            put(b, y, x, Some(showing(c, Seq::empty())))
        },
    }
}

/// The board after the first `k` squares, in row-major order, have taken
/// their turns with the draws `draws`.
pub open spec fn round_upto(b: BoardView, side: i32, draws: Seq<Draw>, k: nat) -> BoardView
    decreases k,
{
    if k == 0 {
        b
    } else {
        let j = k - 1;
        let cols = view_cols(b);
        turn(round_upto(b, side, draws, (k - 1) as nat), side, j / cols, j % cols, draws[j].0, draws[j].1)
    }
}

/// The board after a whole round: every square has taken its turn.
pub open spec fn round_view(b: BoardView, side: i32, draws: Seq<Draw>) -> BoardView {
    round_upto(b, side, draws, (b.len() * view_cols(b)) as nat)
}

/// One draw per square, each naming as target, if any, a square that the
/// unit whose turn it is may strike at that point of the round.
pub open spec fn draws_valid(b: BoardView, attacker_id: i32, side: i32, draws: Seq<Draw>) -> bool {
    &&& draws.len() == b.len() * view_cols(b)
    &&& forall|k: int| 0 <= k < draws.len() ==> ((#[trigger] draws[k]).0 matches Some(t) ==> targets(
        round_upto(b, side, draws, k as nat),
        attacker_id,
        super::units::pos(k / view_cols(b), k % view_cols(b)),
    ).contains(t))
}

/// A draw as the round makes it for the square `(y, x)` of `p`: a target
/// exactly when the unit there belongs to `side` and may strike somewhere,
/// then one of the squares it may strike; no hit without a target; a target
/// that never evades (`evasion_percent` at most 0) is hit and one that
/// always does (at least 100) is not.
pub open spec fn fair_draw(p: BoardView, attacker_id: i32, side: i32, y: int, x: int, d: Draw) -> bool {
    let options = targets(p, attacker_id, super::units::pos(y, x));
    &&& (d.0 is None <==> !(p[y][x] matches Some(c) && c.owner_id == side && options.len() > 0))
    &&& (d.0 is None ==> !d.1)
    &&& (d.0 matches Some(t) ==> options.contains(t))
    &&& (d.0 matches Some(t) && p[t.y as int][t.x as int]->0.evasion_percent <= 0 ==> d.1)
    &&& (d.0 matches Some(t) && p[t.y as int][t.x as int]->0.evasion_percent >= 100 ==> !d.1)
}

/// The first `n` draws are fair, each for the board the round has reached.
pub open spec fn fair_prefix(b: BoardView, attacker_id: i32, side: i32, draws: Seq<Draw>, n: int) -> bool {
    forall|k: int| 0 <= k < n ==> fair_draw(
        round_upto(b, side, draws, k as nat),
        attacker_id,
        side,
        k / view_cols(b),
        k % view_cols(b),
        #[trigger] draws[k],
    )
}

/// One fair draw per square.
pub open spec fn fair_draws(b: BoardView, attacker_id: i32, side: i32, draws: Seq<Draw>) -> bool {
    &&& draws.len() == b.len() * view_cols(b)
    &&& fair_prefix(b, attacker_id, side, draws, draws.len() as int)
}

/// The soldiers a strike of `attacker` may add to `target`: minus the
/// damage when it is negative, none otherwise.
pub open spec fn gain_of(attacker: CellView, target: CellView) -> int {
    if damage(attacker, target) < 0 {
        -damage(attacker, target)
    } else {
        0
    }
}

/// The most soldiers the unit on `t` may gain from the turns of the first
/// `k` squares in row-major order: `gain_of` summed over the units of
/// `side` among them that may strike `t` at the start of the round.
pub open spec fn gain(b: BoardView, attacker_id: i32, side: i32, t: Position, k: nat) -> int
    decreases k,
{
    if k == 0 {
        0
    } else {
        let j = k - 1;
        let y = j / view_cols(b);
        let x = j % view_cols(b);
        gain(b, attacker_id, side, t, (k - 1) as nat) + match b[y][x] {
            Some(c) => if c.owner_id == side && targets(b, attacker_id, super::units::pos(y, x)).contains(t) {
                gain_of(c, b[t.y as int][t.x as int]->0)
            } else {
                0
            },
            None => 0,
        }
    }
}

/// Every strike a unit of `side` could make on `b` fits in `i32`, and no
/// unit would pass `i32::MAX` soldiers even if every unit of `side` that may
/// strike it did so with a negative damage.
pub open spec fn strikes_fit(b: BoardView, attacker_id: i32, side: i32) -> bool {
    &&& forall|y: int, x: int, t: Position|
        #![trigger targets(b, attacker_id, super::units::pos(y, x)).contains(t)]
        view_in_bounds(b, y, x) && (b[y][x] matches Some(c) && c.owner_id == side) && targets(
            b,
            attacker_id,
            super::units::pos(y, x),
        ).contains(t) ==> strike_fits(b[y][x]->0, b[t.y as int][t.x as int]->0)
    &&& forall|y: int, x: int| #![trigger b[y][x]]
        view_in_bounds(b, y, x) && b[y][x] is Some ==> b[y][x]->0.manpower + gain(
            b,
            attacker_id,
            side,
            super::units::pos(y, x),
            (b.len() * view_cols(b)) as nat,
        ) <= i32::MAX
}

/// `later` keeps the units of `b` in their places: the board keeps its
/// shape; every unit left was there before, with the same statistics; and
/// the units of `side` all remain, with their soldiers.
pub open spec fn kept(b: BoardView, later: BoardView, side: i32) -> bool {
    &&& later.len() == b.len()
    &&& forall|y: int| 0 <= y < b.len() ==> (#[trigger] later[y]).len() == b[y].len()
    &&& forall|y: int, x: int| #![trigger later[y][x]]
        view_in_bounds(b, y, x) ==> {
            &&& (later[y][x] matches Some(n) ==> {
                &&& b[y][x] matches Some(o)
                &&& same_unit(o, n)
                &&& (o.owner_id == side ==> n.manpower == o.manpower)
            })
            &&& (b[y][x] matches Some(o) && o.owner_id == side ==> later[y][x] is Some)
        }
}

/// `later` arises from `b` by the turns of its first `k` squares: it
/// `kept` the units of `b`; a unit whose soldiers changed has none below
/// zero; and no unit has gained more soldiers than `gain` allows (a unit
/// that only lost soldiers has no more than before).
pub open spec fn struck_by(b: BoardView, later: BoardView, attacker_id: i32, side: i32, k: nat) -> bool {
    &&& kept(b, later, side)
    &&& forall|y: int, x: int| #![trigger later[y][x]]
        view_in_bounds(b, y, x) && later[y][x] is Some ==> {
            &&& (later[y][x]->0.manpower == b[y][x]->0.manpower || later[y][x]->0.manpower >= 0)
            &&& later[y][x]->0.manpower <= b[y][x]->0.manpower + gain(
                b,
                attacker_id,
                side,
                super::units::pos(y, x),
                k,
            )
        }
}

/// Dividing by a negative number gives minus the quotient by its size.
proof fn lemma_div_negative(a: int, d: int)
    requires
        d < 0,
    ensures
        a / d == -(a / (-d)),
{
    let e = -d;
    let q = a / e;
    let r = a % e;
    vstd::arithmetic::div_mod::lemma_fundamental_div_mod(a, e);
    assert(0 <= r < e) by {
        vstd::arithmetic::div_mod::lemma_mod_bound(a, e);
    }
    assert(a == d * (-q) + r) by (nonlinear_arith)
        requires a == e * q + r, e == -d;
    assert(a / d == -q) by (nonlinear_arith)
        requires a == d * (-q) + r, 0 <= r, r < -d, d < 0;
}

/// The quotient rounded toward zero of two `i32` fits in `i32`, but for
/// `i32::MIN / -1`.
pub proof fn lemma_trunc_div_range(a: int, d: int)
    requires
        d != 0,
        i32::MIN <= a <= i32::MAX,
        !(a == i32::MIN && d == -1),
    ensures
        i32::MIN <= trunc_div(a, d) <= i32::MAX,
{
    if d > 0 {
        if a >= 0 {
            assert(0 <= a / d <= a) by (nonlinear_arith)
                requires a >= 0, d > 0;
        } else {
            let b = -a;
            assert(0 <= b / d <= b) by (nonlinear_arith)
                requires b > 0, d > 0;
        }
    } else {
        let e = -d;
        if a >= 0 {
            lemma_div_negative(a, d);
            assert(0 <= a / e <= a) by (nonlinear_arith)
                requires a >= 0, e > 0;
        } else {
            let b = -a;
            lemma_div_negative(b, d);
            assert(0 <= b / e <= b) by (nonlinear_arith)
                requires b > 0, e > 0;
            if b == 0x8000_0000 {
                assert(b / e < b) by (nonlinear_arith)
                    requires b > 0, e >= 2;
            }
        }
    }
}

/// Each turn can only add to what a unit may gain.
pub proof fn lemma_gain_grows(b: BoardView, attacker_id: i32, side: i32, t: Position, j: nat, k: nat)
    requires
        j <= k,
    ensures
        gain(b, attacker_id, side, t, j) <= gain(b, attacker_id, side, t, k),
    decreases k,
{
    if j < k {
        lemma_gain_grows(b, attacker_id, side, t, j, (k - 1) as nat);
    }
}

/// An element that `f` maps to `t` puts `t` into the `filter_map`.
pub proof fn lemma_filter_map_hit<A, B>(s: Seq<A>, f: spec_fn(A) -> Option<B>, a: A, t: B)
    requires
        s.contains(a),
        f(a) == Some(t),
    ensures
        s.filter_map(f).contains(t),
    decreases s.len(),
{
    let rest = s.drop_last();
    if s.last() == a {
        assert(s.filter_map(f) == rest.filter_map(f) + seq![t]);
        assert(s.filter_map(f)[rest.filter_map(f).len() as int] == t);
    } else {
        let i = choose|i: int| 0 <= i < s.len() && s[i] == a;
        assert(rest[i] == a);
        lemma_filter_map_hit(rest, f, a, t);
        let j = choose|j: int| 0 <= j < rest.filter_map(f).len() && rest.filter_map(f)[j] == t;
        match f(s.last()) {
            Some(v) => assert(s.filter_map(f)[j] == t),
            None => {},
        }
    }
}

/// Every square the unit on `from` may strike is on the board and holds a
/// unit of another country.
pub proof fn lemma_target_square(b: BoardView, attacker_id: i32, from: Position, t: Position)
    requires
        fits_i32(b),
        view_in_bounds(b, from.y as int, from.x as int),
        targets(b, attacker_id, from).contains(t),
    ensures
        view_in_bounds(b, t.y as int, t.x as int),
        b[t.y as int][t.x as int] matches Some(d) && d.owner_id != b[from.y as int][from.x as int]->0.owner_id,
{
    let sel = b[from.y as int][from.x as int]->0;
    let defs = super::oriented(super::units::spec_attacks(sel.unit_type), sel.owner_id == attacker_id);
    let f = strike_step(b, from, sel.owner_id);
    defs.lemma_filter_map_contains(f, t);
    let m = choose|m: Position| #[trigger] defs.contains(m) && f(m) == Some(t);
    assert(strike_ok(b, from, sel.owner_id, m));
}

/// What a unit may strike can only shrink as a round goes on: a square it
/// may strike on a later board it could already strike at the start.
pub proof fn lemma_targets_shrink(b: BoardView, later: BoardView, attacker_id: i32, side: i32, from: Position, t: Position)
    requires
        rectangular(b),
        fits_i32(b),
        kept(b, later, side),
        view_in_bounds(b, from.y as int, from.x as int),
        targets(later, attacker_id, from).contains(t),
    ensures
        targets(b, attacker_id, from).contains(t),
{
    let fy = from.y as int;
    let fx = from.x as int;
    assert(later[fy][fx] is Some);
    let n = later[fy][fx]->0;
    let o = b[fy][fx]->0;
    let defs = super::oriented(super::units::spec_attacks(n.unit_type), n.owner_id == attacker_id);
    let fl = strike_step(later, from, n.owner_id);
    let fb = strike_step(b, from, o.owner_id);
    defs.lemma_filter_map_contains(fl, t);
    let m = choose|m: Position| #[trigger] defs.contains(m) && fl(m) == Some(t);
    assert(strike_ok(later, from, n.owner_id, m));
    assert(later[0].len() == b[0].len());
    let ty = t.y as int;
    let tx = t.x as int;
    assert(later[ty][tx] is Some);
    assert(strike_ok(b, from, o.owner_id, m));
    assert(fb(m) == Some(t));
    lemma_filter_map_hit(defs, fb, m, t);
}

/// The square `(y, x)` is number `y * cols + x` in row-major order.
pub proof fn lemma_square_number(b: BoardView, y: int, x: int)
    requires
        view_in_bounds(b, y, x),
    ensures
        (y * view_cols(b) + x) / view_cols(b) == y,
        (y * view_cols(b) + x) % view_cols(b) == x,
        0 <= y * view_cols(b) + x < b.len() * view_cols(b),
{
    let cols = view_cols(b);
    vstd::arithmetic::div_mod::lemma_fundamental_div_mod_converse(y * cols + x, cols, y, x);
    assert(0 <= y * cols + x < b.len() * cols) by (nonlinear_arith)
        requires 0 <= y < b.len(), 0 <= x < cols;
}

/// Once a round is under way, at the turn of the square `(y, x)` (number
/// `k`), a strike of a unit of `side` can be computed in `i32` if the
/// strikes of the start of the round fit: the striking unit is unchanged,
/// and its target has its first soldiers or none below zero, and no more
/// than `gain` allows; after the strike it has no more than `gain` allows
/// once this turn is counted.
pub proof fn lemma_strike_still_fits(
    b: BoardView,
    later: BoardView,
    attacker_id: i32,
    side: i32,
    y: int,
    x: int,
    t: Position,
    k: nat,
)
    requires
        rectangular(b),
        fits_i32(b),
        struck_by(b, later, attacker_id, side, k),
        strikes_fit(b, attacker_id, side),
        view_in_bounds(b, y, x),
        k == y * view_cols(b) + x,
        later[y][x] matches Some(c) && c.owner_id == side,
        targets(later, attacker_id, super::units::pos(y, x)).contains(t),
    ensures
        strike_computes(later[y][x]->0, later[t.y as int][t.x as int]->0),
        later[t.y as int][t.x as int]->0.manpower - damage(later[y][x]->0, later[t.y as int][t.x as int]->0)
            <= b[t.y as int][t.x as int]->0.manpower + gain(b, attacker_id, side, t, k + 1),
{
    let from = super::units::pos(y, x);
    let cols = view_cols(b);
    assert(later[0].len() == b[0].len());
    lemma_target_square(later, attacker_id, from, t);
    lemma_targets_shrink(b, later, attacker_id, side, from, t);
    lemma_square_number(b, y, x);
    let ty = t.y as int;
    let tx = t.x as int;
    assert(later[y][x] is Some);
    assert(later[ty][tx] is Some);
    assert(view_in_bounds(b, ty, tx));
    let c = later[y][x]->0;
    let e = later[ty][tx]->0;
    let o = b[y][x]->0;
    let eb = b[ty][tx]->0;
    assert(strike_fits(o, eb));
    assert(damage(c, e) == damage(o, eb));
    assert(super::units::pos(ty, tx) == t);
    let total = (b.len() * cols) as nat;
    assert(gain(b, attacker_id, side, t, k + 1) == gain(b, attacker_id, side, t, k) + gain_of(o, eb));
    lemma_gain_grows(b, attacker_id, side, t, k + 1, total);
    assert(eb.manpower + gain(b, attacker_id, side, super::units::pos(ty, tx), total) <= i32::MAX);
}

/// One turn keeps the units of `b` in their places, when the draw names a
/// square the unit may strike.
pub proof fn lemma_turn_kept(
    b: BoardView,
    later: BoardView,
    attacker_id: i32,
    side: i32,
    y: int,
    x: int,
    target: Option<Position>,
    hit: bool,
)
    requires
        rectangular(b),
        fits_i32(b),
        kept(b, later, side),
        view_in_bounds(b, y, x),
        target matches Some(t) ==> targets(later, attacker_id, super::units::pos(y, x)).contains(t),
    ensures
        kept(b, turn(later, side, y, x, target, hit), side),
{
    let next = turn(later, side, y, x, target, hit);
    assert(later[0].len() == b[0].len());
    let struck = later[y][x] is Some && later[y][x]->0.owner_id == side && target is Some;
    if struck {
        lemma_target_square(later, attacker_id, super::units::pos(y, x), target->0);
    }
    assert forall|j: int| 0 <= j < b.len() implies (#[trigger] next[j]).len() == b[j].len() by {
        assert(later[j].len() == b[j].len());
    }
    assert forall|j: int, i: int| #![trigger next[j][i]] view_in_bounds(b, j, i) implies {
        &&& (next[j][i] matches Some(n) ==> {
            &&& b[j][i] matches Some(o)
            &&& same_unit(o, n)
            &&& (o.owner_id == side ==> n.manpower == o.manpower)
        })
        &&& (b[j][i] matches Some(o) && o.owner_id == side ==> next[j][i] is Some)
    } by {
        assert(later[j][i] == later[j][i]);
        if j == y && i == x {
        } else if struck && j == target->0.y && i == target->0.x {
        } else {
            assert(next[j][i] == later[j][i]);
        }
    }
}

/// One turn, the turn of square number `k`, keeps the board arising from
/// `b` by strikes of `side`, when the draw names a square the unit may
/// strike and the strikes of `b` fit.
pub proof fn lemma_turn_struck(
    b: BoardView,
    later: BoardView,
    attacker_id: i32,
    side: i32,
    y: int,
    x: int,
    target: Option<Position>,
    hit: bool,
    k: nat,
)
    requires
        rectangular(b),
        fits_i32(b),
        struck_by(b, later, attacker_id, side, k),
        strikes_fit(b, attacker_id, side),
        view_in_bounds(b, y, x),
        k == y * view_cols(b) + x,
        target matches Some(t) ==> targets(later, attacker_id, super::units::pos(y, x)).contains(t),
    ensures
        struck_by(b, turn(later, side, y, x, target, hit), attacker_id, side, k + 1),
{
    let next = turn(later, side, y, x, target, hit);
    lemma_turn_kept(b, later, attacker_id, side, y, x, target, hit);
    assert(later[0].len() == b[0].len());
    let struck = later[y][x] is Some && later[y][x]->0.owner_id == side && target is Some;
    if struck {
        lemma_target_square(later, attacker_id, super::units::pos(y, x), target->0);
        lemma_strike_still_fits(b, later, attacker_id, side, y, x, target->0, k);
    }
    assert forall|j: int, i: int| #![trigger next[j][i]] view_in_bounds(b, j, i) && next[j][i] is Some implies {
        &&& (next[j][i]->0.manpower == b[j][i]->0.manpower || next[j][i]->0.manpower >= 0)
        &&& next[j][i]->0.manpower <= b[j][i]->0.manpower + gain(
            b,
            attacker_id,
            side,
            super::units::pos(j, i),
            k + 1,
        )
    } by {
        assert(later[j][i] == later[j][i]);
        lemma_gain_grows(b, attacker_id, side, super::units::pos(j, i), k, k + 1);
        if j == y && i == x {
        } else if struck && j == target->0.y && i == target->0.x {
            assert(super::units::pos(j, i) == target->0);
        } else {
            assert(next[j][i] == later[j][i]);
        }
    }
}

/// The first `k` turns of a round depend on the first `k` draws only.
pub proof fn lemma_round_prefix(b: BoardView, side: i32, d1: Seq<Draw>, d2: Seq<Draw>, k: nat)
    requires
        k <= d1.len(),
        k <= d2.len(),
        forall|j: int| 0 <= j < k ==> d1[j] == d2[j],
    ensures
        round_upto(b, side, d1, k) == round_upto(b, side, d2, k),
    decreases k,
{
    if k > 0 {
        lemma_round_prefix(b, side, d1, d2, (k - 1) as nat);
        assert(d1[k - 1] == d2[k - 1]);
    }
}

/// Every turn of a round keeps the units of `b` in their places.
pub proof fn lemma_round_kept(b: BoardView, attacker_id: i32, side: i32, draws: Seq<Draw>, k: nat)
    requires
        rectangular(b),
        fits_i32(b),
        draws_valid(b, attacker_id, side, draws),
        k <= draws.len(),
    ensures
        kept(b, round_upto(b, side, draws, k), side),
    decreases k,
{
    if k > 0 {
        let j = k - 1;
        let cols = view_cols(b);
        lemma_round_kept(b, attacker_id, side, draws, (k - 1) as nat);
        lemma_square_of(b, j);
        assert(draws[j] == draws[j]);
        lemma_turn_kept(b, round_upto(b, side, draws, (k - 1) as nat), attacker_id, side, j / cols, j % cols, draws[j].0, draws[j].1);
    }
}

/// Every turn of a round keeps the board arising from `b` by strikes of
/// `side` (`struck_by`).
pub proof fn lemma_round_struck(b: BoardView, attacker_id: i32, side: i32, draws: Seq<Draw>, k: nat)
    requires
        rectangular(b),
        fits_i32(b),
        strikes_fit(b, attacker_id, side),
        draws_valid(b, attacker_id, side, draws),
        k <= draws.len(),
    ensures
        struck_by(b, round_upto(b, side, draws, k), attacker_id, side, k),
    decreases k,
{
    if k > 0 {
        let j = k - 1;
        let cols = view_cols(b);
        lemma_round_struck(b, attacker_id, side, draws, (k - 1) as nat);
        lemma_square_of(b, j);
        vstd::arithmetic::div_mod::lemma_fundamental_div_mod(j, cols);
        assert(j == (j / cols) * cols + j % cols) by (nonlinear_arith)
            requires j == cols * (j / cols) + j % cols;
        assert(draws[j] == draws[j]);
        lemma_turn_struck(
            b,
            round_upto(b, side, draws, (k - 1) as nat),
            attacker_id,
            side,
            j / cols,
            j % cols,
            draws[j].0,
            draws[j].1,
            (k - 1) as nat,
        );
    }
}

/// The `k`-th square in row-major order is on a rectangular board of
/// `rows * cols` squares.
pub proof fn lemma_square_of(b: BoardView, k: int)
    requires
        0 <= k < b.len() * view_cols(b),
    ensures
        view_in_bounds(b, k / view_cols(b), k % view_cols(b)),
{
    let cols = view_cols(b);
    assert(cols > 0) by (nonlinear_arith)
        requires 0 <= k < b.len() * cols, b.len() >= 0, cols >= 0;
    assert(k / cols < b.len()) by (nonlinear_arith)
        requires 0 <= k < b.len() * cols, cols > 0;
    assert(0 <= k / cols) by (nonlinear_arith)
        requires 0 <= k, cols > 0;
}

/// Fair draws are valid draws: a round played with them is one that
/// `end_round_with` plays.
pub proof fn lemma_fair_draws_valid(b: BoardView, attacker_id: i32, side: i32, draws: Seq<Draw>)
    requires
        fair_draws(b, attacker_id, side, draws),
    ensures
        draws_valid(b, attacker_id, side, draws),
{
    assert forall|k: int| 0 <= k < draws.len() implies ((#[trigger] draws[k]).0 matches Some(t) ==> targets(
        round_upto(b, side, draws, k as nat),
        attacker_id,
        super::units::pos(k / view_cols(b), k % view_cols(b)),
    ).contains(t)) by {
        assert(fair_draw(
            round_upto(b, side, draws, k as nat),
            attacker_id,
            side,
            k / view_cols(b),
            k % view_cols(b),
            draws[k],
        ));
    }
}

/// No unit of `side` on `b` may strike anything.
pub open spec fn no_strikes(b: BoardView, attacker_id: i32, side: i32) -> bool {
    forall|y: int, x: int| #![trigger b[y][x]]
        view_in_bounds(b, y, x) && (b[y][x] matches Some(c) && c.owner_id == side) ==> targets(
            b,
            attacker_id,
            super::units::pos(y, x),
        ).len() == 0
}

/// The board with every unit on the first `k` squares, in row-major order,
/// showing an empty message.
pub open spec fn hushed(b: BoardView, k: int) -> BoardView {
    Seq::new(
        b.len(),
        |y: int|
            Seq::new(
                b[y].len(),
                |x: int|
                    if y * view_cols(b) + x < k && b[y][x] is Some {
                        Some(showing(b[y][x]->0, Seq::empty()))
                    } else {
                        b[y][x]
                    },
            ),
    )
}

/// A round in which no unit of the side to act can strike anything changes
/// nothing on the board but the messages: every unit ends up showing an
/// empty message.
pub proof fn lemma_quiet_round(b: BoardView, attacker_id: i32, side: i32, draws: Seq<Draw>)
    requires
        rectangular(b),
        fits_i32(b),
        no_strikes(b, attacker_id, side),
        draws_valid(b, attacker_id, side, draws),
    ensures
        round_view(b, side, draws) == hushed(b, b.len() * view_cols(b)),
{
    lemma_quiet_prefix(b, attacker_id, side, draws, draws.len());
}

proof fn lemma_quiet_prefix(b: BoardView, attacker_id: i32, side: i32, draws: Seq<Draw>, k: nat)
    requires
        rectangular(b),
        fits_i32(b),
        no_strikes(b, attacker_id, side),
        draws_valid(b, attacker_id, side, draws),
        k <= draws.len(),
    ensures
        round_upto(b, side, draws, k) == hushed(b, k as int),
    decreases k,
{
    let cols = view_cols(b);
    let h = hushed(b, k as int);
    if k == 0 {
        assert forall|y: int| 0 <= y < b.len() implies #[trigger] h[y] == b[y] by {
            assert forall|x: int| 0 <= x < b[y].len() implies h[y][x] == b[y][x] by {
                assert(y * cols + x >= 0) by (nonlinear_arith)
                    requires 0 <= y, 0 <= x, cols >= 0;
            }
            assert(h[y] =~= b[y]);
        }
        assert(h =~= b);
    } else {
        let j = k - 1;
        lemma_quiet_prefix(b, attacker_id, side, draws, (k - 1) as nat);
        lemma_square_of(b, j);
        let y = j / cols;
        let x = j % cols;
        let p = round_upto(b, side, draws, (k - 1) as nat);
        vstd::arithmetic::div_mod::lemma_fundamental_div_mod(j, cols);
        assert(p[y][x] == b[y][x]);
        let d = draws[j];
        if b[y][x] is Some && b[y][x]->0.owner_id == side && d.0 is Some {
            let t = d.0->0;
            lemma_round_kept(b, attacker_id, side, draws, (k - 1) as nat);
            lemma_targets_shrink(b, p, attacker_id, side, super::units::pos(y, x), t);
            assert(targets(b, attacker_id, super::units::pos(y, x)).len() == 0);
        }
        let next = turn(p, side, y, x, d.0, d.1);
        assert forall|r: int| 0 <= r < b.len() implies #[trigger] next[r] == h[r] by {
            assert forall|i: int| 0 <= i < b[r].len() implies next[r][i] == h[r][i] by {
                if r == y && i == x {
                } else {
                    if r * cols + i == j {
                        vstd::arithmetic::div_mod::lemma_fundamental_div_mod_converse(j, cols, r, i);
                    }
                }
            }
            assert(next[r] =~= h[r]);
        }
        assert(next =~= h);
    }
}

/// The messages a round leaves: an empty one; "attacked!!" on a unit of
/// `side` that landed a strike; "hit!!" or "evasion!!" on a unit of another
/// country that was struck.
pub open spec fn round_message(c: CellView, side: i32) -> bool {
    ||| c.message == Some(Seq::<char>::empty())
    ||| c.message == Some("attacked!!"@) && c.owner_id == side
    ||| (c.message == Some("hit!!"@) || c.message == Some("evasion!!"@)) && c.owner_id != side
}

/// After the first `k` turns, the units on those squares show a round's
/// message; the others show a round's message or the one they had.
pub open spec fn messages_upto(b: BoardView, p: BoardView, side: i32, k: int) -> bool {
    forall|y: int, x: int| #![trigger p[y][x]]
        view_in_bounds(b, y, x) && p[y][x] is Some ==> {
            ||| round_message(p[y][x]->0, side)
            ||| y * view_cols(b) + x >= k && b[y][x] is Some && p[y][x]->0.message == b[y][x]->0.message
        }
}

/// After a round every unit shows one of a round's messages: an empty one,
/// "attacked!!" on a unit of the side that acted and landed a strike, or
/// "hit!!" or "evasion!!" on a unit of the other country that was struck.
pub proof fn lemma_round_messages(b: BoardView, attacker_id: i32, side: i32, draws: Seq<Draw>)
    requires
        rectangular(b),
        fits_i32(b),
        draws_valid(b, attacker_id, side, draws),
    ensures
        forall|y: int, x: int| #![trigger round_view(b, side, draws)[y][x]]
            view_in_bounds(b, y, x) && round_view(b, side, draws)[y][x] is Some ==> round_message(
                round_view(b, side, draws)[y][x]->0,
                side,
            ),
{
    let n = draws.len();
    lemma_messages_prefix(b, attacker_id, side, draws, n);
    let p = round_view(b, side, draws);
    assert forall|y: int, x: int| #![trigger p[y][x]] view_in_bounds(b, y, x) && p[y][x] is Some implies round_message(
        p[y][x]->0,
        side,
    ) by {
        assert(y * view_cols(b) + x < n) by (nonlinear_arith)
            requires 0 <= y < b.len(), 0 <= x < view_cols(b), n == b.len() * view_cols(b);
    }
}

proof fn lemma_messages_prefix(b: BoardView, attacker_id: i32, side: i32, draws: Seq<Draw>, k: nat)
    requires
        rectangular(b),
        fits_i32(b),
        draws_valid(b, attacker_id, side, draws),
        k <= draws.len(),
    ensures
        messages_upto(b, round_upto(b, side, draws, k), side, k as int),
    decreases k,
{
    let cols = view_cols(b);
    if k == 0 {
        assert forall|y: int, x: int| #![trigger b[y][x]] view_in_bounds(b, y, x) && b[y][x] is Some implies {
            ||| round_message(b[y][x]->0, side)
            ||| y * cols + x >= 0 && b[y][x] is Some && b[y][x]->0.message == b[y][x]->0.message
        } by {
            assert(y * cols + x >= 0) by (nonlinear_arith)
                requires 0 <= y, 0 <= x, cols >= 0;
        }
    } else {
        let j = k - 1;
        lemma_messages_prefix(b, attacker_id, side, draws, (k - 1) as nat);
        lemma_round_kept(b, attacker_id, side, draws, (k - 1) as nat);
        lemma_square_of(b, j);
        let y = j / cols;
        let x = j % cols;
        vstd::arithmetic::div_mod::lemma_fundamental_div_mod(j, cols);
        let p = round_upto(b, side, draws, (k - 1) as nat);
        let d = draws[j];
        let next = turn(p, side, y, x, d.0, d.1);
        assert(p[0].len() == b[0].len());
        if p[y][x] is Some && p[y][x]->0.owner_id == side && d.0 is Some {
            lemma_target_square(p, attacker_id, super::units::pos(y, x), d.0->0);
        }
        assert forall|r: int, i: int| #![trigger next[r][i]] view_in_bounds(b, r, i) && next[r][i] is Some implies {
            ||| round_message(next[r][i]->0, side)
            ||| r * cols + i >= k && b[r][i] is Some && next[r][i]->0.message == b[r][i]->0.message
        } by {
            assert(p[r][i] == p[r][i]);
            if r == y && i == x {
            } else if p[y][x] is Some && p[y][x]->0.owner_id == side && d.0 is Some && r == d.0->0.y && i
                == d.0->0.x {
            } else {
                assert(next[r][i] == p[r][i]);
                if r * cols + i == j {
                    vstd::arithmetic::div_mod::lemma_fundamental_div_mod_converse(j, cols, r, i);
                }
            }
        }
    }
}

/// A unit small enough that any strike on or by another such unit fits in
/// `i32`: a positive defense, an attack of at most 46340 either way
/// (`46340 * 46340 <= i32::MAX`), and at least -88048 soldiers
/// (`i32::MIN + 46340 * 46340 == -88048`).
pub open spec fn small_unit(c: CellView) -> bool {
    &&& 0 < c.defense
    &&& -46340 <= c.attack <= 46340
    &&& c.manpower >= -88048
}

/// Every unit on the board is small.
pub open spec fn small_units(b: BoardView) -> bool {
    forall|y: int, x: int| #![trigger b[y][x]] view_in_bounds(b, y, x) && b[y][x] is Some ==> small_unit(b[y][x]->0)
}

proof fn lemma_damage_bounds(a: int, d: int)
    requires
        -46340 <= a <= 46340,
        d >= 1,
    ensures
        0 <= a * trunc_div(a, d) <= 46340 * 46340,
{
    if a >= 0 {
        assert(0 <= a / d <= a) by (nonlinear_arith)
            requires a >= 0, d >= 1;
        assert(0 <= a * (a / d) <= a * a) by (nonlinear_arith)
            requires 0 <= a / d <= a, a >= 0;
        assert(a * a <= 46340 * 46340) by (nonlinear_arith)
            requires 0 <= a <= 46340;
    } else {
        let b = -a;
        assert(0 <= b / d <= b) by (nonlinear_arith)
            requires b >= 0, d >= 1;
        assert(0 <= b * (b / d) <= b * b) by (nonlinear_arith)
            requires 0 <= b / d <= b, b >= 0;
        assert(b * b <= 46340 * 46340) by (nonlinear_arith)
            requires 0 <= b <= 46340;
        assert(a * trunc_div(a, d) == b * (b / d)) by (nonlinear_arith)
            requires b == -a, trunc_div(a, d) == -(b / d);
    }
}

/// On a board of small units every strike fits in `i32`.
pub proof fn lemma_small_units_fit(b: BoardView, attacker_id: i32, side: i32)
    requires
        fits_i32(b),
        small_units(b),
    ensures
        strikes_fit(b, attacker_id, side),
{
    assert forall|y: int, x: int, t: Position|
        #![trigger targets(b, attacker_id, super::units::pos(y, x)).contains(t)]
        view_in_bounds(b, y, x) && (b[y][x] matches Some(c) && c.owner_id == side) && targets(
            b,
            attacker_id,
            super::units::pos(y, x),
        ).contains(t) implies strike_fits(b[y][x]->0, b[t.y as int][t.x as int]->0) by {
        lemma_target_square(b, attacker_id, super::units::pos(y, x), t);
        let c = b[y][x]->0;
        let e = b[t.y as int][t.x as int]->0;
        assert(small_unit(c));
        assert(small_unit(e));
        lemma_damage_bounds(c.attack as int, e.defense as int);
    }
    let total = (b.len() * view_cols(b)) as nat;
    assert forall|y: int, x: int| #![trigger b[y][x]] view_in_bounds(b, y, x) && b[y][x] is Some implies b[y][x]->0.manpower
        + gain(b, attacker_id, side, super::units::pos(y, x), total) <= i32::MAX by {
        lemma_small_gain(b, attacker_id, side, super::units::pos(y, x), total);
    }
}

/// Among small units no strike adds soldiers, so no unit gains any.
proof fn lemma_small_gain(b: BoardView, attacker_id: i32, side: i32, t: Position, k: nat)
    requires
        fits_i32(b),
        small_units(b),
        k <= b.len() * view_cols(b),
    ensures
        gain(b, attacker_id, side, t, k) == 0,
    decreases k,
{
    if k > 0 {
        let j = k - 1;
        lemma_small_gain(b, attacker_id, side, t, (k - 1) as nat);
        lemma_square_of(b, j);
        let y = j / view_cols(b);
        let x = j % view_cols(b);
        if b[y][x] is Some && b[y][x]->0.owner_id == side && targets(b, attacker_id, super::units::pos(y, x)).contains(t) {
            lemma_target_square(b, attacker_id, super::units::pos(y, x), t);
            let c = b[y][x]->0;
            let e = b[t.y as int][t.x as int]->0;
            assert(small_unit(c));
            assert(small_unit(e));
            lemma_damage_bounds(c.attack as int, e.defense as int);
        }
    }
}

} // verus!

