//! What a citizen decides to do: weighted plans, a tournament among them,
//! and the plan the daily step follows.

use super::{Citizen, Gender};
use crate::utils::{gen_index, percentage};
use vstd::prelude::*;

verus! {

/// The things a citizen may set out to do.
#[derive(Debug, Clone, Copy, PartialEq, Eq, Structural)]
pub enum Plan {
    AddFriend,
    AddFriendFromCommunity,
    UpdateFriend,
}

/// A plan and how strongly the citizen leans toward it.
#[derive(Debug, Clone, Copy, PartialEq, Eq, Structural)]
pub struct DecisionOption {
    pub name: Plan,
    pub weight: i32,
}

/// What a citizen's day leads to.
#[derive(Debug, Clone, Copy, PartialEq, Eq, Structural)]
pub enum CitizenAction {
    GiveBirth,
    Nothing,
}

pub open spec fn opt(name: Plan, weight: i32) -> DecisionOption {
    DecisionOption { name, weight }
}

/// The plans weighed each day, given how many people the citizen knows:
/// making a friend (5), making one through the community (100), and
/// tending a friendship (100). Knowing nobody rules out the first two;
/// knowing one or two people lowers tending to 20; knowing three or more
/// lowers the first two to 1 and 10.
pub open spec fn spec_daily_options(relation_count: nat) -> Seq<DecisionOption> {
    if relation_count == 0 {
        seq![opt(Plan::AddFriend, 0), opt(Plan::AddFriendFromCommunity, 0), opt(Plan::UpdateFriend, 100)]
    } else if relation_count < 3 {
        seq![opt(Plan::AddFriend, 5), opt(Plan::AddFriendFromCommunity, 100), opt(Plan::UpdateFriend, 20)]
    } else {
        seq![opt(Plan::AddFriend, 1), opt(Plan::AddFriendFromCommunity, 10), opt(Plan::UpdateFriend, 100)]
    }
}

/// The plans weighed when citizens seek friends, given how many people the
/// citizen knows: making a friend and tending one, both at 2. Knowing
/// nobody rules out tending; knowing one or two people raises making a
/// friend to 3; knowing more lowers it to 1.
pub open spec fn spec_friendship_options(relation_count: nat) -> Seq<DecisionOption> {
    if relation_count == 0 {
        seq![opt(Plan::AddFriend, 2), opt(Plan::UpdateFriend, 0)]
    } else if relation_count < 3 {
        seq![opt(Plan::AddFriend, 3), opt(Plan::UpdateFriend, 2)]
    } else {
        seq![opt(Plan::AddFriend, 1), opt(Plan::UpdateFriend, 2)]
    }
}

/// The daily plans; see `spec_daily_options`.
pub fn daily_options(relation_count: usize) -> (r: Vec<DecisionOption>)
    ensures
        r@ == spec_daily_options(relation_count as nat),
{
    let mut options = vec![
        DecisionOption { name: Plan::AddFriend, weight: 5 },
        DecisionOption { name: Plan::AddFriendFromCommunity, weight: 100 },
        DecisionOption { name: Plan::UpdateFriend, weight: 100 },
    ];
    if relation_count == 0 {
        options.set(0, DecisionOption { name: Plan::AddFriend, weight: 0 });
        options.set(1, DecisionOption { name: Plan::AddFriendFromCommunity, weight: 0 });
    } else if relation_count < 3 {
        options.set(2, DecisionOption { name: Plan::UpdateFriend, weight: 20 });
    } else {
        options.set(0, DecisionOption { name: Plan::AddFriend, weight: 1 });
        options.set(1, DecisionOption { name: Plan::AddFriendFromCommunity, weight: 10 });
    }
    assert(options@ =~= spec_daily_options(relation_count as nat));
    options
}

/// The friendship plans; see `spec_friendship_options`.
pub fn friendship_options(relation_count: usize) -> (r: Vec<DecisionOption>)
    ensures
        r@ == spec_friendship_options(relation_count as nat),
{
    let mut options = vec![
        DecisionOption { name: Plan::AddFriend, weight: 2 },
        DecisionOption { name: Plan::UpdateFriend, weight: 2 },
    ];
    if relation_count == 0 {
        options.set(1, DecisionOption { name: Plan::UpdateFriend, weight: 0 });
    } else if relation_count < 3 {
        options.set(0, DecisionOption { name: Plan::AddFriend, weight: 3 });
    } else {
        options.set(0, DecisionOption { name: Plan::AddFriend, weight: 1 });
    }
    assert(options@ =~= spec_friendship_options(relation_count as nat));
    options
}

/// The winner of a tournament: going through the entrants in order, each
/// one at least as heavy as the best so far takes its place; so the winner
/// is the last entrant of greatest weight.
pub open spec fn spec_winner(entrants: Seq<DecisionOption>) -> DecisionOption
    decreases entrants.len(),
{
    if entrants.len() <= 1 {
        entrants[0]
    } else {
        let best = spec_winner(entrants.drop_last());
        if best.weight > entrants.last().weight {
            best
        } else {
            entrants.last()
        }
    }
}

/// The entrants a list of picks selects from the options.
pub open spec fn entrants(options: Seq<DecisionOption>, picks: Seq<usize>) -> Seq<DecisionOption> {
    picks.map_values(|i: usize| options[i as int])
}

/// The winner is one of the entrants and no entrant outweighs it.
pub proof fn lemma_winner_is_heaviest(t: Seq<DecisionOption>)
    requires
        t.len() >= 1,
    ensures
        t.contains(spec_winner(t)),
        forall|i: int| 0 <= i < t.len() ==> (#[trigger] t[i]).weight <= spec_winner(t).weight,
    decreases t.len(),
{
    if t.len() > 1 {
        lemma_winner_is_heaviest(t.drop_last());
        let best = spec_winner(t.drop_last());
        let j = choose|j: int| 0 <= j < t.drop_last().len() && t.drop_last()[j] == best;
        assert(t[j] == best);
        assert(t[t.len() - 1] == t.last());
        assert forall|i: int| 0 <= i < t.len() implies (#[trigger] t[i]).weight <= spec_winner(t).weight by {
            if i < t.len() - 1 {
                assert(t[i] == t.drop_last()[i]);
            }
        }
    }
}

/// The tournament among the options named by `picks`, in that order; see
/// `spec_winner`.
pub fn tournament_winner(options: &Vec<DecisionOption>, picks: &Vec<usize>) -> (r: DecisionOption)
    requires
        picks@.len() >= 1,
        forall|i: int| 0 <= i < picks@.len() ==> (#[trigger] picks@[i]) < options@.len(),
    ensures
        r == spec_winner(entrants(options@, picks@)),
{
    let ghost t = entrants(options@, picks@);
    let mut best = options[picks[0]];
    let n = picks.len();
    assert(t.take(1) =~= seq![t[0]]);
    for i in 0..n
        invariant
            n == picks@.len(),
            n >= 1,
            t == entrants(options@, picks@),
            forall|k: int| 0 <= k < picks@.len() ==> (#[trigger] picks@[k]) < options@.len(),
            i == 0 ==> best == t[0],
            i > 0 ==> best == spec_winner(t.take(i as int)),
    {
        let entrant = options[picks[i]];
        assert(entrant == t[i as int]);
        if i == 0 {
            assert(t.take(1) =~= seq![t[0]]);
        } else {
            assert(t.take(i + 1).drop_last() =~= t.take(i as int));
        }
        if best.weight > entrant.weight {
        } else {
            best = entrant;
        }
    }
    assert(t.take(n as int) =~= t);
    best
}

/// A tournament among randomly picked options: half as many picks as
/// options (rounded down), each any option, repeats allowed, decided by
/// `tournament_winner`; whatever the picks, the winner is one of the options.
pub fn make_decision(options: &Vec<DecisionOption>) -> (r: DecisionOption)
    requires
        options@.len() >= 2,
    ensures
        options@.contains(r),
{
    let tournament_size = options.len() / 2;
    let mut picks: Vec<usize> = Vec::new();
    for k in 0..tournament_size
        invariant
            picks@.len() == k,
            tournament_size == options@.len() / 2,
            forall|i: int| 0 <= i < picks@.len() ==> (#[trigger] picks@[i]) < options@.len(),
            options@.len() >= 2,
    {
        picks.push(gen_index(options.len()));
    }
    assert(picks@.len() >= 1);
    let r = tournament_winner(options, &picks);
    proof {
        let t = entrants(options@, picks@);
        lemma_winner_is_heaviest(t);
        let j = choose|j: int| 0 <= j < t.len() && t[j] == r;
        assert(options@[picks@[j] as int] == r);
    }
    r
}

/// What the daily plan leads to: the plan followed is the third daily
/// option, tending a friendship, under which a woman has a child when
/// `birth_roll` comes up; a man never does.
pub fn plan_outcome(c: &Citizen, birth_roll: bool) -> (r: CitizenAction)
    ensures
        r == (if c.gender == Gender::Female && birth_roll {
            CitizenAction::GiveBirth
        } else {
            CitizenAction::Nothing
        }),
{
    let options = daily_options(c.relations.len());
    let decision = options[2];
    match decision.name {
        Plan::UpdateFriend => {
            if c.gender == Gender::Female && birth_roll {
                CitizenAction::GiveBirth
            } else {
                CitizenAction::Nothing
            }
        },
        _ => CitizenAction::Nothing,
    }
}

/// The citizen's day: a woman has a child one day in a thousand.
pub fn execute_decision(c: &Citizen) -> (r: CitizenAction)
    ensures
        c.gender == Gender::Male ==> r == CitizenAction::Nothing,
{
    let roll = c.gender == Gender::Female && percentage(1, 1000);
    plan_outcome(c, roll)
}

} // verus!
