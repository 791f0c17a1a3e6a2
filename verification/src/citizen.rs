//! Citizens: who they are, whom they know, what they earn, and the rules
//! that decide what they do each day.

pub mod decision;

use crate::utils::{percentage, pick, roll_die, roll_hits};
use std::collections::HashMap;
use vstd::prelude::*;

verus! {

#[derive(Debug, Clone, Copy, PartialEq, Eq, Structural)]
pub enum Gender {
    Male,
    Female,
}

/// How one citizen stands to another.
#[derive(Debug, Clone, Copy, PartialEq, Eq, Structural)]
pub enum RelationType {
    Child,
    Parent,
    Sibling,
    Partner,
    Acquaintance,
    Clan,
}

/// What a citizen knows of another one.
#[derive(Debug, Clone)]
pub struct Relation {
    pub id: i32,
    pub name: String,
    pub impression: i32,
    pub relation_type: RelationType,
    pub last_met_timestamp: u32,
}

/// A citizen. `relations` maps the id of each person the citizen knows to
/// what the citizen knows of them.
#[derive(Debug, Clone)]
pub struct Citizen {
    pub id: i32,
    pub name: String,
    pub born_timestamp: u32,
    pub death_timestamp: Option<u32>,
    pub gender: Gender,
    pub job: Option<String>,
    pub staying_city_id: i32,
    pub home_city_id: i32,
    pub country_id: Option<i32>,
    pub relations: HashMap<i32, Relation>,
    pub level: u16,
    pub rank: u16,
    pub exp: u16,
    pub skill_points: u16,
    pub money: u16,
}

/// A citizen as stored, without relations and with the gender as text.
#[derive(Debug, Clone)]
pub struct DBCitizen {
    pub id: i32,
    pub name: String,
    pub born_timestamp: u32,
    pub death_timestamp: Option<u32>,
    pub gender: String,
    pub job: Option<String>,
    pub staying_city_id: i32,
    pub home_city_id: i32,
    pub country_id: Option<i32>,
    pub level: u16,
    pub rank: u16,
    pub exp: u16,
    pub skill_points: u16,
    pub money: u16,
}

/// A relation as stored, with its kind as text.
#[derive(Debug, Clone)]
pub struct DBRelation {
    pub id: i32,
    pub name: String,
    pub impression: i32,
    pub relation_type: String,
    pub last_met_timestamp: u32,
}

/// Why an operation on two citizens was refused.
#[derive(Debug, Clone, Copy, PartialEq, Eq, Structural)]
pub enum CitizenError {
    /// Both citizens are the same one (they have the same id).
    SameMutexId,
}

impl Default for Gender {
    fn default() -> (r: Self)
        ensures
            r == Gender::Male,
    {
        Gender::Male
    }
}

impl Default for RelationType {
    fn default() -> (r: Self)
        ensures
            r == RelationType::Acquaintance,
    {
        RelationType::Acquaintance
    }
}

/// The stored text of a gender.
pub open spec fn spec_gender_text(g: Gender) -> Seq<char> {
    match g {
        Gender::Male => "Male"@,
        Gender::Female => "Female"@,
    }
}

/// The gender a stored text reads as: "Male" is male, any other text female.
pub open spec fn spec_gender_from_text(s: Seq<char>) -> Gender {
    if s == "Male"@ {
        Gender::Male
    } else {
        Gender::Female
    }
}

impl Gender {
    /// Male or female, each with even chance.
    pub fn random() -> (r: Gender) {
        Gender::from_roll(percentage(1, 2))
    }

    /// The gender a coin toss gives: male when `male` comes up.
    pub fn from_roll(male: bool) -> (r: Gender)
        ensures
            r == (if male { Gender::Male } else { Gender::Female }),
    {
        if male {
            Gender::Male
        } else {
            Gender::Female
        }
    }

    /// Reads a stored gender; see `spec_gender_from_text`.
    pub fn from_string(from: String) -> (r: Gender)
        ensures
            r == spec_gender_from_text(from@),
    {
        if from == "Male".to_string() {
            Gender::Male
        } else {
            Gender::Female
        }
    }

    /// The stored text of the gender: "Male" or "Female".
    pub fn to_string(&self) -> (r: String)
        ensures
            r@ == spec_gender_text(*self),
    {
        match self {
            Gender::Male => "Male".to_string(),
            Gender::Female => "Female".to_string(),
        }
    }
}

/// The stored text of a relation kind: its variant name.
pub open spec fn spec_relation_text(t: RelationType) -> Seq<char> {
    match t {
        RelationType::Child => "Child"@,
        RelationType::Parent => "Parent"@,
        RelationType::Sibling => "Sibling"@,
        RelationType::Partner => "Partner"@,
        RelationType::Acquaintance => "Acquaintance"@,
        RelationType::Clan => "Clan"@,
    }
}

/// The relation kind a stored text reads as: the kind of that name, and
/// `Clan` for any text that names none.
pub open spec fn spec_relation_from_text(s: Seq<char>) -> RelationType {
    if s == "Child"@ {
        RelationType::Child
    } else if s == "Parent"@ {
        RelationType::Parent
    } else if s == "Sibling"@ {
        RelationType::Sibling
    } else if s == "Partner"@ {
        RelationType::Partner
    } else if s == "Acquaintance"@ {
        RelationType::Acquaintance
    } else {
        RelationType::Clan
    }
}

impl RelationType {
    /// Reads a stored relation kind; see `spec_relation_from_text`.
    pub fn from_string(from: String) -> (r: RelationType)
        ensures
            r == spec_relation_from_text(from@),
    {
        if from == "Child".to_string() {
            RelationType::Child
        } else if from == "Parent".to_string() {
            RelationType::Parent
        } else if from == "Sibling".to_string() {
            RelationType::Sibling
        } else if from == "Partner".to_string() {
            RelationType::Partner
        } else if from == "Acquaintance".to_string() {
            RelationType::Acquaintance
        } else {
            RelationType::Clan
        }
    }

    /// The stored text of the relation kind; see `spec_relation_text`.
    pub fn to_string(&self) -> (r: String)
        ensures
            r@ == spec_relation_text(*self),
    {
        match self {
            RelationType::Child => "Child".to_string(),
            RelationType::Parent => "Parent".to_string(),
            RelationType::Sibling => "Sibling".to_string(),
            RelationType::Partner => "Partner".to_string(),
            RelationType::Acquaintance => "Acquaintance".to_string(),
            RelationType::Clan => "Clan".to_string(),
        }
    }
}

/// Writing a gender as text and reading it back gives the same gender.
pub proof fn lemma_gender_round_trip(g: Gender)
    ensures
        spec_gender_from_text(spec_gender_text(g)) == g,
{
    reveal_strlit("Male");
    reveal_strlit("Female");
    assert("Male"@.len() != "Female"@.len());
}

/// Writing a relation kind as text and reading it back gives the same kind.
pub proof fn lemma_relation_round_trip(t: RelationType)
    ensures
        spec_relation_from_text(spec_relation_text(t)) == t,
{
    reveal_strlit("Child");
    reveal_strlit("Parent");
    reveal_strlit("Sibling");
    reveal_strlit("Partner");
    reveal_strlit("Acquaintance");
    reveal_strlit("Clan");
    let texts = seq!["Child"@, "Parent"@, "Sibling"@, "Partner"@, "Acquaintance"@, "Clan"@];
    assert(texts[0].len() == 5 && texts[1].len() == 6 && texts[2].len() == 7);
    assert(texts[3].len() == 7 && texts[4].len() == 12 && texts[5].len() == 4);
    assert(texts[2][0] != texts[3][0]);
}

/// The relation a citizen keeps with `other` on meeting them at `now`:
/// an acquaintance with no impression yet.
pub open spec fn acquaintance(other: Citizen, now: u32) -> Relation {
    Relation {
        id: other.id,
        name: other.name,
        impression: 0,
        relation_type: RelationType::Acquaintance,
        last_met_timestamp: now,
    }
}

/// Everything about the two citizens but their relations is the same.
pub open spec fn same_but_relations(a: Citizen, b: Citizen) -> bool {
    &&& a.id == b.id
    &&& a.name == b.name
    &&& a.born_timestamp == b.born_timestamp
    &&& a.death_timestamp == b.death_timestamp
    &&& a.gender == b.gender
    &&& a.job == b.job
    &&& a.staying_city_id == b.staying_city_id
    &&& a.home_city_id == b.home_city_id
    &&& a.country_id == b.country_id
    &&& a.level == b.level
    &&& a.rank == b.rank
    &&& a.exp == b.exp
    &&& a.skill_points == b.skill_points
    &&& a.money == b.money
}

/// Everything about the two citizens but their money is the same.
pub open spec fn same_but_money(a: Citizen, b: Citizen) -> bool {
    &&& a.id == b.id
    &&& a.name == b.name
    &&& a.born_timestamp == b.born_timestamp
    &&& a.death_timestamp == b.death_timestamp
    &&& a.gender == b.gender
    &&& a.job == b.job
    &&& a.staying_city_id == b.staying_city_id
    &&& a.home_city_id == b.home_city_id
    &&& a.country_id == b.country_id
    &&& a.relations@ == b.relations@
    &&& a.level == b.level
    &&& a.rank == b.rank
    &&& a.exp == b.exp
    &&& a.skill_points == b.skill_points
}

/// Apart from who they are (id, name, gender): no birth time, death, job,
/// city, country or acquaintances, and every number zero.
pub open spec fn is_blank_life(c: Citizen) -> bool {
    &&& c.born_timestamp == 0
    &&& c.death_timestamp is None
    &&& c.job is None
    &&& c.staying_city_id == 0
    &&& c.home_city_id == 0
    &&& c.country_id is None
    &&& c.relations@ == Map::<i32, Relation>::empty()
    &&& c.level == 0
    &&& c.rank == 0
    &&& c.exp == 0
    &&& c.skill_points == 0
    &&& c.money == 0
}

/// A blank male citizen with id zero and no name.
pub open spec fn is_blank_citizen(c: Citizen) -> bool {
    &&& c.id == 0
    &&& c.name@.len() == 0
    &&& c.gender == Gender::Male
    &&& is_blank_life(c)
}

impl Default for Citizen {
    fn default() -> (r: Self)
        ensures
            is_blank_citizen(r),
    {
        Citizen {
            id: 0,
            name: String::new(),
            born_timestamp: 0,
            death_timestamp: None,
            gender: Gender::Male,
            job: None,
            staying_city_id: 0,
            home_city_id: 0,
            country_id: None,
            relations: HashMap::new(),
            level: 0,
            rank: 0,
            exp: 0,
            skill_points: 0,
            money: 0,
        }
    }
}

/// The code `lock` gives for two citizen ids: 0 when the first is locked
/// first (smaller id), 1 when the second is (smaller id), 2 when they are
/// the same citizen.
pub open spec fn spec_lock_order(a_id: i32, b_id: i32) -> i32 {
    if a_id < b_id {
        0
    } else if a_id == b_id {
        2
    } else {
        1
    }
}

impl Citizen {
    /// A blank citizen with the given id and, if given, name.
    pub fn new(id: i32, name: Option<&str>) -> (r: Citizen)
        ensures
            r.id == id,
            match name {
                Some(n) => r.name@ == n@,
                None => r.name@.len() == 0,
            },
            r.gender == Gender::Male,
            is_blank_life(r),
    {
        let mut s = Citizen::default();
        s.id = id;
        if let Some(name) = name {
            s.name = name.to_owned();
        }
        s
    }

    /// The child a citizen gives birth to: a blank citizen named "child1"
    /// of the given gender.
    pub fn child(gender: Gender) -> (r: Citizen)
        ensures
            r.name@ == "child1"@,
            r.gender == gender,
            r.id == 0,
            is_blank_life(r),
    {
        let mut s = Citizen::default();
        s.name = "child".to_string().concat("1");
        s.gender = gender;
        proof {
            reveal_strlit("child");
            reveal_strlit("1");
            reveal_strlit("child1");
            assert(s.name@ =~= "child1"@);
        }
        s
    }

    /// Whole years since birth at time `now`, counting hours: 24 a day,
    /// 365 days a year.
    pub fn age(&self, now: u32) -> (r: u32)
        requires
            self.born_timestamp <= now,
        ensures
            r == (now - self.born_timestamp) / 24 / 365,
    {
        (now - self.born_timestamp) / 24 / 365
    }

    /// Takes up work as a cleaner.
    pub fn update(&mut self)
        ensures
            final(self).job matches Some(j) && j@ == "cleaner"@,
            same_but_money(Citizen { job: None, ..*old(self) }, Citizen { job: None, ..*final(self) }),
            final(self).money == old(self).money,
    {
        self.job = Some("cleaner".to_string());
    }

    /// A day in the life: one day in twenty the citizen `update`s.
    pub fn day(&mut self)
        ensures
            *final(self) == *old(self) || (final(self).job matches Some(j) && j@ == "cleaner"@
                && same_but_money(Citizen { job: None, ..*old(self) }, Citizen { job: None, ..*final(self) })
                && final(self).money == old(self).money),
    {
        let hit = percentage(5, 100);
        self.day_with(hit);
    }

    /// A day in the life, given whether the day's one-in-twenty chance came
    /// up: if it did, the citizen `update`s; otherwise nothing changes.
    pub fn day_with(&mut self, hit: bool)
        ensures
            !hit ==> *final(self) == *old(self),
            hit ==> (final(self).job matches Some(j) && j@ == "cleaner"@),
            hit ==> same_but_money(Citizen { job: None, ..*old(self) }, Citizen { job: None, ..*final(self) }),
            hit ==> final(self).money == old(self).money,
    {
        if hit {
            self.update()
        }
    }

    /// In which order `lock` takes two citizens; see `spec_lock_order`.
    pub fn lock_order(a_id: i32, b_id: i32) -> (r: i32)
        ensures
            r == spec_lock_order(a_id, b_id),
    {
        if a_id < b_id {
            0
        } else if a_id == b_id {
            2
        } else {
            1
        }
    }

    /// Whether `lock_fn` may go ahead with two citizens, and if so whether
    /// the first one is locked first. Two citizens with the same id are
    /// refused. Either way the callback receives the two in the order given.
    pub fn lock_fn_order(a_id: i32, b_id: i32) -> (r: Result<bool, CitizenError>)
        ensures
            a_id == b_id <==> r is Err,
            r matches Ok(a_first) ==> a_first == (a_id < b_id),
    {
        let code = Citizen::lock_order(a_id, b_id);
        if code == 2 {
            Err(CitizenError::SameMutexId)
        } else {
            Ok(code == 0)
        }
    }

    /// Whether `b` is someone `a` could befriend: another citizen staying in
    /// the same city.
    pub fn is_friend_candidate(a: &Citizen, b: &Citizen) -> (r: bool)
        ensures
            r == (a.id != b.id && a.staying_city_id == b.staying_city_id),
    {
        a.id != b.id && a.staying_city_id == b.staying_city_id
    }

    /// `a` and `b` meet at `now` and become acquaintances: each records the
    /// other (see `acquaintance`), replacing what it knew of them before.
    pub fn befriend(a: &mut Citizen, b: &mut Citizen, now: u32)
        ensures
            final(a).relations@ == old(a).relations@.insert(old(b).id, acquaintance(*old(b), now)),
            final(b).relations@ == old(b).relations@.insert(old(a).id, acquaintance(*old(a), now)),
            same_but_relations(*final(a), *old(a)),
            same_but_relations(*final(b), *old(b)),
    {
        let to_b = Relation {
            id: b.id,
            name: b.name.clone(),
            impression: 0,
            relation_type: RelationType::Acquaintance,
            last_met_timestamp: now,
        };
        let to_a = Relation {
            id: a.id,
            name: a.name.clone(),
            impression: 0,
            relation_type: RelationType::Acquaintance,
            last_met_timestamp: now,
        };
        a.relations.insert(b.id, to_b);
        b.relations.insert(a.id, to_a);
    }
}

/// A relation needs to be written back when its impression or its kind
/// differs from the stored one.
pub open spec fn relation_changed(new: Relation, old: Relation) -> bool {
    new.impression != old.impression || new.relation_type != old.relation_type
}

impl Citizen {
    /// The ids of the relations of `self` that differ (`relation_changed`)
    /// from those of `stored`, the citizen as last saved; each id once, in
    /// no particular order. Every relation of `self` must be one `stored`
    /// has.
    pub fn changed_relations(&self, stored: &Citizen) -> (r: Vec<i32>)
        requires
            self.relations@.dom().subset_of(stored.relations@.dom()),
        ensures
            forall|k: i32| #[trigger] r@.contains(k) <==> (self.relations@.contains_key(k)
                && relation_changed(self.relations@[k], stored.relations@[k])),
    {
        let mut r: Vec<i32> = Vec::new();
        let ghost dom = self.relations@.dom();
        let ghost ms = self.relations@;
        let ghost mo = stored.relations@;
        for k in it: self.relations.keys()
            invariant
                ms == self.relations@,
                mo == stored.relations@,
                ms.dom().subset_of(mo.dom()),
                forall|j: int| 0 <= j < r@.len() ==> ms.contains_key(#[trigger] r@[j]) && relation_changed(ms[r@[j]], mo[r@[j]]),
                forall|j: int| 0 <= j < it.index() ==> relation_changed(ms[*it.seq()[j]], mo[*it.seq()[j]])
                    ==> r@.contains(*it.seq()[j]),
                it.seq().unref().to_set() == dom,
        {
            let ghost i = it.index();
            let ghost old_r = r@;
            assert(k == it.seq()[i as int]);
            assert(ms.contains_key(*k));
            assert(mo.contains_key(*k));
            match (self.relations.get(k), stored.relations.get(k)) {
                (Some(now), Some(before)) => {
                    if now.impression != before.impression || now.relation_type != before.relation_type {
                        r.push(*k);
                    }
                },
                _ => {},
            }
            assert forall|x: i32| old_r.contains(x) implies r@.contains(x) by {
                let j = choose|j: int| 0 <= j < old_r.len() && old_r[j] == x;
                assert(r@[j] == x);
            }
            assert(relation_changed(ms[*k], mo[*k]) ==> r@[r@.len() - 1] == *k);
        }
        assert forall|k: i32| ms.contains_key(k) && relation_changed(ms[k], mo[k]) implies r@.contains(k) by {
            assert(dom.contains(k));
        }
        r
    }

    /// The day's earnings: ten coins per rank earned, seven per rank spent,
    /// and then, if `lose_half`, half of the money (rounded down) lost.
    pub fn settle_money(&mut self, lose_half: bool)
        requires
            old(self).money + old(self).rank * 10 <= u16::MAX,
        ensures
            same_but_money(*final(self), *old(self)),
            final(self).money == (if lose_half {
                (old(self).money + old(self).rank * 3) - (old(self).money + old(self).rank * 3) / 2
            } else {
                old(self).money + old(self).rank * 3
            }),
    {
        self.money = self.money + self.rank * 10;
        self.money = self.money - self.rank * 7;
        if lose_half {
            self.money = self.money - self.money / 2;
        }
    }

    /// A day of work (`settle_money`), losing half the money one day in a
    /// hundred: a roll among `0..100` is drawn, and the half is lost exactly
    /// when it falls below 1. Returns the roll.
    pub fn economy_step(&mut self) -> (roll: i32)
        requires
            old(self).money + old(self).rank * 10 <= u16::MAX,
        ensures
            same_but_money(*final(self), *old(self)),
            final(self).money == old(self).money + old(self).rank * 3
                || final(self).money == (old(self).money + old(self).rank * 3) - (old(self).money
                + old(self).rank * 3) / 2,
            0 <= roll < 100,
            roll >= 1 ==> final(self).money == old(self).money + old(self).rank * 3,
            roll < 1 ==> final(self).money == (old(self).money + old(self).rank * 3) - (old(self).money
                + old(self).rank * 3) / 2,
    {
        let drawn = roll_die(100);
        self.settle_money(roll_hits(drawn, 1));
        drawn
    }

    /// The citizen a stored row describes, knowing nobody yet.
    pub fn from_db_row(row: DBCitizen) -> (r: Citizen)
        ensures
            r.id == row.id,
            r.name@ == row.name@,
            r.born_timestamp == row.born_timestamp,
            r.death_timestamp == row.death_timestamp,
            r.gender == spec_gender_from_text(row.gender@),
            r.job == row.job,
            r.staying_city_id == row.staying_city_id,
            r.home_city_id == row.home_city_id,
            r.country_id == row.country_id,
            r.relations@ == Map::<i32, Relation>::empty(),
            r.level == row.level,
            r.rank == row.rank,
            r.exp == row.exp,
            r.skill_points == row.skill_points,
            r.money == row.money,
    {
        Citizen {
            id: row.id,
            name: row.name,
            born_timestamp: row.born_timestamp,
            death_timestamp: row.death_timestamp,
            gender: Gender::from_string(row.gender),
            job: row.job,
            staying_city_id: row.staying_city_id,
            home_city_id: row.home_city_id,
            country_id: row.country_id,
            relations: HashMap::new(),
            level: row.level,
            rank: row.rank,
            exp: row.exp,
            skill_points: row.skill_points,
            money: row.money,
        }
    }

    /// Adds a stored relation, under its own id.
    pub fn add_db_relation(&mut self, row: DBRelation)
        ensures
            same_but_relations(*final(self), *old(self)),
            final(self).relations@.dom() == old(self).relations@.dom().insert(row.id),
            final(self).relations@[row.id].id == row.id,
            final(self).relations@[row.id].name@ == row.name@,
            final(self).relations@[row.id].impression == row.impression,
            final(self).relations@[row.id].relation_type == spec_relation_from_text(row.relation_type@),
            final(self).relations@[row.id].last_met_timestamp == row.last_met_timestamp,
            forall|k: i32| k != row.id && #[trigger] old(self).relations@.contains_key(k)
                ==> final(self).relations@[k] == old(self).relations@[k],
    {
        let id = row.id;
        let relation = Relation {
            id: row.id,
            name: row.name,
            impression: row.impression,
            relation_type: RelationType::from_string(row.relation_type),
            last_met_timestamp: row.last_met_timestamp,
        };
        self.relations.insert(id, relation);
    }
}


/// The positions, in order, of the citizens among the first `n` of `s` with
/// whom the citizen at `i` may make friends (`Citizen::is_friend_candidate`).
pub open spec fn friend_candidates(s: Seq<Citizen>, i: int, n: int) -> Seq<usize>
    decreases n,
{
    if n <= 0 {
        Seq::empty()
    } else {
        friend_candidates(s, i, n - 1) + if s[n - 1].id != s[i].id && s[n - 1].staying_city_id
            == s[i].staying_city_id {
            seq![(n - 1) as usize]
        } else {
            Seq::<usize>::empty()
        }
    }
}

/// `after` is `before` once the citizens at `i` and `j` have befriended
/// each other at `now` (`Citizen::befriend`); every other citizen is as
/// before.
pub open spec fn friends_made(before: Seq<Citizen>, after: Seq<Citizen>, i: int, j: int, now: u32) -> bool {
    &&& after.len() == before.len()
    &&& after[i].relations@ == before[i].relations@.insert(before[j].id, acquaintance(before[j], now))
    &&& after[j].relations@ == before[j].relations@.insert(before[i].id, acquaintance(before[i], now))
    &&& same_but_relations(after[i], before[i])
    &&& same_but_relations(after[j], before[j])
    &&& forall|k: int| 0 <= k < before.len() && k != i && k != j ==> #[trigger] after[k] == before[k]
}

/// Every position `friend_candidates` lists is below `n`, differs from `i`
/// and holds a citizen with whom the one at `i` may make friends.
pub proof fn lemma_friend_candidates(s: Seq<Citizen>, i: int, n: int, k: int)
    requires
        0 <= i < s.len(),
        n <= s.len() <= usize::MAX,
        0 <= k < friend_candidates(s, i, n).len(),
    ensures
        ({
            let j = friend_candidates(s, i, n)[k] as int;
            &&& 0 <= j < n
            &&& j != i
            &&& s[j].id != s[i].id
            &&& s[j].staying_city_id == s[i].staying_city_id
        }),
    decreases n,
{
    if n > 0 {
        let rest = friend_candidates(s, i, n - 1);
        if k < rest.len() {
            lemma_friend_candidates(s, i, n - 1, k);
            assert(friend_candidates(s, i, n)[k] == rest[k]);
        } else {
            assert(friend_candidates(s, i, n)[k] == (n - 1) as usize);
        }
    }
}

/// The positions of the citizens with whom the citizen at `i` may make
/// friends: others staying in the same city.
pub fn find_friend_candidates(citizens: &Vec<Citizen>, i: usize) -> (r: Vec<usize>)
    requires
        i < citizens@.len(),
    ensures
        r@ == friend_candidates(citizens@, i as int, citizens@.len() as int),
{
    let n = citizens.len();
    let mut r: Vec<usize> = Vec::new();
    for j in 0..n
        invariant
            n == citizens@.len(),
            i < n,
            r@ == friend_candidates(citizens@, i as int, j as int),
    {
        if Citizen::is_friend_candidate(&citizens[i], &citizens[j]) {
            r.push(j);
        }
        assert(r@ =~= friend_candidates(citizens@, i as int, j + 1));
    }
    r
}

/// The citizens at `i` and `j`, two different positions, befriend each
/// other at `now` (`Citizen::befriend`).
pub fn befriend_at(citizens: &mut Vec<Citizen>, i: usize, j: usize, now: u32)
    requires
        i < old(citizens)@.len(),
        j < old(citizens)@.len(),
        i != j,
    ensures
        friends_made(old(citizens)@, final(citizens)@, i as int, j as int, now),
{
    let mut a = Citizen::default();
    citizens.set_and_swap(i, &mut a);
    let mut b = Citizen::default();
    citizens.set_and_swap(j, &mut b);
    Citizen::befriend(&mut a, &mut b, now);
    citizens.set_and_swap(i, &mut a);
    citizens.set_and_swap(j, &mut b);
}

/// The citizen at `i` sets out to make a friend: among the others staying
/// in its city (`friend_candidates`) it picks one at random and the two
/// befriend each other at `now`. Returns the position picked, or `None`,
/// leaving everyone as before, when there is no one to pick.
pub fn friend_step(citizens: &mut Vec<Citizen>, i: usize, now: u32) -> (r: Option<usize>)
    requires
        i < old(citizens)@.len(),
    ensures
        r is None <==> friend_candidates(old(citizens)@, i as int, old(citizens)@.len() as int).len() == 0,
        r is None ==> final(citizens)@ == old(citizens)@,
        r matches Some(j) ==> friend_candidates(old(citizens)@, i as int, old(citizens)@.len() as int).contains(j)
            && friends_made(old(citizens)@, final(citizens)@, i as int, j as int, now),
{
    let candidates = find_friend_candidates(citizens, i);
    match pick(candidates) {
        Some(j) => {
            proof {
                let k = choose|k: int| 0 <= k < candidates@.len() && candidates@[k] == j;
                assert(citizens@.len() == citizens.len());
                lemma_friend_candidates(citizens@, i as int, citizens@.len() as int, k);
            }
            befriend_at(citizens, i, j, now);
            Some(j)
        },
        None => None,
    }
}

} // verus!
