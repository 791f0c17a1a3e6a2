use aae::citizen::decision::{
    daily_options, execute_decision, friendship_options, make_decision, plan_outcome, tournament_winner,
    CitizenAction, DecisionOption, Plan,
};
use aae::citizen::{befriend_at, find_friend_candidates, friend_step, Citizen, CitizenError, DBCitizen, DBRelation, Gender, Relation, RelationType};

fn person(id: i32, name: &str, city: i32) -> Citizen {
    let mut c = Citizen::new(id, Some(name));
    c.staying_city_id = city;
    c
}

#[test]
fn gender_text() {
    assert_eq!(Gender::from_string("Male".to_string()), Gender::Male);
    assert_eq!(Gender::from_string("Female".to_string()), Gender::Female);
    assert_eq!(Gender::from_string("male".to_string()), Gender::Female);
    assert_eq!(Gender::Female.to_string(), "Female");
    assert_eq!(Gender::from_string(Gender::Male.to_string()), Gender::Male);
    let g = Gender::random();
    assert!(g == Gender::Male || g == Gender::Female);
}

#[test]
fn relation_type_text() {
    let all = [
        RelationType::Child,
        RelationType::Parent,
        RelationType::Sibling,
        RelationType::Partner,
        RelationType::Acquaintance,
        RelationType::Clan,
    ];
    for t in all {
        assert_eq!(RelationType::from_string(t.to_string()), t);
    }
    assert_eq!(RelationType::Partner.to_string(), "Partner");
    assert_eq!(RelationType::from_string("Stranger".to_string()), RelationType::Clan);
    assert_eq!(RelationType::default(), RelationType::Acquaintance);
}

#[test]
fn new_citizens() {
    let c = Citizen::new(3, Some("Ann"));
    assert_eq!((c.id, c.name.as_str(), c.gender), (3, "Ann", Gender::Male));
    assert!(c.relations.is_empty() && c.job.is_none() && c.money == 0);
    assert_eq!(Citizen::new(4, None).name, "");
    let child = Citizen::child(Gender::Female);
    assert_eq!((child.name.as_str(), child.gender, child.id), ("child1", Gender::Female, 0));
}

#[test]
fn age_in_years() {
    let mut c = Citizen::default();
    c.born_timestamp = 100;
    assert_eq!(c.age(100), 0);
    assert_eq!(c.age(100 + 24 * 365 - 1), 0);
    assert_eq!(c.age(100 + 24 * 365 * 3), 3);
}

#[test]
fn update_and_day() {
    let mut c = Citizen::default();
    c.update();
    assert_eq!(c.job.as_deref(), Some("cleaner"));
    let mut d = Citizen::default();
    d.day();
    assert!(d.job.is_none() || d.job.as_deref() == Some("cleaner"));
}

#[test]
fn lock_order_by_id() {
    assert_eq!(Citizen::lock_order(1, 2), 0);
    assert_eq!(Citizen::lock_order(5, 2), 1);
    assert_eq!(Citizen::lock_order(4, 4), 2);
    assert_eq!(Citizen::lock_fn_order(1, 2), Ok(true));
    assert_eq!(Citizen::lock_fn_order(3, 2), Ok(false));
    assert_eq!(Citizen::lock_fn_order(7, 7), Err(CitizenError::SameMutexId));
}

#[test]
fn befriending_is_mutual() {
    let mut a = person(1, "Ann", 10);
    let mut b = person(2, "Bob", 10);
    assert!(Citizen::is_friend_candidate(&a, &b));
    assert!(!Citizen::is_friend_candidate(&a, &a));
    assert!(!Citizen::is_friend_candidate(&a, &person(3, "Cy", 11)));
    Citizen::befriend(&mut a, &mut b, 77);
    let ab = &a.relations[&2];
    assert_eq!((ab.id, ab.name.as_str(), ab.impression, ab.relation_type, ab.last_met_timestamp), (2, "Bob", 0, RelationType::Acquaintance, 77));
    let ba = &b.relations[&1];
    assert_eq!((ba.id, ba.name.as_str()), (1, "Ann"));
    assert_eq!((a.relations.len(), b.relations.len()), (1, 1));
}

fn relation(id: i32, impression: i32, relation_type: RelationType) -> Relation {
    Relation { id, name: String::new(), impression, relation_type, last_met_timestamp: 0 }
}

#[test]
fn changed_relations_are_found() {
    let mut stored = Citizen::default();
    stored.relations.insert(1, relation(1, 5, RelationType::Acquaintance));
    stored.relations.insert(2, relation(2, 5, RelationType::Acquaintance));
    stored.relations.insert(3, relation(3, 5, RelationType::Acquaintance));
    let mut now = Citizen::default();
    now.relations.insert(1, relation(1, 5, RelationType::Acquaintance));
    now.relations.insert(2, relation(2, 6, RelationType::Acquaintance));
    now.relations.insert(3, relation(3, 5, RelationType::Partner));
    let mut changed = now.changed_relations(&stored);
    changed.sort();
    assert_eq!(changed, vec![2, 3]);
}

#[test]
fn daily_money() {
    let mut c = Citizen::default();
    c.rank = 4;
    c.money = 100;
    c.settle_money(false);
    assert_eq!(c.money, 112);
    c.settle_money(true);
    assert_eq!(c.money, 62);
    let mut d = Citizen::default();
    d.rank = 2;
    d.money = 10;
    d.economy_step();
    assert!(d.money == 16 || d.money == 8);
}

#[test]
fn citizens_from_storage() {
    let row = DBCitizen {
        id: 8,
        name: "Eve".to_string(),
        born_timestamp: 3,
        death_timestamp: None,
        gender: "Female".to_string(),
        job: Some("smith".to_string()),
        staying_city_id: 1,
        home_city_id: 2,
        country_id: Some(3),
        level: 1,
        rank: 2,
        exp: 3,
        skill_points: 4,
        money: 5,
    };
    let mut c = Citizen::from_db_row(row);
    assert_eq!((c.id, c.name.as_str(), c.gender, c.home_city_id, c.money), (8, "Eve", Gender::Female, 2, 5));
    c.add_db_relation(DBRelation {
        id: 4,
        name: "Dan".to_string(),
        impression: -3,
        relation_type: "Sibling".to_string(),
        last_met_timestamp: 9,
    });
    let r = &c.relations[&4];
    assert_eq!((r.name.as_str(), r.impression, r.relation_type, r.last_met_timestamp), ("Dan", -3, RelationType::Sibling, 9));
}

#[test]
fn decision_weights() {
    let w = |v: Vec<DecisionOption>| v.iter().map(|o| o.weight).collect::<Vec<_>>();
    assert_eq!(w(daily_options(0)), vec![0, 0, 100]);
    assert_eq!(w(daily_options(2)), vec![5, 100, 20]);
    assert_eq!(w(daily_options(3)), vec![1, 10, 100]);
    assert_eq!(daily_options(1)[1].name, Plan::AddFriendFromCommunity);
    assert_eq!(w(friendship_options(0)), vec![2, 0]);
    assert_eq!(w(friendship_options(1)), vec![3, 2]);
    assert_eq!(w(friendship_options(9)), vec![1, 2]);
}

#[test]
fn tournament_picks_last_heaviest() {
    let options = vec![
        DecisionOption { name: Plan::AddFriend, weight: 3 },
        DecisionOption { name: Plan::AddFriendFromCommunity, weight: 7 },
        DecisionOption { name: Plan::UpdateFriend, weight: 7 },
    ];
    assert_eq!(tournament_winner(&options, &vec![0]).name, Plan::AddFriend);
    assert_eq!(tournament_winner(&options, &vec![1, 0, 2]).name, Plan::UpdateFriend);
    assert_eq!(tournament_winner(&options, &vec![2, 1, 0]).name, Plan::AddFriendFromCommunity);
    let chosen = make_decision(&options);
    assert!(options.contains(&chosen));
}

#[test]
fn birth_plan() {
    let mut woman = Citizen::default();
    woman.gender = Gender::Female;
    assert_eq!(plan_outcome(&woman, true), CitizenAction::GiveBirth);
    assert_eq!(plan_outcome(&woman, false), CitizenAction::Nothing);
    let man = Citizen::default();
    assert_eq!(plan_outcome(&man, true), CitizenAction::Nothing);
    assert_eq!(execute_decision(&man), CitizenAction::Nothing);
}

#[test]
fn gender_from_a_roll() {
    assert_eq!(Gender::from_roll(true), Gender::Male);
    assert_eq!(Gender::from_roll(false), Gender::Female);
}

#[test]
fn a_day_with_and_without_the_chance() {
    let mut c = person(5, "Eve", 2);
    c.money = 40;
    c.day_with(false);
    assert!(c.job.is_none());
    assert_eq!((c.id, c.money, c.staying_city_id), (5, 40, 2));
    c.day_with(true);
    assert_eq!(c.job.as_deref(), Some("cleaner"));
    assert_eq!((c.id, c.money, c.staying_city_id, c.name.as_str()), (5, 40, 2, "Eve"));
}

#[test]
fn citizen_day_test() {
    let c = Citizen::default();
    println!("citizen{:?}", c);
    assert!(true);
}

#[test]
fn friends_are_made_in_the_same_city() {
    let mut v = vec![person(1, "Ann", 1), person(2, "Bob", 1), person(3, "Cid", 2)];
    assert_eq!(find_friend_candidates(&v, 0), vec![1]);
    assert_eq!(find_friend_candidates(&v, 2), Vec::<usize>::new());
    assert_eq!(friend_step(&mut v, 2, 9), None);
    assert!(v[2].relations.is_empty());
    assert_eq!(friend_step(&mut v, 0, 9), Some(1));
    let to_bob = &v[0].relations[&2];
    assert_eq!((to_bob.id, to_bob.name.as_str(), to_bob.impression, to_bob.last_met_timestamp), (2, "Bob", 0, 9));
    assert_eq!(to_bob.relation_type, RelationType::Acquaintance);
    assert_eq!(v[1].relations[&1].name, "Ann");
    assert!(v[2].relations.is_empty());
}

#[test]
fn befriending_by_position() {
    let mut v = vec![person(1, "Ann", 1), person(2, "Bob", 2)];
    befriend_at(&mut v, 1, 0, 4);
    assert_eq!(v[0].relations[&2].last_met_timestamp, 4);
    assert_eq!(v[1].relations[&1].last_met_timestamp, 4);
    assert_eq!((v[0].id, v[1].id), (1, 2));
}
