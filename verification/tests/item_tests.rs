use aae::item::{DBItem, Item, ItemName, ItemOwner};

fn row(citizen: Option<i32>, city: Option<i32>, country: Option<i32>) -> DBItem {
    DBItem {
        count: 4,
        id: 11,
        name: "Money".to_string(),
        owner_citizen_id: citizen,
        owner_city_id: city,
        owner_country_id: country,
    }
}

#[test]
fn owner_ids() {
    let o = ItemOwner::City(3);
    assert_eq!(o.to_owner_citizen_id(), None);
    assert_eq!(o.to_owner_city_id(), Some(3));
    assert_eq!(o.to_owner_country_id(), None);
    assert_eq!(ItemOwner::Citizen(8).to_owner_citizen_id(), Some(8));
    assert_eq!(ItemOwner::Country(2).to_owner_country_id(), Some(2));
    assert_eq!(ItemOwner::Nobody.to_owner_city_id(), None);
}

#[test]
fn stored_owner_prefers_citizen_then_city_then_country() {
    assert_eq!(ItemOwner::from_db_item(&row(Some(1), Some(2), Some(3))), ItemOwner::Citizen(1));
    assert_eq!(ItemOwner::from_db_item(&row(None, Some(2), Some(3))), ItemOwner::City(2));
    assert_eq!(ItemOwner::from_db_item(&row(None, None, Some(3))), ItemOwner::Country(3));
    assert_eq!(ItemOwner::from_db_item(&row(None, None, None)), ItemOwner::Nobody);
}

#[test]
fn item_names_as_text() {
    assert_eq!(ItemName::Food.to_string(), "Food");
    assert_eq!(ItemName::Resource.to_string(), "Resource");
    assert_eq!(ItemName::Weapon.to_string(), "Weapon");
    assert_eq!(ItemName::Money.to_string(), "Money");
    assert_eq!(ItemName::from_string("Money"), ItemName::Food);
    assert_eq!(ItemName::from_string("Food"), ItemName::Food);
    assert_eq!(ItemName::from_string("anything"), ItemName::Food);
}

#[test]
fn item_round_trip_through_storage() {
    let item = Item { count: 10, id: 5, name: ItemName::Money, owner: ItemOwner::Citizen(4) };
    let stored = item.to_db_item();
    assert_eq!(stored.name, "Money");
    assert_eq!((stored.owner_citizen_id, stored.owner_city_id, stored.owner_country_id), (Some(4), None, None));
    let back = Item::from_db_item(&stored);
    assert_eq!((back.count, back.id, back.owner), (10, 5, ItemOwner::Citizen(4)));
    assert_eq!(back.name, ItemName::Food);
}

#[test]
fn default_item() {
    let d = Item::default();
    assert_eq!((d.count, d.id, d.name, d.owner), (0, 0, ItemName::Food, ItemOwner::Nobody));
}
