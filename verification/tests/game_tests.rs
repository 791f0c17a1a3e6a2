use aae::city::City;
use aae::country::Country;
use aae::game::{
    check_save, citizen_starting_items, city_starting_items, database_url, next_timestamp, save_file_name, save_id,
    save_listing_entry, starting_citizen, starting_rank, wait_duration, SaveError,
};
use aae::item::{ItemName, ItemOwner};
use aae::region::Region;

#[test]
fn tick_length() {
    assert_eq!(wait_duration(0), 1000);
    assert_eq!(wait_duration(1), 1000);
    assert_eq!(wait_duration(3), 333);
    assert_eq!(wait_duration(5), 200);
    assert_eq!(next_timestamp(41), 42);
}

#[test]
fn opening_a_save() {
    assert_eq!(check_save(true, true), Err(SaveError::IdAlreadyExists));
    assert_eq!(check_save(false, false), Err(SaveError::Missing));
    assert_eq!(check_save(true, false), Ok(true));
    assert_eq!(check_save(false, true), Ok(false));
}

#[test]
fn save_ids_and_files() {
    assert_eq!(save_id(Some("abc".to_string())), ("abc".to_string(), false));
    let (id, fresh) = save_id(None);
    assert!(fresh);
    assert_eq!(id.len(), 30);
    assert!(id.chars().all(|c| c.is_ascii_alphanumeric()));
    assert_eq!(save_file_name("abc"), "abc.aae");
    assert_eq!(database_url("C:\\Users\\me", "abc.aae"), "sqlite://C:/Users/me/abc.aae");
}

#[test]
fn save_listing() {
    assert_eq!(
        save_listing_entry(Some("aae"), Some("game1".to_string()), 0),
        Some(("game1".to_string(), "1970-01-01T00:00:00+00:00".to_string()))
    );
    assert_eq!(save_listing_entry(Some("txt"), Some("notes".to_string()), 0), None);
    assert_eq!(save_listing_entry(None, Some("x".to_string()), 0), None);
    assert_eq!(save_listing_entry(Some("aae"), None, 0), None);
    // the seconds are read as a signed number, so the largest unsigned one is one second before the epoch
    assert_eq!(
        save_listing_entry(Some("aae"), Some("back".to_string()), u64::MAX),
        Some(("back".to_string(), "1969-12-31T23:59:59+00:00".to_string()))
    );
    assert_eq!(save_listing_entry(Some("aae"), Some("far".to_string()), i64::MAX as u64), None);
}

#[test]
fn new_game_stock() {
    let c = city_starting_items(6);
    assert_eq!(c.len(), 9);
    assert!(c.iter().all(|i| i.count == 10 && i.name == ItemName::Food && i.owner == ItemOwner::City(6)));
    let p = citizen_starting_items(2);
    assert_eq!(p.len(), 9);
    assert!(p.iter().all(|i| i.count == 10 && i.name == ItemName::Money && i.owner == ItemOwner::Citizen(2)));
}

#[test]
fn new_game_citizens_and_places() {
    let john = starting_citizen(4, 3, 7);
    assert_eq!((john.name.as_str(), john.staying_city_id, john.home_city_id, john.rank), ("John3", 4, 4, 7));
    let r = starting_rank();
    assert!((1..=10).contains(&r));
    let mut city = City::for_region(9);
    assert_eq!((city.name.as_str(), city.region_id, city.country_id), ("City", 9, None));
    city.join_country(5);
    assert_eq!(city.country_id, Some(5));
    let country = Country::for_region(9, 12);
    assert_eq!((country.id, country.name.as_str(), country.capital_city_id), (9, "Country", 12));
    let entry = Region { id: 0, name: "North".to_string(), product: "wheat".to_string(), country_id: Some(1), position_x: 3, position_y: 4 };
    let region = Region::from_map_entry(9, &entry);
    assert_eq!((region.id, region.name.as_str(), region.product.as_str(), region.country_id), (9, "North", "wheat", None));
    assert_eq!(region.insert_id(), Some(9));
    assert_eq!(Region::default().insert_id(), None);
}
