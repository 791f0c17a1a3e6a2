//! Cities.

use vstd::prelude::*;

verus! {

/// A city and its development.
#[derive(Debug, Clone)]
pub struct City {
    pub id: i32,
    pub name: String,
    pub position_x: i32,
    pub position_y: i32,
    pub dev_production: i32,
    pub dev_building: i32,
    pub dev_infrastructure: i32,
    pub exp_dev_production: i32,
    pub exp_dev_building: i32,
    pub exp_dev_infrastructure: i32,
    pub control: i32,
    pub environment: i32,
    pub region_id: i32,
    pub country_id: Option<i32>,
}

/// Every number zero, no name, no country.
pub open spec fn is_blank_city(c: City) -> bool {
    &&& c.id == 0
    &&& c.name@.len() == 0
    &&& c.position_x == 0
    &&& c.position_y == 0
    &&& c.dev_production == 0
    &&& c.dev_building == 0
    &&& c.dev_infrastructure == 0
    &&& c.exp_dev_production == 0
    &&& c.exp_dev_building == 0
    &&& c.exp_dev_infrastructure == 0
    &&& c.control == 0
    &&& c.environment == 0
    &&& c.region_id == 0
    &&& c.country_id is None
}

impl Default for City {
    fn default() -> (r: Self)
        ensures
            is_blank_city(r),
    {
        City {
            id: 0,
            name: String::new(),
            position_x: 0,
            position_y: 0,
            dev_production: 0,
            dev_building: 0,
            dev_infrastructure: 0,
            exp_dev_production: 0,
            exp_dev_building: 0,
            exp_dev_infrastructure: 0,
            control: 0,
            environment: 0,
            region_id: 0,
            country_id: None,
        }
    }
}

impl City {
    /// The city a new game founds in a region: named "City", in that region,
    /// not yet part of a country, every other number zero.
    pub fn for_region(region_id: i32) -> (r: City)
        ensures
            r.name@ == "City"@,
            r.region_id == region_id,
            r.id == 0,
            r.country_id is None,
            r.position_x == 0 && r.position_y == 0,
            r.dev_production == 0 && r.dev_building == 0 && r.dev_infrastructure == 0,
            r.exp_dev_production == 0 && r.exp_dev_building == 0 && r.exp_dev_infrastructure == 0,
            r.control == 0 && r.environment == 0,
    {
        let mut c = City::default();
        c.region_id = region_id;
        c.country_id = None;
        c.name = "City".to_string();
        c
    }
}

} // verus!
