//! Countries.

use vstd::prelude::*;

verus! {

/// A country, its colours and its capital.
#[derive(Debug, Clone)]
pub struct Country {
    pub id: i32,
    pub name: String,
    pub color_primary: String,
    pub color_secondary: String,
    pub capital_city_id: i32,
}

impl Default for Country {
    fn default() -> (r: Self)
        ensures
            r.id == 0,
            r.name@.len() == 0,
            r.color_primary@.len() == 0,
            r.color_secondary@.len() == 0,
            r.capital_city_id == 0,
    {
        Country {
            id: 0,
            name: String::new(),
            color_primary: String::new(),
            color_secondary: String::new(),
            capital_city_id: 0,
        }
    }
}

impl Country {
    /// The country a new game founds for a region: it takes the region's id,
    /// is named "Country", has no colours yet, and has its capital in
    /// `capital_city_id`.
    pub fn for_region(region_id: i32, capital_city_id: i32) -> (r: Country)
        ensures
            r.id == region_id,
            r.name@ == "Country"@,
            r.color_primary@.len() == 0,
            r.color_secondary@.len() == 0,
            r.capital_city_id == capital_city_id,
    {
        let mut c = Country::default();
        c.id = region_id;
        c.name = "Country".to_string();
        c.capital_city_id = capital_city_id;
        c
    }
}

} // verus!
