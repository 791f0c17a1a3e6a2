//! Running a game: the pace of the clock, the save files, and what a new
//! game sets up in each region.

use crate::citizen::{Citizen, Gender, Relation};
use crate::city::City;
use crate::item::{Item, ItemName, ItemOwner};
use crate::utils::{generate_random_id, random};
use chrono::{DateTime, Utc};
use vstd::prelude::*;

verus! {

/// Milliseconds between two ticks of the clock at a play speed: a second
/// divided by the speed, a paused game (speed 0) counting as speed 1.
pub open spec fn spec_wait_millis(game_speed: u8) -> u64 {
    if game_speed == 0 {
        1000
    } else {
        (1000int / (game_speed as int)) as u64
    }
}

/// Milliseconds between two ticks at a play speed; see `spec_wait_millis`.
pub fn wait_duration(game_speed: u8) -> (r: u64)
    ensures
        r == spec_wait_millis(game_speed),
{
    let speed: u64 = if game_speed > 1 { game_speed as u64 } else { 1 };
    1000 / speed
}

/// A faster play speed never waits longer between ticks.
pub proof fn lemma_faster_is_shorter(slow: u8, fast: u8)
    requires
        slow <= fast,
    ensures
        spec_wait_millis(fast) <= spec_wait_millis(slow),
{
    if slow >= 1 {
        assert(1000int / (fast as int) <= 1000int / (slow as int)) by (nonlinear_arith)
            requires 1 <= slow <= fast;
    } else if fast >= 1 {
        assert(1000int / (fast as int) <= 1000) by (nonlinear_arith)
            requires 1 <= fast;
    }
}

/// The game time after one tick: an hour later.
pub fn next_timestamp(now: u32) -> (r: u32)
    requires
        now < u32::MAX,
    ensures
        r == now + 1,
{
    now + 1
}

/// Why a save cannot be opened.
#[derive(Debug, Clone, Copy, PartialEq, Eq, Structural)]
pub enum SaveError {
    /// A new game drew an id that an existing save already has.
    IdAlreadyExists,
    /// The save asked for does not exist.
    Missing,
}

/// Whether a save can be opened, given whether a new game is being started
/// and whether a save file with its id exists: a new game must not find
/// one, an old one must. On success, whether the save still has to be
/// created and its tables set up (exactly when no file exists).
pub fn check_save(is_new_game: bool, file_exists: bool) -> (r: Result<bool, SaveError>)
    ensures
        (is_new_game && file_exists) <==> r == Err::<bool, SaveError>(SaveError::IdAlreadyExists),
        (!is_new_game && !file_exists) <==> r == Err::<bool, SaveError>(SaveError::Missing),
        r matches Ok(create) ==> create == !file_exists,
{
    if is_new_game && file_exists {
        Err(SaveError::IdAlreadyExists)
    } else if !is_new_game && !file_exists {
        Err(SaveError::Missing)
    } else {
        Ok(!file_exists)
    }
}

/// The id of the save to open, and whether it is a new game: the id asked
/// for, or for a new game a fresh random id of thirty letters and digits.
pub fn save_id(requested: Option<String>) -> (r: (String, bool))
    ensures
        match requested {
            Some(id) => r.0@ == id@ && !r.1,
            None => r.1 && r.0@.len() == 30 && forall|i: int| 0 <= i < 30 ==> crate::utils::is_alphanumeric(#[trigger] r.0@[i]),
        },
{
    match requested {
        Some(id) => (id, false),
        None => (generate_random_id(30), true),
    }
}

/// The file name of a save: its id with the extension ".aae".
pub fn save_file_name(id: &str) -> (r: String)
    ensures
        r@ == id@ + ".aae"@,
{
    id.to_string().concat(".aae")
}

/// The path with every backslash turned into a forward slash.
fn forward_slashes(path: &str) -> (r: String)
    ensures
        r@ == path@.map_values(|c: char| if c == '\\' { '/' } else { c }),
{
    let ghost mapped = path@.map_values(|c: char| if c == '\\' { '/' } else { c });
    let n = path.unicode_len();
    let mut r = String::new();
    for i in 0..n
        invariant
            n == path@.len(),
            mapped == path@.map_values(|c: char| if c == '\\' { '/' } else { c }),
            r@ == mapped.take(i as int),
    {
        let c = path.get_char(i);
        if c == '\\' {
            proof {
                reveal_strlit("/");
            }
            r.append("/");
        } else {
            r.append(path.substring_char(i, i + 1));
        }
        assert(r@ =~= mapped.take(i + 1));
    }
    assert(mapped.take(n as int) =~= mapped);
    r
}

/// The connection address of the save `file_name` in the directory
/// `dir`: "sqlite://", the directory with forward slashes, "/", the file.
pub fn database_url(dir: &str, file_name: &str) -> (r: String)
    ensures
        r@ == "sqlite://"@ + dir@.map_values(|c: char| if c == '\\' { '/' } else { c }) + "/"@ + file_name@,
{
    "sqlite://".to_string().concat(forward_slashes(dir).as_str()).concat("/").concat(file_name)
}

/// What `chrono` writes for a time given in seconds since the Unix epoch:
/// `DateTime::<Utc>::from_timestamp(secs, 0)` formatted by `to_rfc3339`,
/// or none when chrono cannot represent the time.
pub uninterp spec fn spec_rfc3339(secs: i64) -> Option<Seq<char>>;

/// Calls `chrono::DateTime::<Utc>::from_timestamp(secs, 0)` and formats the
/// time with `to_rfc3339`. chrono returns no time for seconds out of its
/// range; the text is named by `spec_rfc3339` and not spelled out here.
#[verifier::external_body]
fn rfc3339_from_unix_seconds(secs: i64) -> (r: Option<String>)
    ensures
        match r {
            Some(s) => spec_rfc3339(secs) == Some(s@),
            None => spec_rfc3339(secs) is None,
        },
{
    DateTime::<Utc>::from_timestamp(secs, 0).map(|t| t.to_rfc3339())
}

/// The entry a file contributes to the list of saves, given its extension,
/// its name without extension, and when it was last modified (seconds since
/// the Unix epoch): saves are the files with extension "aae"; an entry is
/// the save's id and the time in RFC 3339, and there is none when the time
/// cannot be written.
pub fn save_listing_entry(extension: Option<&str>, file_stem: Option<String>, modified_secs: u64) -> (r: Option<(String, String)>)
    ensures
        r matches Some((id, time)) ==> extension matches Some(e) && e@ == "aae"@ && file_stem == Some(id)
            && spec_rfc3339(modified_secs as i64) == Some(time@),
        r is None ==> !(extension matches Some(e) && e@ == "aae"@) || file_stem is None
            || spec_rfc3339(modified_secs as i64) is None,
{
    match extension {
        Some(e) => {
            if e.to_string() == "aae".to_string() {
                match file_stem {
                    Some(stem) => {
                        match rfc3339_from_unix_seconds(modified_secs as i64) {
                            Some(time) => Some((stem, time)),
                            None => None,
                        }
                    },
                    None => None,
                }
            } else {
                None
            }
        },
        None => None,
    }
}

/// How many citizens a new game settles in each region's city.
pub const CITIZENS_PER_CITY: u32 = 10;

/// How many item stacks a new game hands each city and each citizen.
pub const STARTING_STACKS: u32 = 9;

/// The stacks a new game hands a city: nine stacks of ten food.
pub fn city_starting_items(city_id: i32) -> (r: Vec<Item>)
    ensures
        r@.len() == STARTING_STACKS,
        forall|i: int| 0 <= i < r@.len() ==> (#[trigger] r@[i]) == (Item {
            count: 10,
            id: 0,
            name: ItemName::Food,
            owner: ItemOwner::City(city_id),
        }),
{
    let mut r: Vec<Item> = Vec::new();
    for k in 0..STARTING_STACKS
        invariant
            r@.len() == k,
            forall|i: int| 0 <= i < r@.len() ==> (#[trigger] r@[i]) == (Item {
                count: 10,
                id: 0,
                name: ItemName::Food,
                owner: ItemOwner::City(city_id),
            }),
    {
        let mut item = Item::default();
        item.count = 10;
        item.owner = ItemOwner::City(city_id);
        r.push(item);
    }
    r
}

/// The stacks a new game hands a citizen: nine stacks of ten money.
pub fn citizen_starting_items(citizen_id: i32) -> (r: Vec<Item>)
    ensures
        r@.len() == STARTING_STACKS,
        forall|i: int| 0 <= i < r@.len() ==> (#[trigger] r@[i]) == (Item {
            count: 10,
            id: 0,
            name: ItemName::Money,
            owner: ItemOwner::Citizen(citizen_id),
        }),
{
    let mut r: Vec<Item> = Vec::new();
    for k in 0..STARTING_STACKS
        invariant
            r@.len() == k,
            forall|i: int| 0 <= i < r@.len() ==> (#[trigger] r@[i]) == (Item {
                count: 10,
                id: 0,
                name: ItemName::Money,
                owner: ItemOwner::Citizen(citizen_id),
            }),
    {
        let mut item = Item::default();
        item.count = 10;
        item.owner = ItemOwner::Citizen(citizen_id);
        item.name = ItemName::Money;
        r.push(item);
    }
    r
}

/// The text of a decimal digit.
fn digit_text(d: u32) -> (r: String)
    requires
        d < 10,
    ensures
        r@ == seq!['0', '1', '2', '3', '4', '5', '6', '7', '8', '9'].subrange(d as int, d + 1),
{
    let r = match d {
        0 => "0".to_string(),
        1 => "1".to_string(),
        2 => "2".to_string(),
        3 => "3".to_string(),
        4 => "4".to_string(),
        5 => "5".to_string(),
        6 => "6".to_string(),
        7 => "7".to_string(),
        8 => "8".to_string(),
        _ => "9".to_string(),
    };
    proof {
        reveal_strlit("0");
        reveal_strlit("1");
        reveal_strlit("2");
        reveal_strlit("3");
        reveal_strlit("4");
        reveal_strlit("5");
        reveal_strlit("6");
        reveal_strlit("7");
        reveal_strlit("8");
        reveal_strlit("9");
        assert(r@ =~= seq!['0', '1', '2', '3', '4', '5', '6', '7', '8', '9'].subrange(d as int, d + 1));
    }
    r
}

/// The `number`-th citizen a new game settles in a city (numbered from 0):
/// named "John" and the number, living and staying in the city, of the
/// given rank; otherwise a blank male citizen.
pub fn starting_citizen(city_id: i32, number: u32, rank: u16) -> (r: Citizen)
    requires
        number < CITIZENS_PER_CITY,
    ensures
        r.name@ == "John"@ + seq!['0', '1', '2', '3', '4', '5', '6', '7', '8', '9'].subrange(number as int, number + 1),
        r.id == 0,
        r.gender == Gender::Male,
        r.staying_city_id == city_id,
        r.home_city_id == city_id,
        r.rank == rank,
        r.born_timestamp == 0,
        r.death_timestamp is None,
        r.job is None,
        r.country_id is None,
        r.relations@ == Map::<i32, Relation>::empty(),
        r.level == 0 && r.exp == 0 && r.skill_points == 0 && r.money == 0,
{
    let mut c = Citizen::default();
    c.staying_city_id = city_id;
    c.home_city_id = city_id;
    c.name = "John".to_string().concat(digit_text(number).as_str());
    c.rank = rank;
    c
}

/// The rank a new game gives a citizen: from 1 to 10 at random.
pub fn starting_rank() -> (r: u16)
    ensures
        1 <= r <= 10,
{
    random(1, 10) as u16
}

impl City {
    /// The city joins a country.
    pub fn join_country(&mut self, country_id: i32)
        ensures
            final(self).country_id == Some(country_id),
            final(self).id == old(self).id,
            final(self).name == old(self).name,
            final(self).region_id == old(self).region_id,
            final(self).position_x == old(self).position_x,
            final(self).position_y == old(self).position_y,
            final(self).dev_production == old(self).dev_production,
            final(self).dev_building == old(self).dev_building,
            final(self).dev_infrastructure == old(self).dev_infrastructure,
            final(self).exp_dev_production == old(self).exp_dev_production,
            final(self).exp_dev_building == old(self).exp_dev_building,
            final(self).exp_dev_infrastructure == old(self).exp_dev_infrastructure,
            final(self).control == old(self).control,
            final(self).environment == old(self).environment,
    {
        self.country_id = Some(country_id);
    }
}

} // verus!
