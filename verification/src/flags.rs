//! Which image shows a country's flag: the bundled mapping from country tags to
//! flag codes names a raster image, and a building icon stands in for a country
//! that the map or the mapping does not know.
use crate::setup::MapCountry;
use crate::text::joined;
use crate::world::CountryId;
use vstd::prelude::*;

verus! {

/// One entry of the bundled flag mapping: a country tag and its flag's code. The
/// mapping is a map, so each tag occurs once.
pub struct FlagCode {
    pub key: String,
    pub code: String,
}

/// Position of the first of the first `n` map countries with identity `id`.
pub open spec fn country_position_upto(countries: Seq<MapCountry>, id: CountryId, n: int) -> Option<int>
    decreases n,
{
    if n <= 0 {
        None
    } else if country_position_upto(countries, id, n - 1) is Some {
        country_position_upto(countries, id, n - 1)
    } else if countries[n - 1].id == id {
        Some(n - 1)
    } else {
        None
    }
}

/// Position of the first of the first `n` flag entries of tag `key`.
pub open spec fn flag_position_upto(flags: Seq<FlagCode>, key: Seq<char>, n: int) -> Option<int>
    decreases n,
{
    if n <= 0 {
        None
    } else if flag_position_upto(flags, key, n - 1) is Some {
        flag_position_upto(flags, key, n - 1)
    } else if flags[n - 1].key@ == key {
        Some(n - 1)
    } else {
        None
    }
}

/// The flag code of `country`: that of its tag, where the map lists the country
/// and the mapping lists its tag.
pub open spec fn flag_code_of(countries: Seq<MapCountry>, flags: Seq<FlagCode>, country: CountryId) -> Option<Seq<char>> {
    match country_position_upto(countries, country, countries.len() as int) {
        Some(i) => match flag_position_upto(flags, countries[i].key@, flags.len() as int) {
            Some(j) => Some(flags[j].code@),
            None => None,
        },
        None => None,
    }
}

/// The image path of `country`'s flag: `flags/raster/<code>.png`, else the
/// building icon.
pub open spec fn flag_path_of(countries: Seq<MapCountry>, flags: Seq<FlagCode>, country: CountryId) -> Seq<char> {
    match flag_code_of(countries, flags, country) {
        Some(code) => "flags/raster/"@ + code + ".png"@,
        None => "icons/heroicons/solid/building-library.png"@,
    }
}

proof fn lemma_country_position_prefix(countries: Seq<MapCountry>, id: CountryId, k: int, n: int)
    requires
        0 <= k < n <= countries.len(),
        country_position_upto(countries, id, k) is None,
        countries[k].id == id,
    ensures
        country_position_upto(countries, id, n) == Some(k),
    decreases n,
{
    if n > k + 1 {
        lemma_country_position_prefix(countries, id, k, n - 1);
    }
}

proof fn lemma_flag_position_prefix(flags: Seq<FlagCode>, key: Seq<char>, k: int, n: int)
    requires
        0 <= k < n <= flags.len(),
        flag_position_upto(flags, key, k) is None,
        flags[k].key@ == key,
    ensures
        flag_position_upto(flags, key, n) == Some(k),
    decreases n,
{
    if n > k + 1 {
        lemma_flag_position_prefix(flags, key, k, n - 1);
    }
}

/// Finds the map country with identity `id`.
fn find_country(countries: &Vec<MapCountry>, id: CountryId) -> (found: Option<usize>)
    ensures
        match found {
            Some(i) => i < countries@.len() && country_position_upto(countries@, id, countries@.len() as int) == Some(i as int),
            None => country_position_upto(countries@, id, countries@.len() as int) is None,
        },
{
    let mut i: usize = 0;
    while i < countries.len()
        invariant
            i <= countries@.len(),
            country_position_upto(countries@, id, i as int) is None,
        decreases countries.len() - i,
    {
        if countries[i].id == id {
            proof {
                lemma_country_position_prefix(countries@, id, i as int, countries@.len() as int);
            }
            return Some(i);
        }
        i = i + 1;
    }
    None
}

/// Finds the flag entry of tag `key`.
fn find_flag(flags: &Vec<FlagCode>, key: &String) -> (found: Option<usize>)
    ensures
        match found {
            Some(j) => j < flags@.len() && flag_position_upto(flags@, key@, flags@.len() as int) == Some(j as int),
            None => flag_position_upto(flags@, key@, flags@.len() as int) is None,
        },
{
    let mut j: usize = 0;
    while j < flags.len()
        invariant
            j <= flags@.len(),
            flag_position_upto(flags@, key@, j as int) is None,
        decreases flags.len() - j,
    {
        if flags[j].key == *key {
            proof {
                lemma_flag_position_prefix(flags@, key@, j as int, flags@.len() as int);
            }
            return Some(j);
        }
        j = j + 1;
    }
    None
}

/// The image path of `country`'s flag among the map's `countries` (empty while no
/// map is loaded) and the bundled `flags`.
pub fn flag_path(countries: &Vec<MapCountry>, flags: &Vec<FlagCode>, country: CountryId) -> (path: String)
    ensures
        path@ == flag_path_of(countries@, flags@, country),
{
    if let Some(i) = find_country(countries, country) {
        if let Some(j) = find_flag(flags, &countries[i].key) {
            let mut path = joined("flags/raster/", flags[j].code.as_str());
            path.append(".png");
            return path;
        }
    }
    "icons/heroicons/solid/building-library.png".to_owned()
}

} // verus!
