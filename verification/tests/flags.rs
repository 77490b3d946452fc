use aggregate::flags::{flag_path, FlagCode};
use aggregate::setup::MapCountry;

fn countries() -> Vec<MapCountry> {
    vec![MapCountry { id: 7, key: "KOR".to_string() }, MapCountry { id: 8, key: "ATL".to_string() }]
}

fn flags() -> Vec<FlagCode> {
    vec![FlagCode { key: "KOR".to_string(), code: "kr".to_string() }]
}

#[test]
fn a_known_country_shows_its_raster_flag() {
    assert_eq!(flag_path(&countries(), &flags(), 7), "flags/raster/kr.png");
}

#[test]
fn unknown_countries_and_tags_show_the_building_icon() {
    let icon = "icons/heroicons/solid/building-library.png";
    assert_eq!(flag_path(&countries(), &flags(), 8), icon);
    assert_eq!(flag_path(&countries(), &flags(), 9), icon);
    assert_eq!(flag_path(&vec![], &flags(), 7), icon);
}
