use aggregate::inspection::{
    apply_inspection_action, inspected_indices, inspected_scope, AdministeredState, jump_to_region, InspectionAction, InspectionTab, InspectionView, MapProvince, MapViewState,
};
use aggregate::lettering::largest_land_cluster;
use aggregate::notifications::{NotificationEntry, NotificationState, MAX_TOASTS};
use aggregate::outliner::{outliner, place_name, regions_of, MapRegion, Outliner, PlaceName};
use aggregate::world::SimulationEvent;

fn cells(points: &[(f32, f32)]) -> Vec<(i32, i32)> {
    points.iter().map(|(x, y)| ((x * 64.) as i32, (y * 64.) as i32)).collect()
}

#[test]
fn overseas_holdings_do_not_stretch_mainland_lettering() {
    let mainland = vec![(0.48, 0.30), (0.49, 0.30), (0.50, 0.31)];
    let mut holdings = mainland.clone();
    holdings.push((0.82, 0.72));
    assert_eq!(largest_land_cluster(&cells(&holdings)).len(), mainland.len());
    assert_eq!(largest_land_cluster(&cells(&[(0.999, 0.4), (0.001, 0.4)])).len(), 2);
}

#[test]
fn the_largest_cluster_holds_its_points_and_ties_keep_the_first() {
    let mut chosen = largest_land_cluster(&vec![(5, 5), (40, 40), (6, 6), (41, 40), (5, 5)]);
    chosen.sort();
    assert_eq!(chosen, vec![0, 2, 4]);
    let mut tie = largest_land_cluster(&vec![(40, 40), (10, 10)]);
    tie.sort();
    assert_eq!(tie, vec![1]);
    assert!(largest_land_cluster(&vec![]).is_empty());
}

fn shortfall(sequence: u64, province: u128) -> NotificationEntry {
    NotificationEntry {
        sequence,
        day: 1,
        event: SimulationEvent::FoodShortfall { province, good: "grain".to_string(), amount: 5 },
    }
}

#[test]
fn notifications_expire_pause_on_hover_and_do_not_reappear_from_history() {
    let session = uuid::Uuid::now_v7().as_u128();
    let province = uuid::Uuid::parse_str("00000000-0000-0000-0000-000000000001").unwrap().as_u128();
    let entries: Vec<_> = (1..=4).map(|sequence| shortfall(sequence, province)).collect();
    let mut state = NotificationState::new();
    state.receive(session, &entries);
    assert_eq!(state.active.len(), 3);
    state.advance(7_000_000_000, |sequence| sequence == 4);
    assert_eq!(state.active.len(), 1);
    state.receive(session, &entries);
    assert_eq!(state.active.len(), 1);
    state.advance(7_000_000_000, |_| false);
    assert!(state.active.is_empty());
    state.receive(uuid::Uuid::now_v7().as_u128(), &vec![]);
    assert_eq!(state.seen, 0);
}

#[test]
fn at_most_the_latest_toasts_show() {
    let mut state = NotificationState::new();
    let entries: Vec<_> = (1..=9).map(|sequence| shortfall(sequence, 1)).collect();
    state.receive(5, &entries);
    assert_eq!(state.active.len(), MAX_TOASTS);
    let shown: Vec<_> = state.active.iter().map(|toast| toast.entry.sequence).collect();
    assert_eq!(shown, vec![7, 8, 9]);
    assert_eq!(state.seen, 9);
    state.advance(5_999_999_999, |_| false);
    assert_eq!(state.active.len(), 3);
    assert_eq!(state.active[0].remaining, 1);
    state.advance(1, |_| false);
    assert!(state.active.is_empty());
}

fn catalog() -> Vec<MapProvince> {
    vec![
        MapProvince { id: 10, water: false, owner: Some(1), region: Some(500) },
        MapProvince { id: 11, water: true, owner: None, region: None },
        MapProvince { id: 12, water: false, owner: Some(1), region: Some(501) },
        MapProvince { id: 13, water: false, owner: Some(2), region: Some(500) },
        MapProvince { id: 14, water: false, owner: Some(1), region: Some(502) },
    ]
}

fn regions() -> Vec<MapRegion> {
    vec![
        MapRegion { id: 500, name: "Vale".to_string() },
        MapRegion { id: 501, name: "Coast".to_string() },
        MapRegion { id: 502, name: "Vale".to_string() },
        MapRegion { id: 503, name: "Alps".to_string() },
    ]
}

#[test]
fn the_outliner_lists_the_owners_regions_by_name() {
    assert_eq!(regions_of(&catalog(), &regions(), 1), vec![1, 0, 2]);
    assert_eq!(regions_of(&catalog(), &regions(), 2), vec![0]);
    let hint = outliner(&MapViewState { selected_index: 2, inspect_country: false }, &catalog(), &regions());
    assert!(matches!(hint, Outliner::Hint));
    let none = outliner(&MapViewState { selected_index: 0, inspect_country: false }, &catalog(), &regions());
    assert!(matches!(none, Outliner::Hint));
    match outliner(&MapViewState { selected_index: 4, inspect_country: false }, &catalog(), &regions()) {
        Outliner::Regions { country, order } => {
            assert_eq!(country, 2);
            assert_eq!(order, vec![0]);
        }
        Outliner::Hint => panic!("an owned province lists its owner's regions"),
    }
}

#[test]
fn jumping_to_a_region_selects_its_first_province_of_the_country() {
    let mut map = MapViewState { selected_index: 1, inspect_country: true };
    assert_eq!(jump_to_region(&mut map, &catalog(), 500, 2), Some(4));
    assert_eq!(map.selected_index, 4);
    assert!(!map.inspect_country);
    assert_eq!(jump_to_region(&mut map, &catalog(), 501, 2), None);
    assert_eq!(map.selected_index, 4);
}

#[test]
fn inspection_buttons_move_the_selection() {
    let mut view = InspectionView { tab: InspectionTab::Overview, page: 3 };
    let mut map = MapViewState { selected_index: 0, inspect_country: false };
    let focus = apply_inspection_action(&mut view, &mut map, InspectionAction::Construction, &catalog(), 1);
    assert_eq!(focus, None);
    assert_eq!(map.selected_index, 1);
    assert!(map.inspect_country);
    assert_eq!(view.tab, InspectionTab::Construction);
    apply_inspection_action(&mut view, &mut map, InspectionAction::Province(3), &catalog(), 1);
    assert_eq!(map.selected_index, 3);
    assert!(!map.inspect_country);
}

fn countries() -> Vec<aggregate::setup::MapCountry> {
    vec![
        aggregate::setup::MapCountry { id: 1, key: "USA".to_string() },
        aggregate::setup::MapCountry { id: 2, key: "KOR".to_string() },
        aggregate::setup::MapCountry { id: 3, key: "JPN".to_string() },
    ]
}

fn setup_with(country: Option<u128>) -> aggregate::setup::WorldSetup {
    aggregate::setup::WorldSetup {
        open: true,
        country,
        settings: aggregate::setup::WorldInitializationSettings {
            population_per_province: 2000,
            workforce_percent: 50,
            construction_goods_per_province: 1000,
        },
        public_health: false,
        error: None,
        revision: 0,
    }
}

#[test]
fn the_setup_proposes_korea_or_else_the_first_playable_country() {
    let mut catalog = vec![
        MapProvince { id: 1, water: false, owner: Some(1), region: None },
        MapProvince { id: 2, water: true, owner: Some(2), region: None },
        MapProvince { id: 3, water: false, owner: Some(3), region: None },
    ];
    let mut setup = setup_with(None);
    setup.propose_country(&countries(), &catalog);
    assert_eq!(setup.country, Some(1));
    let mut kept = setup_with(Some(3));
    kept.propose_country(&countries(), &catalog);
    assert_eq!(kept.country, Some(3));
    let mut stale = setup_with(Some(2));
    stale.propose_country(&countries(), &catalog);
    assert_eq!(stale.country, Some(1));
    catalog.push(MapProvince { id: 4, water: false, owner: Some(2), region: None });
    let mut korea = setup_with(Some(9));
    korea.propose_country(&countries(), &catalog);
    assert_eq!(korea.country, Some(2));
    assert_eq!(korea.revision, 0);
}

#[test]
fn the_country_select_offers_playable_countries_by_name() {
    let catalog = vec![
        MapProvince { id: 1, water: false, owner: Some(1), region: None },
        MapProvince { id: 3, water: false, owner: Some(3), region: None },
    ];
    let names = vec!["Zeta".to_string(), "Korea".to_string(), "Alpha".to_string()];
    assert_eq!(aggregate::setup::country_choices(&countries(), &catalog, &names), vec![2, 0]);
}

#[test]
fn the_panel_inspects_the_provinces_of_its_states() {
    let states = vec![
        AdministeredState { catalog_index: 0, province_indices: vec![1, 3] },
        AdministeredState { catalog_index: 1, province_indices: vec![] },
        AdministeredState { catalog_index: 2, province_indices: vec![5] },
    ];
    assert_eq!(inspected_indices(&states, &vec![0, 2], 3), vec![1, 3, 5]);
    assert_eq!(inspected_indices(&states, &vec![1], 4), vec![4]);
    assert_eq!(inspected_indices(&states, &vec![], 2), vec![2]);
    let scope = inspected_scope(&catalog(), &vec![1, 3, 5, 1]);
    assert_eq!(scope.into_iter().collect::<Vec<_>>(), vec![10, 12, 14]);
}

#[test]
fn a_dismissed_toast_closes_and_the_others_stay() {
    let mut state = NotificationState::new();
    state.receive(8, &(1..=3).map(|sequence| shortfall(sequence, 1)).collect());
    state.dismiss(2);
    let shown: Vec<_> = state.active.iter().map(|toast| toast.entry.sequence).collect();
    assert_eq!(shown, vec![1, 3]);
    assert_eq!(state.seen, 3);
    state.dismiss(9);
    assert_eq!(state.active.len(), 2);
}

#[test]
fn the_map_names_the_place_under_the_pointer() {
    let mut catalog = catalog();
    catalog.push(MapProvince { id: 15, water: false, owner: Some(1), region: Some(999) });
    assert!(matches!(place_name(&catalog, &regions(), 1), Some(PlaceName::Region(name)) if name == "Vale"));
    assert!(matches!(place_name(&catalog, &regions(), 3), Some(PlaceName::Region(name)) if name == "Coast"));
    assert!(matches!(place_name(&catalog, &regions(), 2), Some(PlaceName::Water)));
    assert!(matches!(place_name(&catalog, &regions(), 6), Some(PlaceName::Unassigned)));
    assert!(place_name(&catalog, &regions(), 0).is_none());
    assert!(place_name(&catalog, &regions(), 7).is_none());
}

#[test]
fn the_largest_cluster_is_a_whole_chain_of_touching_cells() {
    let mut chain = largest_land_cluster(&vec![(1, 1), (30, 9), (3, 3), (2, 2), (30, 9), (4, 4)]);
    chain.sort();
    assert_eq!(chain, vec![0, 2, 3, 5]);
    let single = largest_land_cluster(&vec![(63, 0)]);
    assert_eq!(single, vec![0]);
}
