use aggregate::construction::construction_site;
use aggregate::inspection::territory_statistics;
use aggregate::lists::{
    latest_news, list_rebuild, news_feed, player_provinces, project_rows, province_page_ids, selected_projects,
    ManagementList, RenderedList, PROVINCE_PAGE_SIZE,
};
use aggregate::production::{building_card, production_summary};
use aggregate::queue::{queue_rows, QueueSource};
use aggregate::session::{ManagementSession, ManagementViewState, NewsEntry, PendingConstruction};
use aggregate::world::{
    ConstructionDayReport, ConstructionProject, ConstructionRecipe, ContentDefinitions, Country, DayReport, Facility,
    FacilityDayReport, FacilityDefinition, GoodAmount, GoodDefinition, PopulationGroup, Province, SimulationEvent,
    WorldSnapshot,
};
use std::collections::BTreeSet;

const PLAYER: u128 = 1;
const RIVAL: u128 = 2;

fn amount(good: &str, amount: u64) -> GoodAmount {
    GoodAmount { good: good.to_string(), amount }
}

fn project(facility_id: u128, province: u128, definition: &str, remaining: u64) -> ConstructionProject {
    ConstructionProject {
        facility_id,
        province,
        definition: definition.to_string(),
        requested_workers: 5,
        remaining_worker_days: 20,
        remaining_construction_points: remaining,
    }
}

fn definition(id: &str, workers_per_level: u64, points_per_worker_day: u64, construction_points: u64) -> FacilityDefinition {
    FacilityDefinition {
        id: id.to_string(),
        name: id.to_string(),
        workers_per_level,
        construction: ConstructionRecipe {
            goods: vec![amount("timber", 25), amount("tools", 15)],
            max_workers: 5,
            worker_days: 20,
            construction_points,
        },
        inputs_per_worker_day: vec![],
        outputs_per_worker_day: vec![],
        construction_points_per_worker_day: points_per_worker_day,
    }
}

fn session() -> ManagementSession {
    let snapshot = WorldSnapshot {
        day: 3,
        countries: vec![Country { id: PLAYER, name: "Aurelia".to_string() }],
        provinces: vec![
            Province {
                id: 10,
                country: PLAYER,
                name: "North".to_string(),
                name_key: None,
                stockpile: vec![amount("timber", 40), amount("tools", 30)],
            },
            Province {
                id: 11,
                country: PLAYER,
                name: "South".to_string(),
                name_key: None,
                stockpile: vec![amount("timber", 30), amount("tools", 20)],
            },
            Province { id: 12, country: PLAYER, name: "Poor".to_string(), name_key: None, stockpile: vec![] },
            Province { id: 20, country: RIVAL, name: "Far".to_string(), name_key: None, stockpile: vec![] },
        ],
        population_groups: vec![
            PopulationGroup { id: 1000, province: 10, population: 150, workforce: 100 },
            PopulationGroup { id: 1001, province: 11, population: 90, workforce: 60 },
            PopulationGroup { id: 1002, province: 20, population: 70, workforce: 50 },
        ],
        facilities: vec![
            Facility { id: 100, province: 10, definition: "grain_farm".to_string(), level: 2, production_priority: 70 },
            Facility { id: 101, province: 11, definition: "grain_farm".to_string(), level: 1, production_priority: 50 },
            Facility { id: 102, province: 10, definition: "builders".to_string(), level: 1, production_priority: 50 },
            Facility { id: 103, province: 20, definition: "grain_farm".to_string(), level: 4, production_priority: 50 },
        ],
        construction_projects: vec![
            project(301, 10, "grain_farm", 60),
            project(300, 11, "grain_farm", 100),
            project(302, 20, "grain_farm", 10),
        ],
    };
    let definitions = ContentDefinitions {
        goods: vec![GoodDefinition { id: "grain".to_string(), name: "Grain".to_string() }],
        facilities: vec![definition("grain_farm", 10, 0, 100), definition("builders", 4, 2, 0)],
    };
    let mut session = ManagementSession::create(snapshot, definitions, PLAYER, true).ok().expect("player land");
    session.last_report = Some(DayReport {
        day: 3,
        provinces: vec![],
        events: vec![],
        goods_flows: vec![],
        facilities: vec![
            FacilityDayReport {
                facility: 100,
                active_workers: 15,
                construction_points: 0,
                inputs: vec![amount("tools", 2), amount("seed", 1)],
                outputs: vec![amount("grain", 30)],
            },
            FacilityDayReport {
                facility: 101,
                active_workers: 4,
                construction_points: 0,
                inputs: vec![amount("tools", 1)],
                outputs: vec![amount("grain", 8), amount("chaff", 2)],
            },
            FacilityDayReport {
                facility: 103,
                active_workers: 40,
                construction_points: 0,
                inputs: vec![],
                outputs: vec![amount("grain", 99)],
            },
            FacilityDayReport {
                facility: 102,
                active_workers: 3,
                construction_points: 6,
                inputs: vec![],
                outputs: vec![],
            },
        ],
        constructions: vec![ConstructionDayReport { facility: 301, active_workers: 3, sector_construction_points: 6 }],
    });
    session
}

fn scope(ids: &[u128]) -> BTreeSet<u128> {
    ids.iter().copied().collect()
}

#[test]
fn production_sums_the_facilities_of_a_kind_in_the_territory() {
    let session = session();
    let summary = production_summary(&session, &scope(&[10, 11]), &"grain_farm".to_string());
    assert_eq!(summary.capacity, 30);
    assert_eq!(summary.active_workers, 19);
    assert_eq!(summary.construction_points, 0);
    let inputs: Vec<_> = summary.inputs.iter().map(|total| (total.good.as_str(), total.amount)).collect();
    assert_eq!(inputs, vec![("seed", 1), ("tools", 3)]);
    let outputs: Vec<_> = summary.outputs.iter().map(|total| (total.good.as_str(), total.amount)).collect();
    assert_eq!(outputs, vec![("chaff", 2), ("grain", 38)]);
}

#[test]
fn production_outside_the_territory_or_without_a_report_counts_nothing() {
    let mut session = session();
    let far = production_summary(&session, &scope(&[12]), &"grain_farm".to_string());
    assert_eq!((far.capacity, far.active_workers), (0, 0));
    assert!(far.outputs.is_empty());
    session.last_report = None;
    let unreported = production_summary(&session, &scope(&[10, 11]), &"grain_farm".to_string());
    assert_eq!(unreported.capacity, 30);
    assert_eq!(unreported.active_workers, 0);
    assert!(unreported.inputs.is_empty() && unreported.outputs.is_empty());
}

#[test]
fn building_cards_show_levels_queue_service_and_site() {
    let session = session();
    let farm = building_card(&session, &scope(&[10, 11, 12]), &"grain_farm".to_string());
    assert_eq!(farm.level, 3);
    assert_eq!(farm.queued, 2);
    assert_eq!(farm.planned_level, Some(5));
    assert!(farm.reported);
    assert!(!farm.service);
    assert!(farm.buildable);
    assert_eq!(farm.site, Some(10));
    let builders = building_card(&session, &scope(&[10]), &"builders".to_string());
    assert_eq!(builders.level, 1);
    assert_eq!(builders.planned_level, None);
    assert!(builders.service);
    assert_eq!(builders.summary.construction_points, 6);
    let foreign = building_card(&session, &scope(&[20]), &"grain_farm".to_string());
    assert!(!foreign.buildable);
    assert_eq!(foreign.site, None);
}

#[test]
fn construction_goes_where_most_workforce_is_idle() {
    let session = session();
    let farm = &session.definitions.facilities[0];
    assert_eq!(construction_site(&session, &scope(&[10, 11, 12]), farm), Some(10));
    assert_eq!(construction_site(&session, &scope(&[11, 12]), farm), Some(11));
    assert_eq!(construction_site(&session, &scope(&[12, 20]), farm), None);
}

#[test]
fn the_queue_lists_projects_by_facility_with_their_work() {
    let session = session();
    let rows = queue_rows(&session, &scope(&[10, 11]));
    let facilities: Vec<_> = rows.iter().map(|row| row.facility).collect();
    assert_eq!(facilities, vec![300, 301]);
    assert_eq!(rows[0].source, QueueSource::Project(1));
    assert!(rows[0].applied.is_none());
    assert_eq!(rows[0].total_points, 100);
    let applied = rows[1].applied.as_ref().expect("reported work");
    assert_eq!((applied.work, applied.amount), (9, 6));
    assert!(queue_rows(&session, &scope(&[12])).is_empty());
}

#[test]
fn territory_statistics_cover_only_simulated_provinces() {
    let session = session();
    let statistics = territory_statistics(&session.snapshot, &scope(&[10, 11]));
    assert!(statistics.has_statistics);
    assert_eq!((statistics.population, statistics.workforce), (240, 160));
    assert_eq!(statistics.buildings, 4);
    assert_eq!(statistics.construction, 2);
    assert!(!territory_statistics(&session.snapshot, &scope(&[10, 99])).has_statistics);
}

#[test]
fn lists_rebuild_only_when_what_they_hold_changes() {
    let mut session = session();
    let view = ManagementViewState { selected_province: 10 };
    assert_eq!(selected_projects(&session, &view), vec![301]);
    let rendered = list_rebuild(&None, ManagementList::Projects, &session, &view).expect("first build");
    assert!(rendered.initialized);
    assert_eq!(rendered.projects, vec![301]);
    let rendered = Some(rendered);
    assert!(list_rebuild(&rendered, ManagementList::Projects, &session, &view).is_none());
    assert!(list_rebuild(&rendered, ManagementList::News, &session, &view).is_none());
    session.news.push(NewsEntry { day: 3, event: SimulationEvent::ConstructionCompleted { province: 10, facility: 9 } });
    assert!(list_rebuild(&rendered, ManagementList::Projects, &session, &view).is_none());
    assert!(list_rebuild(&rendered, ManagementList::News, &session, &view).is_some());
    let stale = Some(RenderedList { projects: vec![], news_count: 1, initialized: true });
    assert!(list_rebuild(&stale, ManagementList::Projects, &session, &view).is_some());
}

#[test]
fn project_rows_and_news_feed_order() {
    let mut session = session();
    let rows = project_rows(&session, &ManagementViewState { selected_province: 11 });
    assert_eq!(rows.len(), 1);
    assert_eq!((rows[0].facility, rows[0].definition.as_str()), (300, "grain_farm"));
    for day in 1..=3 {
        session.news.push(NewsEntry { day, event: SimulationEvent::ConstructionCompleted { province: 10, facility: 9 } });
    }
    let days: Vec<_> = news_feed(&session).iter().map(|entry| entry.day).collect();
    assert_eq!(days, vec![3, 2, 1]);
}

#[test]
fn the_map_feed_shows_the_latest_news_first() {
    let mut session = session();
    assert!(latest_news(&session, 4).is_empty());
    for day in 1..=6 {
        session.news.push(NewsEntry { day, event: SimulationEvent::ConstructionCompleted { province: 10, facility: 9 } });
    }
    let days: Vec<_> = latest_news(&session, 4).iter().map(|entry| entry.day).collect();
    assert_eq!(days, vec![6, 5, 4, 3]);
    assert_eq!(latest_news(&session, 10).len(), 6);
}

#[test]
fn the_management_screen_lists_the_players_provinces_in_order() {
    let session = session();
    assert_eq!(player_provinces(&session), vec![10, 11, 12]);
}

fn pending(session: &mut ManagementSession, id: u128, province: u128, definition: &str) {
    session
        .pending_construction
        .push((id, PendingConstruction { province, definition: definition.to_string() }));
}

#[test]
fn the_queue_shows_pending_targets_in_scope_until_their_project_appears() {
    let mut session = session();
    pending(&mut session, 301, 10, "grain_farm");
    pending(&mut session, 250, 10, "builders");
    pending(&mut session, 260, 20, "grain_farm");
    pending(&mut session, 305, 11, "grain_farm");
    let rows = queue_rows(&session, &scope(&[10, 11]));
    let facilities: Vec<_> = rows.iter().map(|row| row.facility).collect();
    assert_eq!(facilities, vec![250, 300, 301, 305]);
    assert_eq!(rows[0].source, QueueSource::Pending(1));
    assert_eq!(rows[0].total_points, 0);
    assert!(rows[0].applied.is_none());
    assert_eq!(rows[2].source, QueueSource::Project(0));
    assert_eq!(rows[3].source, QueueSource::Pending(3));
    assert_eq!(rows[3].total_points, 100);
    let far = queue_rows(&session, &scope(&[20]));
    let far: Vec<_> = far.iter().map(|row| (row.facility, row.source)).collect();
    assert_eq!(far, vec![(260, QueueSource::Pending(2)), (302, QueueSource::Project(2))]);
}

#[test]
fn building_cards_count_pending_targets_once() {
    let mut session = session();
    pending(&mut session, 301, 10, "grain_farm");
    pending(&mut session, 305, 12, "grain_farm");
    pending(&mut session, 306, 20, "grain_farm");
    let farm = building_card(&session, &scope(&[10, 11, 12]), &"grain_farm".to_string());
    assert_eq!(farm.queued, 3);
    assert_eq!(farm.planned_level, Some(6));
}

#[test]
fn a_large_country_lists_its_provinces_a_page_at_a_time() {
    let mut session = session();
    for k in 0..67u128 {
        session.snapshot.provinces.push(Province {
            id: 1000 + k,
            country: PLAYER,
            name: format!("March {k}"),
            name_key: None,
            stockpile: vec![],
        });
    }
    session.snapshot.provinces.push(Province { id: 21, country: RIVAL, name: "Isle".to_string(), name_key: None, stockpile: vec![] });
    assert_eq!(player_provinces(&session).len(), 70);
    let first = province_page_ids(&session, session.province_page);
    assert_eq!(first.len(), PROVINCE_PAGE_SIZE);
    assert_eq!(&first[..4], &[10, 11, 12, 1000]);
    assert_eq!(first[31], 1028);
    let second = province_page_ids(&session, 1);
    assert_eq!((second[0], second[31]), (1029, 1060));
    let last = province_page_ids(&session, 2);
    assert_eq!(last, vec![1061, 1062, 1063, 1064, 1065, 1066]);
    assert!(province_page_ids(&session, 5).is_empty());
    assert!(province_page_ids(&session, usize::MAX).is_empty());
}
