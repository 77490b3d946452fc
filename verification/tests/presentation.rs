use aggregate::identity::uuid_text;
use aggregate::labels::{label_value, LabelValue, ManagementLabel};
use aggregate::presentation::{
    content_key, daily_goods_change, event_text, facility_label, facility_name, feedback, good_name, province_name,
    recipe_description, EventMessage, FacilityLabel, FeedbackMessage, ProvinceName,
};
use aggregate::session::{ManagementSession, ManagementViewState, SessionFeedback};
use aggregate::worker::{
    batch_changed, construction_target, publish_snapshot, submission_error, worker_stopped, SubmitFailure,
};
use aggregate::session::{CompletedWork, WorkOutcome, WorkRequest};
use aggregate::world::{
    ConstructionProject, ConstructionRecipe, ContentDefinitions, Country, DayReport, Facility, FacilityDefinition,
    GoodAmount, GoodDefinition, GoodsFlow, GoodsFlowCause, PopulationGroup, Province, ProvinceDayReport,
    SimulationCommand, SimulationError, SimulationEvent, WorldSnapshot,
};

const PLAYER: u128 = 0x01a07577_e209_7938_8120_efb504849d04;

fn amount(good: &str, amount: u64) -> GoodAmount {
    GoodAmount { good: good.to_string(), amount }
}

fn snapshot() -> WorldSnapshot {
    WorldSnapshot {
        day: 7,
        countries: vec![Country { id: PLAYER, name: "Aurelia".to_string() }],
        provinces: vec![
            Province {
                id: 10,
                country: PLAYER,
                name: "South Ridge".to_string(),
                name_key: Some("province-south-ridge".to_string()),
                stockpile: vec![amount("timber", 40)],
            },
            Province { id: 11, country: PLAYER, name: "Plain".to_string(), name_key: None, stockpile: vec![] },
        ],
        population_groups: vec![
            PopulationGroup { id: 1, province: 10, population: 150, workforce: 100 },
            PopulationGroup { id: 2, province: 11, population: 50, workforce: 20 },
        ],
        facilities: vec![Facility {
            id: 100,
            province: 10,
            definition: "grain_farm".to_string(),
            level: 2,
            production_priority: 100,
        }],
        construction_projects: vec![ConstructionProject {
            facility_id: 200,
            province: 10,
            definition: "grain_farm".to_string(),
            requested_workers: 5,
            remaining_worker_days: 12,
            remaining_construction_points: 50,
        }],
    }
}

fn session() -> ManagementSession {
    let definitions = ContentDefinitions {
        goods: vec![GoodDefinition { id: "timber".to_string(), name: "Timber".to_string() }],
        facilities: vec![FacilityDefinition {
            id: "grain_farm".to_string(),
            name: "Grain farm".to_string(),
            workers_per_level: 10,
            construction: ConstructionRecipe {
                goods: vec![amount("timber", 25)],
                max_workers: 5,
                worker_days: 20,
                construction_points: 100,
            },
            inputs_per_worker_day: vec![],
            outputs_per_worker_day: vec![amount("grain", 3)],
            construction_points_per_worker_day: 0,
        }],
    };
    ManagementSession::create(snapshot(), definitions, PLAYER, false).ok().expect("player land")
}

#[test]
fn content_keys_use_dashes() {
    assert_eq!(content_key("facility", "grain_farm"), "world-facility-grain-farm");
    assert_eq!(content_key("good", "iron_ore_raw"), "world-good-iron-ore-raw");
    assert_eq!(content_key("good", "timber"), "world-good-timber");
}

#[test]
fn uuid_text_is_hyphenated_lowercase_hex() {
    assert_eq!(uuid_text(PLAYER), "01a07577-e209-7938-8120-efb504849d04");
    assert_eq!(uuid_text(1), "00000000-0000-0000-0000-000000000001");
    assert_eq!(uuid_text(PLAYER), uuid::Uuid::from_u128(PLAYER).hyphenated().to_string());
}

#[test]
fn names_come_from_keys_with_fallbacks() {
    let session = session();
    match province_name(&session, 10) {
        ProvinceName::Localized { key, fallback } => {
            assert_eq!(key, "province-south-ridge");
            assert_eq!(fallback, "South Ridge");
        }
        _ => panic!("a keyed province is localized"),
    }
    assert!(matches!(province_name(&session, 11), ProvinceName::Plain(name) if name == "Plain"));
    assert!(matches!(province_name(&session, 99), ProvinceName::Unknown(99)));
    let farm = facility_name(&session, &"grain_farm".to_string());
    assert_eq!((farm.key.as_str(), farm.fallback.as_str()), ("world-facility-grain-farm", "Grain farm"));
    let unknown = good_name(&session, &"iron_ore".to_string());
    assert_eq!((unknown.key.as_str(), unknown.fallback.as_str()), ("world-good-iron-ore", "iron_ore"));
    assert!(matches!(facility_label(&session, 100), FacilityLabel::Kind(name) if name.fallback == "Grain farm"));
    assert!(matches!(facility_label(&session, 200), FacilityLabel::Kind(_)));
    assert!(matches!(facility_label(&session, 5), FacilityLabel::Unknown(5)));
}

#[test]
fn feedback_and_events_become_messages() {
    let mut session = session();
    assert!(matches!(feedback(&session), FeedbackMessage::Ready));
    session.feedback = SessionFeedback::Error(SimulationError::InsufficientConstructionGoods {
        province: 11,
        good: "timber".to_string(),
        required: 25,
        available: 0,
    });
    match feedback(&session) {
        FeedbackMessage::InsufficientGoods { province, good, required, available } => {
            assert!(matches!(province, ProvinceName::Plain(name) if name == "Plain"));
            assert_eq!(good.fallback, "Timber");
            assert_eq!((required, available), (25, 0));
        }
        _ => panic!("missing goods are explained"),
    }
    let shortage = event_text(
        &session,
        &SimulationEvent::FoodShortfall { province: 10, good: "timber".to_string(), amount: 4 },
    );
    assert!(matches!(shortage, EventMessage::Shortage { amount: 4, .. }));
    let recipe = recipe_description(&session, &session.definitions.facilities[0]);
    assert_eq!((recipe.workers, recipe.work), (5, 20));
    assert_eq!(recipe.cost.len(), 1);
    assert_eq!(recipe.cost[0].amount, 25);
    assert!(recipe.inputs.is_empty());
    assert_eq!(recipe.outputs[0].good.key, "world-good-grain");
}

#[test]
fn daily_change_adds_output_and_subtracts_other_flows() {
    let mut session = session();
    assert_eq!(daily_goods_change(&session, 10, &"timber".to_string()), None);
    session.last_report = Some(DayReport {
        day: 7,
        provinces: vec![],
        events: vec![],
        goods_flows: vec![
            GoodsFlow { province: 10, good: "timber".to_string(), amount: 9, cause: GoodsFlowCause::ProductionOutput },
            GoodsFlow { province: 10, good: "timber".to_string(), amount: 12, cause: GoodsFlowCause::Withdrawal },
            GoodsFlow { province: 11, good: "timber".to_string(), amount: 50, cause: GoodsFlowCause::ProductionOutput },
        ],
        facilities: vec![],
        constructions: vec![],
    });
    assert_eq!(daily_goods_change(&session, 10, &"timber".to_string()), Some(-3));
    assert_eq!(daily_goods_change(&session, 11, &"tools".to_string()), Some(0));
}

#[test]
fn labels_show_the_selected_province() {
    let mut session = session();
    let view = ManagementViewState { selected_province: 10 };
    match label_value(&session, &view, &ManagementLabel::Country) {
        Some(LabelValue::Country(Some(name))) => {
            assert_eq!(name.key, "world-country-01a07577-e209-7938-8120-efb504849d04");
            assert_eq!(name.fallback, "Aurelia");
        }
        _ => panic!("the player country is named"),
    }
    assert!(matches!(label_value(&session, &view, &ManagementLabel::Day), Some(LabelValue::Day(7))));
    assert!(matches!(label_value(&session, &view, &ManagementLabel::Population), Some(LabelValue::Total(200))));
    assert!(matches!(label_value(&session, &view, &ManagementLabel::Workforce), Some(LabelValue::Total(120))));
    assert!(matches!(
        label_value(&session, &view, &ManagementLabel::Allocation),
        Some(LabelValue::BeforeAllocation { workers: 100 })
    ));
    assert!(matches!(
        label_value(&session, &view, &ManagementLabel::Stock("timber".to_string())),
        Some(LabelValue::Stock(40))
    ));
    assert!(matches!(
        label_value(&session, &view, &ManagementLabel::ProjectProgress(200)),
        Some(LabelValue::ProjectProgress(Some((12, 5))))
    ));
    session.last_report = Some(DayReport {
        day: 7,
        provinces: vec![ProvinceDayReport {
            province: 10,
            available_workers: 100,
            production_workers: 60,
            construction_workers: 5,
            food_required: 10,
            food_consumed: 8,
            food_shortfall: 2,
        }],
        events: vec![],
        goods_flows: vec![],
        facilities: vec![],
        constructions: vec![],
    });
    assert!(matches!(
        label_value(&session, &view, &ManagementLabel::Allocation),
        Some(LabelValue::Allocation { production: 60, construction: 5, idle: 35, workers: 100 })
    ));
    assert!(label_value(&session, &ManagementViewState { selected_province: 99 }, &ManagementLabel::Day).is_none());
}

#[test]
fn the_worker_reports_failures_and_publishes_changes_once() {
    assert!(matches!(
        submission_error(SubmitFailure::Full),
        SimulationError::CommandRejected(message) if message == "simulation request queue is full"
    ));
    assert!(matches!(
        submission_error(SubmitFailure::Disconnected),
        SimulationError::CommandRejected(message) if message == "simulation worker stopped"
    ));
    let stopped = worker_stopped();
    assert!(stopped.construction_id.is_none() && stopped.snapshot.is_none());
    assert!(matches!(stopped.result, Err(SimulationError::InvalidPrograms(message)) if message == "simulation worker stopped"));
    let request = WorkRequest::Construction(
        SimulationCommand::StartConstruction {
            country: PLAYER,
            province: 10,
            facility: 77,
            definition: "grain_farm".to_string(),
            workers: 5,
            production_priority: 100,
        },
        "grain_farm".to_string(),
    );
    assert_eq!(construction_target(&request), Some(77));
    assert_eq!(construction_target(&WorkRequest::Step), None);
    let failed = CompletedWork { construction_id: None, result: Err(SimulationError::InvalidPrograms("x".to_string())), snapshot: None };
    let mut batch = vec![failed];
    assert!(!batch_changed(&batch));
    batch.push(CompletedWork {
        construction_id: None,
        result: Ok(WorkOutcome::Day(DayReport {
            day: 8,
            provinces: vec![],
            events: vec![],
            goods_flows: vec![],
            facilities: vec![],
            constructions: vec![],
        })),
        snapshot: None,
    });
    assert!(batch_changed(&batch));
    publish_snapshot(&mut batch, snapshot());
    let (published, index) = batch[0].snapshot.as_ref().expect("first answer carries the snapshot");
    assert_eq!(published.day, 7);
    assert_eq!(index.provinces.get(&11), Some(&1));
    assert!(batch[1].snapshot.is_none());
}
