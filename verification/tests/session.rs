use aggregate::interface::Screen;
use aggregate::labels::{button_look, label_value, ButtonLook, LabelValue, ManagementLabel};
use aggregate::presentation::FeedbackMessage;
use aggregate::playback::SimulationSpeed;
use aggregate::session::{
    CompletedWork, InspectionScope, InspectionStep, ManagementAction, ManagementSession, ManagementViewState,
    SessionFeedback, WorkOutcome, WorkRequest, MAX_PENDING_JOBS, NEWS_LIMIT,
};
use aggregate::snapshot_index::SnapshotIndex;
use aggregate::worker::construction_target;
use aggregate::world::{
    CommandOutcome, ConstructionProject, ConstructionRecipe, ContentDefinitions, Country, DayReport, Facility,
    FacilityDefinition, GoodAmount, GoodDefinition, PopulationGroup, Province, SimulationCommand, SimulationError,
    SimulationEvent, WorldSnapshot, goods_distinct, snapshot_stockpiles_distinct, stock_of,
};

const PLAYER: u128 = 1;
const RIVAL: u128 = 2;

fn amount(good: &str, amount: u64) -> GoodAmount {
    GoodAmount { good: good.to_string(), amount }
}

fn snapshot() -> WorldSnapshot {
    WorldSnapshot {
        day: 3,
        countries: vec![
            Country { id: PLAYER, name: "Aurelia".to_string() },
            Country { id: RIVAL, name: "Borea".to_string() },
        ],
        provinces: vec![
            Province {
                id: 10,
                country: PLAYER,
                name: "North".to_string(),
                name_key: None,
                stockpile: vec![amount("timber", 40), amount("tools", 30)],
            },
            Province {
                id: 11,
                country: PLAYER,
                name: "South Ridge".to_string(),
                name_key: Some("province-south-ridge".to_string()),
                stockpile: vec![amount("timber", 5)],
            },
            Province { id: 20, country: RIVAL, name: "Far".to_string(), name_key: None, stockpile: vec![] },
        ],
        population_groups: vec![
            PopulationGroup { id: 1000, province: 10, population: 150, workforce: 100 },
            PopulationGroup { id: 1001, province: 11, population: 40, workforce: 30 },
            PopulationGroup { id: 1002, province: 20, population: 70, workforce: 50 },
        ],
        facilities: vec![
            Facility { id: 100, province: 10, definition: "grain_farm".to_string(), level: 2, production_priority: 70 },
            Facility { id: 101, province: 11, definition: "grain_farm".to_string(), level: 1, production_priority: 50 },
        ],
        construction_projects: vec![ConstructionProject {
            facility_id: 200,
            province: 10,
            definition: "grain_farm".to_string(),
            requested_workers: 5,
            remaining_worker_days: 20,
            remaining_construction_points: 60,
        }],
    }
}

fn definitions() -> ContentDefinitions {
    ContentDefinitions {
        goods: vec![
            GoodDefinition { id: "timber".to_string(), name: "Timber".to_string() },
            GoodDefinition { id: "tools".to_string(), name: "Tools".to_string() },
        ],
        facilities: vec![FacilityDefinition {
            id: "grain_farm".to_string(),
            name: "Grain farm".to_string(),
            workers_per_level: 10,
            construction: ConstructionRecipe {
                goods: vec![amount("timber", 25), amount("tools", 15)],
                max_workers: 5,
                worker_days: 20,
                construction_points: 100,
            },
            inputs_per_worker_day: vec![amount("tools", 1)],
            outputs_per_worker_day: vec![amount("grain", 3)],
            construction_points_per_worker_day: 0,
        }],
    }
}

fn session() -> ManagementSession {
    ManagementSession::create(snapshot(), definitions(), PLAYER, false).ok().expect("the player owns land")
}

fn shortfall(province: u128, day_amount: u64) -> SimulationEvent {
    SimulationEvent::FoodShortfall { province, good: "grain".to_string(), amount: day_amount }
}

fn day(day: u64, events: Vec<SimulationEvent>) -> CompletedWork {
    CompletedWork {
        construction_id: None,
        result: Ok(WorkOutcome::Day(DayReport {
            day,
            provinces: vec![],
            events,
            goods_flows: vec![],
            facilities: vec![],
            constructions: vec![],
        })),
        snapshot: None,
    }
}

#[test]
fn a_country_without_land_cannot_be_played() {
    let created = ManagementSession::create(snapshot(), definitions(), 3, false);
    match created {
        Err(SimulationError::CommandRejected(message)) => {
            assert_eq!(message, "selected country has no playable land")
        }
        _ => panic!("a landless country was accepted"),
    }
}

#[test]
fn a_new_session_starts_paused_on_the_first_province_of_the_player() {
    let session = session();
    assert!(!session.running);
    assert_eq!(session.speed, SimulationSpeed::One);
    assert_eq!(session.pending_jobs, 0);
    assert_eq!(session.revision, 0);
    assert!(matches!(session.feedback, SessionFeedback::Ready));
    assert_eq!((session.session_id >> 76) & 0xf, 7);
    assert_eq!((session.session_id >> 62) & 0x3, 2);
    assert_eq!(session.initial_view().selected_province, 10);
    assert!(!session.is_busy());
}

#[test]
fn only_one_simulated_day_is_in_flight() {
    let mut session = session();
    assert!(matches!(session.step(), Some(WorkRequest::Step)));
    session.submitted(None, Ok(()));
    assert!(session.is_busy());
    assert!(session.step().is_none());
    assert_eq!(session.pending_jobs, 1);
    session.accept(day(4, vec![]));
    assert!(!session.is_busy());
    assert!(matches!(session.step(), Some(WorkRequest::Step)));
}

#[test]
fn a_full_queue_refuses_construction_and_stops_time() {
    let mut session = session();
    session.pending_jobs = MAX_PENDING_JOBS;
    session.running = true;
    let sent = session.start_construction(10, &"grain_farm".to_string());
    assert!(sent.is_none());
    assert!(!session.running);
    assert_eq!(session.revision, 1);
    match &session.feedback {
        SessionFeedback::Error(SimulationError::CommandRejected(message)) => {
            assert_eq!(message, "simulation request queue is full")
        }
        _ => panic!("no queue error shown"),
    }
}

#[test]
fn an_unknown_facility_kind_is_refused() {
    let mut session = session();
    assert!(session.start_construction(10, &"mine".to_string()).is_none());
    match &session.feedback {
        SessionFeedback::Error(SimulationError::CommandRejected(message)) => {
            assert_eq!(message, "unknown facility definition mine")
        }
        _ => panic!("no error shown"),
    }
    assert_eq!(session.pending_jobs, 0);
}

#[test]
fn construction_asks_for_the_kind_limit_and_the_lowest_existing_priority() {
    let mut session = session();
    match session.start_construction(11, &"grain_farm".to_string()) {
        Some(WorkRequest::Construction(
            SimulationCommand::StartConstruction { country, province, facility, definition, workers, production_priority },
            named,
        )) => {
            assert_eq!(country, PLAYER);
            assert_eq!(province, 11);
            assert_eq!((facility >> 76) & 0xf, 7);
            assert_eq!((facility >> 62) & 0x3, 2);
            assert_eq!(definition, "grain_farm");
            assert_eq!(named, "grain_farm");
            assert_eq!(workers, 5);
            assert_eq!(production_priority, 50);
        }
        _ => panic!("no construction request"),
    }
    assert_eq!(session.revision, 0);
}

#[test]
fn a_day_records_the_news_of_the_players_provinces_only() {
    let mut session = session();
    session.feedback = SessionFeedback::Error(SimulationError::InvalidPrograms("old".to_string()));
    session.pending_jobs = 1;
    session.accept(day(4, vec![shortfall(10, 5), shortfall(20, 7), shortfall(11, 2)]));
    assert_eq!(session.news.len(), 2);
    assert_eq!(session.news[0].day, 4);
    assert!(matches!(session.news[0].event, SimulationEvent::FoodShortfall { province: 10, amount: 5, .. }));
    assert!(matches!(session.news[1].event, SimulationEvent::FoodShortfall { province: 11, amount: 2, .. }));
    assert!(matches!(session.feedback, SessionFeedback::Ready));
    assert_eq!(session.last_report.as_ref().map(|report| report.day), Some(4));
    assert_eq!(session.revision, 1);
    assert_eq!(session.pending_jobs, 0);
}

#[test]
fn news_keeps_only_the_most_recent_entries() {
    let mut session = session();
    let events: Vec<_> = (0..(NEWS_LIMIT as u64 + 10)).map(|k| shortfall(10, k)).collect();
    session.accept(day(4, events));
    assert_eq!(session.news.len(), NEWS_LIMIT);
    assert!(matches!(session.news[0].event, SimulationEvent::FoodShortfall { amount: 10, .. }));
    assert!(matches!(session.news[NEWS_LIMIT - 1].event, SimulationEvent::FoodShortfall { amount: 209, .. }));
}

#[test]
fn a_failed_answer_shows_the_error_and_stops_time() {
    let mut session = session();
    session.running = true;
    session.pending_jobs = 1;
    session.accept(CompletedWork {
        construction_id: Some(300),
        result: Err(SimulationError::CommandRejected("no".to_string())),
        snapshot: None,
    });
    assert!(!session.running);
    assert!(matches!(&session.feedback, SessionFeedback::Error(SimulationError::CommandRejected(m)) if m == "no"));
    assert_eq!(session.revision, 1);
    assert!(session.news.is_empty());
}

#[test]
fn a_started_construction_is_news_and_feedback() {
    let mut session = session();
    let mut next = snapshot();
    next.day = 5;
    let index = SnapshotIndex::build(&next);
    session.accept(CompletedWork {
        construction_id: Some(300),
        result: Ok(WorkOutcome::Construction(
            "grain_farm".to_string(),
            CommandOutcome { event: SimulationEvent::ConstructionStarted { province: 10, facility: 300 } },
        )),
        snapshot: Some((next, index)),
    });
    assert_eq!(session.snapshot.day, 5);
    assert_eq!(session.news.len(), 1);
    assert_eq!(session.news[0].day, 5);
    assert!(matches!(&session.feedback, SessionFeedback::ConstructionStarted(kind) if kind == "grain_farm"));
}

#[test]
fn inspections_are_answered_from_the_cache_of_the_current_revision() {
    let mut session = session();
    let scope = InspectionScope::Country(PLAYER);
    let asked = match session.inspect_programs(&scope) {
        InspectionStep::Submit(WorkRequest::Inspect(asked, revision)) => {
            assert_eq!(revision, 0);
            asked
        }
        _ => panic!("an idle session asks the worker"),
    };
    session.inspection_submitted();
    assert!(matches!(session.inspect_programs(&scope), InspectionStep::Waiting));
    session.accept(CompletedWork {
        construction_id: None,
        result: Ok(WorkOutcome::Inspection(asked, 0, Ok(vec![]))),
        snapshot: None,
    });
    assert_eq!(session.revision, 0);
    assert!(matches!(session.inspect_programs(&scope), InspectionStep::Cached(sections) if sections.is_empty()));
    assert!(matches!(
        session.inspect_programs(&InspectionScope::Country(RIVAL)),
        InspectionStep::Submit(_)
    ));
}

#[test]
fn management_buttons_work_only_where_management_is_live() {
    let mut session = session();
    let mut view = ManagementViewState { selected_province: 10 };
    assert!(session
        .apply_action(&mut view, Screen::WorldMap, true, &ManagementAction::SelectProvince(11))
        .is_none());
    assert_eq!(view.selected_province, 10);
    session.apply_action(&mut view, Screen::Management, true, &ManagementAction::SelectProvince(11));
    assert_eq!(view.selected_province, 11);
    session.apply_action(&mut view, Screen::Management, true, &ManagementAction::SelectProvince(20));
    assert_eq!(view.selected_province, 11);
    session.apply_action(&mut view, Screen::Management, false, &ManagementAction::ToggleRunning);
    assert!(!session.running);
}

fn construction_answer(id: u128, result: Result<WorkOutcome, SimulationError>) -> CompletedWork {
    CompletedWork { construction_id: Some(id), result, snapshot: None }
}

#[test]
fn repeated_clicks_create_immediate_targets_and_failed_commands_remove_only_their_target() {
    let mut session = session();
    assert!(session.step().is_some());
    session.submitted(None, Ok(()));
    let mut ids = Vec::new();
    for _ in 0..3 {
        let sent = session.start_construction(10, &"grain_farm".to_string());
        let id = construction_target(sent.as_ref().expect("a construction request"));
        session.submitted(id, Ok(()));
        ids.push(id.expect("a facility id"));
    }
    assert_eq!(session.pending_construction.len(), 3);
    assert_eq!(session.snapshot.construction_projects.len(), 1);
    for (k, (id, target)) in session.pending_construction.iter().enumerate() {
        assert_eq!(*id, ids[k]);
        assert_eq!(target.province, 10);
        assert_eq!(target.definition, "grain_farm");
    }
    session.accept(day(4, vec![]));
    assert_eq!(session.pending_construction.len(), 3);
    let started = |id: u128| {
        Ok(WorkOutcome::Construction(
            "grain_farm".to_string(),
            CommandOutcome { event: SimulationEvent::ConstructionStarted { province: 10, facility: id } },
        ))
    };
    session.accept(construction_answer(ids[0], started(ids[0])));
    assert_eq!(session.pending_construction.len(), 2);
    assert_eq!(session.pending_construction[0].0, ids[1]);
    session.accept(construction_answer(ids[1], started(ids[1])));
    session.accept(construction_answer(ids[2], Err(SimulationError::CommandRejected("no timber".to_string()))));
    assert!(session.pending_construction.is_empty());
    assert!(matches!(session.feedback, SessionFeedback::Error(_)));
    assert!(!session.is_busy());
}

#[test]
fn a_refused_hand_over_drops_only_its_own_target() {
    let mut session = session();
    let first = session.start_construction(10, &"grain_farm".to_string());
    let first = construction_target(first.as_ref().expect("a construction request"));
    session.submitted(first, Ok(()));
    let second = session.start_construction(11, &"grain_farm".to_string());
    let second = construction_target(second.as_ref().expect("a construction request"));
    assert_eq!(session.pending_construction.len(), 2);
    session.submitted(second, Err(SimulationError::CommandRejected("simulation request queue is full".to_string())));
    assert_eq!(session.pending_construction.len(), 1);
    assert_eq!(Some(session.pending_construction[0].0), first);
    assert_eq!(session.pending_jobs, 1);
    assert!(!session.running);
}

#[test]
fn an_unknown_kind_records_no_target() {
    let mut session = session();
    assert!(session.start_construction(10, &"mine".to_string()).is_none());
    assert!(session.pending_construction.is_empty());
}

#[test]
fn stockpiles_hold_each_good_once() {
    assert!(snapshot_stockpiles_distinct(&snapshot()));
    let mut twice = snapshot();
    twice.provinces[1].stockpile.push(amount("timber", 1));
    assert!(!snapshot_stockpiles_distinct(&twice));
    let held = vec![amount("timber", 4), amount("tools", 2)];
    assert!(goods_distinct(&held));
    assert_eq!(stock_of(&held, &"tools".to_string()), 2);
    assert_eq!(stock_of(&held, &"grain".to_string()), 0);
    assert!(!goods_distinct(&vec![amount("tools", 4), amount("timber", 1), amount("tools", 2)]));
}

#[test]
fn buttons_show_the_selection_and_whether_time_runs() {
    let mut session = session();
    let view = ManagementViewState { selected_province: 11 };
    assert!(matches!(button_look(&session, &view, &ManagementAction::SelectProvince(11)), ButtonLook::Selected(true)));
    assert!(matches!(button_look(&session, &view, &ManagementAction::SelectProvince(10)), ButtonLook::Selected(false)));
    assert!(matches!(button_look(&session, &view, &ManagementAction::ToggleRunning), ButtonLook::Text(key) if key == "management-play"));
    session.running = true;
    assert!(matches!(button_look(&session, &view, &ManagementAction::ToggleRunning), ButtonLook::Text(key) if key == "management-pause"));
    assert!(matches!(button_look(&session, &view, &ManagementAction::StepDay), ButtonLook::Unchanged));
}

#[test]
fn the_feedback_label_shows_the_sessions_message() {
    let mut session = session();
    let view = ManagementViewState { selected_province: 10 };
    assert!(matches!(
        label_value(&session, &view, &ManagementLabel::Feedback),
        Some(LabelValue::Feedback { message: FeedbackMessage::Ready, error: false })
    ));
    session.feedback = SessionFeedback::Error(SimulationError::CommandRejected("no".to_string()));
    match label_value(&session, &view, &ManagementLabel::Feedback) {
        Some(LabelValue::Feedback {
            message: FeedbackMessage::CommandError(SimulationError::CommandRejected(text)),
            error: true,
        }) => assert_eq!(text, "no"),
        _ => panic!("the error is not shown"),
    }
}
