use aggregate::interface::{
    InterfaceAction, InterfaceState, Language, PreviewTab, Screen, StatusKey, DEFAULT_SCALE_PERCENT, MAX_SCALE_PERCENT,
    MIN_SCALE_PERCENT,
};
use aggregate::playback::{PlaybackClock, SimulationSpeed};
use aggregate::session::{ManagementSession, WorkRequest};
use aggregate::setup::{parse_u64, SetupAction, SetupRequest, SetupSelect, WorldInitializationSettings, WorldSetup};
use aggregate::world::{ContentDefinitions, Country, Province, WorldSnapshot};

#[test]
fn a_new_window_opens_the_main_menu_at_full_scale() {
    let state = InterfaceState::new();
    assert_eq!(state.screen, Screen::MainMenu);
    assert_eq!(state.language, Language::Korean);
    assert_eq!(state.scale_percent, DEFAULT_SCALE_PERCENT);
    assert_eq!(state.status, StatusKey::Ready);
}

#[test]
fn scale_stays_within_its_range() {
    let mut state = InterfaceState::new();
    for _ in 0..10 {
        state.apply(InterfaceAction::ScaleUp);
    }
    assert_eq!(state.scale_percent, MAX_SCALE_PERCENT);
    for _ in 0..10 {
        state.apply(InterfaceAction::ScaleDown);
    }
    assert_eq!(state.scale_percent, MIN_SCALE_PERCENT);
    state.apply(InterfaceAction::ScaleUp);
    assert_eq!(state.scale_percent, 90);
    state.apply(InterfaceAction::ResetScale);
    assert_eq!(state.scale_percent, 100);
}

#[test]
fn switching_language_twice_restores_it() {
    let mut state = InterfaceState::new();
    let effects = state.apply(InterfaceAction::SwitchLanguage);
    assert!(effects.clear_focus);
    assert_eq!(state.language, Language::English);
    state.apply(InterfaceAction::SwitchLanguage);
    assert_eq!(state.language, Language::Korean);
}

#[test]
fn a_frame_applies_buttons_then_escape() {
    let mut state = InterfaceState::new();
    let effects = state.apply_actions(
        &vec![InterfaceAction::OpenPreview, InterfaceAction::SelectTab(PreviewTab::Typography), InterfaceAction::PrimaryExample],
        true,
    );
    assert_eq!(state.screen, Screen::MainMenu);
    assert_eq!(state.tab, PreviewTab::Typography);
    assert!(state.primary_selected);
    assert_eq!(state.status, StatusKey::Selected);
    assert!(effects.clear_focus);
    assert!(!effects.exit);
    let quiet = state.apply_actions(&vec![InterfaceAction::ToggleMotion], false);
    assert!(state.reduced_motion);
    assert!(!quiet.clear_focus);
    assert!(state.apply_actions(&vec![InterfaceAction::Exit], false).exit);
}

fn session() -> ManagementSession {
    let snapshot = WorldSnapshot {
        day: 0,
        countries: vec![Country { id: 1, name: "Aurelia".to_string() }],
        provinces: vec![Province { id: 10, country: 1, name: "North".to_string(), name_key: None, stockpile: vec![] }],
        population_groups: vec![],
        facilities: vec![],
        construction_projects: vec![],
    };
    ManagementSession::create(snapshot, ContentDefinitions { goods: vec![], facilities: vec![] }, 1, false)
        .ok()
        .expect("player land")
}

#[test]
fn speeds_have_their_day_lengths() {
    assert_eq!(SimulationSpeed::One.nanos_per_day(), 1_000_000_000);
    assert_eq!(SimulationSpeed::Two.nanos_per_day(), 500_000_000);
    assert_eq!(SimulationSpeed::Three.nanos_per_day(), 200_000_000);
    assert_eq!(SimulationSpeed::Four.nanos_per_day(), 100_000_000);
    assert_eq!(SimulationSpeed::Five.nanos_per_day(), 0);
    assert_eq!(SimulationSpeed::all().len(), 5);
    assert_eq!(SimulationSpeed::default(), SimulationSpeed::One);
}

#[test]
fn real_time_playback_steps_once_per_full_day() {
    let mut session = session();
    let mut clock = PlaybackClock::new();
    session.running = true;
    assert!(session.advance_running(&mut clock, Screen::Management, false, 600_000_000).is_none());
    assert_eq!(clock.elapsed, 600_000_000);
    assert!(matches!(session.advance_running(&mut clock, Screen::Management, false, 600_000_000), Some(WorkRequest::Step)));
    session.submitted(None, Ok(()));
    assert!(session.advance_running(&mut clock, Screen::Management, false, 5_000_000_000).is_none());
    assert_eq!(clock.elapsed, 0);
}

#[test]
fn time_stops_off_screen_and_behind_the_setup_dialog() {
    let mut session = session();
    let mut clock = PlaybackClock::new();
    session.running = true;
    assert!(session.advance_running(&mut clock, Screen::Settings, false, 2_000_000_000).is_none());
    assert!(!session.running);
    session.running = true;
    assert!(session.advance_running(&mut clock, Screen::Management, true, 2_000_000_000).is_none());
    assert!(!session.running);
}

#[test]
fn setup_parses_selects_and_starts_with_a_country() {
    assert_eq!(parse_u64("42"), Some(42));
    assert_eq!(parse_u64("+7"), Some(7));
    assert_eq!(parse_u64("18446744073709551615"), Some(u64::MAX));
    assert_eq!(parse_u64("18446744073709551616"), None);
    assert_eq!(parse_u64("4x"), None);
    assert_eq!(parse_u64(""), None);
    let mut setup = WorldSetup {
        open: true,
        country: None,
        settings: WorldInitializationSettings {
            population_per_province: 1000,
            workforce_percent: 60,
            construction_goods_per_province: 50,
        },
        public_health: false,
        error: Some("earlier failure".to_string()),
        revision: 0,
    };
    assert!(matches!(setup.press(SetupAction::Start, true), SetupRequest::Nothing));
    setup.select(SetupSelect::Population, "2500");
    assert_eq!(setup.settings.population_per_province, 2500);
    setup.select(SetupSelect::Workforce, "many");
    assert_eq!(setup.settings.workforce_percent, 60);
    assert_eq!(setup.revision, 2);
    setup.select(SetupSelect::Country, "01a07577-e209-7938-8120-efb504849d04");
    let expected = uuid::Uuid::parse_str("01a07577-e209-7938-8120-efb504849d04").unwrap().as_u128();
    assert_eq!(setup.country, Some(expected));
    assert!(matches!(setup.press(SetupAction::Start, false), SetupRequest::Nothing));
    assert_eq!(setup.error.as_deref(), Some("earlier failure"));
    match setup.press(SetupAction::Start, true) {
        SetupRequest::Initialize { country, settings } => {
            assert_eq!(country, expected);
            assert_eq!(settings.population_per_province, 2500);
        }
        _ => panic!("a chosen country starts the world"),
    }
    assert!(setup.error.is_none());
    assert!(matches!(setup.press(SetupAction::Close, false), SetupRequest::ReturnToMenu));
    assert!(!setup.open);
}

#[test]
fn a_read_country_replaces_the_choice_and_an_unreadable_one_keeps_it() {
    let mut setup = WorldSetup {
        open: true,
        country: Some(5),
        settings: WorldInitializationSettings {
            population_per_province: 1,
            workforce_percent: 2,
            construction_goods_per_province: 3,
        },
        public_health: true,
        error: None,
        revision: 4,
    };
    setup.choose_country(None);
    assert_eq!(setup.country, Some(5));
    assert_eq!(setup.revision, 5);
    setup.choose_country(Some(9));
    assert_eq!(setup.country, Some(9));
    assert_eq!(setup.revision, 6);
    setup.select(SetupSelect::Country, "not a uuid");
    assert_eq!(setup.country, Some(9));
    assert_eq!(setup.revision, 7);
    assert!(matches!(setup.press(SetupAction::TogglePublicHealth, true), SetupRequest::Nothing));
    assert!(!setup.public_health);
}

fn chosen_setup() -> WorldSetup {
    WorldSetup {
        open: true,
        country: Some(42),
        settings: WorldInitializationSettings {
            population_per_province: 10,
            workforce_percent: 50,
            construction_goods_per_province: 5,
        },
        public_health: false,
        error: Some("earlier failure".to_string()),
        revision: 3,
    }
}

#[test]
fn the_dialog_takes_input_only_when_open_on_the_map_and_idle() {
    let setup = chosen_setup();
    assert!(setup.takes_input(Screen::WorldMap, false));
    assert!(!setup.takes_input(Screen::WorldMap, true));
    assert!(!setup.takes_input(Screen::Management, false));
    let closed = WorldSetup { open: false, ..chosen_setup() };
    assert!(!closed.takes_input(Screen::WorldMap, false));
}

#[test]
fn clicks_stop_at_the_first_start_of_a_world() {
    let mut setup = chosen_setup();
    let clicks = vec![SetupAction::TogglePublicHealth, SetupAction::Start, SetupAction::TogglePublicHealth, SetupAction::Close];
    let requests = setup.press_all(&clicks, true);
    assert_eq!(requests.len(), 2);
    assert!(matches!(requests[0], SetupRequest::Nothing));
    assert!(matches!(requests[1], SetupRequest::Initialize { country: 42, .. }));
    assert!(setup.public_health);
    assert!(setup.open);
    assert!(setup.error.is_none());
    let mut waiting = chosen_setup();
    let requests = waiting.press_all(&clicks, false);
    assert_eq!(requests.len(), 4);
    assert!(matches!(requests[3], SetupRequest::ReturnToMenu));
    assert!(!waiting.public_health);
    assert!(!waiting.open);
    assert_eq!(waiting.error.as_deref(), Some("earlier failure"));
}
