//! Interface state: the current screen, preview tab, language, scale and motion
//! preference, and how interface actions change them.
use vstd::prelude::*;

verus! {

#[derive(Clone, Copy, Debug, PartialEq, Eq, Structural)]
pub enum Screen {
    MainMenu,
    Preview,
    Settings,
    Management,
    WorldMap,
}

#[derive(Clone, Copy, Debug, PartialEq, Eq, Structural)]
pub enum PreviewTab {
    Overview,
    Components,
    Typography,
}

#[derive(Clone, Copy, Debug, PartialEq, Eq, Structural)]
pub enum Language {
    Korean,
    English,
}

impl Language {
    /// The other interface language.
    pub fn other(self) -> (other: Language)
        ensures
            other != self,
    {
        match self {
            Language::Korean => Language::English,
            Language::English => Language::Korean,
        }
    }
}

/// Which status line the preview shows.
#[derive(Clone, Copy, Debug, PartialEq, Eq, Structural)]
pub enum StatusKey {
    Ready,
    Selected,
    Secondary,
}

/// The smallest, default and largest interface scale, in percent.
pub const MIN_SCALE_PERCENT: u32 = 80;

pub const DEFAULT_SCALE_PERCENT: u32 = 100;

pub const MAX_SCALE_PERCENT: u32 = 140;

/// One step of the scale control, in percent.
pub const SCALE_STEP_PERCENT: u32 = 10;

pub struct InterfaceState {
    pub screen: Screen,
    pub tab: PreviewTab,
    pub language: Language,
    /// Interface scale in percent of the reference layout.
    pub scale_percent: u32,
    pub status: StatusKey,
    pub primary_selected: bool,
    pub reduced_motion: bool,
}

#[derive(Clone, Copy, Debug, PartialEq, Eq, Structural)]
pub enum InterfaceAction {
    OpenManagement,
    OpenPreview,
    OpenSettings,
    Back,
    Exit,
    SwitchLanguage,
    SelectTab(PreviewTab),
    ScaleDown,
    ScaleUp,
    ResetScale,
    ToggleMotion,
    PrimaryExample,
    SecondaryExample,
}

/// What applying interface actions asks of the application besides the new state.
pub struct InterfaceEffects {
    /// Leave the application.
    pub exit: bool,
    /// Drop keyboard focus, because the screen, language or tab changed.
    pub clear_focus: bool,
}

/// Whether the interface scale is within the offered range.
pub open spec fn scale_in_range(state: InterfaceState) -> bool {
    MIN_SCALE_PERCENT <= state.scale_percent <= MAX_SCALE_PERCENT
}

/// The state after one action.
pub open spec fn after_action(state: InterfaceState, action: InterfaceAction) -> InterfaceState {
    match action {
        InterfaceAction::OpenManagement => InterfaceState { screen: Screen::Management, ..state },
        InterfaceAction::OpenPreview => InterfaceState { screen: Screen::Preview, ..state },
        InterfaceAction::OpenSettings => InterfaceState { screen: Screen::Settings, ..state },
        InterfaceAction::Back => InterfaceState { screen: Screen::MainMenu, ..state },
        InterfaceAction::Exit => state,
        InterfaceAction::SwitchLanguage => InterfaceState {
            language: match state.language {
                Language::Korean => Language::English,
                Language::English => Language::Korean,
            },
            ..state
        },
        InterfaceAction::SelectTab(tab) => InterfaceState { tab, ..state },
        InterfaceAction::ScaleDown => InterfaceState {
            scale_percent: if state.scale_percent >= MIN_SCALE_PERCENT + SCALE_STEP_PERCENT {
                (state.scale_percent - SCALE_STEP_PERCENT) as u32
            } else {
                MIN_SCALE_PERCENT
            },
            ..state
        },
        InterfaceAction::ScaleUp => InterfaceState {
            scale_percent: if state.scale_percent <= MAX_SCALE_PERCENT - SCALE_STEP_PERCENT {
                (state.scale_percent + SCALE_STEP_PERCENT) as u32
            } else {
                MAX_SCALE_PERCENT
            },
            ..state
        },
        InterfaceAction::ResetScale => InterfaceState { scale_percent: DEFAULT_SCALE_PERCENT, ..state },
        InterfaceAction::ToggleMotion => InterfaceState { reduced_motion: !state.reduced_motion, ..state },
        InterfaceAction::PrimaryExample => InterfaceState {
            primary_selected: !state.primary_selected,
            status: StatusKey::Selected,
            ..state
        },
        InterfaceAction::SecondaryExample => InterfaceState { status: StatusKey::Secondary, ..state },
    }
}

/// The state after the actions, in order.
pub open spec fn after_actions(state: InterfaceState, actions: Seq<InterfaceAction>) -> InterfaceState
    decreases actions.len(),
{
    if actions.len() == 0 {
        state
    } else {
        after_action(after_actions(state, actions.drop_last()), actions.last())
    }
}

/// Whether an action drops keyboard focus.
pub open spec fn clears_focus(action: InterfaceAction) -> bool {
    match action {
        InterfaceAction::OpenPreview | InterfaceAction::OpenManagement | InterfaceAction::OpenSettings
        | InterfaceAction::Back | InterfaceAction::SwitchLanguage | InterfaceAction::SelectTab(_) => true,
        _ => false,
    }
}

/// The actions of a frame: the activated buttons, then Back when Escape was pressed.
pub open spec fn frame_actions(requested: Seq<InterfaceAction>, escape: bool) -> Seq<InterfaceAction> {
    if escape {
        requested.push(InterfaceAction::Back)
    } else {
        requested
    }
}

/// The interface scale never leaves the offered range: every action, and so every
/// frame of actions, keeps it within 80–140%.
pub proof fn lemma_scale_stays_in_range(state: InterfaceState, actions: Seq<InterfaceAction>)
    requires
        scale_in_range(state),
    ensures
        scale_in_range(after_actions(state, actions)),
    decreases actions.len(),
{
    if actions.len() > 0 {
        lemma_scale_stays_in_range(state, actions.drop_last());
    }
}

/// Switching the language twice gives back the language, and switching changes only the language.
pub proof fn lemma_language_switch_round_trip(state: InterfaceState)
    ensures
        after_action(after_action(state, InterfaceAction::SwitchLanguage), InterfaceAction::SwitchLanguage)
            == state,
        after_action(state, InterfaceAction::SwitchLanguage).language != state.language,
        after_action(state, InterfaceAction::SwitchLanguage).screen == state.screen,
{
}

impl InterfaceState {
    /// The interface a new window opens with: the main menu in Korean at full scale.
    pub fn new() -> (state: InterfaceState)
        ensures
            state == (InterfaceState {
                screen: Screen::MainMenu,
                tab: PreviewTab::Overview,
                language: Language::Korean,
                scale_percent: DEFAULT_SCALE_PERCENT,
                status: StatusKey::Ready,
                primary_selected: false,
                reduced_motion: false,
            }),
    {
        InterfaceState {
            screen: Screen::MainMenu,
            tab: PreviewTab::Overview,
            language: Language::Korean,
            scale_percent: DEFAULT_SCALE_PERCENT,
            status: StatusKey::Ready,
            primary_selected: false,
            reduced_motion: false,
        }
    }

    /// Applies one interface action.
    pub fn apply(&mut self, action: InterfaceAction) -> (effects: InterfaceEffects)
        ensures
            *final(self) == after_action(*old(self), action),
            effects.exit == (action == InterfaceAction::Exit),
            effects.clear_focus == clears_focus(action),
    {
        match action {
            InterfaceAction::OpenManagement => self.screen = Screen::Management,
            InterfaceAction::OpenPreview => self.screen = Screen::Preview,
            InterfaceAction::OpenSettings => self.screen = Screen::Settings,
            InterfaceAction::Back => self.screen = Screen::MainMenu,
            InterfaceAction::Exit => {},
            InterfaceAction::SwitchLanguage => self.language = self.language.other(),
            InterfaceAction::SelectTab(tab) => self.tab = tab,
            InterfaceAction::ScaleDown => {
                self.scale_percent = if self.scale_percent >= MIN_SCALE_PERCENT + SCALE_STEP_PERCENT {
                    self.scale_percent - SCALE_STEP_PERCENT
                } else {
                    MIN_SCALE_PERCENT
                };
            },
            InterfaceAction::ScaleUp => {
                self.scale_percent = if self.scale_percent <= MAX_SCALE_PERCENT - SCALE_STEP_PERCENT {
                    self.scale_percent + SCALE_STEP_PERCENT
                } else {
                    MAX_SCALE_PERCENT
                };
            },
            InterfaceAction::ResetScale => self.scale_percent = DEFAULT_SCALE_PERCENT,
            InterfaceAction::ToggleMotion => self.reduced_motion = !self.reduced_motion,
            InterfaceAction::PrimaryExample => {
                self.primary_selected = !self.primary_selected;
                self.status = StatusKey::Selected;
            },
            InterfaceAction::SecondaryExample => self.status = StatusKey::Secondary,
        }
        let clear_focus = match action {
            InterfaceAction::OpenPreview | InterfaceAction::OpenManagement
            | InterfaceAction::OpenSettings | InterfaceAction::Back
            | InterfaceAction::SwitchLanguage | InterfaceAction::SelectTab(_) => true,
            _ => false,
        };
        InterfaceEffects { exit: action == InterfaceAction::Exit, clear_focus }
    }

    /// Applies a frame's activated buttons in order, then Back when Escape was
    /// pressed (and did not just close an explanation).
    pub fn apply_actions(&mut self, requested: &Vec<InterfaceAction>, escape: bool) -> (effects: InterfaceEffects)
        ensures
            *final(self) == after_actions(*old(self), frame_actions(requested@, escape)),
            effects.exit == exists|i: int|
                0 <= i < frame_actions(requested@, escape).len() && #[trigger] frame_actions(
                    requested@,
                    escape,
                )[i] == InterfaceAction::Exit,
            effects.clear_focus == exists|i: int|
                0 <= i < frame_actions(requested@, escape).len() && clears_focus(
                    #[trigger] frame_actions(requested@, escape)[i],
                ),
    {
        let mut actions: Vec<InterfaceAction> = Vec::new();
        let mut k: usize = 0;
        while k < requested.len()
            invariant
                k <= requested.len(),
                actions@ == requested@.take(k as int),
            decreases requested.len() - k,
        {
            actions.push(requested[k]);
            k = k + 1;
        }
        if escape {
            actions.push(InterfaceAction::Back);
        }
        assert(actions@ =~= frame_actions(requested@, escape));
        let mut exit = false;
        let mut clear_focus = false;
        let mut i: usize = 0;
        while i < actions.len()
            invariant
                i <= actions.len(),
                *self == after_actions(*old(self), actions@.take(i as int)),
                exit == exists|j: int| 0 <= j < i && #[trigger] actions@[j] == InterfaceAction::Exit,
                clear_focus == exists|j: int| 0 <= j < i && clears_focus(#[trigger] actions@[j]),
            decreases actions.len() - i,
        {
            let effects = self.apply(actions[i]);
            proof {
                assert(actions@.take(i + 1).drop_last() =~= actions@.take(i as int));
                assert(actions@.take(i + 1).last() == actions@[i as int]);
            }
            exit = exit || effects.exit;
            clear_focus = clear_focus || effects.clear_focus;
            i = i + 1;
        }
        proof {
            assert(actions@.take(i as int) =~= actions@);
        }
        InterfaceEffects { exit, clear_focus }
    }
}

} // verus!
