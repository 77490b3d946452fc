//! The world setup dialog: the chosen country and generation settings, and how
//! its selects and buttons change them.
use crate::inspection::MapProvince;
use crate::interface::Screen;
use crate::order::{order_by_name, ordered_by_name};
use crate::world::CountryId;
use vstd::prelude::*;

verus! {

/// Settings of a generated world.
pub struct WorldInitializationSettings {
    pub population_per_province: u64,
    pub workforce_percent: u64,
    pub construction_goods_per_province: u64,
}

pub struct WorldSetup {
    pub open: bool,
    pub country: Option<CountryId>,
    pub settings: WorldInitializationSettings,
    pub public_health: bool,
    pub error: Option<String>,
    /// Moves on whenever what the dialog shows changes.
    pub revision: u64,
}

/// A select of the dialog.
#[derive(Clone, Copy, Debug, PartialEq, Eq, Structural)]
pub enum SetupSelect {
    Country,
    Population,
    Workforce,
    Reserves,
}

/// A button of the dialog.
#[derive(Clone, Copy, Debug, PartialEq, Eq, Structural)]
pub enum SetupAction {
    Close,
    Start,
    TogglePublicHealth,
}

/// What a dialog button asks of the application.
pub enum SetupRequest {
    /// Nothing more.
    Nothing,
    /// Go back to the main menu.
    ReturnToMenu,
    /// Generate a world with these settings for this country.
    Initialize { country: CountryId, settings: WorldInitializationSettings },
}

/// The value of a decimal digit.
pub open spec fn digit_value(c: char) -> int {
    c as int - '0' as int
}

pub open spec fn is_digit(c: char) -> bool {
    '0' <= c <= '9'
}

/// The number that a sequence of decimal digits spells.
pub open spec fn decimal_value(digits: Seq<char>) -> int
    decreases digits.len(),
{
    if digits.len() == 0 {
        0
    } else {
        decimal_value(digits.drop_last()) * 10 + digit_value(digits.last())
    }
}

/// The text after an optional leading `+`.
pub open spec fn unsigned_digits(text: Seq<char>) -> Seq<char> {
    if text.len() > 0 && text[0] == '+' {
        text.drop_first()
    } else {
        text
    }
}

/// The unsigned integer that `text` spells as std reads it: an optional `+`,
/// then one or more decimal digits, with a value that fits in `u64`.
pub open spec fn parsed_u64(text: Seq<char>) -> Option<u64> {
    let digits = unsigned_digits(text);
    if digits.len() > 0 && (forall|i: int| 0 <= i < digits.len() ==> is_digit(#[trigger] digits[i]))
        && decimal_value(digits) <= u64::MAX {
        Some(decimal_value(digits) as u64)
    } else {
        None
    }
}

/// The UUID that a text spells, in any of the forms the `uuid` crate reads.
pub uninterp spec fn parsed_uuid(text: Seq<char>) -> Option<u128>;

/// Calls `uuid::Uuid::parse_str` and converts the result with `Uuid::as_u128`.
/// Parsing depends on the text alone; which texts the crate accepts is not
/// stated, only that the result is named `parsed_uuid` of the text.
#[verifier::external_body]
fn parse_uuid(text: &str) -> (id: Option<u128>)
    ensures
        id == parsed_uuid(text@),
{
    match uuid::Uuid::parse_str(text) {
        Ok(id) => Some(id.as_u128()),
        Err(_) => None,
    }
}

proof fn lemma_decimal_grows(digits: Seq<char>)
    requires
        forall|i: int| 0 <= i < digits.len() ==> is_digit(#[trigger] digits[i]),
    ensures
        decimal_value(digits) >= 0,
    decreases digits.len(),
{
    if digits.len() > 0 {
        lemma_decimal_grows(digits.drop_last());
    }
}

/// Reads an unsigned decimal integer as std's `str::parse::<u64>` does.
pub fn parse_u64(text: &str) -> (value: Option<u64>)
    ensures
        value == parsed_u64(text@),
{
    let length = text.unicode_len();
    let start: usize = if length > 0 && text.get_char(0) == '+' {
        1
    } else {
        0
    };
    let ghost digits = unsigned_digits(text@);
    assert(digits =~= text@.subrange(start as int, length as int));
    if start >= length {
        return None;
    }
    let mut total: u64 = 0;
    let mut i: usize = start;
    while i < length
        invariant
            start <= i <= length,
            length == text@.len(),
            digits =~= text@.subrange(start as int, length as int),
            digits == unsigned_digits(text@),
            forall|k: int| start <= k < i ==> is_digit(#[trigger] text@[k]),
            total == decimal_value(text@.subrange(start as int, i as int)),
        decreases length - i,
    {
        let c = text.get_char(i);
        let ghost prefix = text@.subrange(start as int, i + 1);
        assert(prefix.drop_last() =~= text@.subrange(start as int, i as int));
        if c < '0' || c > '9' {
            assert(!is_digit(digits[i - start]));
            return None;
        }
        let d = (c as u32 - '0' as u32) as u64;
        if total > (u64::MAX - d) / 10 {
            proof {
                assert(total * 10 + d > u64::MAX) by (nonlinear_arith)
                    requires
                        total > (u64::MAX - d) / 10,
                        d <= 9,
                ;
                assert(decimal_value(prefix) == total * 10 + d);
                if forall|k: int| 0 <= k < digits.len() ==> is_digit(#[trigger] digits[k]) {
                    assert(prefix =~= digits.take((i + 1 - start) as int));
                    lemma_prefix_bound(digits, (i + 1 - start) as int);
                }
            }
            return None;
        }
        assert(total * 10 + d <= u64::MAX) by (nonlinear_arith)
            requires
                total <= (u64::MAX - d) / 10,
                d <= 9,
        ;
        total = total * 10 + d;
        i = i + 1;
    }
    Some(total)
}

/// A number spelled by digits is at least the number any prefix spells.
proof fn lemma_prefix_bound(digits: Seq<char>, n: int)
    requires
        0 <= n <= digits.len(),
        forall|i: int| 0 <= i < digits.len() ==> is_digit(#[trigger] digits[i]),
    ensures
        decimal_value(digits) >= decimal_value(digits.take(n)),
    decreases digits.len(),
{
    if n < digits.len() {
        assert(digits.drop_last().take(n) =~= digits.take(n));
        assert(forall|i: int| 0 <= i < digits.drop_last().len() ==> is_digit(#[trigger] digits.drop_last()[i])
            ) by {
            assert forall|i: int| 0 <= i < digits.drop_last().len() implies is_digit(#[trigger] digits.drop_last()[i]) by {
                assert(digits.drop_last()[i] == digits[i]);
            }
        }
        lemma_prefix_bound(digits.drop_last(), n);
        lemma_decimal_grows(digits.drop_last());
    } else {
        assert(digits.take(n) =~= digits);
    }
}

/// The dialog and the request after pressing `action`: Close shuts the dialog and
/// returns to the menu; Start, with the world map loaded and a country chosen,
/// clears the last error and asks to generate that country's world with the
/// dialog's settings, and otherwise does nothing; the health toggle flips the
/// public health option.
pub open spec fn pressed(setup: WorldSetup, action: SetupAction, map_loaded: bool) -> (WorldSetup, SetupRequest) {
    match action {
        SetupAction::Close => (WorldSetup { open: false, ..setup }, SetupRequest::ReturnToMenu),
        SetupAction::Start => if map_loaded && setup.country is Some {
            (
                WorldSetup { error: None, ..setup },
                SetupRequest::Initialize { country: setup.country->0, settings: setup.settings },
            )
        } else {
            (setup, SetupRequest::Nothing)
        },
        SetupAction::TogglePublicHealth => (WorldSetup { public_health: !setup.public_health, ..setup }, SetupRequest::Nothing),
    }
}

/// The dialog and the requests after pressing the first `n` of `clicks` in order,
/// stopping at the first request to generate a world.
pub open spec fn pressed_upto(setup: WorldSetup, clicks: Seq<SetupAction>, map_loaded: bool, n: int) -> (WorldSetup, Seq<SetupRequest>)
    decreases n,
{
    if n <= 0 {
        (setup, Seq::empty())
    } else {
        let (before, requests) = pressed_upto(setup, clicks, map_loaded, n - 1);
        if requests.len() > 0 && requests.last() is Initialize {
            (before, requests)
        } else {
            let (after, request) = pressed(before, clicks[n - 1], map_loaded);
            (after, requests.push(request))
        }
    }
}

/// Once a world is asked for, later clicks change nothing.
proof fn lemma_pressed_stops(setup: WorldSetup, clicks: Seq<SetupAction>, map_loaded: bool, k: int, n: int)
    requires
        0 <= k <= n,
        pressed_upto(setup, clicks, map_loaded, k).1.len() > 0,
        pressed_upto(setup, clicks, map_loaded, k).1.last() is Initialize,
    ensures
        pressed_upto(setup, clicks, map_loaded, n) == pressed_upto(setup, clicks, map_loaded, k),
    decreases n,
{
    if n > k {
        lemma_pressed_stops(setup, clicks, map_loaded, k, n - 1);
    }
}

impl WorldSetup {
    /// Applies a changed select: a parsable value replaces the setting, an
    /// unparsable one is ignored; either way the dialog's revision moves on.
    pub fn select(&mut self, select: SetupSelect, value: &str)
        requires
            old(self).revision < u64::MAX,
        ensures
            final(self).revision == old(self).revision + 1,
            final(self).open == old(self).open,
            final(self).public_health == old(self).public_health,
            final(self).error == old(self).error,
            match select {
                SetupSelect::Country => {
                    &&& final(self).country == match parsed_uuid(value@) {
                        Some(id) => Some(id),
                        None => old(self).country,
                    }
                    &&& final(self).settings == old(self).settings
                },
                SetupSelect::Population => {
                    &&& final(self).country == old(self).country
                    &&& final(self).settings == (WorldInitializationSettings {
                        population_per_province: match parsed_u64(value@) {
                            Some(v) => v,
                            None => old(self).settings.population_per_province,
                        },
                        ..old(self).settings
                    })
                },
                SetupSelect::Workforce => {
                    &&& final(self).country == old(self).country
                    &&& final(self).settings == (WorldInitializationSettings {
                        workforce_percent: match parsed_u64(value@) {
                            Some(v) => v,
                            None => old(self).settings.workforce_percent,
                        },
                        ..old(self).settings
                    })
                },
                SetupSelect::Reserves => {
                    &&& final(self).country == old(self).country
                    &&& final(self).settings == (WorldInitializationSettings {
                        construction_goods_per_province: match parsed_u64(value@) {
                            Some(v) => v,
                            None => old(self).settings.construction_goods_per_province,
                        },
                        ..old(self).settings
                    })
                },
            },
    {
        match select {
            SetupSelect::Country => {
                let parsed = parse_uuid(value);
                self.choose_country(parsed);
                return ;
            },
            SetupSelect::Population => {
                if let Some(v) = parse_u64(value) {
                    self.settings.population_per_province = v;
                }
            },
            SetupSelect::Workforce => {
                if let Some(v) = parse_u64(value) {
                    self.settings.workforce_percent = v;
                }
            },
            SetupSelect::Reserves => {
                if let Some(v) = parse_u64(value) {
                    self.settings.construction_goods_per_province = v;
                }
            },
        }
        self.revision = self.revision + 1;
    }

    /// Applies the country select once its text has been read as a UUID: a
    /// country replaces the choice, an unreadable text leaves it; either way the
    /// dialog's revision moves on.
    pub fn choose_country(&mut self, parsed: Option<CountryId>)
        requires
            old(self).revision < u64::MAX,
        ensures
            final(self).revision == old(self).revision + 1,
            final(self).open == old(self).open,
            final(self).public_health == old(self).public_health,
            final(self).error == old(self).error,
            final(self).settings == old(self).settings,
            final(self).country == match parsed {
                Some(id) => Some(id),
                None => old(self).country,
            },
    {
        if let Some(id) = parsed {
            self.country = Some(id);
        }
        self.revision = self.revision + 1;
    }

    /// Applies a dialog button. Close shuts the dialog and returns to the menu;
    /// Start asks to generate the world once the world map is loaded
    /// (`map_loaded`) and a country is chosen, clearing the last error, and does
    /// nothing otherwise; the health toggle flips the public health option.
    pub fn press(&mut self, action: SetupAction, map_loaded: bool) -> (request: SetupRequest)
        ensures
            (*final(self), request) == pressed(*old(self), action, map_loaded),
    {
        match action {
            SetupAction::Close => {
                self.open = false;
                SetupRequest::ReturnToMenu
            },
            SetupAction::Start => match self.country {
                Some(country) => if !map_loaded {
                    SetupRequest::Nothing
                } else {
                    self.error = None;
                    SetupRequest::Initialize {
                        country,
                        settings: WorldInitializationSettings {
                            population_per_province: self.settings.population_per_province,
                            workforce_percent: self.settings.workforce_percent,
                            construction_goods_per_province: self.settings.construction_goods_per_province,
                        },
                    }
                },
                None => SetupRequest::Nothing,
            },
            SetupAction::TogglePublicHealth => {
                self.public_health = !self.public_health;
                SetupRequest::Nothing
            },
        }
    }

    /// Whether the dialog takes input this frame: it is open on the world map and
    /// no world is being generated.
    pub fn takes_input(&self, screen: Screen, generating: bool) -> (takes: bool)
        ensures
            takes == (self.open && screen == Screen::WorldMap && !generating),
    {
        self.open && screen == Screen::WorldMap && !generating
    }

    /// Applies a frame's button clicks in order, stopping at the first that asks
    /// to generate a world; the requests come back one per applied click.
    pub fn press_all(&mut self, clicks: &Vec<SetupAction>, map_loaded: bool) -> (requests: Vec<SetupRequest>)
        ensures
            (*final(self), requests@) == pressed_upto(*old(self), clicks@, map_loaded, clicks@.len() as int),
    {
        let mut requests: Vec<SetupRequest> = Vec::new();
        let mut k: usize = 0;
        while k < clicks.len()
            invariant
                k <= clicks@.len(),
                (*self, requests@) == pressed_upto(*old(self), clicks@, map_loaded, k as int),
                requests@.len() > 0 ==> !(requests@.last() is Initialize),
            decreases clicks.len() - k,
        {
            let request = self.press(clicks[k], map_loaded);
            let stop = match request {
                SetupRequest::Initialize { .. } => true,
                _ => false,
            };
            requests.push(request);
            k = k + 1;
            if stop {
                proof {
                    lemma_pressed_stops(*old(self), clicks@, map_loaded, k as int, clicks@.len() as int);
                }
                return requests;
            }
        }
        requests
    }

    /// Records a failed world generation: the error shows and the previous
    /// session stays.
    pub fn initialization_failed(&mut self, error: String)
        requires
            old(self).revision < u64::MAX,
        ensures
            final(self).error == Some(error),
            final(self).revision == old(self).revision + 1,
            final(self).open == old(self).open,
            final(self).country == old(self).country,
            final(self).settings == old(self).settings,
            final(self).public_health == old(self).public_health,
    {
        self.error = Some(error);
        self.revision = self.revision + 1;
    }

    /// Records a generated world: the dialog closes.
    pub fn initialization_succeeded(&mut self)
        ensures
            !final(self).open,
            final(self).error == old(self).error,
            final(self).revision == old(self).revision,
            final(self).country == old(self).country,
            final(self).settings == old(self).settings,
            final(self).public_health == old(self).public_health,
    {
        self.open = false;
    }
}

/// A country of the map catalog.
pub struct MapCountry {
    pub id: CountryId,
    /// The country's tag, such as `KOR`.
    pub key: String,
}

/// Whether `country` owns a land province of the catalog.
pub open spec fn playable(catalog: Seq<MapProvince>, country: CountryId) -> bool {
    exists|i: int| 0 <= i < catalog.len() && !catalog[i].water && #[trigger] catalog[i].owner == Some(country)
}

/// Whether the dialog may propose `country`: it is playable and, where `korea`
/// holds, tagged `KOR`.
pub open spec fn proposable(catalog: Seq<MapProvince>, country: MapCountry, korea: bool) -> bool {
    playable(catalog, country.id) && (!korea || country.key@ == "KOR"@)
}

/// Position of the first of the first `n` countries that the dialog may propose.
pub open spec fn first_proposable_upto(countries: Seq<MapCountry>, catalog: Seq<MapProvince>, korea: bool, n: int) -> Option<int>
    decreases n,
{
    if n <= 0 {
        None
    } else if first_proposable_upto(countries, catalog, korea, n - 1) is Some {
        first_proposable_upto(countries, catalog, korea, n - 1)
    } else if proposable(catalog, countries[n - 1], korea) {
        Some(n - 1)
    } else {
        None
    }
}

/// The country the dialog proposes: the first playable one tagged `KOR`, else the
/// first playable one, else none.
pub open spec fn proposed_country(countries: Seq<MapCountry>, catalog: Seq<MapProvince>) -> Option<CountryId> {
    match first_proposable_upto(countries, catalog, true, countries.len() as int) {
        Some(i) => Some(countries[i].id),
        None => match first_proposable_upto(countries, catalog, false, countries.len() as int) {
            Some(i) => Some(countries[i].id),
            None => None,
        },
    }
}

/// Whether each country of the catalog is playable, by position.
pub open spec fn playable_flags(countries: Seq<MapCountry>, catalog: Seq<MapProvince>) -> Seq<bool> {
    Seq::new(countries.len(), |p: int| playable(catalog, countries[p].id))
}

fn is_playable(catalog: &Vec<MapProvince>, country: CountryId) -> (found: bool)
    ensures
        found == playable(catalog@, country),
{
    let mut i: usize = 0;
    while i < catalog.len()
        invariant
            i <= catalog@.len(),
            forall|k: int| 0 <= k < i ==> !(!catalog@[k].water && #[trigger] catalog@[k].owner == Some(country)),
        decreases catalog.len() - i,
    {
        if !catalog[i].water && catalog[i].owner == Some(country) {
            return true;
        }
        i = i + 1;
    }
    false
}

fn first_proposable(countries: &Vec<MapCountry>, catalog: &Vec<MapProvince>, korea: bool) -> (found: Option<usize>)
    ensures
        found matches Some(j) ==> j < countries@.len() && first_proposable_upto(
            countries@,
            catalog@,
            korea,
            countries@.len() as int,
        ) == Some(j as int),
        found is None ==> first_proposable_upto(countries@, catalog@, korea, countries@.len() as int) is None,
{
    let tag = "KOR".to_owned();
    let mut i: usize = 0;
    while i < countries.len()
        invariant
            i <= countries@.len(),
            tag@ == "KOR"@,
            first_proposable_upto(countries@, catalog@, korea, i as int) is None,
        decreases countries.len() - i,
    {
        if is_playable(catalog, countries[i].id) && (!korea || countries[i].key == tag) {
            proof {
                lemma_first_proposable_stays(countries@, catalog@, korea, i as int + 1, countries@.len() as int);
            }
            return Some(i);
        }
        i = i + 1;
    }
    None
}

proof fn lemma_first_proposable_stays(countries: Seq<MapCountry>, catalog: Seq<MapProvince>, korea: bool, m: int, n: int)
    requires
        0 < m <= n,
        first_proposable_upto(countries, catalog, korea, m) is Some,
    ensures
        first_proposable_upto(countries, catalog, korea, n) == first_proposable_upto(countries, catalog, korea, m),
    decreases n,
{
    if n > m {
        lemma_first_proposable_stays(countries, catalog, korea, m, n - 1);
    }
}

impl WorldSetup {
    /// Keeps the chosen country while it is playable on the loaded map; otherwise
    /// proposes one (see `proposed_country`).
    pub fn propose_country(&mut self, countries: &Vec<MapCountry>, catalog: &Vec<MapProvince>)
        ensures
            final(self).country == if (old(self).country matches Some(chosen) && playable(catalog@, chosen)) {
                old(self).country
            } else {
                proposed_country(countries@, catalog@)
            },
            final(self).open == old(self).open,
            final(self).settings == old(self).settings,
            final(self).public_health == old(self).public_health,
            final(self).error == old(self).error,
            final(self).revision == old(self).revision,
    {
        let keep = match self.country {
            Some(chosen) => is_playable(catalog, chosen),
            None => false,
        };
        if !keep {
            let proposal = match first_proposable(countries, catalog, true) {
                Some(i) => Some(countries[i].id),
                None => match first_proposable(countries, catalog, false) {
                    Some(i) => Some(countries[i].id),
                    None => None,
                },
            };
            self.country = proposal;
        }
    }
}

/// The countries the country select offers, as positions in the catalog: the
/// playable ones, ordered by their displayed `names` (one per country), equal
/// names in catalog order.
pub fn country_choices(countries: &Vec<MapCountry>, catalog: &Vec<MapProvince>, names: &Vec<String>) -> (order: Vec<usize>)
    requires
        names@.len() == countries@.len(),
    ensures
        ordered_by_name(names@, playable_flags(countries@, catalog@), order@),
{
    let mut keep: Vec<bool> = Vec::new();
    let mut p: usize = 0;
    while p < countries.len()
        invariant
            p <= countries@.len(),
            keep@ == playable_flags(countries@, catalog@).take(p as int),
        decreases countries.len() - p,
    {
        keep.push(is_playable(catalog, countries[p].id));
        proof {
            assert(playable_flags(countries@, catalog@).take(p + 1) =~= playable_flags(countries@, catalog@).take(p as int).push(
                playable(catalog@, countries@[p as int].id),
            ));
        }
        p = p + 1;
    }
    assert(playable_flags(countries@, catalog@).take(countries@.len() as int) =~= playable_flags(countries@, catalog@));
    order_by_name(names, &keep)
}

} // verus!
