//! The figures that the management screen's labels show for the selected province.
use crate::construction::{workforce_of, workforce_upto};
use crate::identity::{hyphenated, uuid_text};
use crate::presentation::{
    ContentName, FeedbackMessage, ProvinceName, content_key, content_key_of, daily_goods_change, feedback_message_of,
    feedback, goods_change_upto, province_name, province_name_of,
};
use crate::session::{ManagementAction, ManagementSession, ManagementViewState, SessionFeedback, session_wf};
use crate::world::{
    CountryId, DayReport, FacilityDefinitionId, FacilityId, GoodId, PopulationGroup, Province,
    ProvinceDayReport, ProvinceId, WorldSnapshot, amount_of, stock_of,
};
use vstd::prelude::*;

verus! {

/// What a label of the management screen shows.
pub enum ManagementLabel {
    Country,
    Day,
    Population,
    Workforce,
    Province,
    Allocation,
    ReportDay,
    FoodShortfall,
    Feedback,
    Stock(GoodId),
    StockChange(GoodId),
    FacilityStaffing(FacilityDefinitionId),
    ProjectProgress(FacilityId),
}

/// Food of a province on the reported day.
pub struct FoodFigures {
    pub required: u64,
    pub consumed: u64,
    pub shortfall: u64,
}

/// The value of a label, for the caller to put into words.
pub enum LabelValue {
    /// The player country's name, or nothing when the snapshot does not list it.
    Country(Option<ContentName>),
    Day(u64),
    /// A population or workforce total.
    Total(u64),
    Province(ProvinceName),
    /// How the selected province's workforce was used on the reported day.
    Allocation { production: u64, construction: u64, idle: u64, workers: u64 },
    /// Before any report: the selected province's workforce.
    BeforeAllocation { workers: u64 },
    /// The reported day, if there is a report.
    ReportDay(Option<u64>),
    /// The selected province's food on the reported day, if it was reported.
    Food(Option<FoodFigures>),
    Feedback { message: FeedbackMessage, error: bool },
    Stock(u64),
    StockChange(Option<i128>),
    /// Facility levels of a kind in the selected province, and their active
    /// workers on the reported day, if there is a report.
    Staffing { level: u64, active: Option<u64> },
    /// Work left and workers requested of a construction project, if it exists.
    ProjectProgress(Option<(u64, u64)>),
}

/// Position of the first province with identity `id`.
pub open spec fn first_province(provinces: Seq<Province>, id: ProvinceId) -> Option<int> {
    if exists|i: int| 0 <= i < provinces.len() && provinces[i].id == id {
        Some(
            choose|i: int|
                0 <= i < provinces.len() && provinces[i].id == id && forall|j: int|
                    0 <= j < i ==> provinces[j].id != id,
        )
    } else {
        None
    }
}

/// Position of the first province report of province `id`.
pub open spec fn first_province_report(reports: Seq<ProvinceDayReport>, id: ProvinceId) -> Option<int> {
    if exists|i: int| 0 <= i < reports.len() && reports[i].province == id {
        Some(
            choose|i: int|
                0 <= i < reports.len() && reports[i].province == id && forall|j: int|
                    0 <= j < i ==> reports[j].province != id,
        )
    } else {
        None
    }
}

/// Whether some province with identity `id` belongs to `player`.
pub open spec fn in_player_land(provinces: Seq<Province>, player: CountryId, id: ProvinceId) -> bool {
    exists|i: int| 0 <= i < provinces.len() && provinces[i].id == id && provinces[i].country == player
}

/// Population (or workforce) of the first `n` groups living in the player's land.
pub open spec fn player_total_upto(
    provinces: Seq<Province>,
    groups: Seq<PopulationGroup>,
    player: CountryId,
    workforce: bool,
    n: int,
) -> int
    decreases n,
{
    if n <= 0 {
        0
    } else {
        player_total_upto(provinces, groups, player, workforce, n - 1) + if in_player_land(
            provinces,
            player,
            groups[n - 1].province,
        ) {
            if workforce {
                groups[n - 1].workforce as int
            } else {
                groups[n - 1].population as int
            }
        } else {
            0
        }
    }
}

/// Population (or workforce) of the groups living in the player's land.
pub open spec fn player_total(session: ManagementSession, workforce: bool) -> int {
    player_total_upto(
        session.snapshot.provinces@,
        session.snapshot.population_groups@,
        session.player_country,
        workforce,
        session.snapshot.population_groups@.len() as int,
    )
}

/// Whether a facility of the snapshot with identity `id` is of kind `definition` in `province`.
pub open spec fn staffed_facility(
    snapshot: WorldSnapshot,
    province: ProvinceId,
    definition: Seq<char>,
    id: FacilityId,
) -> bool {
    exists|i: int|
        0 <= i < snapshot.facilities@.len() && snapshot.facilities@[i].province == province
            && snapshot.facilities@[i].definition@ == definition && snapshot.facilities@[i].id == id
}

/// Levels of the first `n` facilities of kind `definition` in `province`.
pub open spec fn level_upto(snapshot: WorldSnapshot, province: ProvinceId, definition: Seq<char>, n: int) -> int
    decreases n,
{
    if n <= 0 {
        0
    } else {
        let facility = snapshot.facilities@[n - 1];
        level_upto(snapshot, province, definition, n - 1) + if facility.province == province
            && facility.definition@ == definition {
            facility.level as int
        } else {
            0
        }
    }
}

/// Active workers that the first `n` facility results report for facilities of
/// kind `definition` in `province`.
pub open spec fn active_upto(
    snapshot: WorldSnapshot,
    report: DayReport,
    province: ProvinceId,
    definition: Seq<char>,
    n: int,
) -> int
    decreases n,
{
    if n <= 0 {
        0
    } else {
        let result = report.facilities@[n - 1];
        active_upto(snapshot, report, province, definition, n - 1) + if staffed_facility(
            snapshot,
            province,
            definition,
            result.facility,
        ) {
            result.active_workers as int
        } else {
            0
        }
    }
}

/// Whether the sums a label adds up stay within `u64`, and a reported allocation
/// never uses more workers than were available.
pub open spec fn label_fits(session: ManagementSession, province: Province, label: ManagementLabel) -> bool {
    match label {
        ManagementLabel::Population => player_total(session, false) <= u64::MAX,
        ManagementLabel::Workforce => player_total(session, true) <= u64::MAX,
        ManagementLabel::Allocation => match session.last_report {
            Some(report) => match first_province_report(report.provinces@, province.id) {
                Some(k) => report.provinces@[k].production_workers + report.provinces@[k].construction_workers
                    <= report.provinces@[k].available_workers,
                None => workforce_upto(
                    session.snapshot.population_groups@,
                    province.id,
                    session.snapshot.population_groups@.len() as int,
                ) <= u64::MAX,
            },
            None => workforce_upto(
                session.snapshot.population_groups@,
                province.id,
                session.snapshot.population_groups@.len() as int,
            ) <= u64::MAX,
        },
        ManagementLabel::StockChange(_) => session.last_report matches Some(report) ==> report.goods_flows@.len() <= i64::MAX,
        ManagementLabel::FacilityStaffing(definition) => {
            &&& level_upto(session.snapshot, province.id, definition@, session.snapshot.facilities@.len() as int) <= u64::MAX
            &&& session.last_report matches Some(report) ==> active_upto(
                session.snapshot,
                report,
                province.id,
                definition@,
                report.facilities@.len() as int,
            ) <= u64::MAX
        },
        _ => true,
    }
}

/// The value a label shows for the selected `province`.
pub open spec fn label_value_of(
    session: ManagementSession,
    province: Province,
    label: ManagementLabel,
    value: LabelValue,
) -> bool {
    match label {
        ManagementLabel::Country => {
            let countries = session.snapshot.countries@;
            if exists|i: int| 0 <= i < countries.len() && countries[i].id == session.player_country {
                let i = choose|i: int|
                    0 <= i < countries.len() && countries[i].id == session.player_country && forall|j: int|
                        0 <= j < i ==> countries[j].id != session.player_country;
                value matches LabelValue::Country(Some(name)) && name.key@ == content_key_of(
                    "country"@,
                    hyphenated(session.player_country),
                ) && name.fallback@ == countries[i].name@
            } else {
                value matches LabelValue::Country(None)
            }
        },
        ManagementLabel::Day => value == LabelValue::Day(session.snapshot.day),
        ManagementLabel::Population => value == LabelValue::Total(player_total(session, false) as u64),
        ManagementLabel::Workforce => value == LabelValue::Total(player_total(session, true) as u64),
        ManagementLabel::Province => value matches LabelValue::Province(name) && province_name_of(
            session.snapshot,
            province.id,
            name,
        ),
        ManagementLabel::Allocation => {
            let before = LabelValue::BeforeAllocation {
                workers: workforce_upto(
                    session.snapshot.population_groups@,
                    province.id,
                    session.snapshot.population_groups@.len() as int,
                ) as u64,
            };
            match session.last_report {
                Some(report) => match first_province_report(report.provinces@, province.id) {
                    Some(k) => {
                        let r = report.provinces@[k];
                        value == LabelValue::Allocation {
                            production: r.production_workers,
                            construction: r.construction_workers,
                            idle: (r.available_workers - r.production_workers - r.construction_workers) as u64,
                            workers: r.available_workers,
                        }
                    },
                    None => value == before,
                },
                None => value == before,
            }
        },
        ManagementLabel::ReportDay => value == LabelValue::ReportDay(
            match session.last_report {
                Some(report) => Some(report.day),
                None => None,
            },
        ),
        ManagementLabel::FoodShortfall => match session.last_report {
            Some(report) => match first_province_report(report.provinces@, province.id) {
                Some(k) => value == LabelValue::Food(
                    Some(
                        FoodFigures {
                            required: report.provinces@[k].food_required,
                            consumed: report.provinces@[k].food_consumed,
                            shortfall: report.provinces@[k].food_shortfall,
                        },
                    ),
                ),
                None => value == LabelValue::Food(None),
            },
            None => value == LabelValue::Food(None),
        },
        ManagementLabel::Feedback => value matches LabelValue::Feedback { message, error } && error == (
        session.feedback is Error) && feedback_message_of(session, message),
        ManagementLabel::Stock(good) => value == LabelValue::Stock(amount_of(province.stockpile@, good@)),
        ManagementLabel::StockChange(good) => value == LabelValue::StockChange(
            match session.last_report {
                Some(report) => Some(
                    goods_change_upto(report.goods_flows@, province.id, good@, report.goods_flows@.len() as int) as i128,
                ),
                None => None,
            },
        ),
        ManagementLabel::FacilityStaffing(definition) => value == LabelValue::Staffing {
            level: level_upto(session.snapshot, province.id, definition@, session.snapshot.facilities@.len() as int) as u64,
            active: match session.last_report {
                Some(report) => Some(
                    active_upto(session.snapshot, report, province.id, definition@, report.facilities@.len() as int) as u64,
                ),
                None => None,
            },
        },
        ManagementLabel::ProjectProgress(id) => {
            let projects = session.snapshot.construction_projects@;
            if exists|i: int| 0 <= i < projects.len() && projects[i].facility_id == id {
                let i = choose|i: int|
                    0 <= i < projects.len() && projects[i].facility_id == id && forall|j: int|
                        0 <= j < i ==> projects[j].facility_id != id;
                value == LabelValue::ProjectProgress(
                    Some((projects[i].remaining_worker_days, projects[i].requested_workers)),
                )
            } else {
                value == LabelValue::ProjectProgress(None)
            }
        },
    }
}

fn find_province(provinces: &Vec<Province>, id: ProvinceId) -> (found: Option<usize>)
    ensures
        found matches Some(i) ==> i < provinces.len() && first_province(provinces@, id) == Some(i as int),
        found is None ==> first_province(provinces@, id) is None,
{
    let mut i: usize = 0;
    while i < provinces.len()
        invariant
            i <= provinces.len(),
            forall|j: int| 0 <= j < i ==> provinces@[j].id != id,
        decreases provinces.len() - i,
    {
        if provinces[i].id == id {
            proof {
                let first = choose|m: int|
                    0 <= m < provinces@.len() && provinces@[m].id == id && forall|j: int|
                        0 <= j < m ==> provinces@[j].id != id;
                assert(0 <= i < provinces@.len() && provinces@[i as int].id == id && forall|j: int|
                    0 <= j < i ==> provinces@[j].id != id);
                if first < i {
                    assert(provinces@[first].id != id);
                }
                if first > i {
                    assert(provinces@[i as int].id != id);
                }
            }
            return Some(i);
        }
        i = i + 1;
    }
    None
}

fn find_first_country(countries: &Vec<crate::world::Country>, id: CountryId) -> (found: Option<usize>)
    ensures
        found matches Some(i) ==> i < countries.len() && countries@[i as int].id == id && forall|j: int|
            0 <= j < i ==> countries@[j].id != id,
        found is None ==> forall|j: int| 0 <= j < countries.len() ==> countries@[j].id != id,
{
    let mut i: usize = 0;
    while i < countries.len()
        invariant
            i <= countries.len(),
            forall|j: int| 0 <= j < i ==> countries@[j].id != id,
        decreases countries.len() - i,
    {
        if countries[i].id == id {
            return Some(i);
        }
        i = i + 1;
    }
    None
}

fn find_first_project(projects: &Vec<crate::world::ConstructionProject>, id: FacilityId) -> (found: Option<usize>)
    ensures
        found matches Some(i) ==> i < projects.len() && projects@[i as int].facility_id == id && forall|j: int|
            0 <= j < i ==> projects@[j].facility_id != id,
        found is None ==> forall|j: int| 0 <= j < projects.len() ==> projects@[j].facility_id != id,
{
    let mut i: usize = 0;
    while i < projects.len()
        invariant
            i <= projects.len(),
            forall|j: int| 0 <= j < i ==> projects@[j].facility_id != id,
        decreases projects.len() - i,
    {
        if projects[i].facility_id == id {
            return Some(i);
        }
        i = i + 1;
    }
    None
}

fn find_province_report(reports: &Vec<ProvinceDayReport>, id: ProvinceId) -> (found: Option<usize>)
    ensures
        found matches Some(i) ==> i < reports.len() && first_province_report(reports@, id) == Some(i as int),
        found is None ==> first_province_report(reports@, id) is None,
{
    let mut i: usize = 0;
    while i < reports.len()
        invariant
            i <= reports.len(),
            forall|j: int| 0 <= j < i ==> reports@[j].province != id,
        decreases reports.len() - i,
    {
        if reports[i].province == id {
            proof {
                let first = choose|m: int|
                    0 <= m < reports@.len() && reports@[m].province == id && forall|j: int|
                        0 <= j < m ==> reports@[j].province != id;
                assert(0 <= i < reports@.len() && reports@[i as int].province == id && forall|j: int|
                    0 <= j < i ==> reports@[j].province != id);
                if first < i {
                    assert(reports@[first].province != id);
                }
                if first > i {
                    assert(reports@[i as int].province != id);
                }
            }
            return Some(i);
        }
        i = i + 1;
    }
    None
}

fn player_owns(provinces: &Vec<Province>, player: CountryId, id: ProvinceId) -> (owned: bool)
    ensures
        owned == in_player_land(provinces@, player, id),
{
    let mut i: usize = 0;
    while i < provinces.len()
        invariant
            i <= provinces.len(),
            forall|j: int| 0 <= j < i ==> !(provinces@[j].id == id && provinces@[j].country == player),
        decreases provinces.len() - i,
    {
        if provinces[i].id == id && provinces[i].country == player {
            return true;
        }
        i = i + 1;
    }
    false
}

proof fn lemma_player_total_monotone(
    provinces: Seq<Province>,
    groups: Seq<PopulationGroup>,
    player: CountryId,
    workforce: bool,
    k: int,
    n: int,
)
    requires
        0 <= k <= n <= groups.len(),
    ensures
        0 <= player_total_upto(provinces, groups, player, workforce, k) <= player_total_upto(
            provinces,
            groups,
            player,
            workforce,
            n,
        ),
    decreases n,
{
    if n > k {
        lemma_player_total_monotone(provinces, groups, player, workforce, k, n - 1);
    } else if k > 0 {
        lemma_player_total_monotone(provinces, groups, player, workforce, k - 1, k - 1);
    }
}

fn player_total_of(session: &ManagementSession, workforce: bool) -> (total: u64)
    requires
        player_total(*session, workforce) <= u64::MAX,
    ensures
        total == player_total(*session, workforce),
{
    let groups = &session.snapshot.population_groups;
    let mut total: u64 = 0;
    let mut k: usize = 0;
    while k < groups.len()
        invariant
            k <= groups.len(),
            groups == &session.snapshot.population_groups,
            player_total(*session, workforce) <= u64::MAX,
            total == player_total_upto(
                session.snapshot.provinces@,
                groups@,
                session.player_country,
                workforce,
                k as int,
            ),
        decreases groups.len() - k,
    {
        proof {
            lemma_player_total_monotone(
                session.snapshot.provinces@,
                groups@,
                session.player_country,
                workforce,
                k + 1,
                groups@.len() as int,
            );
        }
        if player_owns(&session.snapshot.provinces, session.player_country, groups[k].province) {
            total = total + if workforce {
                groups[k].workforce
            } else {
                groups[k].population
            };
        }
        k = k + 1;
    }
    total
}

proof fn lemma_level_monotone(snapshot: WorldSnapshot, province: ProvinceId, definition: Seq<char>, k: int, n: int)
    requires
        0 <= k <= n <= snapshot.facilities@.len(),
    ensures
        0 <= level_upto(snapshot, province, definition, k) <= level_upto(snapshot, province, definition, n),
    decreases n,
{
    if n > k {
        lemma_level_monotone(snapshot, province, definition, k, n - 1);
    } else if k > 0 {
        lemma_level_monotone(snapshot, province, definition, k - 1, k - 1);
    }
}

proof fn lemma_active_monotone(
    snapshot: WorldSnapshot,
    report: DayReport,
    province: ProvinceId,
    definition: Seq<char>,
    k: int,
    n: int,
)
    requires
        0 <= k <= n <= report.facilities@.len(),
    ensures
        0 <= active_upto(snapshot, report, province, definition, k) <= active_upto(
            snapshot,
            report,
            province,
            definition,
            n,
        ),
    decreases n,
{
    if n > k {
        lemma_active_monotone(snapshot, report, province, definition, k, n - 1);
    } else if k > 0 {
        lemma_active_monotone(snapshot, report, province, definition, k - 1, k - 1);
    }
}

fn is_staffed(snapshot: &WorldSnapshot, province: ProvinceId, definition: &FacilityDefinitionId, id: FacilityId) -> (found: bool)
    ensures
        found == staffed_facility(*snapshot, province, definition@, id),
{
    let facilities = &snapshot.facilities;
    let mut i: usize = 0;
    while i < facilities.len()
        invariant
            i <= facilities.len(),
            facilities == &snapshot.facilities,
            forall|j: int|
                0 <= j < i ==> !(facilities@[j].province == province && facilities@[j].definition@
                    == definition@ && facilities@[j].id == id),
        decreases facilities.len() - i,
    {
        let facility = &facilities[i];
        if facility.province == province && facility.definition == *definition && facility.id == id {
            return true;
        }
        i = i + 1;
    }
    false
}

fn staffing(session: &ManagementSession, province: ProvinceId, definition: &FacilityDefinitionId) -> (value: LabelValue)
    requires
        level_upto(session.snapshot, province, definition@, session.snapshot.facilities@.len() as int) <= u64::MAX,
        session.last_report matches Some(report) ==> active_upto(
            session.snapshot,
            report,
            province,
            definition@,
            report.facilities@.len() as int,
        ) <= u64::MAX,
    ensures
        value == (LabelValue::Staffing {
            level: level_upto(session.snapshot, province, definition@, session.snapshot.facilities@.len() as int) as u64,
            active: match session.last_report {
                Some(report) => Some(
                    active_upto(session.snapshot, report, province, definition@, report.facilities@.len() as int) as u64,
                ),
                None => None,
            },
        }),
{
    let facilities = &session.snapshot.facilities;
    let mut level: u64 = 0;
    let mut i: usize = 0;
    while i < facilities.len()
        invariant
            i <= facilities.len(),
            facilities == &session.snapshot.facilities,
            level_upto(session.snapshot, province, definition@, facilities@.len() as int) <= u64::MAX,
            level == level_upto(session.snapshot, province, definition@, i as int),
        decreases facilities.len() - i,
    {
        proof {
            lemma_level_monotone(session.snapshot, province, definition@, i + 1, facilities@.len() as int);
        }
        if facilities[i].province == province && facilities[i].definition == *definition {
            level = level + facilities[i].level;
        }
        i = i + 1;
    }
    let workers = match &session.last_report {
        None => None,
        Some(report) => {
            let results = &report.facilities;
            let mut active: u64 = 0;
            let mut k: usize = 0;
            while k < results.len()
                invariant
                    k <= results.len(),
                    results == &report.facilities,
                    active_upto(session.snapshot, *report, province, definition@, results@.len() as int) <= u64::MAX,
                    active == active_upto(session.snapshot, *report, province, definition@, k as int),
                decreases results.len() - k,
            {
                proof {
                    lemma_active_monotone(session.snapshot, *report, province, definition@, k + 1, results@.len() as int);
                }
                if is_staffed(&session.snapshot, province, definition, results[k].facility) {
                    active = active + results[k].active_workers;
                }
                k = k + 1;
            }
            Some(active)
        },
    };
    LabelValue::Staffing { level, active: workers }
}

/// The value of a label for the selected province; nothing while the selected
/// province is not in the snapshot, which leaves the labels as they are.
pub fn label_value(session: &ManagementSession, view: &ManagementViewState, label: &ManagementLabel) -> (value: Option<LabelValue>)
    requires
        session_wf(*session),
        first_province(session.snapshot.provinces@, view.selected_province) matches Some(i) ==> label_fits(
            *session,
            session.snapshot.provinces@[i],
            *label,
        ),
    ensures
        match first_province(session.snapshot.provinces@, view.selected_province) {
            None => value is None,
            Some(i) => value matches Some(shown) && label_value_of(
                *session,
                session.snapshot.provinces@[i],
                *label,
                shown,
            ),
        },
{
    let position = match find_province(&session.snapshot.provinces, view.selected_province) {
        None => return None,
        Some(position) => position,
    };
    let province = &session.snapshot.provinces[position];
    assert(first_province(session.snapshot.provinces@, view.selected_province) == Some(position as int));
    assert(label_fits(*session, *province, *label));
    let value = match label {
        ManagementLabel::Country => {
            let countries = &session.snapshot.countries;
            let found = find_first_country(countries, session.player_country);
            match found {
                Some(i) => {
                    let id_text = uuid_text(session.player_country);
                    LabelValue::Country(
                        Some(
                            ContentName {
                                key: content_key("country", id_text.as_str()),
                                fallback: countries[i].name.clone(),
                            },
                        ),
                    )
                },
                None => LabelValue::Country(None),
            }
        },
        ManagementLabel::Day => LabelValue::Day(session.snapshot.day),
        ManagementLabel::Population => LabelValue::Total(player_total_of(session, false)),
        ManagementLabel::Workforce => LabelValue::Total(player_total_of(session, true)),
        ManagementLabel::Province => LabelValue::Province(province_name(session, province.id)),
        ManagementLabel::Allocation => {
            let reported = match &session.last_report {
                Some(report) => match find_province_report(&report.provinces, province.id) {
                    Some(k) => {
                        let r = &report.provinces[k];
                        Some(
                            LabelValue::Allocation {
                                production: r.production_workers,
                                construction: r.construction_workers,
                                idle: r.available_workers - r.production_workers - r.construction_workers,
                                workers: r.available_workers,
                            },
                        )
                    },
                    None => None,
                },
                None => None,
            };
            match reported {
                Some(value) => value,
                None => LabelValue::BeforeAllocation {
                    workers: workforce_of(&session.snapshot.population_groups, province.id),
                },
            }
        },
        ManagementLabel::ReportDay => LabelValue::ReportDay(
            match &session.last_report {
                Some(report) => Some(report.day),
                None => None,
            },
        ),
        ManagementLabel::FoodShortfall => LabelValue::Food(
            match &session.last_report {
                Some(report) => match find_province_report(&report.provinces, province.id) {
                    Some(k) => Some(
                        FoodFigures {
                            required: report.provinces[k].food_required,
                            consumed: report.provinces[k].food_consumed,
                            shortfall: report.provinces[k].food_shortfall,
                        },
                    ),
                    None => None,
                },
                None => None,
            },
        ),
        ManagementLabel::Feedback => {
            let error = match &session.feedback {
                SessionFeedback::Error(_) => true,
                _ => false,
            };
            LabelValue::Feedback { message: feedback(session), error }
        },
        ManagementLabel::Stock(good) => LabelValue::Stock(stock_of(&province.stockpile, good)),
        ManagementLabel::StockChange(good) => LabelValue::StockChange(
            daily_goods_change(session, province.id, good),
        ),
        ManagementLabel::FacilityStaffing(definition) => staffing(session, province.id, definition),
        ManagementLabel::ProjectProgress(id) => {
            let projects = &session.snapshot.construction_projects;
            let progress = match find_first_project(projects, *id) {
                Some(k) => Some((projects[k].remaining_worker_days, projects[k].requested_workers)),
                None => None,
            };
            LabelValue::ProjectProgress(progress)
        },
    };
    Some(value)
}

/// How a management button shows the session.
pub enum ButtonLook {
    /// A province button, marked when its province is the selected one.
    Selected(bool),
    /// The run button, labelled with the text of this localization key.
    Text(String),
    /// A button whose look does not follow the session.
    Unchanged,
}

/// How the button of `action` shows the session: a province button is marked
/// when its province is selected; the run button offers to pause while time runs
/// and to play while it is paused; other buttons keep their look.
pub open spec fn button_look_of(session: ManagementSession, view: ManagementViewState, action: ManagementAction, look: ButtonLook) -> bool {
    match action {
        ManagementAction::SelectProvince(id) => look == ButtonLook::Selected(id == view.selected_province),
        ManagementAction::ToggleRunning => look matches ButtonLook::Text(key) && key@ == if session.running {
            "management-pause"@
        } else {
            "management-play"@
        },
        _ => look is Unchanged,
    }
}

/// How the button of `action` shows the session.
pub fn button_look(session: &ManagementSession, view: &ManagementViewState, action: &ManagementAction) -> (look: ButtonLook)
    ensures
        button_look_of(*session, *view, *action, look),
{
    match action {
        ManagementAction::SelectProvince(id) => ButtonLook::Selected(*id == view.selected_province),
        ManagementAction::ToggleRunning => {
            let key = if session.running {
                "management-pause"
            } else {
                "management-play"
            };
            ButtonLook::Text(key.to_owned())
        },
        _ => ButtonLook::Unchanged,
    }
}

/// The staffing level of a kind in a province adds up its facilities' levels: it
/// is at least the level of any facility of that kind there, and it is exactly
/// that facility's level where it is the only one.
pub proof fn lemma_levels_add_up(snapshot: WorldSnapshot, province: ProvinceId, definition: Seq<char>, i: int, n: int)
    requires
        0 <= i < n <= snapshot.facilities@.len(),
        snapshot.facilities@[i].province == province,
        snapshot.facilities@[i].definition@ == definition,
    ensures
        level_upto(snapshot, province, definition, n) >= snapshot.facilities@[i].level,
        (forall|k: int|
            0 <= k < n && k != i ==> !(#[trigger] snapshot.facilities@[k].province == province
                && snapshot.facilities@[k].definition@ == definition)) ==> level_upto(snapshot, province, definition, n)
            == snapshot.facilities@[i].level,
    decreases n,
{
    if i < n - 1 {
        lemma_levels_add_up(snapshot, province, definition, i, n - 1);
    } else {
        lemma_levels_none(snapshot, province, definition, i, n - 1);
    }
}

/// Without a facility of the kind among the first `n`, the level is 0.
proof fn lemma_levels_none(snapshot: WorldSnapshot, province: ProvinceId, definition: Seq<char>, skip: int, n: int)
    requires
        0 <= n <= skip,
    ensures
        level_upto(snapshot, province, definition, n) >= 0,
        (forall|k: int|
            0 <= k < skip + 1 && k != skip ==> !(#[trigger] snapshot.facilities@[k].province == province
                && snapshot.facilities@[k].definition@ == definition)) ==> level_upto(snapshot, province, definition, n)
            == 0,
    decreases n,
{
    if n > 0 {
        lemma_levels_none(snapshot, province, definition, skip, n - 1);
    }
}

} // verus!
