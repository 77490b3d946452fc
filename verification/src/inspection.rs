//! The territory inspection panel of the world map: which province or country is
//! inspected, how its buttons move the selection, and the statistics it shows.
use crate::world::{ConstructionProject, CountryId, Facility, PopulationGroup, Province, ProvinceId, WorldSnapshot};
use std::collections::BTreeSet;
use vstd::std_specs::btree::spec_btree_keys_iter;
use vstd::std_specs::iter::IteratorSpec;
use vstd::prelude::*;

verus! {

broadcast use {vstd::std_specs::btree::group_btree_axioms, vstd::laws_cmp::group_laws_cmp};

pub type RegionId = u128;

/// A province of the geographic map catalog.
pub struct MapProvince {
    pub id: ProvinceId,
    pub water: bool,
    pub owner: Option<CountryId>,
    pub region: Option<RegionId>,
}

/// What the map selects: `selected_index` is a catalog position plus one, 0 for none.
pub struct MapViewState {
    pub selected_index: u32,
    pub inspect_country: bool,
}

#[derive(Clone, Copy, Debug, PartialEq, Eq, Structural)]
pub enum InspectionTab {
    Overview,
    Buildings,
    Construction,
    Population,
    Territory,
    Programs,
}

pub struct InspectionView {
    pub tab: InspectionTab,
    pub page: usize,
}

/// A button of the inspection panel.
#[derive(Clone, Copy, Debug, PartialEq, Eq, Structural)]
pub enum InspectionAction {
    /// Open the construction tab on the player's country.
    Construction,
    Tab(InspectionTab),
    Page(usize),
    Country,
    State,
    Close,
    /// Select the province at this catalog position plus one.
    Province(u32),
}

/// Position of the first land province the player owns in the catalog.
pub open spec fn first_player_land(catalog: Seq<MapProvince>, player: CountryId) -> Option<int> {
    if exists|i: int| 0 <= i < catalog.len() && !catalog[i].water && catalog[i].owner == Some(player) {
        Some(
            choose|i: int|
                0 <= i < catalog.len() && !catalog[i].water && catalog[i].owner == Some(player)
                    && forall|j: int| 0 <= j < i ==> !(!catalog[j].water && catalog[j].owner == Some(player)),
        )
    } else {
        None
    }
}

/// Position of the first catalog province of `region` owned by `country`.
pub open spec fn first_region_province(catalog: Seq<MapProvince>, region: RegionId, country: CountryId) -> Option<int> {
    if exists|i: int|
        0 <= i < catalog.len() && catalog[i].region == Some(region) && catalog[i].owner == Some(country) {
        Some(
            choose|i: int|
                0 <= i < catalog.len() && catalog[i].region == Some(region) && catalog[i].owner == Some(
                    country,
                ) && forall|j: int|
                    0 <= j < i ==> !(catalog[j].region == Some(region) && catalog[j].owner == Some(country)),
        )
    } else {
        None
    }
}

/// Applies an inspection button; returns the catalog position plus one that the
/// camera should move to, if any.
pub fn apply_inspection_action(
    view: &mut InspectionView,
    map: &mut MapViewState,
    action: InspectionAction,
    catalog: &Vec<MapProvince>,
    player: CountryId,
) -> (focus: Option<u32>)
    requires
        catalog@.len() < u32::MAX,
    ensures
        match action {
            InspectionAction::Construction => match first_player_land(catalog@, player) {
                Some(i) => {
                    &&& *final(map) == (MapViewState { selected_index: (i + 1) as u32, inspect_country: true })
                    &&& *final(view) == (InspectionView { tab: InspectionTab::Construction, page: 0 })
                    &&& focus is None
                },
                None => *final(map) == *old(map) && *final(view) == *old(view) && focus is None,
            },
            InspectionAction::Tab(tab) => {
                &&& *final(view) == (InspectionView { tab, page: 0 })
                &&& *final(map) == *old(map)
                &&& focus is None
            },
            InspectionAction::Page(page) => {
                &&& *final(view) == (InspectionView { page, ..*old(view) })
                &&& *final(map) == *old(map)
                &&& focus is None
            },
            InspectionAction::Country => {
                &&& *final(view) == (InspectionView { tab: InspectionTab::Overview, page: 0 })
                &&& *final(map) == (MapViewState { inspect_country: true, ..*old(map) })
                &&& focus is None
            },
            InspectionAction::State => {
                &&& *final(view) == (InspectionView { tab: InspectionTab::Overview, page: 0 })
                &&& *final(map) == (MapViewState { inspect_country: false, ..*old(map) })
                &&& focus is None
            },
            InspectionAction::Close => {
                &&& *final(view) == *old(view)
                &&& *final(map) == (MapViewState { selected_index: 0, ..*old(map) })
                &&& focus is None
            },
            InspectionAction::Province(index) => {
                &&& *final(view) == (InspectionView { page: 0, ..*old(view) })
                &&& *final(map) == (MapViewState { selected_index: index, inspect_country: false })
                &&& focus == Some(index)
            },
        },
{
    match action {
        InspectionAction::Construction => {
            let mut i: usize = 0;
            while i < catalog.len()
                invariant
                    i <= catalog.len(),
                    action == InspectionAction::Construction,
                    catalog@.len() < u32::MAX,
                    *map == *old(map),
                    *view == *old(view),
                    forall|j: int| 0 <= j < i ==> !(!catalog@[j].water && catalog@[j].owner == Some(player)),
                decreases catalog.len() - i,
            {
                let province = &catalog[i];
                if !province.water && province.owner == Some(player) {
                    proof {
                        assert(!catalog@[i as int].water && catalog@[i as int].owner == Some(player));
                        let first = choose|m: int|
                            0 <= m < catalog@.len() && !catalog@[m].water && catalog@[m].owner == Some(player)
                                && forall|j: int| 0 <= j < m ==> !(!catalog@[j].water && catalog@[j].owner == Some(player));
                        assert(0 <= i < catalog@.len() && !catalog@[i as int].water && catalog@[i as int].owner == Some(player)
                            && forall|j: int| 0 <= j < i ==> !(!catalog@[j].water && catalog@[j].owner == Some(player)));
                        if first < i {
                            assert(!(!catalog@[first].water && catalog@[first].owner == Some(player)));
                        }
                        if first > i {
                            assert(!(!catalog@[i as int].water && catalog@[i as int].owner == Some(player)));
                        }
                    }
                    map.selected_index = i as u32 + 1;
                    map.inspect_country = true;
                    view.tab = InspectionTab::Construction;
                    view.page = 0;
                    return None;
                }
                i = i + 1;
            }
            None
        },
        InspectionAction::Tab(tab) => {
            view.tab = tab;
            view.page = 0;
            None
        },
        InspectionAction::Page(page) => {
            view.page = page;
            None
        },
        InspectionAction::Country => {
            view.page = 0;
            map.inspect_country = true;
            view.tab = InspectionTab::Overview;
            None
        },
        InspectionAction::State => {
            view.page = 0;
            map.inspect_country = false;
            view.tab = InspectionTab::Overview;
            None
        },
        InspectionAction::Close => {
            map.selected_index = 0;
            None
        },
        InspectionAction::Province(index) => {
            view.page = 0;
            map.selected_index = index;
            map.inspect_country = false;
            Some(index)
        },
    }
}

/// Jumps the map to a region of a country from the outliner: selects the first
/// catalog province of the region that the country owns, inspecting that state;
/// returns its catalog position plus one for the camera. Nothing changes when the
/// country owns none of the region.
pub fn jump_to_region(map: &mut MapViewState, catalog: &Vec<MapProvince>, region: RegionId, country: CountryId) -> (focus: Option<u32>)
    requires
        catalog@.len() < u32::MAX,
    ensures
        match first_region_province(catalog@, region, country) {
            Some(i) => focus == Some((i + 1) as u32) && *final(map) == (MapViewState {
                selected_index: (i + 1) as u32,
                inspect_country: false,
            }),
            None => focus is None && *final(map) == *old(map),
        },
{
    let mut i: usize = 0;
    while i < catalog.len()
        invariant
            i <= catalog.len(),
            catalog@.len() < u32::MAX,
            *map == *old(map),
            forall|j: int| 0 <= j < i ==> !(catalog@[j].region == Some(region) && catalog@[j].owner == Some(country)),
        decreases catalog.len() - i,
    {
        let province = &catalog[i];
        if province.region == Some(region) && province.owner == Some(country) {
            proof {
                let first = choose|m: int|
                    0 <= m < catalog@.len() && catalog@[m].region == Some(region) && catalog@[m].owner == Some(country)
                        && forall|j: int| 0 <= j < m ==> !(catalog@[j].region == Some(region) && catalog@[j].owner == Some(country));
                assert(0 <= i < catalog@.len() && catalog@[i as int].region == Some(region) && catalog@[i as int].owner == Some(country)
                    && forall|j: int| 0 <= j < i ==> !(catalog@[j].region == Some(region) && catalog@[j].owner == Some(country)));
                if first < i {
                    assert(!(catalog@[first].region == Some(region) && catalog@[first].owner == Some(country)));
                }
                if first > i {
                    assert(!(catalog@[i as int].region == Some(region) && catalog@[i as int].owner == Some(country)));
                }
            }
            let index = i as u32 + 1;
            map.selected_index = index;
            map.inspect_country = false;
            return Some(index);
        }
        i = i + 1;
    }
    None
}

/// The figures of a territory: whether the simulation covers all of it, and its
/// population, workforce, facility levels and construction projects.
pub struct TerritoryStatistics {
    pub has_statistics: bool,
    pub population: u128,
    pub workforce: u128,
    pub buildings: u128,
    pub construction: usize,
}

/// Population (or workforce) of the first `n` groups living in `scope`.
pub open spec fn scope_people_upto(groups: Seq<PopulationGroup>, scope: Set<ProvinceId>, workforce: bool, n: int) -> int
    decreases n,
{
    if n <= 0 {
        0
    } else {
        scope_people_upto(groups, scope, workforce, n - 1) + if scope.contains(groups[n - 1].province) {
            if workforce {
                groups[n - 1].workforce as int
            } else {
                groups[n - 1].population as int
            }
        } else {
            0
        }
    }
}

/// Levels of the first `n` facilities in `scope`.
pub open spec fn scope_levels_upto(facilities: Seq<Facility>, scope: Set<ProvinceId>, n: int) -> int
    decreases n,
{
    if n <= 0 {
        0
    } else {
        scope_levels_upto(facilities, scope, n - 1) + if scope.contains(facilities[n - 1].province) {
            facilities[n - 1].level as int
        } else {
            0
        }
    }
}

/// Construction projects among the first `n` that are in `scope`.
pub open spec fn scope_projects_upto(projects: Seq<ConstructionProject>, scope: Set<ProvinceId>, n: int) -> int
    decreases n,
{
    if n <= 0 {
        0
    } else {
        scope_projects_upto(projects, scope, n - 1) + if scope.contains(projects[n - 1].province) {
            1int
        } else {
            0
        }
    }
}

/// Whether the snapshot simulates every province of `scope`.
pub open spec fn simulates_all(snapshot: WorldSnapshot, scope: Set<ProvinceId>) -> bool {
    forall|id: ProvinceId|
        #[trigger] scope.contains(id) ==> exists|i: int|
            0 <= i < snapshot.provinces@.len() && snapshot.provinces@[i].id == id
}

proof fn lemma_people_bounded(groups: Seq<PopulationGroup>, scope: Set<ProvinceId>, workforce: bool, n: int)
    requires
        0 <= n <= groups.len(),
    ensures
        0 <= scope_people_upto(groups, scope, workforce, n) <= n * 0xffff_ffff_ffff_ffff,
    decreases n,
{
    if n > 0 {
        lemma_people_bounded(groups, scope, workforce, n - 1);
    }
}

proof fn lemma_levels_bounded(facilities: Seq<Facility>, scope: Set<ProvinceId>, n: int)
    requires
        0 <= n <= facilities.len(),
    ensures
        0 <= scope_levels_upto(facilities, scope, n) <= n * 0xffff_ffff_ffff_ffff,
    decreases n,
{
    if n > 0 {
        lemma_levels_bounded(facilities, scope, n - 1);
    }
}

proof fn lemma_projects_bounded(projects: Seq<ConstructionProject>, scope: Set<ProvinceId>, n: int)
    requires
        0 <= n <= projects.len(),
    ensures
        0 <= scope_projects_upto(projects, scope, n) <= n,
    decreases n,
{
    if n > 0 {
        lemma_projects_bounded(projects, scope, n - 1);
    }
}

fn simulated(provinces: &Vec<Province>, id: ProvinceId) -> (found: bool)
    ensures
        found == exists|i: int| 0 <= i < provinces@.len() && provinces@[i].id == id,
{
    let mut i: usize = 0;
    while i < provinces.len()
        invariant
            i <= provinces.len(),
            forall|j: int| 0 <= j < i ==> provinces@[j].id != id,
        decreases provinces.len() - i,
    {
        if provinces[i].id == id {
            return true;
        }
        i = i + 1;
    }
    false
}

/// A set of the standard library's ordered sets is finite.
proof fn lemma_scope_finite(scope: &BTreeSet<ProvinceId>)
    ensures
        scope@.finite(),
{
    let keys = spec_btree_keys_iter(scope).remaining().unref();
    assert(keys.to_set() == scope@);
    vstd::seq_lib::seq_to_set_is_finite(keys);
}

/// Whether every province of `scope` is among `provinces`: the provinces of the
/// scope found among them are collected, and the scope is covered when they are
/// as many as the scope holds.
fn covers(provinces: &Vec<Province>, scope: &BTreeSet<ProvinceId>) -> (covered: bool)
    ensures
        covered == forall|id: ProvinceId|
            #[trigger] scope@.contains(id) ==> exists|i: int| 0 <= i < provinces@.len() && provinces@[i].id == id,
{
    let mut found: BTreeSet<ProvinceId> = BTreeSet::new();
    let mut i: usize = 0;
    while i < provinces.len()
        invariant
            i <= provinces.len(),
            forall|id: ProvinceId|
                #[trigger] found@.contains(id) <==> scope@.contains(id) && exists|j: int|
                    0 <= j < i && provinces@[j].id == id,
        decreases provinces.len() - i,
    {
        let id = provinces[i].id;
        if scope.contains(&id) {
            found.insert(id);
        }
        proof {
            assert forall|other: ProvinceId|
                #[trigger] found@.contains(other) <==> scope@.contains(other) && exists|j: int|
                    0 <= j < i + 1 && provinces@[j].id == other by {
                if scope@.contains(other) && exists|j: int| 0 <= j < i + 1 && provinces@[j].id == other {
                    let j = choose|j: int| 0 <= j < i + 1 && provinces@[j].id == other;
                    if j < i {
                        assert(exists|m: int| 0 <= m < i && provinces@[m].id == other);
                    }
                }
                if other != id && found@.contains(other) {
                    let j = choose|j: int| 0 <= j < i && provinces@[j].id == other;
                    assert(0 <= j < i + 1 && provinces@[j].id == other);
                }
            }
        }
        i = i + 1;
    }
    proof {
        lemma_scope_finite(scope);
        vstd::set_lib::lemma_len_subset(found@, scope@);
    }
    let covered = found.len() == scope.len();
    proof {
        if covered {
            if !(found@ =~= scope@) {
                let missing = choose|id: ProvinceId| scope@.contains(id) && !found@.contains(id);
                vstd::set_lib::lemma_len_subset(found@, scope@.remove(missing));
            }
            assert(found@ =~= scope@);
        } else {
            if forall|id: ProvinceId|
                #[trigger] scope@.contains(id) ==> exists|j: int| 0 <= j < provinces@.len() && provinces@[j].id == id {
                assert(found@ =~= scope@);
            }
        }
    }
    covered
}

/// The statistics of the territory `scope` in the snapshot.
pub fn territory_statistics(snapshot: &WorldSnapshot, scope: &BTreeSet<ProvinceId>) -> (statistics: TerritoryStatistics)
    ensures
        statistics.has_statistics == simulates_all(*snapshot, scope@),
        statistics.population == scope_people_upto(
            snapshot.population_groups@,
            scope@,
            false,
            snapshot.population_groups@.len() as int,
        ),
        statistics.workforce == scope_people_upto(
            snapshot.population_groups@,
            scope@,
            true,
            snapshot.population_groups@.len() as int,
        ),
        statistics.buildings == scope_levels_upto(snapshot.facilities@, scope@, snapshot.facilities@.len() as int),
        statistics.construction == scope_projects_upto(
            snapshot.construction_projects@,
            scope@,
            snapshot.construction_projects@.len() as int,
        ),
{
    let has_statistics = covers(&snapshot.provinces, scope);
    let groups = &snapshot.population_groups;
    let mut population: u128 = 0;
    let mut workforce: u128 = 0;
    let mut k: usize = 0;
    while k < groups.len()
        invariant
            k <= groups.len(),
            groups == &snapshot.population_groups,
            population == scope_people_upto(groups@, scope@, false, k as int),
            workforce == scope_people_upto(groups@, scope@, true, k as int),
        decreases groups.len() - k,
    {
        proof {
            lemma_people_bounded(groups@, scope@, false, k as int);
            lemma_people_bounded(groups@, scope@, true, k as int);
            assert(k * 0xffff_ffff_ffff_ffff <= 0xffff_ffff_ffff_ffff * 0xffff_ffff_ffff_ffff) by (nonlinear_arith)
                requires
                    k <= 0xffff_ffff_ffff_ffff,
            ;
        }
        if scope.contains(&groups[k].province) {
            population = population + groups[k].population as u128;
            workforce = workforce + groups[k].workforce as u128;
        }
        k = k + 1;
    }
    let facilities = &snapshot.facilities;
    let mut buildings: u128 = 0;
    let mut f: usize = 0;
    while f < facilities.len()
        invariant
            f <= facilities.len(),
            facilities == &snapshot.facilities,
            buildings == scope_levels_upto(facilities@, scope@, f as int),
        decreases facilities.len() - f,
    {
        proof {
            lemma_levels_bounded(facilities@, scope@, f as int);
            assert(f * 0xffff_ffff_ffff_ffff <= 0xffff_ffff_ffff_ffff * 0xffff_ffff_ffff_ffff) by (nonlinear_arith)
                requires
                    f <= 0xffff_ffff_ffff_ffff,
            ;
        }
        if scope.contains(&facilities[f].province) {
            buildings = buildings + facilities[f].level as u128;
        }
        f = f + 1;
    }
    let projects = &snapshot.construction_projects;
    let mut construction: usize = 0;
    let mut p: usize = 0;
    while p < projects.len()
        invariant
            p <= projects.len(),
            projects == &snapshot.construction_projects,
            construction == scope_projects_upto(projects@, scope@, p as int),
        decreases projects.len() - p,
    {
        proof {
            lemma_projects_bounded(projects@, scope@, p as int);
        }
        if scope.contains(&projects[p].province) {
            construction = construction + 1;
        }
        p = p + 1;
    }
    TerritoryStatistics { has_statistics, population, workforce, buildings, construction }
}

/// A state of the map's administration: its position in the catalog's states and
/// its provinces, as catalog positions plus one.
pub struct AdministeredState {
    pub catalog_index: usize,
    pub province_indices: Vec<u32>,
}

/// The provinces of the first `n` of the given states, in order.
pub open spec fn provinces_of_states(states: Seq<AdministeredState>, ids: Seq<usize>, n: int) -> Seq<u32>
    decreases n,
{
    if n <= 0 {
        Seq::empty()
    } else {
        provinces_of_states(states, ids, n - 1) + states[ids[n - 1] as int].province_indices@
    }
}

/// The provinces that the panel inspects, as catalog positions plus one: those of
/// the inspected states (the selected province's state, or all states of its
/// country), in order; the selected province alone where they hold none.
pub open spec fn inspected(states: Seq<AdministeredState>, ids: Seq<usize>, selected: u32) -> Seq<u32> {
    let all = provinces_of_states(states, ids, ids.len() as int);
    if all.len() == 0 {
        seq![selected]
    } else {
        all
    }
}

/// The provinces that the panel inspects (see `inspected`).
pub fn inspected_indices(states: &Vec<AdministeredState>, state_ids: &Vec<usize>, selected: u32) -> (indices: Vec<u32>)
    requires
        forall|k: int| 0 <= k < state_ids@.len() ==> #[trigger] state_ids@[k] < states@.len(),
    ensures
        indices@ == inspected(states@, state_ids@, selected),
{
    let mut indices: Vec<u32> = Vec::new();
    let mut k: usize = 0;
    while k < state_ids.len()
        invariant
            k <= state_ids@.len(),
            forall|m: int| 0 <= m < state_ids@.len() ==> #[trigger] state_ids@[m] < states@.len(),
            indices@ == provinces_of_states(states@, state_ids@, k as int),
        decreases state_ids.len() - k,
    {
        let provinces = &states[state_ids[k]].province_indices;
        let ghost before = indices@;
        let mut m: usize = 0;
        while m < provinces.len()
            invariant
                m <= provinces@.len(),
                indices@ == before + provinces@.take(m as int),
            decreases provinces.len() - m,
        {
            indices.push(provinces[m]);
            proof {
                assert(provinces@.take(m + 1) =~= provinces@.take(m as int).push(provinces@[m as int]));
            }
            m = m + 1;
        }
        proof {
            assert(provinces@.take(provinces@.len() as int) =~= provinces@);
        }
        k = k + 1;
    }
    if indices.len() == 0 {
        indices.push(selected);
        proof {
            assert(indices@ =~= seq![selected]);
        }
    }
    indices
}

/// The identities of the inspected provinces.
pub fn inspected_scope(catalog: &Vec<MapProvince>, indices: &Vec<u32>) -> (scope: BTreeSet<ProvinceId>)
    requires
        forall|i: int| 0 <= i < indices@.len() ==> 1 <= #[trigger] indices@[i] <= catalog@.len(),
    ensures
        forall|id: ProvinceId|
            #[trigger] scope@.contains(id) <==> exists|i: int|
                0 <= i < indices@.len() && catalog@[indices@[i] - 1].id == id,
{
    let mut scope: BTreeSet<ProvinceId> = BTreeSet::new();
    let mut i: usize = 0;
    while i < indices.len()
        invariant
            i <= indices@.len(),
            forall|k: int| 0 <= k < indices@.len() ==> 1 <= #[trigger] indices@[k] <= catalog@.len(),
            forall|id: ProvinceId|
                #[trigger] scope@.contains(id) <==> exists|k: int| 0 <= k < i && catalog@[indices@[k] - 1].id == id,
        decreases indices.len() - i,
    {
        let id = catalog[(indices[i] - 1) as usize].id;
        scope.insert(id);
        proof {
            assert forall|other: ProvinceId|
                #[trigger] scope@.contains(other) <==> exists|k: int| 0 <= k < i + 1 && catalog@[indices@[k] - 1].id == other by {
                if other != id && scope@.contains(other) {
                    let k = choose|k: int| 0 <= k < i && catalog@[indices@[k] - 1].id == other;
                    assert(0 <= k < i + 1);
                }
                if exists|k: int| 0 <= k < i + 1 && catalog@[indices@[k] - 1].id == other {
                    let k = choose|k: int| 0 <= k < i + 1 && catalog@[indices@[k] - 1].id == other;
                    if k < i {
                        assert(exists|m: int| 0 <= m < i && catalog@[indices@[m] - 1].id == other);
                    }
                }
            }
        }
        i = i + 1;
    }
    scope
}

} // verus!
