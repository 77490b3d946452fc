//! Choosing where the state builds: a local site with the goods, preferring idle
//! labor and shorter queues. State construction does not move stockpiles or
//! recruit across province borders.
use crate::world::{
    amount_of, ConstructionProject, ContentDefinitions, CountryId, Facility, FacilityDefinition,
    GoodAmount, PopulationGroup, Province, ProvinceId, WorldSnapshot, stock_of,
};
use crate::session::ManagementSession;
use std::collections::BTreeSet;
use vstd::prelude::*;

verus! {

broadcast use {vstd::std_specs::btree::group_btree_axioms, vstd::laws_cmp::group_laws_cmp};

/// Position of the first definition named `id` among the first `n` definitions.
pub open spec fn first_definition_upto(
    definitions: Seq<FacilityDefinition>,
    id: Seq<char>,
    n: int,
) -> Option<int>
    decreases n,
{
    if n <= 0 {
        None
    } else if first_definition_upto(definitions, id, n - 1) is Some {
        first_definition_upto(definitions, id, n - 1)
    } else if definitions[n - 1].id@ == id {
        Some(n - 1)
    } else {
        None
    }
}

/// Position of the first definition named `id`.
pub open spec fn first_definition(definitions: Seq<FacilityDefinition>, id: Seq<char>) -> Option<
    int,
> {
    first_definition_upto(definitions, id, definitions.len() as int)
}

/// Workforce of the first `n` groups that live in province `id`.
pub open spec fn workforce_upto(groups: Seq<PopulationGroup>, id: ProvinceId, n: int) -> int
    decreases n,
{
    if n <= 0 {
        0
    } else {
        workforce_upto(groups, id, n - 1) + if groups[n - 1].province == id {
            groups[n - 1].workforce as int
        } else {
            0
        }
    }
}

/// Workforce of all groups that live in province `id`.
pub open spec fn province_workforce(snapshot: WorldSnapshot, id: ProvinceId) -> int {
    workforce_upto(snapshot.population_groups@, id, snapshot.population_groups@.len() as int)
}

/// Workers that one facility demands: its level times its definition's workers per level,
/// nothing where its definition is unknown.
pub open spec fn facility_demand(definitions: Seq<FacilityDefinition>, facility: Facility) -> int {
    match first_definition(definitions, facility.definition@) {
        Some(k) => definitions[k].workers_per_level * facility.level,
        None => 0,
    }
}

/// Workers demanded by the first `n` facilities of province `id`.
pub open spec fn facilities_demand_upto(
    facilities: Seq<Facility>,
    definitions: Seq<FacilityDefinition>,
    id: ProvinceId,
    n: int,
) -> int
    decreases n,
{
    if n <= 0 {
        0
    } else {
        facilities_demand_upto(facilities, definitions, id, n - 1) + if facilities[n - 1].province
            == id {
            facility_demand(definitions, facilities[n - 1])
        } else {
            0
        }
    }
}

/// Workers that one construction project still asks for: its request, capped by the work left.
pub open spec fn project_demand(project: ConstructionProject) -> int {
    if project.requested_workers <= project.remaining_worker_days {
        project.requested_workers as int
    } else {
        project.remaining_worker_days as int
    }
}

/// Workers demanded by the first `n` construction projects of province `id`.
pub open spec fn projects_demand_upto(projects: Seq<ConstructionProject>, id: ProvinceId, n: int) -> int
    decreases n,
{
    if n <= 0 {
        0
    } else {
        projects_demand_upto(projects, id, n - 1) + if projects[n - 1].province == id {
            project_demand(projects[n - 1])
        } else {
            0
        }
    }
}

/// Number of construction projects among the first `n` that are queued in province `id`.
pub open spec fn queue_upto(projects: Seq<ConstructionProject>, id: ProvinceId, n: int) -> int
    decreases n,
{
    if n <= 0 {
        0
    } else {
        queue_upto(projects, id, n - 1) + if projects[n - 1].province == id {
            1int
        } else {
            0
        }
    }
}

/// Workers demanded in province `id` by its facilities and its construction projects.
pub open spec fn province_demand(
    snapshot: WorldSnapshot,
    definitions: ContentDefinitions,
    id: ProvinceId,
) -> int {
    facilities_demand_upto(
        snapshot.facilities@,
        definitions.facilities@,
        id,
        snapshot.facilities@.len() as int,
    ) + projects_demand_upto(
        snapshot.construction_projects@,
        id,
        snapshot.construction_projects@.len() as int,
    )
}

/// Construction projects queued in province `id`.
pub open spec fn province_queue(snapshot: WorldSnapshot, id: ProvinceId) -> int {
    queue_upto(snapshot.construction_projects@, id, snapshot.construction_projects@.len() as int)
}

/// Workforce left over after the province's demand, never below zero.
pub open spec fn idle_workforce(
    snapshot: WorldSnapshot,
    definitions: ContentDefinitions,
    id: ProvinceId,
) -> int {
    let workforce = province_workforce(snapshot, id);
    let demand = province_demand(snapshot, definitions, id);
    if workforce >= demand {
        workforce - demand
    } else {
        0
    }
}

/// Whether a stockpile holds at least every cost.
pub open spec fn affords(stockpile: Seq<GoodAmount>, costs: Seq<GoodAmount>) -> bool {
    forall|k: int| 0 <= k < costs.len() ==> amount_of(stockpile, #[trigger] costs[k].good@) >= costs[k].amount
}

/// Whether the player may build `definition` in `province`: it is in scope, the
/// player owns it, and its own stockpile pays the construction goods.
pub open spec fn eligible_site(
    province: Province,
    player_country: CountryId,
    scope: Set<ProvinceId>,
    definition: FacilityDefinition,
) -> bool {
    &&& scope.contains(province.id)
    &&& province.country == player_country
    &&& affords(province.stockpile@, definition.construction.goods@)
}

/// Whether site `a` is ranked no better than site `b`: more idle workforce first,
/// then the shorter construction queue, then the smaller identity.
pub open spec fn ranks_no_better(
    snapshot: WorldSnapshot,
    definitions: ContentDefinitions,
    a: ProvinceId,
    b: ProvinceId,
) -> bool {
    let (idle_a, idle_b) = (idle_workforce(snapshot, definitions, a), idle_workforce(snapshot, definitions, b));
    let (queue_a, queue_b) = (province_queue(snapshot, a), province_queue(snapshot, b));
    ||| idle_a < idle_b
    ||| idle_a == idle_b && queue_a > queue_b
    ||| idle_a == idle_b && queue_a == queue_b && a >= b
}

/// Whether the sums that siting adds up stay within `u64` for every province in scope.
pub open spec fn siting_fits(
    snapshot: WorldSnapshot,
    definitions: ContentDefinitions,
    scope: Set<ProvinceId>,
) -> bool {
    forall|id: ProvinceId|
        #![trigger scope.contains(id)]
        scope.contains(id) ==> province_workforce(snapshot, id) <= u64::MAX && province_demand(
            snapshot,
            definitions,
            id,
        ) <= u64::MAX
}

/// Whether `site` is where construction goes: `None` exactly when no province is
/// eligible; otherwise an eligible province that every eligible province ranks no better than.
pub open spec fn is_construction_site(
    snapshot: WorldSnapshot,
    definitions: ContentDefinitions,
    player_country: CountryId,
    scope: Set<ProvinceId>,
    definition: FacilityDefinition,
    site: Option<ProvinceId>,
) -> bool {
    let provinces = snapshot.provinces@;
    match site {
        None => forall|i: int|
            0 <= i < provinces.len() ==> !#[trigger] eligible_site(
                provinces[i],
                player_country,
                scope,
                definition,
            ),
        Some(id) => exists|i: int|
            0 <= i < provinces.len() && provinces[i].id == id && #[trigger] eligible_site(
                provinces[i],
                player_country,
                scope,
                definition,
            ) && forall|j: int|
                0 <= j < provinces.len() && #[trigger] eligible_site(
                    provinces[j],
                    player_country,
                    scope,
                    definition,
                ) ==> ranks_no_better(snapshot, definitions, provinces[j].id, id),
    }
}

proof fn lemma_first_definition_upto(definitions: Seq<FacilityDefinition>, id: Seq<char>, n: int)
    requires
        0 <= n <= definitions.len(),
    ensures
        first_definition_upto(definitions, id, n) matches Some(k) ==> 0 <= k < n
            && definitions[k].id@ == id,
        first_definition_upto(definitions, id, n) is None ==> forall|k: int|
            0 <= k < n ==> definitions[k].id@ != id,
    decreases n,
{
    if n > 0 {
        lemma_first_definition_upto(definitions, id, n - 1);
    }
}

/// Finds the first definition of a facility kind.
pub(crate) fn find_definition(definitions: &Vec<FacilityDefinition>, id: &String) -> (found: Option<usize>)
    ensures
        found matches Some(k) ==> k < definitions.len() && first_definition(definitions@, id@) == Some(k as int),
        found is None ==> first_definition(definitions@, id@) is None,
{
    let mut k: usize = 0;
    while k < definitions.len()
        invariant
            k <= definitions.len(),
            first_definition_upto(definitions@, id@, k as int) is None,
        decreases definitions.len() - k,
    {
        if definitions[k].id == *id {
            proof {
                lemma_first_definition_upto(definitions@, id@, definitions.len() as int);
                assert forall|n: int| k < n <= definitions.len() implies first_definition_upto(
                    definitions@,
                    id@,
                    n,
                ) == Some(k as int) by {
                    lemma_first_definition_prefix(definitions@, id@, k as int, n);
                }
            }
            return Some(k);
        }
        k = k + 1;
    }
    None
}

proof fn lemma_first_definition_prefix(
    definitions: Seq<FacilityDefinition>,
    id: Seq<char>,
    k: int,
    n: int,
)
    requires
        0 <= k < n <= definitions.len(),
        first_definition_upto(definitions, id, k) is None,
        definitions[k].id@ == id,
    ensures
        first_definition_upto(definitions, id, n) == Some(k),
    decreases n,
{
    if n > k + 1 {
        lemma_first_definition_prefix(definitions, id, k, n - 1);
    }
}

proof fn lemma_workforce_monotone(groups: Seq<PopulationGroup>, id: ProvinceId, k: int, n: int)
    requires
        0 <= k <= n <= groups.len(),
    ensures
        0 <= workforce_upto(groups, id, k) <= workforce_upto(groups, id, n),
    decreases n,
{
    if n > k {
        lemma_workforce_monotone(groups, id, k, n - 1);
    } else if k > 0 {
        lemma_workforce_monotone(groups, id, k - 1, k - 1);
    }
}

proof fn lemma_facilities_demand_monotone(
    facilities: Seq<Facility>,
    definitions: Seq<FacilityDefinition>,
    id: ProvinceId,
    k: int,
    n: int,
)
    requires
        0 <= k <= n <= facilities.len(),
    ensures
        0 <= facilities_demand_upto(facilities, definitions, id, k) <= facilities_demand_upto(
            facilities,
            definitions,
            id,
            n,
        ),
    decreases n,
{
    if n > 0 {
        let f = facilities[n - 1];
        if let Some(d) = first_definition(definitions, f.definition@) {
            assert(definitions[d].workers_per_level * f.level >= 0) by (nonlinear_arith)
                requires
                    definitions[d].workers_per_level >= 0,
                    f.level >= 0,
            ;
        }
    }
    if n > k {
        lemma_facilities_demand_monotone(facilities, definitions, id, k, n - 1);
    } else if k > 0 {
        lemma_facilities_demand_monotone(facilities, definitions, id, k - 1, k - 1);
    }
}

proof fn lemma_projects_demand_monotone(
    projects: Seq<ConstructionProject>,
    id: ProvinceId,
    k: int,
    n: int,
)
    requires
        0 <= k <= n <= projects.len(),
    ensures
        0 <= projects_demand_upto(projects, id, k) <= projects_demand_upto(projects, id, n),
        0 <= queue_upto(projects, id, k) <= queue_upto(projects, id, n),
        queue_upto(projects, id, n) <= n,
    decreases n,
{
    if n > k {
        lemma_projects_demand_monotone(projects, id, k, n - 1);
    } else if k > 0 {
        lemma_projects_demand_monotone(projects, id, k - 1, k - 1);
    }
}

/// Workforce of the groups of one province.
pub(crate) fn workforce_of(groups: &Vec<PopulationGroup>, id: ProvinceId) -> (total: u64)
    requires
        workforce_upto(groups@, id, groups@.len() as int) <= u64::MAX,
    ensures
        total == workforce_upto(groups@, id, groups@.len() as int),
{
    let mut total: u64 = 0;
    let mut k: usize = 0;
    while k < groups.len()
        invariant
            k <= groups.len(),
            total == workforce_upto(groups@, id, k as int),
            workforce_upto(groups@, id, groups@.len() as int) <= u64::MAX,
        decreases groups.len() - k,
    {
        proof {
            lemma_workforce_monotone(groups@, id, k + 1, groups@.len() as int);
        }
        if groups[k].province == id {
            total = total + groups[k].workforce;
        }
        k = k + 1;
    }
    total
}

/// Workers demanded in one province by facilities and construction projects.
fn demand_of(
    snapshot: &WorldSnapshot,
    definitions: &ContentDefinitions,
    id: ProvinceId,
) -> (total: u64)
    requires
        province_demand(*snapshot, *definitions, id) <= u64::MAX,
    ensures
        total == province_demand(*snapshot, *definitions, id),
{
    let facilities = &snapshot.facilities;
    let projects = &snapshot.construction_projects;
    let ghost all_projects = projects_demand_upto(projects@, id, projects@.len() as int);
    proof {
        lemma_projects_demand_monotone(projects@, id, 0, projects@.len() as int);
    }
    let mut total: u64 = 0;
    let mut k: usize = 0;
    while k < facilities.len()
        invariant
            k <= facilities.len(),
            facilities == &snapshot.facilities,
            total == facilities_demand_upto(facilities@, definitions.facilities@, id, k as int),
            facilities_demand_upto(
                facilities@,
                definitions.facilities@,
                id,
                facilities@.len() as int,
            ) + all_projects <= u64::MAX,
            all_projects >= 0,
        decreases facilities.len() - k,
    {
        proof {
            lemma_facilities_demand_monotone(
                facilities@,
                definitions.facilities@,
                id,
                k + 1,
                facilities@.len() as int,
            );
        }
        if facilities[k].province == id {
            match find_definition(&definitions.facilities, &facilities[k].definition) {
                Some(d) => {
                    let product = definitions.facilities[d].workers_per_level as u128
                        * facilities[k].level as u128;
                    total = total + product as u64;
                },
                None => {},
            }
        }
        k = k + 1;
    }
    let mut j: usize = 0;
    while j < projects.len()
        invariant
            j <= projects.len(),
            projects == &snapshot.construction_projects,
            total == facilities_demand_upto(
                snapshot.facilities@,
                definitions.facilities@,
                id,
                snapshot.facilities@.len() as int,
            ) + projects_demand_upto(projects@, id, j as int),
            province_demand(*snapshot, *definitions, id) <= u64::MAX,
        decreases projects.len() - j,
    {
        proof {
            lemma_projects_demand_monotone(projects@, id, j + 1, projects@.len() as int);
        }
        if projects[j].province == id {
            let project = &projects[j];
            let requested = if project.requested_workers <= project.remaining_worker_days {
                project.requested_workers
            } else {
                project.remaining_worker_days
            };
            total = total + requested;
        }
        j = j + 1;
    }
    total
}

/// Number of construction projects queued in one province.
fn queue_of(projects: &Vec<ConstructionProject>, id: ProvinceId) -> (count: usize)
    ensures
        count == queue_upto(projects@, id, projects@.len() as int),
{
    let mut count: usize = 0;
    let mut k: usize = 0;
    while k < projects.len()
        invariant
            k <= projects.len(),
            count == queue_upto(projects@, id, k as int),
        decreases projects.len() - k,
    {
        proof {
            lemma_projects_demand_monotone(projects@, id, k as int, k as int);
        }
        if projects[k].province == id {
            count = count + 1;
        }
        k = k + 1;
    }
    count
}

/// Whether a stockpile pays every construction cost.
fn pays(stockpile: &Vec<GoodAmount>, costs: &Vec<GoodAmount>) -> (paid: bool)
    ensures
        paid == affords(stockpile@, costs@),
{
    let mut k: usize = 0;
    while k < costs.len()
        invariant
            k <= costs.len(),
            forall|m: int| 0 <= m < k ==> amount_of(stockpile@, #[trigger] costs@[m].good@) >= costs@[m].amount,
        decreases costs.len() - k,
    {
        if stock_of(stockpile, &costs[k].good) < costs[k].amount {
            return false;
        }
        k = k + 1;
    }
    true
}

/// Chooses the province of `scope` where the player builds `definition`: one the
/// player owns whose stockpile pays the construction goods, with the most idle
/// workforce, then the shortest construction queue, then the smallest identity.
pub fn construction_site_in(
    snapshot: &WorldSnapshot,
    definitions: &ContentDefinitions,
    player_country: CountryId,
    scope: &BTreeSet<ProvinceId>,
    definition: &FacilityDefinition,
) -> (site: Option<ProvinceId>)
    requires
        siting_fits(*snapshot, *definitions, scope@),
    ensures
        is_construction_site(*snapshot, *definitions, player_country, scope@, *definition, site),
{
    let provinces = &snapshot.provinces;
    let mut best: Option<(usize, u64, usize)> = None;
    let mut i: usize = 0;
    while i < provinces.len()
        invariant
            i <= provinces.len(),
            provinces == &snapshot.provinces,
            siting_fits(*snapshot, *definitions, scope@),
            match best {
                None => forall|j: int|
                    0 <= j < i ==> !#[trigger] eligible_site(
                        provinces@[j],
                        player_country,
                        scope@,
                        *definition,
                    ),
                Some((b, idle, queue)) => {
                    &&& b < i
                    &&& eligible_site(provinces@[b as int], player_country, scope@, *definition)
                    &&& idle == idle_workforce(*snapshot, *definitions, provinces@[b as int].id)
                    &&& queue == province_queue(*snapshot, provinces@[b as int].id)
                    &&& forall|j: int|
                        0 <= j < i && #[trigger] eligible_site(
                            provinces@[j],
                            player_country,
                            scope@,
                            *definition,
                        ) ==> ranks_no_better(
                            *snapshot,
                            *definitions,
                            provinces@[j].id,
                            provinces@[b as int].id,
                        )
                },
            },
        decreases provinces.len() - i,
    {
        let province = &provinces[i];
        if scope.contains(&province.id) && province.country == player_country && pays(
            &province.stockpile,
            &definition.construction.goods,
        ) {
            assert(scope@.contains(province.id));
            let workforce = workforce_of(&snapshot.population_groups, province.id);
            let demand = demand_of(snapshot, definitions, province.id);
            let idle = if workforce >= demand {
                workforce - demand
            } else {
                0
            };
            let queue = queue_of(&snapshot.construction_projects, province.id);
            let replace = match best {
                None => true,
                Some((b, best_idle, best_queue)) => idle > best_idle || (idle == best_idle && (queue
                    < best_queue || (queue == best_queue && province.id <= provinces[b].id))),
            };
            if replace {
                best = Some((i, idle, queue));
            }
        }
        i = i + 1;
    }
    match best {
        None => None,
        Some((b, _, _)) => Some(provinces[b].id),
    }
}

/// Chooses where the session's player builds `definition` within `provinces`.
pub fn construction_site(
    session: &ManagementSession,
    provinces: &BTreeSet<ProvinceId>,
    definition: &FacilityDefinition,
) -> (site: Option<ProvinceId>)
    requires
        siting_fits(session.snapshot, session.definitions, provinces@),
    ensures
        is_construction_site(
            session.snapshot,
            session.definitions,
            session.player_country,
            provinces@,
            *definition,
            site,
        ),
{
    construction_site_in(&session.snapshot, &session.definitions, session.player_country, provinces, definition)
}

/// A construction project asks for no more workers than it requested and no more
/// than the worker-days of work it has left: its demand is the smaller of the two.
pub proof fn lemma_project_demand_is_the_smaller(project: ConstructionProject)
    ensures
        project_demand(project) <= project.requested_workers,
        project_demand(project) <= project.remaining_worker_days,
        project_demand(project) == project.requested_workers || project_demand(project) == project.remaining_worker_days,
{
}

/// A province's construction demand counts each of its projects' demands and
/// nothing for projects elsewhere: it is at least the demand of any project of the
/// province, exactly that demand where it is the province's only project, and zero
/// where no project is in the province.
pub proof fn lemma_projects_demand_bounds(projects: Seq<ConstructionProject>, id: ProvinceId, i: int, n: int)
    requires
        0 <= i < n <= projects.len(),
    ensures
        projects[i].province == id ==> projects_demand_upto(projects, id, n) >= project_demand(projects[i]),
        projects[i].province == id && (forall|k: int| 0 <= k < n && k != i ==> #[trigger] projects[k].province != id)
            ==> projects_demand_upto(projects, id, n) == project_demand(projects[i]),
        (forall|k: int| 0 <= k < n ==> #[trigger] projects[k].province != id) ==> projects_demand_upto(projects, id, n) == 0,
    decreases n,
{
    lemma_projects_demand_nonnegative(projects, id, n - 1);
    if i < n - 1 {
        lemma_projects_demand_bounds(projects, id, i, n - 1);
    } else if n - 1 > 0 {
        lemma_projects_demand_none(projects, id, i, n - 1);
        lemma_projects_demand_bounds(projects, id, 0, n - 1);
    }
    if projects[n - 1].province == id {
        lemma_project_demand_is_the_smaller(projects[n - 1]);
    }
}

proof fn lemma_projects_demand_none(projects: Seq<ConstructionProject>, id: ProvinceId, skip: int, n: int)
    requires
        0 <= n <= skip,
    ensures
        (forall|k: int| 0 <= k < skip + 1 && k != skip ==> #[trigger] projects[k].province != id) ==> projects_demand_upto(
            projects,
            id,
            n,
        ) == 0,
    decreases n,
{
    if n > 0 {
        lemma_projects_demand_none(projects, id, skip, n - 1);
    }
}

proof fn lemma_projects_demand_nonnegative(projects: Seq<ConstructionProject>, id: ProvinceId, n: int)
    ensures
        projects_demand_upto(projects, id, n) >= 0,
    decreases n,
{
    if n > 0 {
        lemma_projects_demand_nonnegative(projects, id, n - 1);
    }
}

} // verus!
