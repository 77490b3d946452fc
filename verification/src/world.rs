//! The world model that the client reads: committed snapshots, content
//! definitions, reports, events and errors of the simulation core, held as
//! plain values. Identities that are UUIDs are held as their 128-bit value,
//! whose numeric order is the order of the UUID bytes.
use vstd::prelude::*;

verus! {

pub type CountryId = u128;

pub type ProvinceId = u128;

pub type FacilityId = u128;

pub type PopulationGroupId = u128;

/// Goods are named by their content key, such as `timber`.
pub type GoodId = String;

/// Facility definitions are named by their content key, such as `grain_farm`.
pub type FacilityDefinitionId = String;

/// One amount of one good (an entry of a stockpile or of a recipe).
#[derive(Clone)]
pub struct GoodAmount {
    pub good: GoodId,
    pub amount: u64,
}

#[derive(Clone)]
pub struct Province {
    pub id: ProvinceId,
    pub country: CountryId,
    pub name: String,
    pub name_key: Option<String>,
    /// Goods held in the province, a map from good to amount held as its entries:
    /// each good occurs at most once (`distinct_goods`), so the amount of a good
    /// (`amount_of`) is that of its one entry (`lemma_amount_of_entry`).
    pub stockpile: Vec<GoodAmount>,
}

#[derive(Clone)]
pub struct PopulationGroup {
    pub id: PopulationGroupId,
    pub province: ProvinceId,
    pub population: u64,
    pub workforce: u64,
}

#[derive(Clone)]
pub struct Facility {
    pub id: FacilityId,
    pub province: ProvinceId,
    pub definition: FacilityDefinitionId,
    pub level: u64,
    pub production_priority: u32,
}

#[derive(Clone)]
pub struct ConstructionProject {
    pub facility_id: FacilityId,
    pub province: ProvinceId,
    pub definition: FacilityDefinitionId,
    pub requested_workers: u64,
    pub remaining_worker_days: u64,
    /// Construction points still needed to finish the project.
    pub remaining_construction_points: u64,
}

#[derive(Clone)]
pub struct Country {
    pub id: CountryId,
    pub name: String,
}

/// A committed read model of the world on one day.
#[derive(Clone)]
pub struct WorldSnapshot {
    pub day: u64,
    pub countries: Vec<Country>,
    pub provinces: Vec<Province>,
    pub population_groups: Vec<PopulationGroup>,
    pub facilities: Vec<Facility>,
    pub construction_projects: Vec<ConstructionProject>,
}

#[derive(Clone)]
pub struct ConstructionRecipe {
    pub goods: Vec<GoodAmount>,
    pub max_workers: u64,
    pub worker_days: u64,
    /// Construction points that a project of this kind needs in all.
    pub construction_points: u64,
}

#[derive(Clone)]
pub struct FacilityDefinition {
    pub id: FacilityDefinitionId,
    pub name: String,
    pub workers_per_level: u64,
    pub construction: ConstructionRecipe,
    pub inputs_per_worker_day: Vec<GoodAmount>,
    pub outputs_per_worker_day: Vec<GoodAmount>,
    pub construction_points_per_worker_day: u64,
}

#[derive(Clone)]
pub struct GoodDefinition {
    pub id: GoodId,
    pub name: String,
}

#[derive(Clone)]
pub struct ContentDefinitions {
    pub goods: Vec<GoodDefinition>,
    pub facilities: Vec<FacilityDefinition>,
}

#[derive(Clone)]
pub enum SimulationEvent {
    ConstructionStarted { province: ProvinceId, facility: FacilityId },
    ConstructionCompleted { province: ProvinceId, facility: FacilityId },
    FoodShortfall { province: ProvinceId, good: GoodId, amount: u64 },
}

impl SimulationEvent {
    /// The province that every event concerns.
    pub open spec fn province_of(self) -> ProvinceId {
        match self {
            SimulationEvent::ConstructionStarted { province, .. } => province,
            SimulationEvent::ConstructionCompleted { province, .. } => province,
            SimulationEvent::FoodShortfall { province, .. } => province,
        }
    }

    pub fn province(&self) -> (province: ProvinceId)
        ensures
            province == self.province_of(),
    {
        match self {
            SimulationEvent::ConstructionStarted { province, .. } => *province,
            SimulationEvent::ConstructionCompleted { province, .. } => *province,
            SimulationEvent::FoodShortfall { province, .. } => *province,
        }
    }
}

#[derive(Clone)]
pub enum SimulationError {
    CommandRejected(String),
    InvalidPrograms(String),
    InsufficientConstructionGoods {
        province: ProvinceId,
        good: GoodId,
        required: u64,
        available: u64,
    },
}

#[derive(Clone)]
pub enum SimulationCommand {
    StartConstruction {
        country: CountryId,
        province: ProvinceId,
        facility: FacilityId,
        definition: FacilityDefinitionId,
        workers: u64,
        production_priority: u32,
    },
}

#[derive(Clone)]
pub struct CommandOutcome {
    pub event: SimulationEvent,
}

/// Why goods moved: production output adds to a stockpile, every other cause draws from it.
#[derive(Clone, Copy, Debug, PartialEq, Eq, Structural)]
pub enum GoodsFlowCause {
    ProductionOutput,
    Withdrawal,
}

#[derive(Clone)]
pub struct GoodsFlow {
    pub province: ProvinceId,
    pub good: GoodId,
    pub amount: u64,
    pub cause: GoodsFlowCause,
}

/// What one facility did on the reported day.
#[derive(Clone)]
pub struct FacilityDayReport {
    pub facility: FacilityId,
    pub active_workers: u64,
    pub construction_points: u64,
    pub inputs: Vec<GoodAmount>,
    pub outputs: Vec<GoodAmount>,
}

/// How one province's workforce was used on the reported day, and how it ate.
#[derive(Clone)]
pub struct ProvinceDayReport {
    pub province: ProvinceId,
    pub available_workers: u64,
    pub production_workers: u64,
    pub construction_workers: u64,
    pub food_required: u64,
    pub food_consumed: u64,
    pub food_shortfall: u64,
}

/// How much work one construction project received on the reported day.
#[derive(Clone)]
pub struct ConstructionDayReport {
    pub facility: FacilityId,
    pub active_workers: u64,
    pub sector_construction_points: u64,
}

#[derive(Clone)]
pub struct DayReport {
    pub day: u64,
    pub provinces: Vec<ProvinceDayReport>,
    pub events: Vec<SimulationEvent>,
    pub goods_flows: Vec<GoodsFlow>,
    pub facilities: Vec<FacilityDayReport>,
    pub constructions: Vec<ConstructionDayReport>,
}

/// The amount of `good` in a map-shaped sequence, 0 where it is absent.
pub open spec fn amount_of(amounts: Seq<GoodAmount>, good: Seq<char>) -> u64
    decreases amounts.len(),
{
    if amounts.len() == 0 {
        0
    } else if amounts.last().good@ == good {
        amounts.last().amount
    } else {
        amount_of(amounts.drop_last(), good)
    }
}

/// Whether each good occurs at most once among `amounts`, as in a stockpile.
pub open spec fn distinct_goods(amounts: Seq<GoodAmount>) -> bool {
    forall|i: int, j: int| 0 <= i < j < amounts.len() ==> #[trigger] amounts[i].good@ != #[trigger] amounts[j].good@
}

/// Where each good occurs at most once, the amount of an entry's good is the
/// amount of that entry.
pub proof fn lemma_amount_of_entry(amounts: Seq<GoodAmount>, i: int)
    requires
        distinct_goods(amounts),
        0 <= i < amounts.len(),
    ensures
        amount_of(amounts, amounts[i].good@) == amounts[i].amount,
    decreases amounts.len(),
{
    if i < amounts.len() - 1 {
        assert(amounts[i].good@ != amounts[amounts.len() - 1].good@);
        let rest = amounts.drop_last();
        assert(rest[i] == amounts[i]);
        assert forall|a: int, b: int| 0 <= a < b < rest.len() implies #[trigger] rest[a].good@ != #[trigger] rest[b].good@ by {
            assert(rest[a] == amounts[a] && rest[b] == amounts[b]);
        }
        lemma_amount_of_entry(rest, i);
    }
}

/// A good that no entry holds has the amount 0.
pub proof fn lemma_amount_of_absent(amounts: Seq<GoodAmount>, good: Seq<char>)
    requires
        forall|i: int| 0 <= i < amounts.len() ==> #[trigger] amounts[i].good@ != good,
    ensures
        amount_of(amounts, good) == 0,
    decreases amounts.len(),
{
    if amounts.len() > 0 {
        let rest = amounts.drop_last();
        assert forall|i: int| 0 <= i < rest.len() implies #[trigger] rest[i].good@ != good by {
            assert(rest[i] == amounts[i]);
        }
        lemma_amount_of_absent(rest, good);
    }
}

/// Whether every stockpile of the snapshot holds each good at most once.
pub open spec fn stockpiles_distinct(snapshot: WorldSnapshot) -> bool {
    forall|p: int| 0 <= p < snapshot.provinces@.len() ==> distinct_goods(#[trigger] snapshot.provinces@[p].stockpile@)
}

/// Checks that each good occurs at most once among `amounts`.
pub fn goods_distinct(amounts: &Vec<GoodAmount>) -> (distinct: bool)
    ensures
        distinct == distinct_goods(amounts@),
{
    let mut j: usize = 0;
    while j < amounts.len()
        invariant
            j <= amounts@.len(),
            forall|a: int, b: int| 0 <= a < b < j ==> #[trigger] amounts@[a].good@ != #[trigger] amounts@[b].good@,
        decreases amounts.len() - j,
    {
        let mut i: usize = 0;
        while i < j
            invariant
                i <= j < amounts@.len(),
                forall|a: int, b: int| 0 <= a < b < j ==> #[trigger] amounts@[a].good@ != #[trigger] amounts@[b].good@,
                forall|a: int| 0 <= a < i ==> #[trigger] amounts@[a].good@ != amounts@[j as int].good@,
            decreases j - i,
        {
            if amounts[i].good == amounts[j].good {
                return false;
            }
            i = i + 1;
        }
        j = j + 1;
    }
    true
}

/// Checks that every stockpile of the snapshot holds each good at most once.
pub fn snapshot_stockpiles_distinct(snapshot: &WorldSnapshot) -> (distinct: bool)
    ensures
        distinct == stockpiles_distinct(*snapshot),
{
    let mut p: usize = 0;
    while p < snapshot.provinces.len()
        invariant
            p <= snapshot.provinces@.len(),
            forall|q: int| 0 <= q < p ==> distinct_goods(#[trigger] snapshot.provinces@[q].stockpile@),
        decreases snapshot.provinces.len() - p,
    {
        if !goods_distinct(&snapshot.provinces[p].stockpile) {
            return false;
        }
        p = p + 1;
    }
    true
}

/// Looks up the amount of `good`, 0 where it is absent.
pub fn stock_of(amounts: &Vec<GoodAmount>, good: &GoodId) -> (amount: u64)
    ensures
        amount == amount_of(amounts@, good@),
{
    let mut i = amounts.len();
    assert(amounts@.take(i as int) =~= amounts@);
    while i > 0
        invariant
            i <= amounts.len(),
            amount_of(amounts@, good@) == amount_of(amounts@.take(i as int), good@),
        decreases i,
    {
        let ghost prefix = amounts@.take(i as int);
        assert(prefix.drop_last() =~= amounts@.take(i - 1));
        if amounts[i - 1].good == *good {
            return amounts[i - 1].amount;
        }
        i = i - 1;
    }
    0
}

} // verus!
