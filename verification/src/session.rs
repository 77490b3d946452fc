//! The management session: the committed read models the interface shows, and
//! the decisions around the simulation worker. The worker owns the authoritative
//! simulation; the session decides what to ask of it and how to take its answers.
//!
//! Every request goes out in two steps: a decision here returns the request to
//! send (or refuses it), and the caller reports whether the worker took it.
use crate::identity::{new_v7_id, uuid_variant, uuid_version};
use crate::interface::Screen;
use crate::playback::SimulationSpeed;
use crate::snapshot_index::{
    CountryStatistics, SnapshotIndex, country_positions, has_province, indexes,
    lemma_country_positions, lemma_province_positions, province_positions,
};
use crate::text::joined;
use crate::world::{
    CommandOutcome, ContentDefinitions, CountryId, DayReport, Facility, FacilityDefinitionId,
    FacilityId, Province, ProvinceId, SimulationCommand, SimulationError, SimulationEvent,
    WorldSnapshot, stockpiles_distinct,
};
use crate::construction::{find_definition, first_definition};
use vstd::prelude::*;

verus! {

broadcast use {vstd::std_specs::btree::group_btree_axioms, vstd::laws_cmp::group_laws_cmp};

/// At most this many requests wait for the worker at once.
pub const MAX_PENDING_JOBS: usize = 32;

/// At most this many news entries are kept, the most recent ones.
pub const NEWS_LIMIT: usize = 200;

/// Production priority of a new facility kind that no existing facility has yet.
pub const DEFAULT_PRODUCTION_PRIORITY: u32 = 100;

/// What a program inspection covers.
pub enum InspectionScope {
    Country(CountryId),
    State { id: u128, country: CountryId, provinces: Vec<ProvinceId> },
}

pub enum MetricValue {
    Quantity(u128),
    Ratio { numerator: u128, denominator: u128 },
    Localized(String),
}

pub struct InspectionMetric {
    pub label_key: String,
    pub value: MetricValue,
}

pub struct InspectionSection {
    pub title_key: String,
    pub metrics: Vec<InspectionMetric>,
}

/// The last inspection answer, for the scope and session revision it was asked for.
pub struct CachedInspection {
    pub scope: InspectionScope,
    pub revision: u64,
    pub result: Result<Vec<InspectionSection>, String>,
}

/// What the worker is asked to do.
pub enum WorkRequest {
    Step,
    Construction(SimulationCommand, FacilityDefinitionId),
    Inspect(InspectionScope, u64),
}

/// What the worker did.
pub enum WorkOutcome {
    Day(DayReport),
    Construction(FacilityDefinitionId, CommandOutcome),
    Inspection(InspectionScope, u64, Result<Vec<InspectionSection>, String>),
}

/// One answer of the worker; the first answer of a batch that changed the world
/// carries the new committed snapshot and its index.
pub struct CompletedWork {
    pub construction_id: Option<FacilityId>,
    pub result: Result<WorkOutcome, SimulationError>,
    pub snapshot: Option<(WorldSnapshot, SnapshotIndex)>,
}

pub struct NewsEntry {
    pub day: u64,
    pub event: SimulationEvent,
}

pub enum SessionFeedback {
    Ready,
    ConstructionStarted(FacilityDefinitionId),
    Error(SimulationError),
}

/// Where a requested construction goes, shown at once while its answer is awaited.
pub struct PendingConstruction {
    pub province: ProvinceId,
    pub definition: FacilityDefinitionId,
}

impl PendingConstruction {
    /// A copy of the target.
    pub fn copied(&self) -> (copy: PendingConstruction)
        ensures
            copy == *self,
    {
        PendingConstruction { province: self.province, definition: self.definition.clone() }
    }
}

/// The pending targets other than those of facility `id`, in order.
pub open spec fn without_target(
    pending: Seq<(FacilityId, PendingConstruction)>,
    id: FacilityId,
) -> Seq<(FacilityId, PendingConstruction)>
    decreases pending.len(),
{
    if pending.len() == 0 {
        Seq::empty()
    } else {
        let earlier = without_target(pending.drop_last(), id);
        if pending.last().0 != id {
            earlier.push(pending.last())
        } else {
            earlier
        }
    }
}

/// The pending targets once the answer about facility `id` (if any) has arrived.
pub open spec fn answered(
    pending: Seq<(FacilityId, PendingConstruction)>,
    id: Option<FacilityId>,
) -> Seq<(FacilityId, PendingConstruction)> {
    match id {
        Some(id) => without_target(pending, id),
        None => pending,
    }
}

/// The pending targets without those of facility `id`.
pub fn forget_target(pending: &Vec<(FacilityId, PendingConstruction)>, id: FacilityId) -> (kept: Vec<(FacilityId, PendingConstruction)>)
    ensures
        kept@ == without_target(pending@, id),
{
    let mut kept: Vec<(FacilityId, PendingConstruction)> = Vec::new();
    let mut k: usize = 0;
    while k < pending.len()
        invariant
            k <= pending@.len(),
            kept@ == without_target(pending@.take(k as int), id),
        decreases pending.len() - k,
    {
        proof {
            assert(pending@.take(k + 1).drop_last() =~= pending@.take(k as int));
        }
        if pending[k].0 != id {
            kept.push((pending[k].0, pending[k].1.copied()));
        }
        k = k + 1;
    }
    assert(pending@.take(pending@.len() as int) =~= pending@);
    kept
}

/// Whether a target of facility `id` is pending.
pub open spec fn has_target(pending: Seq<(FacilityId, PendingConstruction)>, id: FacilityId) -> bool {
    exists|i: int| 0 <= i < pending.len() && #[trigger] pending[i].0 == id
}

/// An answer removes only its own target: once the answer about facility
/// `answered_id` has arrived, a target of facility `id` is pending exactly when it
/// was before and belongs to another facility; the kept targets stay in order.
pub proof fn lemma_answer_removes_only_its_target(
    pending: Seq<(FacilityId, PendingConstruction)>,
    answered_id: FacilityId,
    id: FacilityId,
)
    ensures
        has_target(without_target(pending, answered_id), id) <==> has_target(pending, id) && id != answered_id,
        without_target(pending, answered_id).len() <= pending.len(),
        !has_target(pending, answered_id) ==> without_target(pending, answered_id) == pending,
    decreases pending.len(),
{
    if pending.len() > 0 {
        let rest = pending.drop_last();
        lemma_answer_removes_only_its_target(rest, answered_id, id);
        let kept = without_target(rest, answered_id);
        if has_target(pending, id) {
            let i = choose|i: int| 0 <= i < pending.len() && #[trigger] pending[i].0 == id;
            if i < pending.len() - 1 {
                assert(rest[i].0 == id);
            }
        }
        if has_target(rest, id) {
            let i = choose|i: int| 0 <= i < rest.len() && #[trigger] rest[i].0 == id;
            assert(pending[i].0 == id);
        }
        if pending.last().0 != answered_id {
            let longer = kept.push(pending.last());
            if has_target(kept, id) {
                let i = choose|i: int| 0 <= i < kept.len() && #[trigger] kept[i].0 == id;
                assert(longer[i].0 == id);
            }
            if has_target(longer, id) {
                let i = choose|i: int| 0 <= i < longer.len() && #[trigger] longer[i].0 == id;
                if i < kept.len() {
                    assert(kept[i].0 == id);
                }
            }
            if pending.last().0 == id {
                assert(longer[kept.len() as int].0 == id);
            }
        } else {
            assert(has_target(pending, answered_id)) by {
                assert(pending[pending.len() - 1].0 == answered_id);
            }
        }
        if !has_target(pending, answered_id) {
            assert(!has_target(rest, answered_id)) by {
                if has_target(rest, answered_id) {
                    let i = choose|i: int| 0 <= i < rest.len() && #[trigger] rest[i].0 == answered_id;
                    assert(pending[i].0 == answered_id);
                }
            }
            assert(pending.last().0 != answered_id) by {
                if pending.last().0 == answered_id {
                    assert(pending[pending.len() - 1].0 == answered_id);
                }
            }
            assert(kept.push(pending.last()) =~= pending);
        }
    }
}

/// Read models committed by the worker, and the state of the conversation with it.
pub struct ManagementSession {
    /// Requests sent to the worker and not yet answered.
    pub pending_jobs: usize,
    pub inspection: Option<CachedInspection>,
    pub inspection_revision: u64,
    pub snapshot: WorldSnapshot,
    pub index: SnapshotIndex,
    pub definitions: ContentDefinitions,
    pub player_country: CountryId,
    pub last_report: Option<DayReport>,
    pub news: Vec<NewsEntry>,
    pub feedback: SessionFeedback,
    pub running: bool,
    pub speed: SimulationSpeed,
    pub session_id: u128,
    pub geographic: bool,
    pub revision: u64,
    /// The page of the player's provinces that the management screen lists
    /// (see `province_page_ids`).
    pub province_page: usize,
    /// Construction targets handed to the worker and not yet answered, by facility.
    pub pending_construction: Vec<(FacilityId, PendingConstruction)>,
}

pub struct ManagementViewState {
    pub selected_province: ProvinceId,
}

/// A button of the management screen.
pub enum ManagementAction {
    SelectProvince(ProvinceId),
    StartConstruction(FacilityDefinitionId),
    StartConstructionAt { province: ProvinceId, definition: FacilityDefinitionId },
    StepDay,
    ToggleRunning,
    SetSpeed(SimulationSpeed),
}

/// The answer to a program inspection request.
pub enum InspectionStep<'a> {
    /// The cached sections for this scope and revision.
    Cached(&'a Vec<InspectionSection>),
    /// The cached failure for this scope and revision.
    Failed(SimulationError),
    /// Nothing cached: send this request, then report it with `inspection_submitted`.
    Submit(WorkRequest),
    /// Nothing cached and the worker is busy: ask again later.
    Waiting,
}

/// Whether two inspection scopes are the same.
pub open spec fn same_scope(a: InspectionScope, b: InspectionScope) -> bool {
    match (a, b) {
        (InspectionScope::Country(x), InspectionScope::Country(y)) => x == y,
        (
            InspectionScope::State { id: i, country: c, provinces: p },
            InspectionScope::State { id: j, country: d, provinces: q },
        ) => i == j && c == d && p@ == q@,
        _ => false,
    }
}

fn same_provinces(p: &Vec<ProvinceId>, q: &Vec<ProvinceId>) -> (same: bool)
    ensures
        same == (p@ == q@),
{
    if p.len() != q.len() {
        return false;
    }
    let mut k: usize = 0;
    while k < p.len()
        invariant
            k <= p.len(),
            p.len() == q.len(),
            forall|m: int| 0 <= m < k ==> p@[m] == q@[m],
        decreases p.len() - k,
    {
        if p[k] != q[k] {
            assert(p@[k as int] != q@[k as int]);
            return false;
        }
        k = k + 1;
    }
    assert(p@ =~= q@);
    true
}

impl InspectionScope {
    /// Whether two scopes are the same.
    pub fn same_as(&self, other: &InspectionScope) -> (same: bool)
        ensures
            same == same_scope(*self, *other),
    {
        match (self, other) {
            (InspectionScope::Country(x), InspectionScope::Country(y)) => *x == *y,
            (
                InspectionScope::State { id: i, country: c, provinces: p },
                InspectionScope::State { id: j, country: d, provinces: q },
            ) => {
                *i == *j && *c == *d && same_provinces(p, q)
            },
            _ => false,
        }
    }

    /// A copy of the scope.
    pub fn copied(&self) -> (copy: InspectionScope)
        ensures
            same_scope(copy, *self),
    {
        match self {
            InspectionScope::Country(x) => InspectionScope::Country(*x),
            InspectionScope::State { id, country, provinces } => {
                let mut copy: Vec<ProvinceId> = Vec::new();
                let mut k: usize = 0;
                while k < provinces.len()
                    invariant
                        k <= provinces.len(),
                        copy@ == provinces@.take(k as int),
                    decreases provinces.len() - k,
                {
                    copy.push(provinces[k]);
                    k = k + 1;
                }
                assert(copy@ =~= provinces@);
                InspectionScope::State { id: *id, country: *country, provinces: copy }
            },
        }
    }
}

impl SimulationEvent {
    /// A copy of the event.
    pub fn copied(&self) -> (copy: SimulationEvent)
        ensures
            copy == *self,
    {
        match self {
            SimulationEvent::ConstructionStarted { province, facility } => {
                SimulationEvent::ConstructionStarted { province: *province, facility: *facility }
            },
            SimulationEvent::ConstructionCompleted { province, facility } => {
                SimulationEvent::ConstructionCompleted { province: *province, facility: *facility }
            },
            SimulationEvent::FoodShortfall { province, good, amount } => {
                SimulationEvent::FoodShortfall {
                    province: *province,
                    good: good.clone(),
                    amount: *amount,
                }
            },
        }
    }
}

/// Whether `province` is indexed in the snapshot as a province of `player`.
pub open spec fn concerns_player(
    snapshot: WorldSnapshot,
    player: CountryId,
    province: ProvinceId,
) -> bool {
    let positions = province_positions(snapshot.provinces@);
    positions.contains_key(province) && snapshot.provinces@[positions[province] as int].country
        == player
}

/// The news that a day's events make for the player: the events in the player's
/// provinces, in order, each dated with the report's day.
pub open spec fn player_news(
    events: Seq<SimulationEvent>,
    day: u64,
    snapshot: WorldSnapshot,
    player: CountryId,
) -> Seq<NewsEntry>
    decreases events.len(),
{
    if events.len() == 0 {
        Seq::empty()
    } else {
        let earlier = player_news(events.drop_last(), day, snapshot, player);
        if concerns_player(snapshot, player, events.last().province_of()) {
            earlier.push(NewsEntry { day, event: events.last() })
        } else {
            earlier
        }
    }
}

/// The most recent `NEWS_LIMIT` entries.
pub open spec fn keep_recent(news: Seq<NewsEntry>) -> Seq<NewsEntry> {
    if news.len() > NEWS_LIMIT {
        news.subrange(news.len() - NEWS_LIMIT, news.len() as int)
    } else {
        news
    }
}

/// The lowest production priority of the existing facilities of `definition`
/// among the first `n`, if there is one.
pub open spec fn min_priority_upto(facilities: Seq<Facility>, definition: Seq<char>, n: int) -> Option<
    u32,
>
    decreases n,
{
    if n <= 0 {
        None
    } else {
        let earlier = min_priority_upto(facilities, definition, n - 1);
        if facilities[n - 1].definition@ == definition {
            match earlier {
                Some(p) => Some(
                    if facilities[n - 1].production_priority < p {
                        facilities[n - 1].production_priority
                    } else {
                        p
                    },
                ),
                None => Some(facilities[n - 1].production_priority),
            }
        } else {
            earlier
        }
    }
}

/// The production priority a new facility of `definition` gets: the lowest of the
/// existing facilities of that kind, or the default where there are none.
pub open spec fn construction_priority(snapshot: WorldSnapshot, definition: Seq<char>) -> u32 {
    match min_priority_upto(snapshot.facilities@, definition, snapshot.facilities@.len() as int) {
        Some(p) => p,
        None => DEFAULT_PRODUCTION_PRIORITY,
    }
}

/// Whether `error` rejects a command with exactly `message`.
pub open spec fn rejected_with(error: SimulationError, message: Seq<char>) -> bool {
    error matches SimulationError::CommandRejected(text) && text@ == message
}

/// Whether the two sessions hold the same read models, cache, pacing, identity and
/// pending construction targets.
pub open spec fn same_models(a: ManagementSession, b: ManagementSession) -> bool {
    &&& same_models_but_targets(a, b)
    &&& a.pending_construction == b.pending_construction
}

/// Whether the two sessions hold the same read models, cache, pacing and identity.
pub open spec fn same_models_but_targets(a: ManagementSession, b: ManagementSession) -> bool {
    &&& a.inspection == b.inspection
    &&& a.inspection_revision == b.inspection_revision
    &&& a.snapshot == b.snapshot
    &&& a.index == b.index
    &&& a.definitions == b.definitions
    &&& a.player_country == b.player_country
    &&& a.last_report == b.last_report
    &&& a.news == b.news
    &&& a.speed == b.speed
    &&& a.session_id == b.session_id
    &&& a.geographic == b.geographic
    &&& a.province_page == b.province_page
}

/// Whether `new` is `old` after the worker refused a request with `error`: time
/// stops, the error is shown, and the revision moves on.
pub open spec fn refused(old: ManagementSession, new: ManagementSession, error: SimulationError) -> bool {
    &&& same_models_but_targets(old, new)
    &&& new.pending_jobs == old.pending_jobs
    &&& new.running == false
    &&& new.feedback == SessionFeedback::Error(error)
    &&& new.revision == old.revision + 1
}

/// Whether `new` and `sent` are what offering `request` to a session in state
/// `old` gives: a full queue refuses it, otherwise it is to be sent unchanged.
pub open spec fn offered(
    old: ManagementSession,
    new: ManagementSession,
    request: WorkRequest,
    sent: Option<WorkRequest>,
) -> bool {
    if old.pending_jobs >= MAX_PENDING_JOBS {
        &&& sent is None
        &&& same_models(old, new)
        &&& new.pending_jobs == old.pending_jobs
        &&& new.running == false
        &&& new.feedback matches SessionFeedback::Error(error) && rejected_with(
            error,
            "simulation request queue is full"@,
        )
        &&& new.revision == old.revision + 1
    } else {
        &&& sent == Some(request)
        &&& new == old
    }
}

/// Whether `new` and `sent` are what asking for one simulated day gives: nothing
/// while the worker is busy, otherwise a step request.
pub open spec fn stepped(old: ManagementSession, new: ManagementSession, sent: Option<WorkRequest>) -> bool {
    if old.pending_jobs != 0 {
        sent is None && new == old
    } else {
        sent == Some(WorkRequest::Step) && new == old
    }
}

/// Whether `new` and `sent` are what asking to build `definition` in `province`
/// gives: an unknown facility kind is refused with an error; otherwise a start
/// command for a fresh version 7 facility identity, with the kind's worker limit
/// and construction priority, is offered to the worker.
pub open spec fn construction_started(
    old: ManagementSession,
    new: ManagementSession,
    province: ProvinceId,
    definition: Seq<char>,
    sent: Option<WorkRequest>,
) -> bool {
    match first_definition(old.definitions.facilities@, definition) {
        None => {
            &&& sent is None
            &&& same_models(old, new)
            &&& new.pending_jobs == old.pending_jobs
            &&& new.running == old.running
            &&& new.feedback matches SessionFeedback::Error(error) && rejected_with(
                error,
                "unknown facility definition "@ + definition,
            )
            &&& new.revision == old.revision + 1
        },
        Some(k) => exists|request: WorkRequest|
            {
                &&& #[trigger] handed_out(old, new, request, sent)
                &&& request matches WorkRequest::Construction(
                    SimulationCommand::StartConstruction {
                        country,
                        province: target,
                        facility,
                        definition: kind,
                        workers,
                        production_priority,
                    },
                    named,
                )
                &&& country == old.player_country
                &&& target == province
                &&& uuid_version(facility) == 7
                &&& uuid_variant(facility) == 2
                &&& kind@ == definition
                &&& named@ == definition
                &&& workers == old.definitions.facilities@[k].construction.max_workers
                &&& production_priority == construction_priority(old.snapshot, definition)
            },
    }
}

/// Whether `new` and `sent` are what handing out a construction `request` gives: a
/// full queue refuses it; otherwise it is to be sent unchanged and its facility's
/// target is recorded at once, in place of any earlier target of that facility.
pub open spec fn handed_out(
    old: ManagementSession,
    new: ManagementSession,
    request: WorkRequest,
    sent: Option<WorkRequest>,
) -> bool {
    if old.pending_jobs >= MAX_PENDING_JOBS {
        offered(old, new, request, sent)
    } else {
        &&& sent == Some(request)
        &&& new == ManagementSession { pending_construction: new.pending_construction, ..old }
        &&& request matches WorkRequest::Construction(
            SimulationCommand::StartConstruction { province, facility, definition, .. },
            _,
        )
        &&& new.pending_construction@ == without_target(old.pending_construction@, facility).push(
            (facility, PendingConstruction { province, definition }),
        )
    }
}

/// A construction that is handed out is pending at once: when asking to build
/// hands a request out, the request starts the asked kind in the asked province,
/// and its facility's target is the last pending one, before any answer.
pub proof fn lemma_handed_out_construction_is_pending(
    old: ManagementSession,
    new: ManagementSession,
    province: ProvinceId,
    definition: Seq<char>,
    sent: Option<WorkRequest>,
)
    requires
        construction_started(old, new, province, definition, sent),
        sent is Some,
    ensures
        sent matches Some(WorkRequest::Construction(SimulationCommand::StartConstruction { province: p, facility, definition: d, .. }, _))
            && p == province && d@ == definition && has_target(new.pending_construction@, facility)
            && new.pending_construction@.last() == (facility, PendingConstruction { province: p, definition: d }),
        new.snapshot == old.snapshot,
{
    let k = first_definition(old.definitions.facilities@, definition);
    assert(k is Some);
    let request = choose|request: WorkRequest|
        {
            &&& #[trigger] handed_out(old, new, request, sent)
            &&& request matches WorkRequest::Construction(
                SimulationCommand::StartConstruction { province: target, definition: kind, .. },
                _,
            )
            &&& target == province
            &&& kind@ == definition
        };
    assert(old.pending_jobs < MAX_PENDING_JOBS);
    if let WorkRequest::Construction(SimulationCommand::StartConstruction { facility, .. }, _) = request {
        let last = new.pending_construction@.len() - 1;
        assert(new.pending_construction@[last] == new.pending_construction@.last());
        assert(new.pending_construction@[last].0 == facility);
    }
}

/// Whether the session is consistent: the queue bound, the news bound, an
/// index that indexes the committed snapshot, and stockpiles that hold each
/// good once.
pub open spec fn session_wf(session: ManagementSession) -> bool {
    &&& session.pending_jobs <= MAX_PENDING_JOBS
    &&& session.news@.len() <= NEWS_LIMIT
    &&& indexes(session.index, session.snapshot)
    &&& stockpiles_distinct(session.snapshot)
}

/// Whether `province` exists in the snapshot and belongs to the player.
pub open spec fn owned_by_player(session: ManagementSession, province: ProvinceId) -> bool {
    exists|i: int|
        0 <= i < session.snapshot.provinces@.len() && session.snapshot.provinces@[i].id == province
            && session.snapshot.provinces@[i].country == session.player_country
}

/// Whether management actions are live on this screen.
pub open spec fn accepts_actions(session: ManagementSession, screen: Screen) -> bool {
    screen == Screen::Management || (screen == Screen::WorldMap && session.geographic)
}

/// Whether some province of the list belongs to `country`.
pub fn has_playable_land(provinces: &Vec<Province>, country: CountryId) -> (found: bool)
    ensures
        found == has_province(provinces@, country),
{
    let mut i: usize = 0;
    while i < provinces.len()
        invariant
            i <= provinces.len(),
            forall|j: int| 0 <= j < i ==> provinces@[j].country != country,
        decreases provinces.len() - i,
    {
        if provinces[i].country == country {
            return true;
        }
        i = i + 1;
    }
    false
}

fn min_priority(facilities: &Vec<Facility>, definition: &FacilityDefinitionId) -> (priority: u32)
    ensures
        priority == match min_priority_upto(facilities@, definition@, facilities@.len() as int) {
            Some(p) => p,
            None => DEFAULT_PRODUCTION_PRIORITY,
        },
{
    let mut lowest: Option<u32> = None;
    let mut k: usize = 0;
    while k < facilities.len()
        invariant
            k <= facilities.len(),
            lowest == min_priority_upto(facilities@, definition@, k as int),
        decreases facilities.len() - k,
    {
        if facilities[k].definition == *definition {
            let p = facilities[k].production_priority;
            lowest = match lowest {
                Some(q) => Some(if p < q { p } else { q }),
                None => Some(p),
            };
        }
        k = k + 1;
    }
    match lowest {
        Some(p) => p,
        None => DEFAULT_PRODUCTION_PRIORITY,
    }
}

/// Every decision that hands out a request keeps the session consistent: offering,
/// stepping and starting construction never break the queue bound, the news bound
/// or the index.
pub proof fn lemma_decisions_keep_session_wf(
    old: ManagementSession,
    new: ManagementSession,
    province: ProvinceId,
    definition: Seq<char>,
    request: WorkRequest,
    sent: Option<WorkRequest>,
)
    requires
        session_wf(old),
    ensures
        offered(old, new, request, sent) ==> session_wf(new),
        stepped(old, new, sent) ==> session_wf(new),
        construction_started(old, new, province, definition, sent) ==> session_wf(new),
{
}

/// At most one simulated day is in flight: once a step request has been taken by
/// the worker, asking for another day hands out nothing until an answer is accepted.
pub proof fn lemma_one_day_in_flight(
    idle: ManagementSession,
    asked: ManagementSession,
    waiting: ManagementSession,
    again: ManagementSession,
    sent: Option<WorkRequest>,
)
    requires
        stepped(idle, asked, Some(WorkRequest::Step)),
        waiting.pending_jobs == asked.pending_jobs + 1,
        stepped(waiting, again, sent),
    ensures
        sent is None,
        again == waiting,
{
}

/// The news a day makes for the player are the day's events in the player's
/// provinces, dated with that day, in order: never more than the events.
pub proof fn lemma_player_news_concern_player(
    events: Seq<SimulationEvent>,
    day: u64,
    snapshot: WorldSnapshot,
    player: CountryId,
)
    ensures
        player_news(events, day, snapshot, player).len() <= events.len(),
        forall|i: int|
            0 <= i < player_news(events, day, snapshot, player).len() ==> {
                let entry = #[trigger] player_news(events, day, snapshot, player)[i];
                &&& entry.day == day
                &&& concerns_player(snapshot, player, entry.event.province_of())
                &&& events.contains(entry.event)
            },
    decreases events.len(),
{
    if events.len() > 0 {
        lemma_player_news_concern_player(events.drop_last(), day, snapshot, player);
        let earlier = player_news(events.drop_last(), day, snapshot, player);
        assert forall|i: int| 0 <= i < earlier.len() implies events.contains(#[trigger] earlier[i].event) by {
            let j = choose|j: int| 0 <= j < events.drop_last().len() && events.drop_last()[j] == earlier[i].event;
            assert(events[j] == earlier[i].event);
        }
        assert(events[events.len() - 1] == events.last());
    }
}

/// Kept news never exceed the limit and are the latest entries, in order.
pub proof fn lemma_keep_recent(news: Seq<NewsEntry>)
    ensures
        keep_recent(news).len() <= NEWS_LIMIT,
        keep_recent(news).len() == if news.len() > NEWS_LIMIT { NEWS_LIMIT as int } else { news.len() as int },
        forall|i: int|
            0 <= i < keep_recent(news).len() ==> #[trigger] keep_recent(news)[i] == news[news.len() - keep_recent(news).len() + i],
{
}

impl ManagementSession {
    /// Starts a session on the first committed snapshot of a simulation. The
    /// player must own land; the session starts paused at the default speed
    /// with a fresh version 7 session identity.
    pub fn create(
        snapshot: WorldSnapshot,
        definitions: ContentDefinitions,
        player_country: CountryId,
        geographic: bool,
    ) -> (created: Result<ManagementSession, SimulationError>)
        requires
            stockpiles_distinct(snapshot),
        ensures
            !has_province(snapshot.provinces@, player_country) ==> (created matches Err(error)
                && rejected_with(error, "selected country has no playable land"@)),
            has_province(snapshot.provinces@, player_country) ==> (created matches Ok(session) && {
                &&& session_wf(session)
                &&& session.pending_jobs == 0
                &&& session.inspection is None
                &&& session.inspection_revision == 0
                &&& session.snapshot == snapshot
                &&& session.definitions == definitions
                &&& session.player_country == player_country
                &&& session.last_report is None
                &&& session.news@.len() == 0
                &&& session.feedback is Ready
                &&& !session.running
                &&& session.speed == SimulationSpeed::One
                &&& uuid_version(session.session_id) == 7
                &&& uuid_variant(session.session_id) == 2
                &&& session.geographic == geographic
                &&& session.revision == 0
                &&& session.province_page == 0
                &&& session.pending_construction@.len() == 0
            }),
    {
        if !has_playable_land(&snapshot.provinces, player_country) {
            return Err(SimulationError::CommandRejected("selected country has no playable land".to_owned()));
        }
        let index = SnapshotIndex::build(&snapshot);
        Ok(ManagementSession {
            pending_jobs: 0,
            inspection: None,
            inspection_revision: 0,
            snapshot,
            index,
            definitions,
            player_country,
            last_report: None,
            news: Vec::new(),
            feedback: SessionFeedback::Ready,
            running: false,
            speed: SimulationSpeed::One,
            session_id: new_v7_id(),
            geographic,
            revision: 0,
            province_page: 0,
            pending_construction: Vec::new(),
        })
    }

    /// Whether a request waits for the worker.
    pub fn is_busy(&self) -> (busy: bool)
        ensures
            busy == (self.pending_jobs != 0),
    {
        self.pending_jobs != 0
    }

    /// The view a new session opens on: the first province of the player's country.
    pub fn initial_view(&self) -> (view: ManagementViewState)
        requires
            session_wf(*self),
            has_province(self.snapshot.provinces@, self.player_country),
        ensures
            view.selected_province == self.snapshot.provinces@[country_positions(
                self.snapshot.provinces@,
                self.player_country,
            )[0] as int].id,
            owned_by_player(*self, view.selected_province),
    {
        let _ = self.snapshot.provinces.len();
        proof {
            lemma_country_positions(self.snapshot.provinces@, self.player_country);
            assert(self.index.countries@.contains_key(self.player_country));
        }
        let statistics: &CountryStatistics = self.index.countries.get(&self.player_country).unwrap();
        let first = statistics.province_indices[0];
        proof {
            let positions = country_positions(self.snapshot.provinces@, self.player_country);
            assert(positions[0] == first);
            assert(first < self.snapshot.provinces@.len());
        }
        ManagementViewState { selected_province: self.snapshot.provinces[first].id }
    }

    /// Offers a request to the worker queue: a full queue refuses it with an
    /// error, otherwise it is handed back to be sent.
    fn offer(&mut self, request: WorkRequest) -> (sent: Option<WorkRequest>)
        requires
            old(self).revision < u64::MAX,
        ensures
            offered(*old(self), *final(self), request, sent),
    {
        if self.pending_jobs >= MAX_PENDING_JOBS {
            self.running = false;
            self.feedback = SessionFeedback::Error(
                SimulationError::CommandRejected("simulation request queue is full".to_owned()),
            );
            self.revision = self.revision + 1;
            None
        } else {
            Some(request)
        }
    }

    /// Records whether the worker took a request that a decision of this session
    /// handed out (`target` is the facility it builds, if any): taken, it waits for
    /// an answer; refused, time stops, the error is shown and the request's
    /// construction target is dropped, since no answer will come.
    pub fn submitted(&mut self, target: Option<FacilityId>, result: Result<(), SimulationError>)
        requires
            session_wf(*old(self)),
            old(self).revision < u64::MAX,
            result is Ok ==> old(self).pending_jobs < MAX_PENDING_JOBS,
        ensures
            session_wf(*final(self)),
            match result {
                Ok(()) => {
                    &&& same_models(*old(self), *final(self))
                    &&& final(self).pending_jobs == old(self).pending_jobs + 1
                    &&& final(self).running == old(self).running
                    &&& final(self).feedback == old(self).feedback
                    &&& final(self).revision == old(self).revision
                },
                Err(error) => {
                    &&& refused(*old(self), *final(self), error)
                    &&& final(self).pending_construction@ == answered(old(self).pending_construction@, target)
                },
            },
    {
        match result {
            Ok(()) => {
                self.pending_jobs = self.pending_jobs + 1;
            },
            Err(error) => {
                if let Some(id) = target {
                    self.pending_construction = forget_target(&self.pending_construction, id);
                }
                self.running = false;
                self.feedback = SessionFeedback::Error(error);
                self.revision = self.revision + 1;
            },
        }
    }

    /// Asks for one simulated day, unless the worker is still busy.
    pub fn step(&mut self) -> (sent: Option<WorkRequest>)
        requires
            old(self).revision < u64::MAX,
        ensures
            stepped(*old(self), *final(self), sent),
    {
        if !self.is_busy() {
            self.offer(WorkRequest::Step)
        } else {
            None
        }
    }

    /// Asks to build `definition` in `province` for the player.
    pub fn start_construction(&mut self, province: ProvinceId, definition: &FacilityDefinitionId) -> (sent: Option<WorkRequest>)
        requires
            old(self).revision < u64::MAX,
        ensures
            construction_started(*old(self), *final(self), province, definition@, sent),
    {
        match find_definition(&self.definitions.facilities, definition) {
            None => {
                let message = joined("unknown facility definition ", definition.as_str());
                self.feedback = SessionFeedback::Error(SimulationError::CommandRejected(message));
                self.revision = self.revision + 1;
                None
            },
            Some(k) => {
                let workers = self.definitions.facilities[k].construction.max_workers;
                let priority = min_priority(&self.snapshot.facilities, definition);
                let facility = new_v7_id();
                let command = SimulationCommand::StartConstruction {
                    country: self.player_country,
                    province,
                    facility,
                    definition: definition.clone(),
                    workers,
                    production_priority: priority,
                };
                let request = WorkRequest::Construction(command, definition.clone());
                let ghost handed = request;
                let sent = self.offer(request);
                if sent.is_some() {
                    let mut targets = forget_target(&self.pending_construction, facility);
                    targets.push((facility, PendingConstruction { province, definition: definition.clone() }));
                    self.pending_construction = targets;
                }
                assert(handed_out(*old(self), *self, handed, sent));
                sent
            },
        }
    }

    /// Answers a program inspection from the cache when it holds this scope at the
    /// current revision; otherwise asks the worker when it is idle.
    pub fn inspect_programs<'a>(&'a self, scope: &InspectionScope) -> (step: InspectionStep<'a>)
        ensures
            match self.inspection {
                Some(cached) if same_scope(cached.scope, *scope) && cached.revision == self.revision => {
                    match cached.result {
                        Ok(sections) => step matches InspectionStep::Cached(found) && *found == sections,
                        Err(message) => step matches InspectionStep::Failed(error) && error
                            matches SimulationError::InvalidPrograms(text) && text@ == message@,
                    }
                },
                _ => if self.pending_jobs == 0 {
                    step matches InspectionStep::Submit(WorkRequest::Inspect(asked, revision))
                        && same_scope(asked, *scope) && revision == self.revision
                } else {
                    step is Waiting
                },
            },
    {
        match &self.inspection {
            Some(cached) => {
                if cached.scope.same_as(scope) && cached.revision == self.revision {
                    return match &cached.result {
                        Ok(sections) => InspectionStep::Cached(sections),
                        Err(message) => InspectionStep::Failed(
                            SimulationError::InvalidPrograms(message.clone()),
                        ),
                    };
                }
            },
            None => {},
        }
        if !self.is_busy() {
            InspectionStep::Submit(WorkRequest::Inspect(scope.copied(), self.revision))
        } else {
            InspectionStep::Waiting
        }
    }

    /// Records that the worker took an inspection request handed out while idle.
    pub fn inspection_submitted(&mut self)
        requires
            session_wf(*old(self)),
            old(self).pending_jobs == 0,
        ensures
            session_wf(*final(self)),
            same_models(*old(self), *final(self)),
            final(self).pending_jobs == 1,
            final(self).running == old(self).running,
            final(self).feedback == old(self).feedback,
            final(self).revision == old(self).revision,
    {
        self.pending_jobs = self.pending_jobs + 1;
    }

    /// Appends the day's events in the player's provinces to the news.
    fn record_news(&mut self, report: &DayReport)
        requires
            indexes(old(self).index, old(self).snapshot),
        ensures
            final(self).news@ == old(self).news@ + player_news(
                report.events@,
                report.day,
                old(self).snapshot,
                old(self).player_country,
            ),
            final(self).pending_jobs == old(self).pending_jobs,
            final(self).inspection == old(self).inspection,
            final(self).inspection_revision == old(self).inspection_revision,
            final(self).snapshot == old(self).snapshot,
            final(self).index == old(self).index,
            final(self).definitions == old(self).definitions,
            final(self).player_country == old(self).player_country,
            final(self).last_report == old(self).last_report,
            final(self).feedback == old(self).feedback,
            final(self).running == old(self).running,
            final(self).speed == old(self).speed,
            final(self).session_id == old(self).session_id,
            final(self).geographic == old(self).geographic,
            final(self).revision == old(self).revision,
            final(self).province_page == old(self).province_page,
            final(self).pending_construction == old(self).pending_construction,
    {
        let events = &report.events;
        let _ = self.snapshot.provinces.len();
        proof {
            lemma_province_positions(self.snapshot.provinces@);
        }
        let mut k: usize = 0;
        while k < events.len()
            invariant
                k <= events.len(),
                events == &report.events,
                indexes(self.index, self.snapshot),
                self.news@ == old(self).news@ + player_news(
                    events@.take(k as int),
                    report.day,
                    self.snapshot,
                    self.player_country,
                ),
                self.pending_jobs == old(self).pending_jobs,
                self.inspection == old(self).inspection,
                self.inspection_revision == old(self).inspection_revision,
                self.snapshot == old(self).snapshot,
                self.index == old(self).index,
                self.definitions == old(self).definitions,
                self.player_country == old(self).player_country,
                self.last_report == old(self).last_report,
                self.feedback == old(self).feedback,
                self.running == old(self).running,
                self.speed == old(self).speed,
                self.session_id == old(self).session_id,
                self.geographic == old(self).geographic,
                self.revision == old(self).revision,
                self.province_page == old(self).province_page,
                self.pending_construction == old(self).pending_construction,
                forall|id: ProvinceId|
                    #![trigger province_positions(self.snapshot.provinces@).contains_key(id)]
                    province_positions(self.snapshot.provinces@).contains_key(id) ==> province_positions(
                        self.snapshot.provinces@,
                    )[id] < self.snapshot.provinces@.len(),
            decreases events.len() - k,
        {
            let event = &events[k];
            let province = event.province();
            let relevant = match self.index.provinces.get(&province) {
                Some(position) => self.snapshot.provinces[*position].country == self.player_country,
                None => false,
            };
            proof {
                assert(events@.take(k + 1).drop_last() =~= events@.take(k as int));
                assert(events@.take(k + 1).last() == events@[k as int]);
                assert(relevant == concerns_player(self.snapshot, self.player_country, province));
            }
            if relevant {
                self.news.push(NewsEntry { day: report.day, event: event.copied() });
            }
            k = k + 1;
        }
        proof {
            assert(events@.take(events.len() as int) =~= events@);
        }
    }

    /// Takes one answer of the worker: commits a published snapshot, caches an
    /// inspection, records a day's news and report, records a started
    /// construction, or shows an error and stops time. News keeps the most recent
    /// entries; every answer but an inspection moves the revision on.
    pub fn accept(&mut self, completed: CompletedWork)
        requires
            session_wf(*old(self)),
            old(self).revision < u64::MAX,
            old(self).inspection_revision < u64::MAX,
            completed.snapshot matches Some((snapshot, index)) ==> indexes(index, snapshot) && stockpiles_distinct(
                snapshot,
            ),
        ensures
            session_wf(*final(self)),
            final(self).pending_jobs == if old(self).pending_jobs > 0 {
                old(self).pending_jobs - 1
            } else {
                0
            },
            match completed.snapshot {
                Some((snapshot, index)) => final(self).snapshot == snapshot && final(self).index
                    == index,
                None => final(self).snapshot == old(self).snapshot && final(self).index == old(
                    self,
                ).index,
            },
            final(self).definitions == old(self).definitions,
            final(self).player_country == old(self).player_country,
            final(self).speed == old(self).speed,
            final(self).session_id == old(self).session_id,
            final(self).geographic == old(self).geographic,
            final(self).province_page == old(self).province_page,
            final(self).pending_construction@ == answered(old(self).pending_construction@, completed.construction_id),
            match completed.result {
                Ok(WorkOutcome::Inspection(scope, revision, result)) => {
                    &&& final(self).inspection == Some(CachedInspection { scope, revision, result })
                    &&& final(self).inspection_revision == old(self).inspection_revision + 1
                    &&& final(self).last_report == old(self).last_report
                    &&& final(self).news == old(self).news
                    &&& final(self).feedback == old(self).feedback
                    &&& final(self).running == old(self).running
                    &&& final(self).revision == old(self).revision
                },
                Ok(WorkOutcome::Day(report)) => {
                    &&& final(self).inspection == old(self).inspection
                    &&& final(self).inspection_revision == old(self).inspection_revision
                    &&& final(self).news@ == keep_recent(
                        old(self).news@ + player_news(
                            report.events@,
                            report.day,
                            final(self).snapshot,
                            old(self).player_country,
                        ),
                    )
                    &&& final(self).last_report == Some(report)
                    &&& final(self).feedback == match old(self).feedback {
                        SessionFeedback::Error(_) => SessionFeedback::Ready,
                        other => other,
                    }
                    &&& final(self).running == old(self).running
                    &&& final(self).revision == old(self).revision + 1
                },
                Ok(WorkOutcome::Construction(definition, outcome)) => {
                    &&& final(self).inspection == old(self).inspection
                    &&& final(self).inspection_revision == old(self).inspection_revision
                    &&& final(self).news@ == keep_recent(
                        old(self).news@.push(
                            NewsEntry { day: final(self).snapshot.day, event: outcome.event },
                        ),
                    )
                    &&& final(self).last_report == old(self).last_report
                    &&& final(self).feedback == SessionFeedback::ConstructionStarted(definition)
                    &&& final(self).running == old(self).running
                    &&& final(self).revision == old(self).revision + 1
                },
                Err(error) => {
                    &&& final(self).inspection == old(self).inspection
                    &&& final(self).inspection_revision == old(self).inspection_revision
                    &&& final(self).news == old(self).news
                    &&& final(self).last_report == old(self).last_report
                    &&& final(self).feedback == SessionFeedback::Error(error)
                    &&& final(self).running == false
                    &&& final(self).revision == old(self).revision + 1
                },
            },
    {
        self.pending_jobs = if self.pending_jobs > 0 {
            self.pending_jobs - 1
        } else {
            0
        };
        let CompletedWork { construction_id, result, snapshot } = completed;
        if let Some(id) = construction_id {
            self.pending_construction = forget_target(&self.pending_construction, id);
        }
        match snapshot {
            Some((snapshot, index)) => {
                self.snapshot = snapshot;
                self.index = index;
            },
            None => {},
        }
        match result {
            Ok(WorkOutcome::Inspection(scope, revision, result)) => {
                self.inspection = Some(CachedInspection { scope, revision, result });
                self.inspection_revision = self.inspection_revision + 1;
                return ;
            },
            Ok(WorkOutcome::Day(report)) => {
                self.record_news(&report);
                self.last_report = Some(report);
                if let SessionFeedback::Error(_) = self.feedback {
                    self.feedback = SessionFeedback::Ready;
                }
            },
            Ok(WorkOutcome::Construction(definition, outcome)) => {
                let day = self.snapshot.day;
                self.news.push(NewsEntry { day, event: outcome.event });
                self.feedback = SessionFeedback::ConstructionStarted(definition);
            },
            Err(error) => {
                self.running = false;
                self.feedback = SessionFeedback::Error(error);
            },
        }
        if self.news.len() > NEWS_LIMIT {
            let recent = self.news.split_off(self.news.len() - NEWS_LIMIT);
            self.news = recent;
        }
        self.revision = self.revision + 1;
    }

    /// Applies a management button on the interface: ignored unless management is
    /// live on this screen and the button is enabled. Selecting keeps only the
    /// player's provinces; building and stepping return the request to send;
    /// stepping also stops continuous time.
    pub fn apply_action(
        &mut self,
        view: &mut ManagementViewState,
        screen: Screen,
        enabled: bool,
        action: &ManagementAction,
    ) -> (sent: Option<WorkRequest>)
        requires
            old(self).revision < u64::MAX,
        ensures
            !accepts_actions(*old(self), screen) || !enabled ==> sent is None && *final(self) == *old(
                self,
            ) && *final(view) == *old(view),
            accepts_actions(*old(self), screen) && enabled ==> match *action {
                ManagementAction::SelectProvince(province) => {
                    &&& sent is None
                    &&& *final(self) == *old(self)
                    &&& final(view).selected_province == if owned_by_player(*old(self), province) {
                        province
                    } else {
                        old(view).selected_province
                    }
                },
                ManagementAction::StartConstruction(definition) => {
                    &&& *final(view) == *old(view)
                    &&& construction_started(
                        *old(self),
                        *final(self),
                        old(view).selected_province,
                        definition@,
                        sent,
                    )
                },
                ManagementAction::StartConstructionAt { province, definition } => {
                    &&& *final(view) == *old(view)
                    &&& construction_started(*old(self), *final(self), province, definition@, sent)
                },
                ManagementAction::StepDay => {
                    &&& *final(view) == *old(view)
                    &&& stepped(ManagementSession { running: false, ..*old(self) }, *final(self), sent)
                },
                ManagementAction::ToggleRunning => {
                    &&& sent is None
                    &&& *final(view) == *old(view)
                    &&& *final(self) == ManagementSession { running: !old(self).running, ..*old(self) }
                },
                ManagementAction::SetSpeed(speed) => {
                    &&& sent is None
                    &&& *final(view) == *old(view)
                    &&& *final(self) == ManagementSession { speed, ..*old(self) }
                },
            },
    {
        let live = screen == Screen::Management || (screen == Screen::WorldMap && self.geographic);
        if !live || !enabled {
            return None;
        }
        match action {
            ManagementAction::SelectProvince(province) => {
                let mut i: usize = 0;
                let mut owned = false;
                while i < self.snapshot.provinces.len()
                    invariant
                        i <= self.snapshot.provinces.len(),
                        owned == exists|j: int|
                            0 <= j < i && self.snapshot.provinces@[j].id == *province
                                && self.snapshot.provinces@[j].country == self.player_country,
                    decreases self.snapshot.provinces.len() - i,
                {
                    let candidate = &self.snapshot.provinces[i];
                    if candidate.id == *province && candidate.country == self.player_country {
                        owned = true;
                    }
                    i = i + 1;
                }
                if owned {
                    view.selected_province = *province;
                }
                None
            },
            ManagementAction::StartConstruction(definition) => {
                self.start_construction(view.selected_province, definition)
            },
            ManagementAction::StartConstructionAt { province, definition } => {
                self.start_construction(*province, definition)
            },
            ManagementAction::StepDay => {
                self.running = false;
                self.step()
            },
            ManagementAction::ToggleRunning => {
                self.running = !self.running;
                None
            },
            ManagementAction::SetSpeed(speed) => {
                self.speed = *speed;
                None
            },
        }
    }
}

} // verus!
