//! What the management screens say: which localization key and fallback names
//! content, which message a feedback or an event becomes and with which
//! arguments, and the daily change of a province's stock. Looking up the
//! localized text itself is left to the caller.
use crate::construction::{find_definition, first_definition};
use crate::session::{ManagementSession, SessionFeedback, session_wf};
use crate::snapshot_index::{lemma_province_positions, province_positions};
use crate::text::{joined, push_char};
use crate::world::{
    FacilityDefinition, GoodAmount, FacilityDefinitionId, FacilityId, GoodDefinition, GoodId, GoodsFlow, GoodsFlowCause,
    ProvinceId, SimulationError, SimulationEvent, WorldSnapshot,
};
use vstd::prelude::*;

verus! {

broadcast use {vstd::std_specs::btree::group_btree_axioms, vstd::laws_cmp::group_laws_cmp};

/// A content key with underscores turned into dashes.
pub open spec fn dashed(id: Seq<char>) -> Seq<char> {
    id.map_values(|c: char| if c == '_' { '-' } else { c })
}

/// `id` with each underscore turned into a dash and every other character kept.
fn underscores_to_dashes(id: &str) -> (text: String)
    ensures
        text@ == dashed(id@),
{
    let mut text = String::new();
    let length = id.unicode_len();
    let mut i: usize = 0;
    while i < length
        invariant
            length == id@.len(),
            i <= length,
            text@ == dashed(id@.take(i as int)),
        decreases length - i,
    {
        let c = id.get_char(i);
        if c == '_' {
            push_char(&mut text, '-');
        } else {
            push_char(&mut text, c);
        }
        proof {
            assert(dashed(id@.take(i + 1)) =~= dashed(id@.take(i as int)).push(if c == '_' { '-' } else { c }));
        }
        i = i + 1;
    }
    proof {
        assert(id@.take(length as int) =~= id@);
    }
    text
}

/// The localization key of a piece of content: `world-<kind>-<id>` with the id's
/// underscores as dashes.
pub open spec fn content_key_of(kind: Seq<char>, id: Seq<char>) -> Seq<char> {
    "world-"@ + kind + "-"@ + dashed(id)
}

/// The localization key of a piece of content.
pub fn content_key(kind: &str, id: &str) -> (key: String)
    ensures
        key@ == content_key_of(kind@, id@),
{
    let mut key = joined("world-", kind);
    key.append("-");
    let tail = underscores_to_dashes(id);
    key.append(tail.as_str());
    key
}

/// A name to show: the localized text of `key` where the catalog has it, else `fallback`.
pub struct ContentName {
    pub key: String,
    pub fallback: String,
}

/// How to name a province.
pub enum ProvinceName {
    /// The localized text of `key`, else `fallback`.
    Localized { key: String, fallback: String },
    /// The province's own name.
    Plain(String),
    /// A province the snapshot does not hold: its identity.
    Unknown(ProvinceId),
}

/// How to name a facility instance.
pub enum FacilityLabel {
    Kind(ContentName),
    Unknown(FacilityId),
}

/// The message that the session's feedback becomes.
pub enum FeedbackMessage {
    Ready,
    CommandAccepted { facility: ContentName },
    InsufficientGoods { province: ProvinceName, good: ContentName, required: u64, available: u64 },
    CommandError(SimulationError),
}

/// The message that a news event becomes.
pub enum EventMessage {
    Started { province: ProvinceName, facility: FacilityLabel },
    Completed { province: ProvinceName, facility: FacilityLabel },
    Shortage { province: ProvinceName, good: ContentName, amount: u64 },
}

/// How a province is named, from the snapshot.
pub open spec fn province_name_of(snapshot: WorldSnapshot, id: ProvinceId, name: ProvinceName) -> bool {
    let positions = province_positions(snapshot.provinces@);
    if positions.contains_key(id) {
        let province = snapshot.provinces@[positions[id] as int];
        match province.name_key {
            Some(key) => name matches ProvinceName::Localized { key: k, fallback } && k@ == key@
                && fallback@ == province.name@,
            None => name matches ProvinceName::Plain(text) && text@ == province.name@,
        }
    } else {
        name == ProvinceName::Unknown(id)
    }
}

/// Position of the first good definition named `id` among the first `n`.
pub open spec fn first_good_upto(goods: Seq<GoodDefinition>, id: Seq<char>, n: int) -> Option<int>
    decreases n,
{
    if n <= 0 {
        None
    } else if first_good_upto(goods, id, n - 1) is Some {
        first_good_upto(goods, id, n - 1)
    } else if goods[n - 1].id@ == id {
        Some(n - 1)
    } else {
        None
    }
}

/// How a facility kind is named: its content key, falling back to its defined name
/// or, for an unknown kind, its id.
pub open spec fn facility_name_of(session: ManagementSession, id: Seq<char>, name: ContentName) -> bool {
    &&& name.key@ == content_key_of("facility"@, id)
    &&& name.fallback@ == match first_definition(session.definitions.facilities@, id) {
        Some(k) => session.definitions.facilities@[k].name@,
        None => id,
    }
}

/// How a good is named: its content key, falling back to its defined name or its id.
pub open spec fn good_name_of(session: ManagementSession, id: Seq<char>, name: ContentName) -> bool {
    let goods = session.definitions.goods@;
    &&& name.key@ == content_key_of("good"@, id)
    &&& name.fallback@ == match first_good_upto(goods, id, goods.len() as int) {
        Some(k) => goods[k].name@,
        None => id,
    }
}

/// Which kind the facility instance `id` is: an existing facility first, else a
/// construction project building it.
pub open spec fn instance_kind(snapshot: WorldSnapshot, id: FacilityId) -> Option<Seq<char>> {
    let facilities = snapshot.facilities@;
    let projects = snapshot.construction_projects@;
    if exists|i: int| 0 <= i < facilities.len() && facilities[i].id == id {
        let i = choose|i: int|
            0 <= i < facilities.len() && facilities[i].id == id && forall|j: int|
                0 <= j < i ==> facilities[j].id != id;
        Some(facilities[i].definition@)
    } else if exists|i: int| 0 <= i < projects.len() && projects[i].facility_id == id {
        let i = choose|i: int|
            0 <= i < projects.len() && projects[i].facility_id == id && forall|j: int|
                0 <= j < i ==> projects[j].facility_id != id;
        Some(projects[i].definition@)
    } else {
        None
    }
}

/// How a facility instance is labelled.
pub open spec fn facility_label_of(session: ManagementSession, id: FacilityId, label: FacilityLabel) -> bool {
    match instance_kind(session.snapshot, id) {
        Some(kind) => label matches FacilityLabel::Kind(name) && facility_name_of(session, kind, name),
        None => label == FacilityLabel::Unknown(id),
    }
}

/// The signed daily change of a good in a province over the first `n` flows:
/// production output adds, every other flow subtracts.
pub open spec fn goods_change_upto(flows: Seq<GoodsFlow>, province: ProvinceId, good: Seq<char>, n: int) -> int
    decreases n,
{
    if n <= 0 {
        0
    } else {
        let flow = flows[n - 1];
        goods_change_upto(flows, province, good, n - 1) + if flow.province == province && flow.good@
            == good {
            if flow.cause == GoodsFlowCause::ProductionOutput {
                flow.amount as int
            } else {
                -(flow.amount as int)
            }
        } else {
            0
        }
    }
}

proof fn lemma_goods_change_bounded(flows: Seq<GoodsFlow>, province: ProvinceId, good: Seq<char>, n: int)
    requires
        0 <= n <= flows.len(),
    ensures
        -(n * 0xffff_ffff_ffff_ffff) <= goods_change_upto(flows, province, good, n) <= n * 0xffff_ffff_ffff_ffff,
    decreases n,
{
    if n > 0 {
        lemma_goods_change_bounded(flows, province, good, n - 1);
    }
}

/// Names a province: its localized name where it has a key, else its own name;
/// a province outside the snapshot by its identity.
pub fn province_name(session: &ManagementSession, id: ProvinceId) -> (name: ProvinceName)
    requires
        session_wf(*session),
    ensures
        province_name_of(session.snapshot, id, name),
{
    let _ = session.snapshot.provinces.len();
    proof {
        lemma_province_positions(session.snapshot.provinces@);
    }
    match session.index.provinces.get(&id) {
        Some(position) => {
            let province = &session.snapshot.provinces[*position];
            match &province.name_key {
                Some(key) => ProvinceName::Localized { key: key.clone(), fallback: province.name.clone() },
                None => ProvinceName::Plain(province.name.clone()),
            }
        },
        None => ProvinceName::Unknown(id),
    }
}

/// Names a facility kind.
pub fn facility_name(session: &ManagementSession, id: &FacilityDefinitionId) -> (name: ContentName)
    ensures
        facility_name_of(*session, id@, name),
{
    let fallback = match find_definition(&session.definitions.facilities, id) {
        Some(k) => session.definitions.facilities[k].name.clone(),
        None => id.clone(),
    };
    ContentName { key: content_key("facility", id.as_str()), fallback }
}

/// Names a good.
pub fn good_name(session: &ManagementSession, id: &GoodId) -> (name: ContentName)
    ensures
        good_name_of(*session, id@, name),
{
    let goods = &session.definitions.goods;
    let fallback = match find_good(goods, id) {
        Some(k) => goods[k].name.clone(),
        None => id.clone(),
    };
    ContentName { key: content_key("good", id.as_str()), fallback }
}

fn find_good(goods: &Vec<GoodDefinition>, id: &GoodId) -> (found: Option<usize>)
    ensures
        found matches Some(k) ==> k < goods.len() && first_good_upto(goods@, id@, goods@.len() as int)
            == Some(k as int),
        found is None ==> first_good_upto(goods@, id@, goods@.len() as int) is None,
{
    let mut k: usize = 0;
    while k < goods.len()
        invariant
            k <= goods.len(),
            first_good_upto(goods@, id@, k as int) is None,
        decreases goods.len() - k,
    {
        if goods[k].id == *id {
            proof {
                lemma_first_good_settles(goods@, id@, k as int, goods@.len() as int);
            }
            return Some(k);
        }
        k = k + 1;
    }
    None
}

proof fn lemma_first_good_settles(goods: Seq<GoodDefinition>, id: Seq<char>, k: int, n: int)
    requires
        0 <= k < n <= goods.len(),
        first_good_upto(goods, id, k) is None,
        goods[k].id@ == id,
    ensures
        first_good_upto(goods, id, n) == Some(k),
    decreases n,
{
    if n > k + 1 {
        lemma_first_good_settles(goods, id, k, n - 1);
    }
}

/// The kind of a facility instance: of the existing facility, else of the
/// construction project that builds it.
pub fn instance_definition<'a>(session: &'a ManagementSession, id: FacilityId) -> (kind: Option<
    &'a FacilityDefinitionId,
>)
    ensures
        match instance_kind(session.snapshot, id) {
            Some(expected) => kind matches Some(found) && found@ == expected,
            None => kind is None,
        },
{
    let facilities = &session.snapshot.facilities;
    let mut i: usize = 0;
    while i < facilities.len()
        invariant
            i <= facilities.len(),
            facilities == &session.snapshot.facilities,
            forall|j: int| 0 <= j < i ==> facilities@[j].id != id,
        decreases facilities.len() - i,
    {
        if facilities[i].id == id {
            proof {
                let first = choose|m: int|
                    0 <= m < facilities@.len() && facilities@[m].id == id && forall|j: int|
                        0 <= j < m ==> facilities@[j].id != id;
                assert(0 <= i < facilities@.len() && facilities@[i as int].id == id && forall|j: int|
                    0 <= j < i ==> facilities@[j].id != id);
                if first < i {
                    assert(facilities@[first].id != id);
                }
                if first > i {
                    assert(facilities@[i as int].id != id);
                }
            }
            return Some(&facilities[i].definition);
        }
        i = i + 1;
    }
    let projects = &session.snapshot.construction_projects;
    let mut k: usize = 0;
    while k < projects.len()
        invariant
            k <= projects.len(),
            projects == &session.snapshot.construction_projects,
            forall|j: int| 0 <= j < session.snapshot.facilities@.len() ==> session.snapshot.facilities@[j].id != id,
            forall|j: int| 0 <= j < k ==> projects@[j].facility_id != id,
        decreases projects.len() - k,
    {
        if projects[k].facility_id == id {
            proof {
                let first = choose|m: int|
                    0 <= m < projects@.len() && projects@[m].facility_id == id && forall|j: int|
                        0 <= j < m ==> projects@[j].facility_id != id;
                assert(0 <= k < projects@.len() && projects@[k as int].facility_id == id && forall|j: int|
                    0 <= j < k ==> projects@[j].facility_id != id);
                if first < k {
                    assert(projects@[first].facility_id != id);
                }
                if first > k {
                    assert(projects@[k as int].facility_id != id);
                }
            }
            return Some(&projects[k].definition);
        }
        k = k + 1;
    }
    None
}

/// Labels a facility instance by its kind's name, else by its identity.
pub fn facility_label(session: &ManagementSession, id: FacilityId) -> (label: FacilityLabel)
    ensures
        facility_label_of(*session, id, label),
{
    match instance_definition(session, id) {
        Some(kind) => FacilityLabel::Kind(facility_name(session, kind)),
        None => FacilityLabel::Unknown(id),
    }
}

/// Whether `message` says what the session's feedback is: nothing to report, the
/// kind whose construction started, the province and good that lacked goods with
/// the amounts, or the error itself.
pub open spec fn feedback_message_of(session: ManagementSession, message: FeedbackMessage) -> bool {
    match session.feedback {
        SessionFeedback::Ready => message is Ready,
        SessionFeedback::ConstructionStarted(definition) => message matches FeedbackMessage::CommandAccepted {
            facility,
        } && facility_name_of(session, definition@, facility),
        SessionFeedback::Error(SimulationError::InsufficientConstructionGoods {
            province,
            good,
            required,
            available,
        }) => message matches FeedbackMessage::InsufficientGoods {
            province: p,
            good: g,
            required: r,
            available: a,
        } && province_name_of(session.snapshot, province, p) && good_name_of(session, good@, g)
            && r == required && a == available,
        SessionFeedback::Error(error) => message matches FeedbackMessage::CommandError(e) && e
            == error,
    }
}

/// The message of the session's feedback.
pub fn feedback(session: &ManagementSession) -> (message: FeedbackMessage)
    requires
        session_wf(*session),
    ensures
        feedback_message_of(*session, message),
{
    match &session.feedback {
        SessionFeedback::Ready => FeedbackMessage::Ready,
        SessionFeedback::ConstructionStarted(definition) => FeedbackMessage::CommandAccepted {
            facility: facility_name(session, definition),
        },
        SessionFeedback::Error(SimulationError::InsufficientConstructionGoods {
            province,
            good,
            required,
            available,
        }) => FeedbackMessage::InsufficientGoods {
            province: province_name(session, *province),
            good: good_name(session, good),
            required: *required,
            available: *available,
        },
        SessionFeedback::Error(error) => FeedbackMessage::CommandError(copied_error(error)),
    }
}

/// A copy of an error.
pub fn copied_error(error: &SimulationError) -> (copy: SimulationError)
    ensures
        copy == *error,
{
    match error {
        SimulationError::CommandRejected(text) => SimulationError::CommandRejected(text.clone()),
        SimulationError::InvalidPrograms(text) => SimulationError::InvalidPrograms(text.clone()),
        SimulationError::InsufficientConstructionGoods { province, good, required, available } => {
            SimulationError::InsufficientConstructionGoods {
                province: *province,
                good: good.clone(),
                required: *required,
                available: *available,
            }
        },
    }
}

/// An amount of a good, named for display.
pub struct Quantity {
    pub good: ContentName,
    pub amount: u64,
}

/// What a facility kind costs, needs and makes; an empty list reads as "no inputs".
pub struct RecipeDescription {
    pub cost: Vec<Quantity>,
    pub workers: u64,
    pub work: u64,
    pub inputs: Vec<Quantity>,
    pub outputs: Vec<Quantity>,
}

/// Whether `named` names each good amount of `amounts`, in order.
pub open spec fn quantities_of(session: ManagementSession, amounts: Seq<GoodAmount>, named: Seq<Quantity>) -> bool {
    &&& named.len() == amounts.len()
    &&& forall|i: int|
        0 <= i < amounts.len() ==> good_name_of(session, amounts[i].good@, #[trigger] named[i].good)
            && named[i].amount == amounts[i].amount
}

fn quantities(session: &ManagementSession, amounts: &Vec<GoodAmount>) -> (named: Vec<Quantity>)
    ensures
        quantities_of(*session, amounts@, named@),
{
    let mut named: Vec<Quantity> = Vec::new();
    let mut k: usize = 0;
    while k < amounts.len()
        invariant
            k <= amounts.len(),
            named@.len() == k,
            forall|i: int|
                0 <= i < k ==> good_name_of(*session, amounts@[i].good@, #[trigger] named@[i].good)
                    && named@[i].amount == amounts@[i].amount,
        decreases amounts.len() - k,
    {
        named.push(Quantity { good: good_name(session, &amounts[k].good), amount: amounts[k].amount });
        k = k + 1;
    }
    named
}

/// Describes a facility kind: its construction goods, worker limit and work, and
/// its inputs and outputs per worker-day.
pub fn recipe_description(session: &ManagementSession, definition: &FacilityDefinition) -> (description: RecipeDescription)
    ensures
        quantities_of(*session, definition.construction.goods@, description.cost@),
        description.workers == definition.construction.max_workers,
        description.work == definition.construction.worker_days,
        quantities_of(*session, definition.inputs_per_worker_day@, description.inputs@),
        quantities_of(*session, definition.outputs_per_worker_day@, description.outputs@),
{
    RecipeDescription {
        cost: quantities(session, &definition.construction.goods),
        workers: definition.construction.max_workers,
        work: definition.construction.worker_days,
        inputs: quantities(session, &definition.inputs_per_worker_day),
        outputs: quantities(session, &definition.outputs_per_worker_day),
    }
}

/// The message of a news event.
pub fn event_text(session: &ManagementSession, event: &SimulationEvent) -> (message: EventMessage)
    requires
        session_wf(*session),
    ensures
        match *event {
            SimulationEvent::ConstructionStarted { province, facility } => message matches EventMessage::Started {
                province: p,
                facility: f,
            } && province_name_of(session.snapshot, province, p) && facility_label_of(*session, facility, f),
            SimulationEvent::ConstructionCompleted { province, facility } => message matches EventMessage::Completed {
                province: p,
                facility: f,
            } && province_name_of(session.snapshot, province, p) && facility_label_of(*session, facility, f),
            SimulationEvent::FoodShortfall { province, good, amount } => message matches EventMessage::Shortage {
                province: p,
                good: g,
                amount: a,
            } && province_name_of(session.snapshot, province, p) && good_name_of(*session, good@, g) && a
                == amount,
        },
{
    match event {
        SimulationEvent::ConstructionStarted { province, facility } => EventMessage::Started {
            province: province_name(session, *province),
            facility: facility_label(session, *facility),
        },
        SimulationEvent::ConstructionCompleted { province, facility } => EventMessage::Completed {
            province: province_name(session, *province),
            facility: facility_label(session, *facility),
        },
        SimulationEvent::FoodShortfall { province, good, amount } => EventMessage::Shortage {
            province: province_name(session, *province),
            good: good_name(session, good),
            amount: *amount,
        },
    }
}

/// The net change of `good` in `province` over the last reported day: production
/// output adds, every other flow subtracts; nothing before the first day.
pub fn daily_goods_change(session: &ManagementSession, province: ProvinceId, good: &GoodId) -> (change: Option<i128>)
    requires
        session.last_report matches Some(report) ==> report.goods_flows@.len() <= i64::MAX,
    ensures
        match session.last_report {
            Some(report) => change == Some(
                goods_change_upto(report.goods_flows@, province, good@, report.goods_flows@.len() as int) as i128,
            ),
            None => change is None,
        },
{
    match &session.last_report {
        None => None,
        Some(report) => {
            let flows = &report.goods_flows;
            let mut total: i128 = 0;
            let mut k: usize = 0;
            while k < flows.len()
                invariant
                    k <= flows.len(),
                    flows.len() <= i64::MAX,
                    total == goods_change_upto(flows@, province, good@, k as int),
                decreases flows.len() - k,
            {
                proof {
                    lemma_goods_change_bounded(flows@, province, good@, k as int);
                    assert(k * 0xffff_ffff_ffff_ffff <= 0x7fff_ffff_ffff_ffff * 0xffff_ffff_ffff_ffff) by (nonlinear_arith)
                        requires
                            k <= 0x7fff_ffff_ffff_ffff,
                    ;
                }
                let flow = &flows[k];
                if flow.province == province && flow.good == *good {
                    if flow.cause == GoodsFlowCause::ProductionOutput {
                        total = total + flow.amount as i128;
                    } else {
                        total = total - flow.amount as i128;
                    }
                }
                k = k + 1;
            }
            Some(total)
        },
    }
}

} // verus!
