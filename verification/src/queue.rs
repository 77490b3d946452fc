//! The construction queue of the inspection panel: one row per facility under
//! construction in the inspected territory, ordered by facility identity, with
//! the work the last day report gave it and how far it has come.
use crate::construction::first_definition;
use crate::session::{ManagementSession, PendingConstruction};
use crate::world::{ConstructionDayReport, ConstructionProject, FacilityDefinition, FacilityId, ProvinceId};
use std::collections::BTreeSet;
use vstd::prelude::*;

verus! {

broadcast use {vstd::std_specs::btree::group_btree_axioms, vstd::laws_cmp::group_laws_cmp};

/// Work that a project received on the reported day.
pub struct AppliedWork {
    /// Workers and sector construction points together.
    pub work: u128,
    /// Sector construction points alone.
    pub amount: u64,
}

/// What a row of the construction queue shows.
#[derive(Debug, PartialEq, Eq, Structural, Clone, Copy)]
pub enum QueueSource {
    /// The project at this position in the snapshot's projects.
    Project(usize),
    /// The pending construction target at this position in the session's targets,
    /// whose project the snapshot does not hold yet.
    Pending(usize),
}

/// One row of the construction queue.
pub struct QueueRow {
    pub facility: FacilityId,
    pub source: QueueSource,
    /// Work of the last day report, `None` while the project awaits allocation.
    pub applied: Option<AppliedWork>,
    /// Construction points the row's kind needs in all (1 where the kind is unknown).
    pub total_points: u64,
}

/// A facility under construction and the position of the project that shows it.
struct QueuedProject {
    facility: FacilityId,
    project: usize,
}

/// Position of the last project among the first `n` that lies in `scope` and builds facility `id`.
pub open spec fn last_queued_upto(projects: Seq<ConstructionProject>, scope: Set<ProvinceId>, id: FacilityId, n: int) -> Option<int>
    decreases n,
{
    if n <= 0 {
        None
    } else if scope.contains(projects[n - 1].province) && projects[n - 1].facility_id == id {
        Some(n - 1)
    } else {
        last_queued_upto(projects, scope, id, n - 1)
    }
}

/// Position of the last construction report about facility `id`.
pub open spec fn last_construction_report(reports: Seq<ConstructionDayReport>, id: FacilityId) -> Option<int>
    decreases reports.len(),
{
    if reports.len() == 0 {
        None
    } else if reports.last().facility == id {
        Some(reports.len() - 1)
    } else {
        last_construction_report(reports.drop_last(), id)
    }
}

/// Construction points that the first definition named `id` needs, 1 where there is none.
pub open spec fn first_definition_points(definitions: Seq<FacilityDefinition>, id: Seq<char>) -> u64 {
    match first_definition(definitions, id) {
        Some(k) => definitions[k].construction.construction_points,
        None => 1,
    }
}

/// Whether `rows` holds exactly one row per facility under construction in `scope`
/// among the first `n` projects, ordered by facility, each with the last such
/// project of its facility.
spec fn queue_rows_of(projects: Seq<ConstructionProject>, scope: Set<ProvinceId>, rows: Seq<QueuedProject>, n: int) -> bool {
    &&& forall|i: int, j: int| #![trigger rows[i], rows[j]] 0 <= i < j < rows.len() ==> rows[i].facility < rows[j].facility
    &&& forall|id: FacilityId|
        #![trigger last_queued_upto(projects, scope, id, n)]
        (exists|i: int| 0 <= i < rows.len() && #[trigger] rows[i].facility == id) <==> last_queued_upto(projects, scope, id, n) is Some
    &&& forall|i: int|
        #![trigger rows[i]]
        0 <= i < rows.len() ==> last_queued_upto(projects, scope, rows[i].facility, n) == Some(rows[i].project as int)
}

/// The first position whose facility is not below `id`.
fn row_position(rows: &Vec<QueuedProject>, id: FacilityId) -> (p: usize)
    ensures
        p <= rows@.len(),
        forall|i: int| 0 <= i < p ==> #[trigger] rows@[i].facility < id,
        p < rows@.len() ==> rows@[p as int].facility >= id,
{
    let mut p: usize = 0;
    while p < rows.len()
        invariant
            p <= rows@.len(),
            forall|i: int| 0 <= i < p ==> #[trigger] rows@[i].facility < id,
        decreases rows.len() - p,
    {
        if rows[p].facility >= id {
            return p;
        }
        p = p + 1;
    }
    p
}

/// Shows project `k` in the row of its facility, which exists at position `p`.
fn replace_row(rows: &mut Vec<QueuedProject>, projects: &Vec<ConstructionProject>, scope: &BTreeSet<ProvinceId>, k: usize, p: usize)
    requires
        k < projects@.len(),
        scope@.contains(projects@[k as int].province),
        p < old(rows)@.len(),
        old(rows)@[p as int].facility == projects@[k as int].facility_id,
        queue_rows_of(projects@, scope@, old(rows)@, k as int),
    ensures
        queue_rows_of(projects@, scope@, final(rows)@, k + 1),
{
    let ghost before = rows@;
    let id = projects[k].facility_id;
    rows[p].project = k;
    proof {
        let after = rows@;
        assert forall|other: FacilityId|
            #![trigger last_queued_upto(projects@, scope@, other, k + 1)]
            (exists|i: int| 0 <= i < after.len() && #[trigger] after[i].facility == other)
                <==> last_queued_upto(projects@, scope@, other, k + 1) is Some by {
            if exists|i: int| 0 <= i < after.len() && #[trigger] after[i].facility == other {
                let i = choose|i: int| 0 <= i < after.len() && #[trigger] after[i].facility == other;
                assert(before[i].facility == other);
            }
            if last_queued_upto(projects@, scope@, other, k as int) is Some {
                let i = choose|i: int| 0 <= i < before.len() && #[trigger] before[i].facility == other;
                assert(after[i].facility == other);
            }
        }
        assert forall|i: int|
            #![trigger after[i]]
            0 <= i < after.len() implies last_queued_upto(projects@, scope@, after[i].facility, k + 1)
                == Some(after[i].project as int) by {
            assert(before[i].facility == after[i].facility);
            if i != p {
                assert(before[i].facility != id);
            }
        }
        assert forall|i: int, j: int| #![trigger after[i], after[j]] 0 <= i < j < after.len()
            implies after[i].facility < after[j].facility by {
            assert(before[i].facility == after[i].facility);
            assert(before[j].facility == after[j].facility);
        }
    }
}

/// Gives project `k`, whose facility has no row yet, a new row at position `p`.
fn insert_row(rows: &mut Vec<QueuedProject>, projects: &Vec<ConstructionProject>, scope: &BTreeSet<ProvinceId>, k: usize, p: usize)
    requires
        k < projects@.len(),
        scope@.contains(projects@[k as int].province),
        p <= old(rows)@.len(),
        forall|i: int| 0 <= i < p ==> #[trigger] old(rows)@[i].facility < projects@[k as int].facility_id,
        p < old(rows)@.len() ==> old(rows)@[p as int].facility > projects@[k as int].facility_id,
        queue_rows_of(projects@, scope@, old(rows)@, k as int),
    ensures
        queue_rows_of(projects@, scope@, final(rows)@, k + 1),
{
    let ghost before = rows@;
    let row = QueuedProject { facility: projects[k].facility_id, project: k };
    rows.insert(p, row);
    proof {
        lemma_insert_sorted(before, p as int, row);
        lemma_insert_covers(projects@, scope@, before, k as int, p as int, row);
        lemma_insert_current(projects@, scope@, before, k as int, p as int, row);
    }
}

proof fn lemma_insert_sorted(before: Seq<QueuedProject>, p: int, row: QueuedProject)
    requires
        0 <= p <= before.len(),
        forall|i: int, j: int| #![trigger before[i], before[j]] 0 <= i < j < before.len() ==> before[i].facility < before[j].facility,
        forall|i: int| 0 <= i < p ==> #[trigger] before[i].facility < row.facility,
        p < before.len() ==> before[p].facility > row.facility,
    ensures
        forall|i: int, j: int|
            #![trigger before.insert(p, row)[i], before.insert(p, row)[j]]
            0 <= i < j < before.len() + 1 ==> before.insert(p, row)[i].facility < before.insert(p, row)[j].facility,
{
    let after = before.insert(p, row);
    assert forall|i: int, j: int| #![trigger after[i], after[j]] 0 <= i < j < after.len()
        implies after[i].facility < after[j].facility by {
        if j < p {
            assert(after[i] == before[i] && after[j] == before[j]);
        } else if i > p {
            assert(after[i] == before[i - 1] && after[j] == before[j - 1]);
        } else if j == p {
            assert(after[i] == before[i]);
        } else if i == p {
            assert(after[j] == before[j - 1]);
            assert(before[p].facility <= before[j - 1].facility);
        } else {
            assert(after[i] == before[i] && after[j] == before[j - 1]);
        }
    }
}

proof fn lemma_insert_covers(
    projects: Seq<ConstructionProject>,
    scope: Set<ProvinceId>,
    before: Seq<QueuedProject>,
    k: int,
    p: int,
    row: QueuedProject,
)
    requires
        0 <= k < projects.len(),
        scope.contains(projects[k].province),
        row.facility == projects[k].facility_id,
        0 <= p <= before.len(),
        forall|i: int| 0 <= i < p ==> #[trigger] before[i].facility < row.facility,
        p < before.len() ==> before[p].facility > row.facility,
        queue_rows_of(projects, scope, before, k),
    ensures
        forall|other: FacilityId|
            #![trigger last_queued_upto(projects, scope, other, k + 1)]
            (exists|i: int| 0 <= i < before.len() + 1 && #[trigger] before.insert(p, row)[i].facility == other)
                <==> last_queued_upto(projects, scope, other, k + 1) is Some,
{
    let after = before.insert(p, row);
    let id = row.facility;
    assert(last_queued_upto(projects, scope, id, k) is None) by {
        if last_queued_upto(projects, scope, id, k) is Some {
            let i = choose|i: int| 0 <= i < before.len() && #[trigger] before[i].facility == id;
            if i < p {
                assert(before[i].facility < id);
            } else if i > p {
                assert(before[p].facility < before[i].facility);
            }
        }
    }
    assert forall|other: FacilityId|
        #![trigger last_queued_upto(projects, scope, other, k + 1)]
        (exists|i: int| 0 <= i < after.len() && #[trigger] after[i].facility == other)
            <==> last_queued_upto(projects, scope, other, k + 1) is Some by {
        if exists|i: int| 0 <= i < after.len() && #[trigger] after[i].facility == other {
            let i = choose|i: int| 0 <= i < after.len() && #[trigger] after[i].facility == other;
            if i < p {
                assert(before[i].facility == other);
            } else if i > p {
                assert(before[i - 1].facility == other);
            }
        }
        if last_queued_upto(projects, scope, other, k) is Some {
            let i = choose|i: int| 0 <= i < before.len() && #[trigger] before[i].facility == other;
            if i < p {
                assert(after[i].facility == other);
            } else {
                assert(after[i + 1].facility == other);
            }
        }
        if other == id {
            assert(after[p].facility == other);
        }
    }
}

proof fn lemma_insert_current(
    projects: Seq<ConstructionProject>,
    scope: Set<ProvinceId>,
    before: Seq<QueuedProject>,
    k: int,
    p: int,
    row: QueuedProject,
)
    requires
        0 <= k < projects.len(),
        scope.contains(projects[k].province),
        row.facility == projects[k].facility_id,
        row.project == k,
        0 <= p <= before.len(),
        forall|i: int| 0 <= i < p ==> #[trigger] before[i].facility < row.facility,
        p < before.len() ==> before[p].facility > row.facility,
        forall|i: int, j: int| #![trigger before[i], before[j]] 0 <= i < j < before.len() ==> before[i].facility < before[j].facility,
        forall|i: int|
            #![trigger before[i]]
            0 <= i < before.len() ==> last_queued_upto(projects, scope, before[i].facility, k) == Some(before[i].project as int),
    ensures
        forall|i: int|
            #![trigger before.insert(p, row)[i]]
            0 <= i < before.len() + 1 ==> last_queued_upto(projects, scope, before.insert(p, row)[i].facility, k + 1)
                == Some(before.insert(p, row)[i].project as int),
{
    let after = before.insert(p, row);
    assert forall|i: int|
        #![trigger after[i]]
        0 <= i < after.len() implies last_queued_upto(projects, scope, after[i].facility, k + 1)
            == Some(after[i].project as int) by {
        if i < p {
            assert(after[i] == before[i]);
        } else if i > p {
            assert(after[i] == before[i - 1]);
            assert(before[p].facility <= before[i - 1].facility);
        }
    }
}

/// Position of the first pending target among the first `n` that lies in `scope`
/// and is of facility `id`.
pub open spec fn first_pending_upto(
    pending: Seq<(FacilityId, PendingConstruction)>,
    scope: Set<ProvinceId>,
    id: FacilityId,
    n: int,
) -> Option<int>
    decreases n,
{
    if n <= 0 {
        None
    } else if first_pending_upto(pending, scope, id, n - 1) is Some {
        first_pending_upto(pending, scope, id, n - 1)
    } else if scope.contains(pending[n - 1].1.province) && pending[n - 1].0 == id {
        Some(n - 1)
    } else {
        None
    }
}

/// What the row of facility `id` shows: the last project of the facility in
/// scope, else the first pending target of the facility in scope (among the first `m`).
pub open spec fn source_for(
    projects: Seq<ConstructionProject>,
    pending: Seq<(FacilityId, PendingConstruction)>,
    scope: Set<ProvinceId>,
    id: FacilityId,
    m: int,
) -> QueueSource {
    match last_queued_upto(projects, scope, id, projects.len() as int) {
        Some(k) => QueueSource::Project(k as usize),
        None => QueueSource::Pending(first_pending_upto(pending, scope, id, m)->0 as usize),
    }
}

/// Whether some row is of facility `id`.
pub open spec fn has_row(rows: Seq<QueueRow>, id: FacilityId) -> bool {
    exists|i: int| 0 <= i < rows.len() && #[trigger] rows[i].facility == id
}

/// Whether `rows` is the queue of `scope` with the first `m` pending targets
/// considered: one row per facility that a project in scope builds or a pending
/// target in scope awaits, ordered by facility, each showing its project where the
/// snapshot holds one, else its pending target.
pub open spec fn queue_upto(
    projects: Seq<ConstructionProject>,
    pending: Seq<(FacilityId, PendingConstruction)>,
    scope: Set<ProvinceId>,
    rows: Seq<QueueRow>,
    m: int,
) -> bool {
    &&& forall|i: int, j: int| #![trigger rows[i], rows[j]] 0 <= i < j < rows.len() ==> rows[i].facility < rows[j].facility
    &&& forall|id: FacilityId|
        #![trigger has_row(rows, id)]
        has_row(rows, id) <==> last_queued_upto(projects, scope, id, projects.len() as int) is Some
            || first_pending_upto(pending, scope, id, m) is Some
    &&& forall|i: int| #![trigger rows[i]] 0 <= i < rows.len() ==> rows[i].source == source_for(projects, pending, scope, rows[i].facility, m)
}

/// The kind of facility that a row shows.
pub open spec fn row_kind(session: ManagementSession, row: QueueRow) -> Seq<char> {
    match row.source {
        QueueSource::Project(k) => session.snapshot.construction_projects@[k as int].definition@,
        QueueSource::Pending(j) => session.pending_construction@[j as int].1.definition@,
    }
}

/// What a row shows beyond its source: the work of the last construction report
/// about its facility and the construction points its kind needs.
pub open spec fn row_details(session: ManagementSession, row: QueueRow) -> bool {
    &&& row.total_points == first_definition_points(session.definitions.facilities@, row_kind(session, row))
    &&& match session.last_report {
        None => row.applied is None,
        Some(report) => match last_construction_report(report.constructions@, row.facility) {
            None => row.applied is None,
            Some(k) => row.applied matches Some(applied) && applied.amount
                == report.constructions@[k].sector_construction_points && applied.work
                == report.constructions@[k].active_workers + report.constructions@[k].sector_construction_points,
        },
    }
}

proof fn lemma_first_pending_in_range(
    pending: Seq<(FacilityId, PendingConstruction)>,
    scope: Set<ProvinceId>,
    id: FacilityId,
    n: int,
)
    requires
        0 <= n <= pending.len(),
    ensures
        first_pending_upto(pending, scope, id, n) matches Some(j) ==> 0 <= j < n,
    decreases n,
{
    if n > 0 {
        lemma_first_pending_in_range(pending, scope, id, n - 1);
    }
}

/// The first position whose facility is not below `id`.
fn queue_position(rows: &Vec<QueueRow>, id: FacilityId) -> (p: usize)
    ensures
        p <= rows@.len(),
        forall|i: int| 0 <= i < p ==> #[trigger] rows@[i].facility < id,
        p < rows@.len() ==> rows@[p as int].facility >= id,
{
    let mut p: usize = 0;
    while p < rows.len()
        invariant
            p <= rows@.len(),
            forall|i: int| 0 <= i < p ==> #[trigger] rows@[i].facility < id,
        decreases rows.len() - p,
    {
        if rows[p].facility >= id {
            return p;
        }
        p = p + 1;
    }
    p
}

/// Takes pending target `j` into the queue: a new row where its facility has none.
fn take_pending(
    rows: &mut Vec<QueueRow>,
    projects: &Vec<ConstructionProject>,
    pending: &Vec<(FacilityId, PendingConstruction)>,
    scope: &BTreeSet<ProvinceId>,
    j: usize,
)
    requires
        j < pending@.len(),
        queue_upto(projects@, pending@, scope@, old(rows)@, j as int),
    ensures
        queue_upto(projects@, pending@, scope@, final(rows)@, j + 1),
{
    let ghost before = rows@;
    let id = pending[j].0;
    if !scope.contains(&pending[j].1.province) {
        proof {
            assert forall|other: FacilityId| #[trigger] first_pending_upto(pending@, scope@, other, j + 1)
                == first_pending_upto(pending@, scope@, other, j as int) by {}
        }
        return;
    }
    let p = queue_position(rows, id);
    if p < rows.len() && rows[p].facility == id {
        proof {
            assert(has_row(before, id));
            assert forall|other: FacilityId| other != id implies #[trigger] first_pending_upto(pending@, scope@, other, j + 1)
                == first_pending_upto(pending@, scope@, other, j as int) by {}
            assert forall|i: int| #![trigger before[i]] 0 <= i < before.len() implies before[i].source == source_for(
                projects@,
                pending@,
                scope@,
                before[i].facility,
                j + 1,
            ) by {
                assert(has_row(before, before[i].facility));
            }
        }
        return;
    }
    let row = QueueRow { facility: id, source: QueueSource::Pending(j), applied: None, total_points: 1 };
    rows.insert(p, row);
    proof {
        let after = rows@;
        assert(after =~= before.insert(p as int, row));
        assert(!has_row(before, id)) by {
            if has_row(before, id) {
                let i = choose|i: int| 0 <= i < before.len() && #[trigger] before[i].facility == id;
                if i < p {
                    assert(before[i].facility < id);
                } else if i > p {
                    assert(before[p as int].facility < before[i].facility);
                }
            }
        }
        assert forall|other: FacilityId| other != id implies #[trigger] first_pending_upto(pending@, scope@, other, j + 1)
            == first_pending_upto(pending@, scope@, other, j as int) by {}
        assert forall|other: FacilityId| #[trigger] has_row(after, other) <==> has_row(before, other) || other == id by {
            if has_row(after, other) {
                let i = choose|i: int| 0 <= i < after.len() && #[trigger] after[i].facility == other;
                if i < p {
                    assert(before[i].facility == other);
                } else if i > p {
                    assert(before[i - 1].facility == other);
                }
            }
            if has_row(before, other) {
                let i = choose|i: int| 0 <= i < before.len() && #[trigger] before[i].facility == other;
                if i < p {
                    assert(after[i].facility == other);
                } else {
                    assert(after[i + 1].facility == other);
                }
            }
            if other == id {
                assert(after[p as int].facility == other);
            }
        }
        assert forall|i: int| #![trigger after[i]] 0 <= i < after.len() implies after[i].source == source_for(
            projects@,
            pending@,
            scope@,
            after[i].facility,
            j + 1,
        ) by {
            if i < p {
                assert(after[i] == before[i]);
            } else if i > p {
                assert(after[i] == before[i - 1]);
                assert(before[p as int].facility <= before[i - 1].facility);
            }
        }
        assert forall|a: int, b: int| #![trigger after[a], after[b]] 0 <= a < b < after.len()
            implies after[a].facility < after[b].facility by {
            if b < p {
                assert(after[a] == before[a] && after[b] == before[b]);
            } else if a > p {
                assert(after[a] == before[a - 1] && after[b] == before[b - 1]);
            } else if b == p {
                assert(after[a] == before[a]);
            } else if a == p {
                assert(after[b] == before[b - 1]);
                assert(before[p as int].facility <= before[b - 1].facility);
            } else {
                assert(after[a] == before[a] && after[b] == before[b - 1]);
            }
        }
    }
}

/// The rows of the construction queue of the territory `scope`: the facilities
/// that projects in scope build and those that pending targets in scope await.
pub fn queue_rows(session: &ManagementSession, scope: &BTreeSet<ProvinceId>) -> (rows: Vec<QueueRow>)
    ensures
        queue_upto(
            session.snapshot.construction_projects@,
            session.pending_construction@,
            scope@,
            rows@,
            session.pending_construction@.len() as int,
        ),
        forall|i: int| 0 <= i < rows@.len() ==> #[trigger] row_details(*session, rows@[i]),
{
    let projects = &session.snapshot.construction_projects;
    let pending = &session.pending_construction;
    let mut queued: Vec<QueuedProject> = Vec::new();
    let mut k: usize = 0;
    while k < projects.len()
        invariant
            k <= projects@.len(),
            projects == &session.snapshot.construction_projects,
            queue_rows_of(projects@, scope@, queued@, k as int),
        decreases projects.len() - k,
    {
        let project = &projects[k];
        if scope.contains(&project.province) {
            let p = row_position(&queued, project.facility_id);
            if p < queued.len() && queued[p].facility == project.facility_id {
                replace_row(&mut queued, projects, scope, k, p);
            } else {
                insert_row(&mut queued, projects, scope, k, p);
            }
        } else {
            proof {
                assert forall|other: FacilityId|
                    #![trigger last_queued_upto(projects@, scope@, other, k + 1)]
                    (exists|i: int| 0 <= i < queued@.len() && #[trigger] queued@[i].facility == other)
                        <==> last_queued_upto(projects@, scope@, other, k + 1) is Some by {
                    assert(last_queued_upto(projects@, scope@, other, k + 1) == last_queued_upto(projects@, scope@, other, k as int));
                }
            }
        }
        k = k + 1;
    }
    let mut rows: Vec<QueueRow> = Vec::new();
    let mut q: usize = 0;
    while q < queued.len()
        invariant
            q <= queued@.len(),
            queue_rows_of(projects@, scope@, queued@, projects@.len() as int),
            rows@.len() == q,
            forall|i: int| #![trigger rows@[i]] 0 <= i < q ==> rows@[i].facility == queued@[i].facility
                && rows@[i].source == QueueSource::Project(queued@[i].project),
        decreases queued.len() - q,
    {
        rows.push(QueueRow {
            facility: queued[q].facility,
            source: QueueSource::Project(queued[q].project),
            applied: None,
            total_points: 1,
        });
        q = q + 1;
    }
    proof {
        assert forall|i: int, j: int| #![trigger rows@[i], rows@[j]] 0 <= i < j < rows@.len()
            implies rows@[i].facility < rows@[j].facility by {
            assert(queued@[i].facility < queued@[j].facility);
        }
        assert forall|id: FacilityId| #[trigger] has_row(rows@, id) <==> last_queued_upto(
            projects@,
            scope@,
            id,
            projects@.len() as int,
        ) is Some || first_pending_upto(pending@, scope@, id, 0) is Some by {
            if has_row(rows@, id) {
                let i = choose|i: int| 0 <= i < rows@.len() && #[trigger] rows@[i].facility == id;
                assert(queued@[i].facility == id);
            }
            if last_queued_upto(projects@, scope@, id, projects@.len() as int) is Some {
                let i = choose|i: int| 0 <= i < queued@.len() && #[trigger] queued@[i].facility == id;
                assert(rows@[i].facility == id);
            }
        }
        assert forall|i: int| #![trigger rows@[i]] 0 <= i < rows@.len() implies rows@[i].source == source_for(
            projects@,
            pending@,
            scope@,
            rows@[i].facility,
            0,
        ) by {
            assert(last_queued_upto(projects@, scope@, queued@[i].facility, projects@.len() as int) == Some(
                queued@[i].project as int,
            ));
        }
    }
    let mut j: usize = 0;
    while j < pending.len()
        invariant
            j <= pending@.len(),
            projects == &session.snapshot.construction_projects,
            pending == &session.pending_construction,
            queue_upto(projects@, pending@, scope@, rows@, j as int),
        decreases pending.len() - j,
    {
        take_pending(&mut rows, projects, pending, scope, j);
        j = j + 1;
    }
    let mut i: usize = 0;
    while i < rows.len()
        invariant
            i <= rows@.len(),
            projects == &session.snapshot.construction_projects,
            pending == &session.pending_construction,
            queue_upto(projects@, pending@, scope@, rows@, pending@.len() as int),
            forall|m: int| 0 <= m < i ==> #[trigger] row_details(*session, rows@[m]),
        decreases rows.len() - i,
    {
        let ghost before = rows@;
        let id = rows[i].facility;
        proof {
            lemma_last_queued_in_range(projects@, scope@, id, projects@.len() as int);
            lemma_first_pending_in_range(pending@, scope@, id, pending@.len() as int);
            assert(has_row(rows@, id));
        }
        let definition = match rows[i].source {
            QueueSource::Project(k) => &projects[k].definition,
            QueueSource::Pending(p) => &pending[p].1.definition,
        };
        let total = definition_points(&session.definitions.facilities, definition);
        let applied = match &session.last_report {
            None => None,
            Some(report) => match last_report_of(&report.constructions, id) {
                None => None,
                Some(r) => {
                    let entry = &report.constructions[r];
                    Some(AppliedWork {
                        work: entry.active_workers as u128 + entry.sector_construction_points as u128,
                        amount: entry.sector_construction_points,
                    })
                },
            },
        };
        rows[i].total_points = total;
        rows[i].applied = applied;
        proof {
            let after = rows@;
            assert forall|m: int| 0 <= m < i + 1 implies #[trigger] row_details(*session, after[m]) by {
                if m < i {
                    assert(after[m] == before[m]);
                }
            }
            assert forall|a: int, b: int| #![trigger after[a], after[b]] 0 <= a < b < after.len()
                implies after[a].facility < after[b].facility by {
                assert(before[a].facility == after[a].facility);
                assert(before[b].facility == after[b].facility);
            }
            assert forall|other: FacilityId| #[trigger] has_row(after, other) <==> has_row(before, other) by {
                if has_row(after, other) {
                    let m = choose|m: int| 0 <= m < after.len() && #[trigger] after[m].facility == other;
                    assert(before[m].facility == other);
                }
                if has_row(before, other) {
                    let m = choose|m: int| 0 <= m < before.len() && #[trigger] before[m].facility == other;
                    assert(after[m].facility == other);
                }
            }
            assert forall|m: int| #![trigger after[m]] 0 <= m < after.len() implies after[m].source == source_for(
                projects@,
                pending@,
                scope@,
                after[m].facility,
                pending@.len() as int,
            ) by {
                assert(before[m].facility == after[m].facility && before[m].source == after[m].source);
            }
        }
        i = i + 1;
    }
    rows
}

proof fn lemma_last_queued_in_range(projects: Seq<ConstructionProject>, scope: Set<ProvinceId>, id: FacilityId, n: int)
    requires
        0 <= n <= projects.len(),
    ensures
        last_queued_upto(projects, scope, id, n) matches Some(k) ==> 0 <= k < n,
    decreases n,
{
    if n > 0 {
        lemma_last_queued_in_range(projects, scope, id, n - 1);
    }
}

/// Construction points that the first definition named `id` needs, 1 where there is none.
fn definition_points(definitions: &Vec<FacilityDefinition>, id: &String) -> (points: u64)
    ensures
        points == first_definition_points(definitions@, id@),
{
    match crate::construction::find_definition(definitions, id) {
        Some(k) => definitions[k].construction.construction_points,
        None => 1,
    }
}

/// Finds the last construction report about facility `id`.
fn last_report_of(reports: &Vec<ConstructionDayReport>, id: FacilityId) -> (found: Option<usize>)
    ensures
        found matches Some(k) ==> k < reports@.len() && last_construction_report(reports@, id) == Some(k as int),
        found is None ==> last_construction_report(reports@, id) is None,
{
    let mut k: usize = reports.len();
    assert(reports@.take(k as int) =~= reports@);
    while k > 0
        invariant
            k <= reports@.len(),
            last_construction_report(reports@, id) == last_construction_report(reports@.take(k as int), id),
        decreases k,
    {
        proof {
            assert(reports@.take(k as int).drop_last() =~= reports@.take(k - 1));
        }
        if reports[k - 1].facility == id {
            return Some(k - 1);
        }
        k = k - 1;
    }
    None
}

} // verus!
