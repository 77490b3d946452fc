//! The lists of the management screen: the construction projects of the selected
//! province and the news feed. Only a change of what a list holds rebuilds its
//! rows; progress and totals update in place.
use crate::session::{ManagementSession, ManagementViewState, NewsEntry};
use crate::world::{ConstructionProject, CountryId, FacilityDefinitionId, FacilityId, Province, ProvinceId};
use vstd::prelude::*;

verus! {

/// The two lists of the management screen.
#[derive(PartialEq, Eq, Structural, Clone, Copy)]
pub enum ManagementList {
    Projects,
    News,
}

/// What a list was last built from.
pub struct RenderedList {
    pub projects: Vec<FacilityId>,
    pub news_count: usize,
    pub initialized: bool,
}

/// The facilities under construction among the first `n` projects that lie in `province`, in order.
pub open spec fn projects_in_upto(projects: Seq<ConstructionProject>, province: ProvinceId, n: int) -> Seq<FacilityId>
    decreases n,
{
    if n <= 0 {
        Seq::empty()
    } else if projects[n - 1].province == province {
        projects_in_upto(projects, province, n - 1).push(projects[n - 1].facility_id)
    } else {
        projects_in_upto(projects, province, n - 1)
    }
}

/// The facilities under construction in `province`, in the snapshot's order.
pub open spec fn projects_in(projects: Seq<ConstructionProject>, province: ProvinceId) -> Seq<FacilityId> {
    projects_in_upto(projects, province, projects.len() as int)
}

/// Whether a list built from `rendered` still shows what the session holds: it was
/// built, and it was built from the same projects (or the same number of news entries).
pub open spec fn still_current(
    rendered: Option<RenderedList>,
    list: ManagementList,
    projects: Seq<FacilityId>,
    news_count: int,
) -> bool {
    match rendered {
        None => false,
        Some(r) => r.initialized && match list {
            ManagementList::Projects => r.projects@ == projects,
            ManagementList::News => r.news_count == news_count,
        },
    }
}

/// The facilities under construction in the selected province.
pub fn selected_projects(session: &ManagementSession, view: &ManagementViewState) -> (ids: Vec<FacilityId>)
    ensures
        ids@ == projects_in(session.snapshot.construction_projects@, view.selected_province),
{
    let projects = &session.snapshot.construction_projects;
    let mut ids: Vec<FacilityId> = Vec::new();
    let mut k: usize = 0;
    while k < projects.len()
        invariant
            k <= projects.len(),
            ids@ == projects_in_upto(projects@, view.selected_province, k as int),
        decreases projects.len() - k,
    {
        if projects[k].province == view.selected_province {
            ids.push(projects[k].facility_id);
        }
        k = k + 1;
    }
    ids
}

fn same_ids(a: &Vec<FacilityId>, b: &Vec<FacilityId>) -> (same: bool)
    ensures
        same == (a@ == b@),
{
    if a.len() != b.len() {
        return false;
    }
    let mut k: usize = 0;
    while k < a.len()
        invariant
            k <= a.len(),
            a.len() == b.len(),
            forall|m: int| 0 <= m < k ==> a@[m] == b@[m],
        decreases a.len() - k,
    {
        if a[k] != b[k] {
            return false;
        }
        k = k + 1;
    }
    assert(a@ =~= b@);
    true
}

/// Decides whether a list is rebuilt: `None` where what it shows is still current,
/// otherwise the record of what the rebuilt list is built from.
pub fn list_rebuild(
    rendered: &Option<RenderedList>,
    list: ManagementList,
    session: &ManagementSession,
    view: &ManagementViewState,
) -> (rebuilt: Option<RenderedList>)
    ensures
        rebuilt is None <==> still_current(
            *rendered,
            list,
            projects_in(session.snapshot.construction_projects@, view.selected_province),
            session.news@.len() as int,
        ),
        rebuilt matches Some(r) ==> r.initialized && r.news_count == session.news@.len()
            && r.projects@ == projects_in(session.snapshot.construction_projects@, view.selected_province),
{
    let projects = selected_projects(session, view);
    let unchanged = match rendered {
        None => false,
        Some(r) => r.initialized && match list {
            ManagementList::Projects => same_ids(&r.projects, &projects),
            ManagementList::News => r.news_count == session.news.len(),
        },
    };
    if unchanged {
        None
    } else {
        Some(RenderedList { projects, news_count: session.news.len(), initialized: true })
    }
}

/// Only what a list holds decides whether it is rebuilt: two sessions (or two
/// moments of one session) with the same projects in the selected province and
/// as many news entries leave a built list equally current, whatever else
/// changed, such as progress, totals or the day.
pub proof fn lemma_only_membership_rebuilds(
    rendered: Option<RenderedList>,
    list: ManagementList,
    a: ManagementSession,
    b: ManagementSession,
    view: ManagementViewState,
)
    requires
        projects_in(a.snapshot.construction_projects@, view.selected_province) == projects_in(
            b.snapshot.construction_projects@,
            view.selected_province,
        ),
        a.news@.len() == b.news@.len(),
    ensures
        still_current(
            rendered,
            list,
            projects_in(a.snapshot.construction_projects@, view.selected_province),
            a.news@.len() as int,
        ) == still_current(
            rendered,
            list,
            projects_in(b.snapshot.construction_projects@, view.selected_province),
            b.news@.len() as int,
        ),
{
}

/// A list just rebuilt is current: asking again at once rebuilds nothing.
pub proof fn lemma_rebuilt_list_is_current(rebuilt: RenderedList, list: ManagementList, session: ManagementSession, view: ManagementViewState)
    requires
        rebuilt.initialized,
        rebuilt.news_count == session.news@.len(),
        rebuilt.projects@ == projects_in(session.snapshot.construction_projects@, view.selected_province),
    ensures
        still_current(
            Some(rebuilt),
            list,
            projects_in(session.snapshot.construction_projects@, view.selected_province),
            session.news@.len() as int,
        ),
{
}

/// A row of the project list: the facility under construction and its kind.
pub struct ProjectRow {
    pub facility: FacilityId,
    pub definition: FacilityDefinitionId,
}

/// Position of the first project building facility `id`.
pub open spec fn first_project(projects: Seq<ConstructionProject>, id: FacilityId) -> Option<int> {
    if exists|k: int| 0 <= k < projects.len() && projects[k].facility_id == id {
        Some(
            choose|k: int|
                0 <= k < projects.len() && projects[k].facility_id == id && forall|m: int|
                    0 <= m < k ==> projects[m].facility_id != id,
        )
    } else {
        None
    }
}

fn find_project(projects: &Vec<ConstructionProject>, id: FacilityId) -> (found: Option<usize>)
    ensures
        found matches Some(k) ==> k < projects.len() && projects@[k as int].facility_id == id && forall|m: int|
            0 <= m < k ==> projects@[m].facility_id != id,
        found is None ==> forall|m: int| 0 <= m < projects.len() ==> projects@[m].facility_id != id,
{
    let mut k: usize = 0;
    while k < projects.len()
        invariant
            k <= projects.len(),
            forall|m: int| 0 <= m < k ==> projects@[m].facility_id != id,
        decreases projects.len() - k,
    {
        if projects[k].facility_id == id {
            return Some(k);
        }
        k = k + 1;
    }
    None
}

/// The rows of the project list: for each facility under construction in the
/// selected province, in order, the kind of the first project that builds it.
pub fn project_rows(session: &ManagementSession, view: &ManagementViewState) -> (rows: Vec<ProjectRow>)
    ensures
        rows@.len() == projects_in(session.snapshot.construction_projects@, view.selected_province).len(),
        forall|i: int|
            #![trigger rows@[i]]
            0 <= i < rows@.len() ==> {
                let id = projects_in(session.snapshot.construction_projects@, view.selected_province)[i];
                let k = first_project(session.snapshot.construction_projects@, id);
                &&& rows@[i].facility == id
                &&& k is Some
                &&& rows@[i].definition@ == session.snapshot.construction_projects@[k->0].definition@
            },
{
    let projects = &session.snapshot.construction_projects;
    let ids = selected_projects(session, view);
    proof {
        lemma_projects_in_members(projects@, view.selected_province, projects@.len() as int);
    }
    let mut rows: Vec<ProjectRow> = Vec::new();
    let mut i: usize = 0;
    while i < ids.len()
        invariant
            i <= ids.len(),
            projects == &session.snapshot.construction_projects,
            ids@ == projects_in(projects@, view.selected_province),
            forall|j: int|
                0 <= j < ids@.len() ==> exists|k: int| 0 <= k < projects@.len() && projects@[k].facility_id == #[trigger] ids@[j],
            rows@.len() == i,
            forall|j: int|
                #![trigger rows@[j]]
                0 <= j < i ==> {
                    let k = first_project(projects@, ids@[j]);
                    &&& rows@[j].facility == ids@[j]
                    &&& k is Some
                    &&& rows@[j].definition@ == projects@[k->0].definition@
                },
        decreases ids.len() - i,
    {
        let id = ids[i];
        assert(exists|k: int| 0 <= k < projects@.len() && projects@[k].facility_id == ids@[i as int]);
        match find_project(projects, id) {
            Some(k) => {
                proof {
                    let c = first_project(projects@, id);
                    assert(c is Some);
                    let kc = c->0;
                    if kc < k {
                    } else if kc > k {
                    }
                    assert(kc == k);
                }
                rows.push(ProjectRow { facility: id, definition: projects[k].definition.clone() });
            },
            None => {
                proof {
                    assert(false);
                }
            },
        }
        i = i + 1;
    }
    rows
}

proof fn lemma_projects_in_members(projects: Seq<ConstructionProject>, province: ProvinceId, n: int)
    requires
        0 <= n <= projects.len(),
    ensures
        forall|j: int|
            0 <= j < projects_in_upto(projects, province, n).len() ==> exists|k: int|
                0 <= k < n && projects[k].facility_id == #[trigger] projects_in_upto(projects, province, n)[j],
    decreases n,
{
    if n > 0 {
        lemma_projects_in_members(projects, province, n - 1);
        let earlier = projects_in_upto(projects, province, n - 1);
        assert forall|j: int|
            0 <= j < projects_in_upto(projects, province, n).len() implies exists|k: int|
                0 <= k < n && projects[k].facility_id == #[trigger] projects_in_upto(projects, province, n)[j] by {
            if j < earlier.len() {
                assert(projects_in_upto(projects, province, n)[j] == earlier[j]);
                let k = choose|k: int| 0 <= k < n - 1 && projects[k].facility_id == #[trigger] earlier[j];
                assert(0 <= k < n);
            } else {
                assert(projects[n - 1].facility_id == projects_in_upto(projects, province, n)[j]);
            }
        }
    }
}

/// The news feed, newest first.
pub fn news_feed(session: &ManagementSession) -> (feed: Vec<NewsEntry>)
    ensures
        feed@ == session.news@.reverse(),
{
    let news = &session.news;
    let mut feed: Vec<NewsEntry> = Vec::new();
    let mut k: usize = news.len();
    while k > 0
        invariant
            k <= news.len(),
            feed@ == news@.subrange(k as int, news@.len() as int).reverse(),
        decreases k,
    {
        let entry = NewsEntry { day: news[k - 1].day, event: news[k - 1].event.copied() };
        proof {
            assert(news@.subrange(k - 1, news@.len() as int).reverse() =~= news@.subrange(
                k as int,
                news@.len() as int,
            ).reverse().push(news@[k - 1]));
        }
        feed.push(entry);
        k = k - 1;
    }
    assert(news@.subrange(0, news@.len() as int) =~= news@);
    feed
}

/// The latest `limit` news entries, newest first, as the world map's feed shows them.
pub fn latest_news(session: &ManagementSession, limit: usize) -> (latest: Vec<NewsEntry>)
    ensures
        latest@ == session.news@.reverse().take(if limit < session.news@.len() { limit as int } else { session.news@.len() as int }),
{
    let news = &session.news;
    let mut latest: Vec<NewsEntry> = Vec::new();
    let mut k: usize = news.len();
    while k > 0 && latest.len() < limit
        invariant
            k <= news@.len(),
            latest@.len() == news@.len() - k,
            latest@.len() <= limit,
            latest@ == news@.reverse().take(news@.len() - k),
        decreases k,
    {
        let entry = NewsEntry { day: news[k - 1].day, event: news[k - 1].event.copied() };
        latest.push(entry);
        proof {
            assert(news@.reverse().take(news@.len() - k + 1) =~= news@.reverse().take(news@.len() - k).push(news@[k - 1]));
        }
        k = k - 1;
    }
    latest
}

/// The identities of the first `n` provinces that belong to `country`, in order.
pub open spec fn provinces_of_upto(provinces: Seq<Province>, country: CountryId, n: int) -> Seq<ProvinceId>
    decreases n,
{
    if n <= 0 {
        Seq::empty()
    } else if provinces[n - 1].country == country {
        provinces_of_upto(provinces, country, n - 1).push(provinces[n - 1].id)
    } else {
        provinces_of_upto(provinces, country, n - 1)
    }
}

/// The provinces that the management screen lists for selection: the player's, in
/// the snapshot's order.
pub fn player_provinces(session: &ManagementSession) -> (ids: Vec<ProvinceId>)
    ensures
        ids@ == provinces_of_upto(
            session.snapshot.provinces@,
            session.player_country,
            session.snapshot.provinces@.len() as int,
        ),
{
    let provinces = &session.snapshot.provinces;
    let mut ids: Vec<ProvinceId> = Vec::new();
    let mut k: usize = 0;
    while k < provinces.len()
        invariant
            k <= provinces@.len(),
            ids@ == provinces_of_upto(provinces@, session.player_country, k as int),
        decreases provinces.len() - k,
    {
        if provinces[k].country == session.player_country {
            ids.push(provinces[k].id);
        }
        k = k + 1;
    }
    ids
}

/// At most this many provinces are listed on one page of the management screen.
pub const PROVINCE_PAGE_SIZE: usize = 32;

/// The `page`-th run of `PROVINCE_PAGE_SIZE` entries of `ids` (empty past the end).
pub open spec fn page_of(ids: Seq<ProvinceId>, page: int) -> Seq<ProvinceId> {
    let start = if page * PROVINCE_PAGE_SIZE < ids.len() {
        page * PROVINCE_PAGE_SIZE
    } else {
        ids.len() as int
    };
    let end = if start + PROVINCE_PAGE_SIZE < ids.len() {
        start + PROVINCE_PAGE_SIZE
    } else {
        ids.len() as int
    };
    ids.subrange(start, end)
}

/// The provinces that one page of the management screen lists for selection: the
/// `page`-th run of at most `PROVINCE_PAGE_SIZE` of the player's provinces, in the
/// snapshot's order, so that a large country never makes thousands of rows.
pub fn province_page_ids(session: &ManagementSession, page: usize) -> (ids: Vec<ProvinceId>)
    ensures
        ids@ == page_of(
            provinces_of_upto(
                session.snapshot.provinces@,
                session.player_country,
                session.snapshot.provinces@.len() as int,
            ),
            page as int,
        ),
        ids@.len() <= PROVINCE_PAGE_SIZE,
{
    let owned = player_provinces(session);
    let len = owned.len();
    let start = if page <= len / PROVINCE_PAGE_SIZE {
        proof {
            assert(page * 32 <= len) by (nonlinear_arith)
                requires
                    page <= len / 32,
            ;
        }
        page * PROVINCE_PAGE_SIZE
    } else {
        proof {
            assert(page * 32 > len) by (nonlinear_arith)
                requires
                    page > len / 32,
            ;
        }
        len
    };
    let end = if len - start > PROVINCE_PAGE_SIZE {
        start + PROVINCE_PAGE_SIZE
    } else {
        len
    };
    let mut ids: Vec<ProvinceId> = Vec::new();
    let mut k: usize = start;
    while k < end
        invariant
            start <= k <= end,
            end <= owned@.len(),
            ids@ == owned@.subrange(start as int, k as int),
        decreases end - k,
    {
        ids.push(owned[k]);
        proof {
            assert(owned@.subrange(start as int, k + 1) =~= owned@.subrange(start as int, k as int).push(owned@[k as int]));
        }
        k = k + 1;
    }
    ids
}

} // verus!
