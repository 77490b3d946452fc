//! What the facilities of a territory produce: per facility kind, the workers its
//! levels call for, the workers the last day report shows at work, the goods
//! they used and made, and the construction work they did; and the building
//! card that the inspection panel shows for each kind.
use crate::construction::{construction_site, is_construction_site, siting_fits};
use crate::session::{ManagementSession, PendingConstruction};
use crate::text::{lemma_lex_total, lemma_lex_transitive, lex_less, text_less};
use crate::world::{
    ConstructionProject, Province, Facility, FacilityDayReport, FacilityDefinition, FacilityDefinitionId,
    GoodAmount, GoodId, ProvinceId,
};
use std::collections::BTreeSet;
use vstd::prelude::*;

verus! {

broadcast use {vstd::std_specs::btree::group_btree_axioms, vstd::laws_cmp::group_laws_cmp};

/// The summed amount of one good.
pub struct GoodTotal {
    pub good: GoodId,
    pub amount: u128,
}

/// Sum of the amounts of the entries that name `good`.
pub open spec fn entries_total(entries: Seq<GoodAmount>, good: Seq<char>) -> int
    decreases entries.len(),
{
    if entries.len() == 0 {
        0
    } else {
        entries_total(entries.drop_last(), good) + if entries.last().good@ == good {
            entries.last().amount as int
        } else {
            0
        }
    }
}

/// Sum of the totals that name `good`.
pub open spec fn total_in(totals: Seq<GoodTotal>, good: Seq<char>) -> int
    decreases totals.len(),
{
    if totals.len() == 0 {
        0
    } else {
        total_in(totals.drop_last(), good) + if totals.last().good@ == good {
            totals.last().amount as int
        } else {
            0
        }
    }
}

/// Whether some total names `good`.
pub open spec fn names_good(totals: Seq<GoodTotal>, good: Seq<char>) -> bool {
    exists|i: int| 0 <= i < totals.len() && #[trigger] totals[i].good@ == good
}

/// Whether the totals come in the order of their goods' names, each good once.
pub open spec fn sorted_goods(totals: Seq<GoodTotal>) -> bool {
    forall|i: int, j: int|
        #![trigger totals[i], totals[j]]
        0 <= i < j < totals.len() ==> lex_less(totals[i].good@, totals[j].good@)
}

proof fn lemma_total_in_concat(a: Seq<GoodTotal>, b: Seq<GoodTotal>, good: Seq<char>)
    ensures
        total_in(a + b, good) == total_in(a, good) + total_in(b, good),
    decreases b.len(),
{
    if b.len() == 0 {
        assert(a + b =~= a);
    } else {
        assert((a + b).drop_last() =~= a + b.drop_last());
        lemma_total_in_concat(a, b.drop_last(), good);
    }
}

proof fn lemma_total_in_single(x: GoodTotal, good: Seq<char>)
    ensures
        total_in(seq![x], good) == if x.good@ == good {
            x.amount as int
        } else {
            0
        },
{
    assert(seq![x].drop_last() =~= Seq::<GoodTotal>::empty());
    assert(total_in(seq![x].drop_last(), good) == 0);
    assert(seq![x].last() == x);
}

/// In sorted totals, the total of a good is the amount of its one entry.
proof fn lemma_sorted_total(totals: Seq<GoodTotal>, i: int)
    requires
        sorted_goods(totals),
        0 <= i < totals.len(),
    ensures
        total_in(totals, totals[i].good@) == totals[i].amount,
    decreases totals.len(),
{
    let good = totals[i].good@;
    if i == totals.len() - 1 {
        lemma_sorted_absent(totals.drop_last(), good);
    } else {
        assert(sorted_goods(totals.drop_last()));
        lemma_sorted_total(totals.drop_last(), i);
        assert(lex_less(totals[i].good@, totals.last().good@));
        crate::text::lemma_lex_irreflexive(good);
    }
}

/// In sorted totals, a good that comes after every entry has no total.
proof fn lemma_sorted_absent(totals: Seq<GoodTotal>, good: Seq<char>)
    requires
        sorted_goods(totals),
        forall|k: int| 0 <= k < totals.len() ==> lex_less(#[trigger] totals[k].good@, good),
    ensures
        total_in(totals, good) == 0,
    decreases totals.len(),
{
    if totals.len() > 0 {
        assert(sorted_goods(totals.drop_last()));
        lemma_sorted_absent(totals.drop_last(), good);
        assert(lex_less(totals[totals.len() - 1].good@, good));
        crate::text::lemma_lex_irreflexive(good);
    }
}

/// The first position whose good does not come before `good`.
fn insertion_point(totals: &Vec<GoodTotal>, good: &GoodId) -> (p: usize)
    ensures
        p <= totals.len(),
        forall|k: int| 0 <= k < p ==> lex_less(#[trigger] totals@[k].good@, good@),
        p < totals.len() ==> !lex_less(totals@[p as int].good@, good@),
{
    let mut p: usize = 0;
    while p < totals.len()
        invariant
            p <= totals.len(),
            forall|k: int| 0 <= k < p ==> lex_less(#[trigger] totals@[k].good@, good@),
        decreases totals.len() - p,
    {
        if !text_less(totals[p].good.as_str(), good.as_str()) {
            return p;
        }
        p = p + 1;
    }
    p
}

/// Adds `amount` of `good` to sorted totals, keeping them sorted: the good's
/// entry grows, or a new entry takes its place in the order.
fn add_total(totals: &mut Vec<GoodTotal>, good: &GoodId, amount: u64)
    requires
        sorted_goods(old(totals)@),
        total_in(old(totals)@, good@) + amount <= u128::MAX,
    ensures
        sorted_goods(final(totals)@),
        forall|g: Seq<char>|
            #![trigger total_in(final(totals)@, g)]
            total_in(final(totals)@, g) == total_in(old(totals)@, g) + if g == good@ {
                amount as int
            } else {
                0
            },
        forall|g: Seq<char>|
            #![trigger names_good(final(totals)@, g)]
            names_good(final(totals)@, g) <==> names_good(old(totals)@, g) || g == good@,
{
    let ghost before = totals@;
    let p = insertion_point(totals, good);
    if p < totals.len() && totals[p].good == *good {
        proof {
            lemma_sorted_total(before, p as int);
        }
        let grown = totals[p].amount + amount as u128;
        totals[p].amount = grown;
        proof {
            let after = totals@;
            assert(before =~= before.take(p as int) + seq![before[p as int]] + before.skip(p + 1));
            assert(after =~= before.take(p as int) + seq![after[p as int]] + before.skip(p + 1));
            assert forall|g: Seq<char>| #[trigger]
                total_in(after, g) == total_in(before, g) + if g == good@ {
                    amount as int
                } else {
                    0
                } by {
                lemma_total_in_concat(before.take(p as int) + seq![before[p as int]], before.skip(p + 1), g);
                lemma_total_in_concat(before.take(p as int), seq![before[p as int]], g);
                lemma_total_in_concat(before.take(p as int) + seq![after[p as int]], before.skip(p + 1), g);
                lemma_total_in_concat(before.take(p as int), seq![after[p as int]], g);
                lemma_total_in_single(before[p as int], g);
                lemma_total_in_single(after[p as int], g);
            }
            assert forall|g: Seq<char>|
                #[trigger] names_good(after, g) <==> names_good(before, g) || g == good@ by {
                if names_good(before, g) {
                    let i = choose|i: int| 0 <= i < before.len() && before[i].good@ == g;
                    assert(after[i].good@ == g);
                }
                if names_good(after, g) {
                    let i = choose|i: int| 0 <= i < after.len() && after[i].good@ == g;
                    assert(before[i].good@ == g);
                }
                if g == good@ {
                    assert(after[p as int].good@ == g);
                }
            }
            assert forall|i: int, j: int|
                #![trigger after[i], after[j]]
                0 <= i < j < after.len() implies lex_less(after[i].good@, after[j].good@) by {
                assert(before[i].good@ == after[i].good@);
                assert(before[j].good@ == after[j].good@);
            }
        }
    } else {
        let entry = GoodTotal { good: good.clone(), amount: amount as u128 };
        totals.insert(p, entry);
        proof {
            let after = totals@;
            assert(before =~= before.take(p as int) + before.skip(p as int));
            assert(after =~= before.take(p as int) + seq![entry] + before.skip(p as int));
            assert forall|g: Seq<char>| #[trigger]
                total_in(after, g) == total_in(before, g) + if g == good@ {
                    amount as int
                } else {
                    0
                } by {
                lemma_total_in_concat(before.take(p as int), before.skip(p as int), g);
                lemma_total_in_concat(before.take(p as int) + seq![entry], before.skip(p as int), g);
                lemma_total_in_concat(before.take(p as int), seq![entry], g);
                lemma_total_in_single(entry, g);
            }
            assert forall|g: Seq<char>|
                #[trigger] names_good(after, g) <==> names_good(before, g) || g == good@ by {
                if names_good(before, g) {
                    let i = choose|i: int| 0 <= i < before.len() && before[i].good@ == g;
                    if i < p {
                        assert(after[i].good@ == g);
                    } else {
                        assert(after[i + 1].good@ == g);
                    }
                }
                if names_good(after, g) {
                    let i = choose|i: int| 0 <= i < after.len() && after[i].good@ == g;
                    if i < p {
                        assert(before[i].good@ == g);
                    } else if i > p {
                        assert(before[i - 1].good@ == g);
                    }
                }
                if g == good@ {
                    assert(after[p as int].good@ == g);
                }
            }
            if p < before.len() {
                lemma_lex_total(before[p as int].good@, good@);
            }
            assert forall|i: int, j: int|
                #![trigger after[i], after[j]]
                0 <= i < j < after.len() implies lex_less(after[i].good@, after[j].good@) by {
                if j < p {
                    assert(after[i] == before[i] && after[j] == before[j]);
                } else if j == p {
                    assert(after[i] == before[i]);
                } else if i > p {
                    assert(after[i] == before[i - 1] && after[j] == before[j - 1]);
                } else if i == p {
                    assert(after[j] == before[j - 1]);
                    if j - 1 > p {
                        assert(lex_less(before[p as int].good@, before[j - 1].good@));
                        lemma_lex_transitive(good@, before[p as int].good@, before[j - 1].good@);
                    }
                } else {
                    assert(after[i] == before[i] && after[j] == before[j - 1]);
                    assert(lex_less(before[i].good@, good@));
                    if j - 1 > p {
                        assert(lex_less(before[p as int].good@, before[j - 1].good@));
                        lemma_lex_transitive(good@, before[p as int].good@, before[j - 1].good@);
                    }
                    lemma_lex_transitive(before[i].good@, good@, before[j - 1].good@);
                }
            }
        }
    }
}

/// Position of the last definition named `id` among the first `n`.
pub open spec fn last_definition_upto(definitions: Seq<FacilityDefinition>, id: Seq<char>, n: int) -> Option<int>
    decreases n,
{
    if n <= 0 {
        None
    } else if definitions[n - 1].id@ == id {
        Some(n - 1)
    } else {
        last_definition_upto(definitions, id, n - 1)
    }
}

/// Position of the last definition named `id`: the one that a lookup by name finds
/// once the definitions are keyed by name.
pub open spec fn last_definition(definitions: Seq<FacilityDefinition>, id: Seq<char>) -> Option<int> {
    last_definition_upto(definitions, id, definitions.len() as int)
}

/// The kind of the last facility among the first `n` that lies in `scope` and has identity `id`.
pub open spec fn scoped_kind_upto(facilities: Seq<Facility>, scope: Set<ProvinceId>, id: u128, n: int) -> Option<Seq<char>>
    decreases n,
{
    if n <= 0 {
        None
    } else if scope.contains(facilities[n - 1].province) && facilities[n - 1].id == id {
        Some(facilities[n - 1].definition@)
    } else {
        scoped_kind_upto(facilities, scope, id, n - 1)
    }
}

/// Whether a facility result belongs to a facility of kind `kind` in `scope`, as
/// the last facility in scope with the result's identity tells.
pub open spec fn of_kind(facilities: Seq<Facility>, scope: Set<ProvinceId>, kind: Seq<char>, result: FacilityDayReport) -> bool {
    scoped_kind_upto(facilities, scope, result.facility, facilities.len() as int) == Some(kind)
}

/// Workers that the levels of the first `n` facilities of kind `kind` in `scope`
/// call for, where the kind has a definition.
pub open spec fn capacity_upto(
    facilities: Seq<Facility>,
    definitions: Seq<FacilityDefinition>,
    scope: Set<ProvinceId>,
    kind: Seq<char>,
    n: int,
) -> int
    decreases n,
{
    if n <= 0 {
        0
    } else {
        let facility = facilities[n - 1];
        capacity_upto(facilities, definitions, scope, kind, n - 1) + if scope.contains(facility.province)
            && facility.definition@ == kind {
            match last_definition(definitions, kind) {
                Some(k) => facility.level * definitions[k].workers_per_level,
                None => 0,
            }
        } else {
            0
        }
    }
}

/// Active workers (or construction work) of the first `n` results of kind `kind`.
pub open spec fn reported_upto(
    results: Seq<FacilityDayReport>,
    facilities: Seq<Facility>,
    scope: Set<ProvinceId>,
    kind: Seq<char>,
    points: bool,
    n: int,
) -> int
    decreases n,
{
    if n <= 0 {
        0
    } else {
        let result = results[n - 1];
        reported_upto(results, facilities, scope, kind, points, n - 1) + if of_kind(facilities, scope, kind, result) {
            if points {
                result.construction_points as int
            } else {
                result.active_workers as int
            }
        } else {
            0
        }
    }
}

/// The goods that a result used, or made.
pub open spec fn used_goods(result: FacilityDayReport, outputs: bool) -> Seq<GoodAmount> {
    if outputs {
        result.outputs@
    } else {
        result.inputs@
    }
}

/// Amount of `good` that the first `n` results of kind `kind` used (or made).
pub open spec fn goods_upto(
    results: Seq<FacilityDayReport>,
    facilities: Seq<Facility>,
    scope: Set<ProvinceId>,
    kind: Seq<char>,
    outputs: bool,
    good: Seq<char>,
    n: int,
) -> int
    decreases n,
{
    if n <= 0 {
        0
    } else {
        goods_upto(results, facilities, scope, kind, outputs, good, n - 1) + if of_kind(
            facilities,
            scope,
            kind,
            results[n - 1],
        ) {
            entries_total(used_goods(results[n - 1], outputs), good)
        } else {
            0
        }
    }
}

/// Whether some entry names `good`.
pub open spec fn lists_good(entries: Seq<GoodAmount>, good: Seq<char>) -> bool {
    exists|k: int| 0 <= k < entries.len() && #[trigger] entries[k].good@ == good
}

/// Whether one of the first `n` results of kind `kind` used (or made) `good`.
pub open spec fn good_reported_upto(
    results: Seq<FacilityDayReport>,
    facilities: Seq<Facility>,
    scope: Set<ProvinceId>,
    kind: Seq<char>,
    outputs: bool,
    good: Seq<char>,
    n: int,
) -> bool
    decreases n,
{
    if n <= 0 {
        false
    } else {
        good_reported_upto(results, facilities, scope, kind, outputs, good, n - 1) || (of_kind(
            facilities,
            scope,
            kind,
            results[n - 1],
        ) && lists_good(used_goods(results[n - 1], outputs), good))
    }
}

/// Whether `totals` lists each good that the results of kind `kind` used (or
/// made), once and in the order of the goods' names, with its summed amount.
pub open spec fn goods_summed(
    results: Seq<FacilityDayReport>,
    facilities: Seq<Facility>,
    scope: Set<ProvinceId>,
    kind: Seq<char>,
    outputs: bool,
    totals: Seq<GoodTotal>,
) -> bool {
    &&& sorted_goods(totals)
    &&& forall|i: int|
        0 <= i < totals.len() ==> #[trigger] totals[i].amount == goods_upto(
            results,
            facilities,
            scope,
            kind,
            outputs,
            totals[i].good@,
            results.len() as int,
        )
    &&& forall|good: Seq<char>|
        #[trigger] names_good(totals, good) <==> good_reported_upto(
            results,
            facilities,
            scope,
            kind,
            outputs,
            good,
            results.len() as int,
        )
}

/// What the facilities of one kind in a territory produce.
pub struct ProductionSummary {
    pub capacity: u128,
    pub active_workers: u128,
    pub inputs: Vec<GoodTotal>,
    pub outputs: Vec<GoodTotal>,
    pub construction_points: u128,
}

/// Whether `summary` is the production of the facilities of kind `kind` in `scope`:
/// their capacity from the snapshot, and from the last day report (nothing without
/// one) their active workers, construction work and goods used and made.
pub open spec fn summarizes(
    session: ManagementSession,
    scope: Set<ProvinceId>,
    kind: Seq<char>,
    summary: ProductionSummary,
) -> bool {
    let facilities = session.snapshot.facilities@;
    &&& summary.capacity == capacity_upto(
        facilities,
        session.definitions.facilities@,
        scope,
        kind,
        facilities.len() as int,
    )
    &&& match session.last_report {
        None => summary.active_workers == 0 && summary.construction_points == 0
            && summary.inputs@.len() == 0 && summary.outputs@.len() == 0,
        Some(report) => {
            let results = report.facilities@;
            &&& summary.active_workers == reported_upto(results, facilities, scope, kind, false, results.len() as int)
            &&& summary.construction_points == reported_upto(results, facilities, scope, kind, true, results.len() as int)
            &&& goods_summed(results, facilities, scope, kind, false, summary.inputs@)
            &&& goods_summed(results, facilities, scope, kind, true, summary.outputs@)
        },
    }
}

/// Whether the sums of a production summary stay within `u128`.
pub open spec fn summary_fits(session: ManagementSession, scope: Set<ProvinceId>, kind: Seq<char>) -> bool {
    let facilities = session.snapshot.facilities@;
    &&& capacity_upto(facilities, session.definitions.facilities@, scope, kind, facilities.len() as int)
        <= u128::MAX
    &&& session.last_report matches Some(report) ==> forall|outputs: bool, good: Seq<char>|
        #[trigger] goods_upto(
            report.facilities@,
            facilities,
            scope,
            kind,
            outputs,
            good,
            report.facilities@.len() as int,
        ) <= u128::MAX
}

proof fn lemma_entries_prefix(entries: Seq<GoodAmount>, good: Seq<char>, m: int, n: int)
    requires
        0 <= m <= n <= entries.len(),
    ensures
        0 <= entries_total(entries.take(m), good) <= entries_total(entries.take(n), good),
    decreases n,
{
    if n > 0 {
        assert(entries.take(n).drop_last() =~= entries.take(n - 1));
    }
    if n > m {
        lemma_entries_prefix(entries, good, m, n - 1);
    } else if m > 0 {
        lemma_entries_prefix(entries, good, m - 1, m - 1);
    }
}

proof fn lemma_capacity_monotone(
    facilities: Seq<Facility>,
    definitions: Seq<FacilityDefinition>,
    scope: Set<ProvinceId>,
    kind: Seq<char>,
    m: int,
    n: int,
)
    requires
        0 <= m <= n <= facilities.len(),
    ensures
        0 <= capacity_upto(facilities, definitions, scope, kind, m) <= capacity_upto(
            facilities,
            definitions,
            scope,
            kind,
            n,
        ),
    decreases n,
{
    if n > 0 {
        if let Some(k) = last_definition(definitions, kind) {
            let level = facilities[n - 1].level;
            let per = definitions[k].workers_per_level;
            assert(level * per >= 0) by (nonlinear_arith)
                requires
                    level >= 0,
                    per >= 0,
            ;
        }
    }
    if n > m {
        lemma_capacity_monotone(facilities, definitions, scope, kind, m, n - 1);
    } else if m > 0 {
        lemma_capacity_monotone(facilities, definitions, scope, kind, m - 1, m - 1);
    }
}

proof fn lemma_reported_bounded(
    results: Seq<FacilityDayReport>,
    facilities: Seq<Facility>,
    scope: Set<ProvinceId>,
    kind: Seq<char>,
    points: bool,
    n: int,
)
    requires
        0 <= n <= results.len(),
    ensures
        0 <= reported_upto(results, facilities, scope, kind, points, n) <= n * 0xffff_ffff_ffff_ffff,
    decreases n,
{
    if n > 0 {
        lemma_reported_bounded(results, facilities, scope, kind, points, n - 1);
    }
}

proof fn lemma_goods_monotone(
    results: Seq<FacilityDayReport>,
    facilities: Seq<Facility>,
    scope: Set<ProvinceId>,
    kind: Seq<char>,
    outputs: bool,
    good: Seq<char>,
    m: int,
    n: int,
)
    requires
        0 <= m <= n <= results.len(),
    ensures
        0 <= goods_upto(results, facilities, scope, kind, outputs, good, m) <= goods_upto(
            results,
            facilities,
            scope,
            kind,
            outputs,
            good,
            n,
        ),
    decreases n,
{
    if n > 0 {
        let entries = used_goods(results[n - 1], outputs);
        lemma_entries_prefix(entries, good, entries.len() as int, entries.len() as int);
        assert(entries.take(entries.len() as int) =~= entries);
    }
    if n > m {
        lemma_goods_monotone(results, facilities, scope, kind, outputs, good, m, n - 1);
    } else if m > 0 {
        lemma_goods_monotone(results, facilities, scope, kind, outputs, good, m - 1, m - 1);
    }
}

/// Finds the last definition of a facility kind.
fn last_definition_index(definitions: &Vec<FacilityDefinition>, id: &FacilityDefinitionId) -> (found: Option<usize>)
    ensures
        found matches Some(k) ==> k < definitions.len() && last_definition(definitions@, id@) == Some(k as int),
        found is None ==> last_definition(definitions@, id@) is None,
{
    let mut i: usize = definitions.len();
    while i > 0
        invariant
            i <= definitions.len(),
            last_definition(definitions@, id@) == last_definition_upto(definitions@, id@, i as int),
        decreases i,
    {
        if definitions[i - 1].id == *id {
            return Some(i - 1);
        }
        i = i - 1;
    }
    None
}

/// Finds the last facility in `scope` with identity `id`.
fn scoped_facility(facilities: &Vec<Facility>, scope: &BTreeSet<ProvinceId>, id: u128) -> (found: Option<usize>)
    ensures
        found matches Some(k) ==> k < facilities.len() && scoped_kind_upto(
            facilities@,
            scope@,
            id,
            facilities@.len() as int,
        ) == Some(facilities@[k as int].definition@),
        found is None ==> scoped_kind_upto(facilities@, scope@, id, facilities@.len() as int) is None,
{
    let mut i: usize = facilities.len();
    while i > 0
        invariant
            i <= facilities.len(),
            scoped_kind_upto(facilities@, scope@, id, facilities@.len() as int) == scoped_kind_upto(
                facilities@,
                scope@,
                id,
                i as int,
            ),
        decreases i,
    {
        if scope.contains(&facilities[i - 1].province) && facilities[i - 1].id == id {
            return Some(i - 1);
        }
        i = i - 1;
    }
    None
}

/// Adds every entry to sorted totals.
fn add_all(totals: &mut Vec<GoodTotal>, entries: &Vec<GoodAmount>)
    requires
        sorted_goods(old(totals)@),
        forall|g: Seq<char>|
            #![trigger total_in(old(totals)@, g)]
            total_in(old(totals)@, g) + entries_total(entries@, g) <= u128::MAX,
    ensures
        sorted_goods(final(totals)@),
        forall|g: Seq<char>|
            #![trigger total_in(final(totals)@, g)]
            total_in(final(totals)@, g) == total_in(old(totals)@, g) + entries_total(entries@, g),
        forall|g: Seq<char>|
            #![trigger names_good(final(totals)@, g)]
            names_good(final(totals)@, g) <==> names_good(old(totals)@, g) || lists_good(entries@, g),
{
    let ghost before = totals@;
    let mut m: usize = 0;
    assert(entries@.take(entries@.len() as int) =~= entries@);
    while m < entries.len()
        invariant
            m <= entries.len(),
            sorted_goods(totals@),
            forall|g: Seq<char>|
                #![trigger total_in(before, g)]
                total_in(before, g) + entries_total(entries@, g) <= u128::MAX,
            forall|g: Seq<char>|
                #![trigger total_in(totals@, g)]
                total_in(totals@, g) == total_in(before, g) + entries_total(entries@.take(m as int), g),
            forall|g: Seq<char>|
                #![trigger names_good(totals@, g)]
                names_good(totals@, g) <==> names_good(before, g) || lists_good(entries@.take(m as int), g),
            entries@.take(entries@.len() as int) == entries@,
        decreases entries.len() - m,
    {
        let ghost current = totals@;
        let good = &entries[m].good;
        proof {
            assert(entries@.take(m + 1).drop_last() =~= entries@.take(m as int));
            lemma_entries_prefix(entries@, good@, m + 1, entries@.len() as int);
            assert(total_in(before, good@) + entries_total(entries@, good@) <= u128::MAX);
        }
        add_total(totals, good, entries[m].amount);
        proof {
            assert forall|g: Seq<char>| #[trigger]
                total_in(totals@, g) == total_in(before, g) + entries_total(entries@.take(m + 1), g) by {
                assert(entries@.take(m + 1).drop_last() =~= entries@.take(m as int));
                assert(total_in(current, g) == total_in(before, g) + entries_total(entries@.take(m as int), g));
            }
            assert forall|g: Seq<char>|
                #[trigger] names_good(totals@, g) <==> names_good(before, g) || lists_good(entries@.take(m + 1), g) by {
                assert(names_good(current, g) <==> names_good(before, g) || lists_good(entries@.take(m as int), g));
                if lists_good(entries@.take(m + 1), g) {
                    let k = choose|k: int| 0 <= k < m + 1 && #[trigger] entries@.take(m + 1)[k].good@ == g;
                    if k < m {
                        assert(entries@.take(m as int)[k].good@ == g);
                    }
                }
                if lists_good(entries@.take(m as int), g) {
                    let k = choose|k: int| 0 <= k < m && #[trigger] entries@.take(m as int)[k].good@ == g;
                    assert(entries@.take(m + 1)[k].good@ == g);
                }
                if g == good@ {
                    assert(entries@.take(m + 1)[m as int].good@ == g);
                }
            }
        }
        m = m + 1;
    }
}

/// The production of the facilities of kind `kind` in the territory `scope`.
pub fn production_summary(
    session: &ManagementSession,
    scope: &BTreeSet<ProvinceId>,
    kind: &FacilityDefinitionId,
) -> (summary: ProductionSummary)
    requires
        summary_fits(*session, scope@, kind@),
    ensures
        summarizes(*session, scope@, kind@, summary),
{
    let facilities = &session.snapshot.facilities;
    let definitions = &session.definitions.facilities;
    let known = last_definition_index(definitions, kind);
    let mut capacity: u128 = 0;
    let mut f: usize = 0;
    while f < facilities.len()
        invariant
            f <= facilities.len(),
            facilities == &session.snapshot.facilities,
            definitions == &session.definitions.facilities,
            known matches Some(k) ==> k < definitions.len() && last_definition(definitions@, kind@) == Some(k as int),
            known is None ==> last_definition(definitions@, kind@) is None,
            capacity == capacity_upto(facilities@, definitions@, scope@, kind@, f as int),
            summary_fits(*session, scope@, kind@),
        decreases facilities.len() - f,
    {
        proof {
            lemma_capacity_monotone(facilities@, definitions@, scope@, kind@, f + 1, facilities@.len() as int);
        }
        let facility = &facilities[f];
        if scope.contains(&facility.province) && facility.definition == *kind {
            match known {
                Some(k) => {
                    capacity = capacity + facility.level as u128 * definitions[k].workers_per_level as u128;
                },
                None => {},
            }
        }
        f = f + 1;
    }
    let mut active_workers: u128 = 0;
    let mut construction_points: u128 = 0;
    let mut inputs: Vec<GoodTotal> = Vec::new();
    let mut outputs: Vec<GoodTotal> = Vec::new();
    match &session.last_report {
        None => {},
        Some(report) => {
            let results = &report.facilities;
            proof {
                assert forall|outputs: bool, g: Seq<char>|
                    #![trigger goods_upto(results@, facilities@, scope@, kind@, outputs, g, results@.len() as int)]
                    goods_upto(results@, facilities@, scope@, kind@, outputs, g, results@.len() as int)
                        <= u128::MAX by {
                    assert(session.last_report matches Some(r) && r == *report);
                }
            }
            let mut j: usize = 0;
            while j < results.len()
                invariant
                    j <= results.len(),
                    forall|outputs: bool, g: Seq<char>|
                        #![trigger goods_upto(results@, facilities@, scope@, kind@, outputs, g, results@.len() as int)]
                        goods_upto(results@, facilities@, scope@, kind@, outputs, g, results@.len() as int)
                            <= u128::MAX,
                    facilities == &session.snapshot.facilities,
                    session.last_report == Some(*report),
                    results == &report.facilities,
                    summary_fits(*session, scope@, kind@),
                    active_workers == reported_upto(results@, facilities@, scope@, kind@, false, j as int),
                    construction_points == reported_upto(results@, facilities@, scope@, kind@, true, j as int),
                    sorted_goods(inputs@),
                    sorted_goods(outputs@),
                    forall|g: Seq<char>|
                        #![trigger total_in(inputs@, g)]
                        total_in(inputs@, g) == goods_upto(results@, facilities@, scope@, kind@, false, g, j as int),
                    forall|g: Seq<char>|
                        #![trigger total_in(outputs@, g)]
                        total_in(outputs@, g) == goods_upto(results@, facilities@, scope@, kind@, true, g, j as int),
                    forall|g: Seq<char>|
                        #![trigger names_good(inputs@, g)]
                        names_good(inputs@, g) <==> good_reported_upto(results@, facilities@, scope@, kind@, false, g, j as int),
                    forall|g: Seq<char>|
                        #![trigger names_good(outputs@, g)]
                        names_good(outputs@, g) <==> good_reported_upto(results@, facilities@, scope@, kind@, true, g, j as int),
                decreases results.len() - j,
            {
                let result = &results[j];
                proof {
                    lemma_reported_bounded(results@, facilities@, scope@, kind@, false, j as int);
                    lemma_reported_bounded(results@, facilities@, scope@, kind@, true, j as int);
                    assert(j * 0xffff_ffff_ffff_ffff <= 0xffff_ffff_ffff_ffff * 0xffff_ffff_ffff_ffff) by (nonlinear_arith)
                        requires
                            j <= 0xffff_ffff_ffff_ffff,
                    ;
                }
                let matched = match scoped_facility(facilities, scope, result.facility) {
                    Some(k) => facilities[k].definition == *kind,
                    None => false,
                };
                assert(matched == of_kind(facilities@, scope@, kind@, results@[j as int]));
                if matched {
                    active_workers = active_workers + result.active_workers as u128;
                    construction_points = construction_points + result.construction_points as u128;
                    proof {
                        assert forall|g: Seq<char>|
                            #![trigger total_in(inputs@, g)]
                            total_in(inputs@, g) + entries_total(result.inputs@, g) <= u128::MAX by {
                            lemma_goods_monotone(results@, facilities@, scope@, kind@, false, g, j + 1, results@.len() as int);
                            assert(goods_upto(results@, facilities@, scope@, kind@, false, g, results@.len() as int) <= u128::MAX);
                        }
                        assert forall|g: Seq<char>|
                            #![trigger total_in(outputs@, g)]
                            total_in(outputs@, g) + entries_total(result.outputs@, g) <= u128::MAX by {
                            lemma_goods_monotone(results@, facilities@, scope@, kind@, true, g, j + 1, results@.len() as int);
                            assert(goods_upto(results@, facilities@, scope@, kind@, true, g, results@.len() as int) <= u128::MAX);
                        }
                    }
                    add_all(&mut inputs, &result.inputs);
                    add_all(&mut outputs, &result.outputs);
                }
                proof {
                    assert forall|g: Seq<char>|
                        #![trigger total_in(inputs@, g)]
                        total_in(inputs@, g) == goods_upto(results@, facilities@, scope@, kind@, false, g, j + 1) by {}
                    assert forall|g: Seq<char>|
                        #![trigger total_in(outputs@, g)]
                        total_in(outputs@, g) == goods_upto(results@, facilities@, scope@, kind@, true, g, j + 1) by {}
                    assert forall|g: Seq<char>|
                        #![trigger names_good(inputs@, g)]
                        names_good(inputs@, g) <==> good_reported_upto(results@, facilities@, scope@, kind@, false, g, j + 1) by {}
                    assert forall|g: Seq<char>|
                        #![trigger names_good(outputs@, g)]
                        names_good(outputs@, g) <==> good_reported_upto(results@, facilities@, scope@, kind@, true, g, j + 1) by {}
                }
                j = j + 1;
            }
            proof {
                assert forall|i: int| 0 <= i < inputs@.len() implies #[trigger] inputs@[i].amount == goods_upto(
                    results@,
                    facilities@,
                    scope@,
                    kind@,
                    false,
                    inputs@[i].good@,
                    results@.len() as int,
                ) by {
                    lemma_sorted_total(inputs@, i);
                }
                assert forall|i: int| 0 <= i < outputs@.len() implies #[trigger] outputs@[i].amount == goods_upto(
                    results@,
                    facilities@,
                    scope@,
                    kind@,
                    true,
                    outputs@[i].good@,
                    results@.len() as int,
                ) by {
                    lemma_sorted_total(outputs@, i);
                }
            }
        },
    }
    ProductionSummary { capacity, active_workers, inputs, outputs, construction_points }
}

/// Levels of the first `n` facilities of kind `kind` in `scope`.
pub open spec fn kind_levels_upto(facilities: Seq<Facility>, scope: Set<ProvinceId>, kind: Seq<char>, n: int) -> int
    decreases n,
{
    if n <= 0 {
        0
    } else {
        kind_levels_upto(facilities, scope, kind, n - 1) + if scope.contains(facilities[n - 1].province)
            && facilities[n - 1].definition@ == kind {
            facilities[n - 1].level as int
        } else {
            0
        }
    }
}

/// Construction projects among the first `n` that build kind `kind` in `scope`.
pub open spec fn kind_queue_upto(projects: Seq<ConstructionProject>, scope: Set<ProvinceId>, kind: Seq<char>, n: int) -> int
    decreases n,
{
    if n <= 0 {
        0
    } else {
        kind_queue_upto(projects, scope, kind, n - 1) + if scope.contains(projects[n - 1].province)
            && projects[n - 1].definition@ == kind {
            1int
        } else {
            0
        }
    }
}

/// Whether some project of the snapshot builds facility `id`.
pub open spec fn has_project(projects: Seq<ConstructionProject>, id: u128) -> bool {
    exists|p: int| 0 <= p < projects.len() && #[trigger] projects[p].facility_id == id
}

/// Pending targets among the first `n` of kind `kind` in `scope` whose project the
/// snapshot does not hold yet.
pub open spec fn kind_pending_upto(
    pending: Seq<(u128, PendingConstruction)>,
    projects: Seq<ConstructionProject>,
    scope: Set<ProvinceId>,
    kind: Seq<char>,
    n: int,
) -> int
    decreases n,
{
    if n <= 0 {
        0
    } else {
        kind_pending_upto(pending, projects, scope, kind, n - 1) + if scope.contains(pending[n - 1].1.province)
            && pending[n - 1].1.definition@ == kind && !has_project(projects, pending[n - 1].0) {
            1int
        } else {
            0
        }
    }
}

/// Whether the player owns a province of `scope`, so that the cards offer building.
pub open spec fn player_owns_some(session: ManagementSession, scope: Set<ProvinceId>) -> bool {
    exists|i: int|
        0 <= i < session.snapshot.provinces@.len() && scope.contains(
            #[trigger] session.snapshot.provinces@[i].id,
        ) && session.snapshot.provinces@[i].country == session.player_country
}

/// What the inspection panel shows of one facility kind in a territory.
pub struct BuildingCard {
    /// Levels built.
    pub level: u128,
    /// Construction projects of this kind queued in the territory, pending targets
    /// whose project the snapshot does not hold yet included.
    pub queued: u128,
    /// The level once the queue is built, where anything is queued.
    pub planned_level: Option<u128>,
    /// Whether a day report exists to show workers and output from.
    pub reported: bool,
    /// Whether the kind does construction work rather than make goods.
    pub service: bool,
    pub summary: ProductionSummary,
    /// Whether the card offers building (the player owns a province of the territory).
    pub buildable: bool,
    /// Where building would go, where the card offers it and a site exists.
    pub site: Option<ProvinceId>,
}

/// Whether `card` is the building card of kind `kind` in `scope`.
pub open spec fn card_of(
    session: ManagementSession,
    scope: Set<ProvinceId>,
    kind: Seq<char>,
    card: BuildingCard,
) -> bool {
    let snapshot = session.snapshot;
    let definition = session.definitions.facilities@[last_definition(session.definitions.facilities@, kind)->0];
    let level = kind_levels_upto(snapshot.facilities@, scope, kind, snapshot.facilities@.len() as int);
    let queued = kind_queue_upto(snapshot.construction_projects@, scope, kind, snapshot.construction_projects@.len() as int)
        + kind_pending_upto(
        session.pending_construction@,
        snapshot.construction_projects@,
        scope,
        kind,
        session.pending_construction@.len() as int,
    );
    &&& card.level == level
    &&& card.queued == queued
    &&& card.planned_level == if queued > 0 {
        Some((level + queued) as u128)
    } else {
        None::<u128>
    }
    &&& card.reported == session.last_report is Some
    &&& card.service == (definition.construction_points_per_worker_day > 0)
    &&& summarizes(session, scope, kind, card.summary)
    &&& card.buildable == player_owns_some(session, scope)
    &&& if card.buildable {
        is_construction_site(snapshot, session.definitions, session.player_country, scope, definition, card.site)
    } else {
        card.site is None
    }
}

proof fn lemma_kind_levels_bounded(facilities: Seq<Facility>, scope: Set<ProvinceId>, kind: Seq<char>, n: int)
    requires
        0 <= n <= facilities.len(),
    ensures
        0 <= kind_levels_upto(facilities, scope, kind, n) <= n * 0xffff_ffff_ffff_ffff,
    decreases n,
{
    if n > 0 {
        lemma_kind_levels_bounded(facilities, scope, kind, n - 1);
    }
}

proof fn lemma_kind_pending_bounded(
    pending: Seq<(u128, PendingConstruction)>,
    projects: Seq<ConstructionProject>,
    scope: Set<ProvinceId>,
    kind: Seq<char>,
    n: int,
)
    requires
        0 <= n <= pending.len(),
    ensures
        0 <= kind_pending_upto(pending, projects, scope, kind, n) <= n,
    decreases n,
{
    if n > 0 {
        lemma_kind_pending_bounded(pending, projects, scope, kind, n - 1);
    }
}

fn projected(projects: &Vec<ConstructionProject>, id: u128) -> (found: bool)
    ensures
        found == has_project(projects@, id),
{
    let mut p: usize = 0;
    while p < projects.len()
        invariant
            p <= projects@.len(),
            forall|m: int| 0 <= m < p ==> #[trigger] projects@[m].facility_id != id,
        decreases projects.len() - p,
    {
        if projects[p].facility_id == id {
            return true;
        }
        p = p + 1;
    }
    false
}

proof fn lemma_kind_queue_bounded(projects: Seq<ConstructionProject>, scope: Set<ProvinceId>, kind: Seq<char>, n: int)
    requires
        0 <= n <= projects.len(),
    ensures
        0 <= kind_queue_upto(projects, scope, kind, n) <= n,
    decreases n,
{
    if n > 0 {
        lemma_kind_queue_bounded(projects, scope, kind, n - 1);
    }
}

fn owns_some(provinces: &Vec<Province>, scope: &BTreeSet<ProvinceId>, player: u128) -> (owned: bool)
    ensures
        owned == exists|i: int|
            0 <= i < provinces@.len() && scope@.contains(#[trigger] provinces@[i].id) && provinces@[i].country
                == player,
{
    let mut i: usize = 0;
    while i < provinces.len()
        invariant
            i <= provinces.len(),
            forall|k: int|
                0 <= k < i ==> !(scope@.contains(#[trigger] provinces@[k].id) && provinces@[k].country == player),
        decreases provinces.len() - i,
    {
        if scope.contains(&provinces[i].id) && provinces[i].country == player {
            return true;
        }
        i = i + 1;
    }
    false
}

/// The building card of kind `kind` in the territory `scope`.
pub fn building_card(
    session: &ManagementSession,
    scope: &BTreeSet<ProvinceId>,
    kind: &FacilityDefinitionId,
) -> (card: BuildingCard)
    requires
        last_definition(session.definitions.facilities@, kind@) is Some,
        summary_fits(*session, scope@, kind@),
        player_owns_some(*session, scope@) ==> siting_fits(session.snapshot, session.definitions, scope@),
    ensures
        card_of(*session, scope@, kind@, card),
{
    let facilities = &session.snapshot.facilities;
    let mut level: u128 = 0;
    let mut f: usize = 0;
    while f < facilities.len()
        invariant
            f <= facilities.len(),
            facilities == &session.snapshot.facilities,
            level == kind_levels_upto(facilities@, scope@, kind@, f as int),
        decreases facilities.len() - f,
    {
        proof {
            lemma_kind_levels_bounded(facilities@, scope@, kind@, f as int);
            assert(f * 0xffff_ffff_ffff_ffff <= 0xffff_ffff_ffff_ffff * 0xffff_ffff_ffff_ffff) by (nonlinear_arith)
                requires
                    f <= 0xffff_ffff_ffff_ffff,
            ;
        }
        if scope.contains(&facilities[f].province) && facilities[f].definition == *kind {
            level = level + facilities[f].level as u128;
        }
        f = f + 1;
    }
    let projects = &session.snapshot.construction_projects;
    let mut queued: u128 = 0;
    let mut p: usize = 0;
    while p < projects.len()
        invariant
            p <= projects.len(),
            projects == &session.snapshot.construction_projects,
            queued == kind_queue_upto(projects@, scope@, kind@, p as int),
        decreases projects.len() - p,
    {
        proof {
            lemma_kind_queue_bounded(projects@, scope@, kind@, p as int);
        }
        if scope.contains(&projects[p].province) && projects[p].definition == *kind {
            queued = queued + 1;
        }
        p = p + 1;
    }
    let pending = &session.pending_construction;
    let ghost from_projects = queued as int;
    let project_count = projects.len();
    let mut t: usize = 0;
    proof {
        lemma_kind_queue_bounded(projects@, scope@, kind@, projects@.len() as int);
    }
    while t < pending.len()
        invariant
            t <= pending@.len(),
            projects == &session.snapshot.construction_projects,
            pending == &session.pending_construction,
            from_projects == kind_queue_upto(projects@, scope@, kind@, projects@.len() as int),
            from_projects <= project_count,
            queued == from_projects + kind_pending_upto(pending@, projects@, scope@, kind@, t as int),
        decreases pending.len() - t,
    {
        proof {
            lemma_kind_pending_bounded(pending@, projects@, scope@, kind@, t as int);
        }
        if scope.contains(&pending[t].1.province) && pending[t].1.definition == *kind && !projected(projects, pending[t].0) {
            queued = queued + 1;
        }
        t = t + 1;
    }
    proof {
        lemma_kind_levels_bounded(facilities@, scope@, kind@, facilities@.len() as int);
        lemma_kind_pending_bounded(pending@, projects@, scope@, kind@, pending@.len() as int);
        let n = facilities@.len();
        let m = projects@.len();
        let r = pending@.len();
        assert(n * 0xffff_ffff_ffff_ffff + m + r <= 0xffff_ffff_ffff_ffff * 0xffff_ffff_ffff_ffff + 2 * 0xffff_ffff_ffff_ffff) by (nonlinear_arith)
            requires
                n <= 0xffff_ffff_ffff_ffff,
                m <= 0xffff_ffff_ffff_ffff,
                r <= 0xffff_ffff_ffff_ffff,
        ;
    }
    let planned_level = if queued > 0 {
        Some(level + queued)
    } else {
        None
    };
    let k = match last_definition_index(&session.definitions.facilities, kind) {
        Some(k) => k,
        None => {
            proof {
                assert(false);
            }
            0
        },
    };
    let definition = &session.definitions.facilities[k];
    let summary = production_summary(session, scope, kind);
    let buildable = owns_some(&session.snapshot.provinces, scope, session.player_country);
    let site = if buildable {
        construction_site(session, scope, definition)
    } else {
        None
    };
    BuildingCard {
        level,
        queued,
        planned_level,
        reported: session.last_report.is_some(),
        service: definition.construction_points_per_worker_day > 0,
        summary,
        buildable,
        site,
    }
}

} // verus!
