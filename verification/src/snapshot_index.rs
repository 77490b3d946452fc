//! Lookup tables built once alongside a committed snapshot, never per UI row.
use crate::world::{CountryId, PopulationGroup, Province, ProvinceId, WorldSnapshot};
use std::collections::BTreeMap;
use vstd::prelude::*;

verus! {

broadcast use vstd::std_specs::btree::group_btree_axioms;

/// Per-country totals and the positions of the country's provinces in the snapshot.
pub struct CountryStatistics {
    pub population: u128,
    pub workforce: u128,
    pub province_indices: Vec<usize>,
}

/// Position of each province by identity, and statistics of each country.
pub struct SnapshotIndex {
    pub provinces: BTreeMap<ProvinceId, usize>,
    pub countries: BTreeMap<CountryId, CountryStatistics>,
}

/// Position of each province identity among the first `n` provinces: a later
/// occurrence of an identity replaces an earlier one.
pub open spec fn positions_upto(provinces: Seq<Province>, n: int) -> Map<ProvinceId, usize>
    decreases n,
{
    if n <= 0 {
        Map::empty()
    } else {
        positions_upto(provinces, n - 1).insert(provinces[n - 1].id, (n - 1) as usize)
    }
}

/// Position of each province identity in the snapshot.
pub open spec fn province_positions(provinces: Seq<Province>) -> Map<ProvinceId, usize> {
    positions_upto(provinces, provinces.len() as int)
}

/// The positions, in increasing order, of the first `n` provinces that belong to `country`.
pub open spec fn country_positions_upto(provinces: Seq<Province>, country: CountryId, n: int) -> Seq<
    usize,
>
    decreases n,
{
    if n <= 0 {
        Seq::empty()
    } else if provinces[n - 1].country == country {
        country_positions_upto(provinces, country, n - 1).push((n - 1) as usize)
    } else {
        country_positions_upto(provinces, country, n - 1)
    }
}

/// The positions, in increasing order, of the provinces that belong to `country`.
pub open spec fn country_positions(provinces: Seq<Province>, country: CountryId) -> Seq<usize> {
    country_positions_upto(provinces, country, provinces.len() as int)
}

/// Whether some province belongs to `country`.
pub open spec fn has_province(provinces: Seq<Province>, country: CountryId) -> bool {
    exists|i: int| 0 <= i < provinces.len() && provinces[i].country == country
}

/// Whether a population group lives in a province whose indexed position belongs to `country`.
pub open spec fn group_counts_for(
    provinces: Seq<Province>,
    group: PopulationGroup,
    country: CountryId,
) -> bool {
    let positions = province_positions(provinces);
    positions.contains_key(group.province) && provinces[positions[group.province] as int].country
        == country
}

/// Population (when `workforce` is false) or workforce of the first `n` groups that count for `country`.
pub open spec fn country_total_upto(
    provinces: Seq<Province>,
    groups: Seq<PopulationGroup>,
    country: CountryId,
    workforce: bool,
    n: int,
) -> int
    decreases n,
{
    if n <= 0 {
        0
    } else {
        country_total_upto(provinces, groups, country, workforce, n - 1) + if group_counts_for(
            provinces,
            groups[n - 1],
            country,
        ) {
            if workforce {
                groups[n - 1].workforce as int
            } else {
                groups[n - 1].population as int
            }
        } else {
            0
        }
    }
}

/// Total population of the groups that live in provinces of `country`.
pub open spec fn country_population(snapshot: WorldSnapshot, country: CountryId) -> int {
    country_total_upto(
        snapshot.provinces@,
        snapshot.population_groups@,
        country,
        false,
        snapshot.population_groups@.len() as int,
    )
}

/// Total workforce of the groups that live in provinces of `country`.
pub open spec fn country_workforce(snapshot: WorldSnapshot, country: CountryId) -> int {
    country_total_upto(
        snapshot.provinces@,
        snapshot.population_groups@,
        country,
        true,
        snapshot.population_groups@.len() as int,
    )
}

/// The index of a snapshot: every province identity maps to its (last) position,
/// exactly the countries that own a province have statistics, and each country's
/// statistics list its province positions in order and total its groups.
pub open spec fn indexes(index: SnapshotIndex, snapshot: WorldSnapshot) -> bool {
    &&& index.provinces@ == province_positions(snapshot.provinces@)
    &&& forall|country: CountryId|
        #![trigger index.countries@.contains_key(country)]
        index.countries@.contains_key(country) <==> has_province(snapshot.provinces@, country)
    &&& forall|country: CountryId|
        #![trigger index.countries@[country]]
        index.countries@.contains_key(country) ==> {
            let statistics = index.countries@[country];
            &&& statistics.province_indices@ == country_positions(snapshot.provinces@, country)
            &&& statistics.population == country_population(snapshot, country)
            &&& statistics.workforce == country_workforce(snapshot, country)
        }
}

proof fn lemma_positions_upto_bounded(provinces: Seq<Province>, n: int)
    requires
        0 <= n <= provinces.len() <= usize::MAX,
    ensures
        forall|id: ProvinceId|
            #![trigger positions_upto(provinces, n).contains_key(id)]
            positions_upto(provinces, n).contains_key(id) ==> positions_upto(provinces, n)[id] < n
                && provinces[positions_upto(provinces, n)[id] as int].id == id,
        forall|i: int| 0 <= i < n ==> #[trigger] positions_upto(provinces, n).contains_key(provinces[i].id),
    decreases n,
{
    if n > 0 {
        lemma_positions_upto_bounded(provinces, n - 1);
        let previous = positions_upto(provinces, n - 1);
        let current = positions_upto(provinces, n);
        assert forall|id: ProvinceId| #[trigger] current.contains_key(id) implies current[id] < n
            && provinces[current[id] as int].id == id by {
            if id != provinces[n - 1].id {
                assert(previous.contains_key(id));
            }
        }
    }
}

/// Every indexed position is in bounds and holds the province it is indexed by;
/// every province identity is indexed.
pub proof fn lemma_province_positions(provinces: Seq<Province>)
    requires
        provinces.len() <= usize::MAX,
    ensures
        forall|id: ProvinceId|
            #![trigger province_positions(provinces).contains_key(id)]
            province_positions(provinces).contains_key(id) ==> province_positions(provinces)[id]
                < provinces.len() && provinces[province_positions(provinces)[id] as int].id == id,
        forall|i: int|
            0 <= i < provinces.len() ==> #[trigger] province_positions(provinces).contains_key(
                provinces[i].id,
            ),
{
    lemma_positions_upto_bounded(provinces, provinces.len() as int);
}

proof fn lemma_country_positions_upto(provinces: Seq<Province>, country: CountryId, n: int)
    requires
        0 <= n <= provinces.len() <= usize::MAX,
    ensures
        forall|k: int|
            0 <= k < country_positions_upto(provinces, country, n).len() ==> {
                let i = #[trigger] country_positions_upto(provinces, country, n)[k];
                &&& i < n
                &&& provinces[i as int].country == country
            },
        country_positions_upto(provinces, country, n).len() > 0 <==> exists|i: int|
            0 <= i < n && provinces[i].country == country,
    decreases n,
{
    if n > 0 {
        lemma_country_positions_upto(provinces, country, n - 1);
        let previous = country_positions_upto(provinces, country, n - 1);
        let current = country_positions_upto(provinces, country, n);
        assert forall|k: int| 0 <= k < current.len() implies #[trigger] current[k] < n
            && provinces[current[k] as int].country == country by {
            if k < previous.len() {
                assert(current[k] == previous[k]);
            }
        }
        if provinces[n - 1].country != country {
            if exists|i: int| 0 <= i < n && provinces[i].country == country {
                let i = choose|i: int| 0 <= i < n && provinces[i].country == country;
                assert(0 <= i < n - 1 && provinces[i].country == country);
            }
        }
    }
}

/// The listed positions of a country are in bounds and belong to that country;
/// the list is empty exactly when the country owns no province.
pub proof fn lemma_country_positions(provinces: Seq<Province>, country: CountryId)
    requires
        provinces.len() <= usize::MAX,
    ensures
        forall|k: int|
            0 <= k < country_positions(provinces, country).len() ==> {
                let i = #[trigger] country_positions(provinces, country)[k];
                &&& i < provinces.len()
                &&& provinces[i as int].country == country
            },
        country_positions(provinces, country).len() > 0 <==> has_province(provinces, country),
{
    lemma_country_positions_upto(provinces, country, provinces.len() as int);
}

proof fn lemma_total_bounded(
    provinces: Seq<Province>,
    groups: Seq<PopulationGroup>,
    country: CountryId,
    workforce: bool,
    n: int,
)
    requires
        0 <= n <= groups.len(),
    ensures
        0 <= country_total_upto(provinces, groups, country, workforce, n) <= n * 0xffff_ffff_ffff_ffff,
    decreases n,
{
    if n > 0 {
        lemma_total_bounded(provinces, groups, country, workforce, n - 1);
    }
}

impl SnapshotIndex {
    /// Indexes the provinces of a snapshot by identity and totals each country.
    pub fn build(snapshot: &WorldSnapshot) -> (index: Self)
        ensures
            indexes(index, *snapshot),
    {
        let provinces = &snapshot.provinces;
        let groups = &snapshot.population_groups;
        let mut index = SnapshotIndex { provinces: BTreeMap::new(), countries: BTreeMap::new() };
        let mut position: usize = 0;
        while position < provinces.len()
            invariant
                position <= provinces.len(),
                index.provinces@ == positions_upto(provinces@, position as int),
                forall|country: CountryId|
                    #![trigger index.countries@.contains_key(country)]
                    index.countries@.contains_key(country) <==> exists|i: int|
                        0 <= i < position && provinces@[i].country == country,
                forall|country: CountryId|
                    #![trigger index.countries@[country]]
                    index.countries@.contains_key(country) ==> {
                        let statistics = index.countries@[country];
                        &&& statistics.province_indices@ == country_positions_upto(
                            provinces@,
                            country,
                            position as int,
                        )
                        &&& statistics.population == 0
                        &&& statistics.workforce == 0
                    },
            decreases provinces.len() - position,
        {
            let province = &provinces[position];
            index.provinces.insert(province.id, position);
            let country = province.country;
            let ghost before = index.countries@;
            let statistics = match index.countries.remove(&country) {
                Some(mut statistics) => {
                    statistics.province_indices.push(position);
                    statistics
                },
                None => {
                    proof {
                        lemma_country_positions_upto(provinces@, country, position as int);
                    }
                    let mut indices = Vec::new();
                    indices.push(position);
                    CountryStatistics { population: 0, workforce: 0, province_indices: indices }
                },
            };
            index.countries.insert(country, statistics);
            proof {
                assert forall|other: CountryId|
                    #![trigger index.countries@.contains_key(other)]
                    index.countries@.contains_key(other) <==> exists|i: int|
                        0 <= i < position + 1 && provinces@[i].country == other by {
                    if other != country && before.contains_key(other) {
                        let i = choose|i: int| 0 <= i < position && provinces@[i].country == other;
                        assert(0 <= i < position + 1 && provinces@[i].country == other);
                    }
                    if other != country && (exists|i: int|
                        0 <= i < position + 1 && provinces@[i].country == other) {
                        let i = choose|i: int| 0 <= i < position + 1 && provinces@[i].country == other;
                        assert(i != position);
                        assert(before.contains_key(other));
                    }
                    if other == country {
                        assert(provinces@[position as int].country == other);
                    }
                }
            }
            position = position + 1;
        }
        proof {
            lemma_province_positions(provinces@);
        }
        let mut k: usize = 0;
        while k < groups.len()
            invariant
                k <= groups.len(),
                provinces == &snapshot.provinces,
                groups == &snapshot.population_groups,
                index.provinces@ == province_positions(provinces@),
                forall|id: ProvinceId|
                    #![trigger province_positions(provinces@).contains_key(id)]
                    province_positions(provinces@).contains_key(id) ==> province_positions(
                        provinces@,
                    )[id] < provinces.len(),
                forall|country: CountryId|
                    #![trigger index.countries@.contains_key(country)]
                    index.countries@.contains_key(country) <==> has_province(provinces@, country),
                forall|country: CountryId|
                    #![trigger index.countries@[country]]
                    index.countries@.contains_key(country) ==> {
                        let statistics = index.countries@[country];
                        &&& statistics.province_indices@ == country_positions(provinces@, country)
                        &&& statistics.population == country_total_upto(
                            provinces@,
                            groups@,
                            country,
                            false,
                            k as int,
                        )
                        &&& statistics.workforce == country_total_upto(
                            provinces@,
                            groups@,
                            country,
                            true,
                            k as int,
                        )
                    },
            decreases groups.len() - k,
        {
            let group = &groups[k];
            let ghost before = index.countries@;
            match index.provinces.get(&group.province) {
                Some(position) => {
                    let country = provinces[*position].country;
                    assert(has_province(provinces@, country));
                    let mut statistics = index.countries.remove(&country).unwrap();
                    proof {
                        lemma_total_bounded(provinces@, groups@, country, false, k as int);
                        lemma_total_bounded(provinces@, groups@, country, true, k as int);
                        assert(k * 0xffff_ffff_ffff_ffff <= 0xffff_ffff_ffff_ffff * 0xffff_ffff_ffff_ffff)
                            by (nonlinear_arith)
                            requires
                                k <= 0xffff_ffff_ffff_ffff,
                        ;
                    }
                    statistics.population = statistics.population + group.population as u128;
                    statistics.workforce = statistics.workforce + group.workforce as u128;
                    index.countries.insert(country, statistics);
                    proof {
                        assert forall|other: CountryId|
                            #![trigger index.countries@[other]]
                            index.countries@.contains_key(other) implies {
                                let statistics = index.countries@[other];
                                &&& statistics.province_indices@ == country_positions(
                                    provinces@,
                                    other,
                                )
                                &&& statistics.population == country_total_upto(
                                    provinces@,
                                    groups@,
                                    other,
                                    false,
                                    k + 1,
                                )
                                &&& statistics.workforce == country_total_upto(
                                    provinces@,
                                    groups@,
                                    other,
                                    true,
                                    k + 1,
                                )
                            } by {
                            assert(before.contains_key(other));
                            assert(group_counts_for(provinces@, groups@[k as int], other) == (other
                                == country));
                        }
                    }
                },
                None => {
                    proof {
                        assert forall|other: CountryId|
                            #![trigger index.countries@[other]]
                            index.countries@.contains_key(other) implies {
                                &&& index.countries@[other].population == country_total_upto(
                                    provinces@,
                                    groups@,
                                    other,
                                    false,
                                    k + 1,
                                )
                                &&& index.countries@[other].workforce == country_total_upto(
                                    provinces@,
                                    groups@,
                                    other,
                                    true,
                                    k + 1,
                                )
                            } by {
                            assert(!group_counts_for(provinces@, groups@[k as int], other));
                        }
                    }
                },
            }
            k = k + 1;
        }
        index
    }
}

/// A country's totals read the right field of each group: its workforce does not
/// depend on the groups' populations, and its population does not depend on their
/// workforces.
pub proof fn lemma_totals_read_their_own_field(provinces: Seq<Province>, a: Seq<PopulationGroup>, b: Seq<PopulationGroup>, country: CountryId, n: int)
    requires
        0 <= n <= a.len(),
        n <= b.len(),
        forall|k: int| 0 <= k < n ==> (#[trigger] a[k]).province == b[k].province,
    ensures
        (forall|k: int| 0 <= k < n ==> (#[trigger] a[k]).workforce == b[k].workforce) ==> country_total_upto(
            provinces,
            a,
            country,
            true,
            n,
        ) == country_total_upto(provinces, b, country, true, n),
        (forall|k: int| 0 <= k < n ==> (#[trigger] a[k]).population == b[k].population) ==> country_total_upto(
            provinces,
            a,
            country,
            false,
            n,
        ) == country_total_upto(provinces, b, country, false, n),
    decreases n,
{
    if n > 0 {
        lemma_totals_read_their_own_field(provinces, a, b, country, n - 1);
        assert(a[n - 1].province == b[n - 1].province);
        assert(group_counts_for(provinces, a[n - 1], country) == group_counts_for(provinces, b[n - 1], country));
    }
}

/// A country whose provinces hold one population group has that group's
/// population and workforce.
pub proof fn lemma_one_group_totals(snapshot: WorldSnapshot, country: CountryId)
    requires
        snapshot.population_groups@.len() == 1,
        group_counts_for(snapshot.provinces@, snapshot.population_groups@[0], country),
    ensures
        country_workforce(snapshot, country) == snapshot.population_groups@[0].workforce,
        country_population(snapshot, country) == snapshot.population_groups@[0].population,
{
    reveal_with_fuel(country_total_upto, 2);
}

} // verus!
