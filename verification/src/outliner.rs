//! The world map's outliner: the regions where the owner of the selected province
//! holds land, in the order of their names, each a button that jumps to it.
use crate::inspection::{MapProvince, MapViewState, RegionId};
use crate::order::order_by_name;
use crate::text::lex_less;
use crate::world::CountryId;
use vstd::prelude::*;

verus! {

/// A region of the map catalog.
pub struct MapRegion {
    pub id: RegionId,
    pub name: String,
}

/// The owner of the selected province, if a province is selected and has one.
pub open spec fn selected_owner(map: MapViewState, catalog: Seq<MapProvince>) -> Option<CountryId> {
    if 0 < map.selected_index && map.selected_index - 1 < catalog.len() {
        catalog[map.selected_index - 1].owner
    } else {
        None
    }
}

/// Whether `country` owns a catalog province of region `region`.
pub open spec fn holds_region(catalog: Seq<MapProvince>, country: CountryId, region: RegionId) -> bool {
    exists|i: int| 0 <= i < catalog.len() && #[trigger] catalog[i].owner == Some(country) && catalog[i].region == Some(region)
}

/// Whether `order` lists the positions of the regions that `country` holds land in,
/// each once, ordered by name, regions of equal name in catalog order.
pub open spec fn outliner_order(
    catalog: Seq<MapProvince>,
    regions: Seq<MapRegion>,
    country: CountryId,
    order: Seq<usize>,
) -> bool {
    &&& forall|p: usize|
        #![trigger order.contains(p)]
        order.contains(p) <==> p < regions.len() && holds_region(catalog, country, regions[p as int].id)
    &&& forall|i: int, j: int|
        #![trigger order[i], order[j]]
        0 <= i < j < order.len() ==> order[i] != order[j] && !lex_less(
            regions[order[j] as int].name@,
            regions[order[i] as int].name@,
        ) && (regions[order[i] as int].name@ == regions[order[j] as int].name@ ==> order[i] < order[j])
}

/// What the outliner shows.
pub enum Outliner {
    /// No province with an owner is selected: a hint to select one.
    Hint,
    /// The regions (positions in the region catalog) of the selected province's
    /// owner; each button jumps to its region of that country.
    Regions { country: CountryId, order: Vec<usize> },
}

fn holds(catalog: &Vec<MapProvince>, country: CountryId, region: RegionId) -> (held: bool)
    ensures
        held == holds_region(catalog@, country, region),
{
    let mut i: usize = 0;
    while i < catalog.len()
        invariant
            i <= catalog.len(),
            forall|k: int| 0 <= k < i ==> !(#[trigger] catalog@[k].owner == Some(country) && catalog@[k].region == Some(region)),
        decreases catalog.len() - i,
    {
        if catalog[i].owner == Some(country) && catalog[i].region == Some(region) {
            return true;
        }
        i = i + 1;
    }
    false
}

/// The positions of the regions that `country` holds land in, sorted by name;
/// equal names keep their catalog order.
pub fn regions_of(catalog: &Vec<MapProvince>, regions: &Vec<MapRegion>, country: CountryId) -> (order: Vec<usize>)
    ensures
        outliner_order(catalog@, regions@, country, order@),
{
    let mut names: Vec<String> = Vec::new();
    let mut keep: Vec<bool> = Vec::new();
    let mut q: usize = 0;
    while q < regions.len()
        invariant
            q <= regions@.len(),
            names@.len() == q,
            keep@.len() == q,
            forall|p: int| 0 <= p < q ==> #[trigger] names@[p]@ == regions@[p].name@,
            forall|p: int| 0 <= p < q ==> #[trigger] keep@[p] == holds_region(catalog@, country, regions@[p].id),
        decreases regions.len() - q,
    {
        names.push(regions[q].name.clone());
        keep.push(holds(catalog, country, regions[q].id));
        q = q + 1;
    }
    let order = order_by_name(&names, &keep);
    proof {
        assert forall|i: int, j: int|
            #![trigger order@[i], order@[j]]
            0 <= i < j < order@.len() implies order@[i] != order@[j] && !lex_less(
                regions@[order@[j] as int].name@,
                regions@[order@[i] as int].name@,
            ) && (regions@[order@[i] as int].name@ == regions@[order@[j] as int].name@ ==> order@[i] < order@[j]) by {
            assert(order@.contains(order@[i]) && order@.contains(order@[j]));
            assert(names@[order@[i] as int]@ == regions@[order@[i] as int].name@);
            assert(names@[order@[j] as int]@ == regions@[order@[j] as int].name@);
        }
        assert forall|p: usize|
            #[trigger] order@.contains(p) <==> p < regions@.len() && holds_region(catalog@, country, regions@[p as int].id) by {
            if p < regions@.len() {
                assert(keep@[p as int] == holds_region(catalog@, country, regions@[p as int].id));
            }
        }
    }
    order
}

/// What the outliner shows for the selected province.
pub fn outliner(map: &MapViewState, catalog: &Vec<MapProvince>, regions: &Vec<MapRegion>) -> (shown: Outliner)
    ensures
        match selected_owner(*map, catalog@) {
            None => shown is Hint,
            Some(country) => shown matches Outliner::Regions { country: c, order } && c == country
                && outliner_order(catalog@, regions@, country, order@),
        },
{
    if map.selected_index == 0 || map.selected_index as usize - 1 >= catalog.len() {
        return Outliner::Hint;
    }
    match catalog[map.selected_index as usize - 1].owner {
        None => Outliner::Hint,
        Some(country) => Outliner::Regions { country, order: regions_of(catalog, regions, country) },
    }
}

/// How the map names a place under the pointer.
pub enum PlaceName {
    /// The name of its region.
    Region(String),
    /// Open water outside any region.
    Water,
    /// Land outside any region.
    Unassigned,
}

/// Position of the first region with identity `id`.
pub open spec fn first_region(regions: Seq<MapRegion>, id: RegionId) -> Option<int> {
    if exists|k: int| 0 <= k < regions.len() && regions[k].id == id {
        Some(choose|k: int| 0 <= k < regions.len() && regions[k].id == id && forall|m: int| 0 <= m < k ==> regions[m].id != id)
    } else {
        None
    }
}

/// Whether `name` is how the map names a province: its region's name where its
/// region is in the catalog, otherwise water or unassigned land.
pub open spec fn names_place(province: MapProvince, regions: Seq<MapRegion>, name: PlaceName) -> bool {
    match province.region {
        Some(id) if first_region(regions, id) is Some => name matches PlaceName::Region(text) && text@
            == regions[first_region(regions, id)->0].name@,
        _ => if province.water {
            name is Water
        } else {
            name is Unassigned
        },
    }
}

fn find_region(regions: &Vec<MapRegion>, id: RegionId) -> (found: Option<usize>)
    ensures
        found matches Some(k) ==> k < regions@.len() && first_region(regions@, id) == Some(k as int),
        found is None ==> first_region(regions@, id) is None,
{
    let mut k: usize = 0;
    while k < regions.len()
        invariant
            k <= regions@.len(),
            forall|m: int| 0 <= m < k ==> regions@[m].id != id,
        decreases regions.len() - k,
    {
        if regions[k].id == id {
            proof {
                let c = choose|c: int| 0 <= c < regions@.len() && regions@[c].id == id && forall|m: int| 0 <= m < c ==> regions@[m].id != id;
                assert(0 <= k < regions@.len() && regions@[k as int].id == id && forall|m: int| 0 <= m < k ==> regions@[m].id != id);
                if c < k {
                    assert(regions@[c].id != id);
                } else if c > k {
                    assert(regions@[k as int].id != id);
                }
            }
            return Some(k);
        }
        k = k + 1;
    }
    None
}

/// How the map names the province at catalog position `index` minus one; nothing
/// where no province is there.
pub fn place_name(catalog: &Vec<MapProvince>, regions: &Vec<MapRegion>, index: u32) -> (name: Option<PlaceName>)
    ensures
        if 0 < index && index - 1 < catalog@.len() {
            name matches Some(shown) && names_place(catalog@[index - 1], regions@, shown)
        } else {
            name is None
        },
{
    if index == 0 || index as usize - 1 >= catalog.len() {
        return None;
    }
    let province = &catalog[index as usize - 1];
    let found = match province.region {
        Some(id) => find_region(regions, id),
        None => None,
    };
    match found {
        Some(k) => Some(PlaceName::Region(regions[k].name.clone())),
        None => if province.water {
            Some(PlaceName::Water)
        } else {
            Some(PlaceName::Unassigned)
        },
    }
}

} // verus!
