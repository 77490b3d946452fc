//! Where a country's name is lettered on the world map: nearby land is grouped
//! before a name is measured, so that distant overseas holdings do not stretch it.
//!
//! Land is grouped on a grid of cells, 64 to a side of the map's unit square: a
//! point lies in the cell of its coordinates times 64, and a cell touches the
//! cells around it (diagonals included), across the map's east-west seam too.
use vstd::prelude::*;

verus! {

/// A grid cell: column and row.
pub type Cell = (i32, i32);

/// The order of cells: by column, then by row.
pub open spec fn cell_before(a: Cell, b: Cell) -> bool {
    a.0 < b.0 || (a.0 == b.0 && a.1 < b.1)
}

/// The `k`-th cell around `a` (`k` from 0 to 8): column offset `k / 3 - 1`, wrapped
/// into the 64 columns, and row offset `k % 3 - 1`.
pub open spec fn neighbor_at(a: Cell, k: int) -> Cell {
    (((a.0 + (k / 3 - 1)) % 64) as i32, (a.1 + (k % 3 - 1)) as i32)
}

/// Whether `b` is one of the cells around `a`.
pub open spec fn neighbors(a: Cell, b: Cell) -> bool {
    exists|k: int| 0 <= k < 9 && b == #[trigger] neighbor_at(a, k)
}

/// Whether `path` steps from cell to neighboring cell, all within `region`.
pub open spec fn is_path(region: Set<Cell>, path: Seq<Cell>) -> bool {
    &&& path.len() > 0
    &&& forall|i: int| 0 <= i < path.len() ==> region.contains(#[trigger] path[i])
    &&& forall|i: int| 0 <= i < path.len() - 1 ==> neighbors(#[trigger] path[i], path[i + 1])
}

/// Whether a path within `region` leads from `from` to `to`.
pub open spec fn reaches(region: Set<Cell>, from: Cell, to: Cell) -> bool {
    exists|path: Seq<Cell>| #[trigger] is_path(region, path) && path[0] == from && path.last() == to
}

/// The cells of `region` that paths within it reach from `seed`.
pub open spec fn component(region: Set<Cell>, seed: Cell) -> Set<Cell> {
    Set::new(|c: Cell| reaches(region, seed, c))
}

/// The first cell of `region` in the order of cells.
pub open spec fn first_cell(region: Set<Cell>) -> Cell {
    choose|c: Cell| region.contains(c) && forall|d: Cell| #[trigger] region.contains(d) ==> !cell_before(d, c)
}

/// Number of the first `n` points whose cell is in `cluster`.
pub open spec fn weight(cells: Seq<Cell>, cluster: Set<Cell>, n: int) -> int
    decreases n,
{
    if n <= 0 {
        0
    } else {
        weight(cells, cluster, n - 1) + if cluster.contains(cells[n - 1]) {
            1int
        } else {
            0
        }
    }
}

/// Positions of the first `n` points that lie in `cell`, in order.
pub open spec fn points_in(cells: Seq<Cell>, cell: Cell, n: int) -> Seq<usize>
    decreases n,
{
    if n <= 0 {
        Seq::empty()
    } else if cells[n - 1] == cell {
        points_in(cells, cell, n - 1).push((n - 1) as usize)
    } else {
        points_in(cells, cell, n - 1)
    }
}

/// The points of one occupied cell.
struct CellPoints {
    cell: Cell,
    points: Vec<usize>,
}

/// Whether some group is of cell `c`.
spec fn has_group(groups: Seq<CellPoints>, c: Cell) -> bool {
    exists|j: int| 0 <= j < groups.len() && #[trigger] groups[j].cell == c
}

/// Whether one of the first `n` points lies in cell `c`.
pub open spec fn occurs(cells: Seq<Cell>, c: Cell, n: int) -> bool {
    exists|p: int| 0 <= p < n && #[trigger] cells[p] == c
}

/// Whether the groups come in the order of their cells, each cell once.
spec fn cells_sorted(groups: Seq<CellPoints>) -> bool {
    forall|i: int, j: int| #![trigger groups[i], groups[j]] 0 <= i < j < groups.len() ==> cell_before(groups[i].cell, groups[j].cell)
}

/// Whether `groups` lists the cells occupied by the first `n` points, each once and
/// in the order of cells, each with those of its points, in order.
spec fn grouped(cells: Seq<Cell>, groups: Seq<CellPoints>, n: int) -> bool {
    &&& cells_sorted(groups)
    &&& forall|c: Cell| #![trigger has_group(groups, c)] #![trigger occurs(cells, c, n)]
        has_group(groups, c) <==> occurs(cells, c, n)
    &&& forall|j: int| 0 <= j < groups.len() ==> #[trigger] groups[j].points@ == points_in(cells, groups[j].cell, n)
}

proof fn lemma_points_in_range(cells: Seq<Cell>, cell: Cell, n: int)
    requires
        0 <= n <= cells.len(),
        cells.len() <= usize::MAX,
    ensures
        forall|i: int| 0 <= i < points_in(cells, cell, n).len() ==> {
            let p = #[trigger] points_in(cells, cell, n)[i];
            &&& p < n
            &&& cells[p as int] == cell
        },
        points_in(cells, cell, n).no_duplicates(),
        forall|p: int| 0 <= p < n && cells[p] == cell ==> points_in(cells, cell, n).contains(p as usize),
        points_in(cells, cell, n).len() == weight(cells, set![cell], n),
    decreases n,
{
    if n > 0 {
        lemma_points_in_range(cells, cell, n - 1);
        let before = points_in(cells, cell, n - 1);
        if cells[n - 1] == cell {
            assert(points_in(cells, cell, n) == before.push((n - 1) as usize));
            assert forall|i: int| 0 <= i < before.len() implies #[trigger] before[i] != (n - 1) as usize by {
                assert(before[i] < n - 1);
            }
            assert forall|p: int| 0 <= p < n && cells[p] == cell implies points_in(cells, cell, n).contains(p as usize) by {
                if p < n - 1 {
                    let i = choose|i: int| 0 <= i < before.len() && before[i] == p as usize;
                    assert(points_in(cells, cell, n)[i] == p as usize);
                } else {
                    assert(points_in(cells, cell, n)[before.len() as int] == p as usize);
                }
            }
        }
    }
}

/// The first position whose cell does not come before `cell`.
fn group_position(groups: &Vec<CellPoints>, cell: Cell) -> (p: usize)
    ensures
        p <= groups@.len(),
        forall|i: int| 0 <= i < p ==> cell_before(#[trigger] groups@[i].cell, cell),
        p < groups@.len() ==> !cell_before(groups@[p as int].cell, cell),
{
    let mut p: usize = 0;
    while p < groups.len()
        invariant
            p <= groups@.len(),
            forall|i: int| 0 <= i < p ==> cell_before(#[trigger] groups@[i].cell, cell),
        decreases groups.len() - p,
    {
        let c = groups[p].cell;
        if !(c.0 < cell.0 || (c.0 == cell.0 && c.1 < cell.1)) {
            return p;
        }
        p = p + 1;
    }
    p
}

/// Groups the points by cell.
fn group_cells(cells: &Vec<Cell>) -> (groups: Vec<CellPoints>)
    ensures
        grouped(cells@, groups@, cells@.len() as int),
{
    let mut groups: Vec<CellPoints> = Vec::new();
    let mut k: usize = 0;
    while k < cells.len()
        invariant
            k <= cells@.len(),
            grouped(cells@, groups@, k as int),
        decreases cells.len() - k,
    {
        let ghost before = groups@;
        let cell = cells[k];
        let p = group_position(&groups, cell);
        if p < groups.len() && groups[p].cell.0 == cell.0 && groups[p].cell.1 == cell.1 {
            groups[p].points.push(k);
            proof {
                let after = groups@;
                assert forall|j: int| 0 <= j < after.len() implies #[trigger] after[j].points@ == points_in(
                    cells@,
                    after[j].cell,
                    k + 1,
                ) by {
                    if j != p {
                        assert(after[j] == before[j]);
                        assert(before[j].cell != cell) by {
                            if j < p {
                                assert(cell_before(before[j].cell, cell));
                            } else {
                                assert(cell_before(before[p as int].cell, before[j].cell));
                            }
                        }
                    }
                }
                assert forall|c: Cell| #![trigger has_group(after, c)] #![trigger occurs(cells@, c, k + 1)]
                    has_group(after, c) <==> occurs(cells@, c, k + 1) by {
                    if has_group(after, c) {
                        let j = choose|j: int| 0 <= j < after.len() && #[trigger] after[j].cell == c;
                        assert(before[j].cell == c);
                        assert(has_group(before, c));
                        let q = choose|q: int| 0 <= q < k && #[trigger] cells@[q] == c;
                        assert(0 <= q < k + 1 && cells@[q] == c);
                    }
                    if occurs(cells@, c, k + 1) {
                        let q = choose|q: int| 0 <= q < k + 1 && #[trigger] cells@[q] == c;
                        if q < k {
                            assert(occurs(cells@, c, k as int));
                            let j = choose|j: int| 0 <= j < before.len() && #[trigger] before[j].cell == c;
                            assert(after[j].cell == c);
                        } else {
                            assert(after[p as int].cell == c);
                        }
                    }
                }
                assert forall|i: int, j: int| #![trigger after[i], after[j]] 0 <= i < j < after.len()
                    implies cell_before(after[i].cell, after[j].cell) by {
                    assert(after[i].cell == before[i].cell && after[j].cell == before[j].cell);
                }
            }
        } else {
            let mut points: Vec<usize> = Vec::new();
            points.push(k);
            let group = CellPoints { cell, points };
            groups.insert(p, group);
            proof {
                let after = groups@;
                assert(after =~= before.insert(p as int, group));
                assert(forall|q: int| 0 <= q < k ==> cells@[q] != cell) by {
                    assert forall|q: int| 0 <= q < k implies cells@[q] != cell by {
                        if cells@[q] == cell {
                            assert(occurs(cells@, cell, k as int));
                            let j = choose|j: int| 0 <= j < before.len() && #[trigger] before[j].cell == cell;
                            if j < p {
                                assert(cell_before(before[j].cell, cell));
                            } else if j > p {
                                assert(cell_before(before[p as int].cell, before[j].cell));
                            }
                        }
                    }
                }
                lemma_points_in_absent(cells@, cell, k as int);
                assert(points@ =~= points_in(cells@, cell, k + 1));
                assert forall|j: int| 0 <= j < after.len() implies #[trigger] after[j].points@ == points_in(
                    cells@,
                    after[j].cell,
                    k + 1,
                ) by {
                    if j < p {
                        assert(after[j] == before[j]);
                        assert(cell_before(before[j].cell, cell));
                    } else if j > p {
                        assert(after[j] == before[j - 1]);
                        if p < before.len() {
                            assert(!cell_before(before[p as int].cell, cell));
                            if j - 1 > p {
                                assert(cell_before(before[p as int].cell, before[j - 1].cell));
                            }
                        }
                        assert(before[j - 1].cell != cell);
                    }
                }
                assert forall|c: Cell| #![trigger has_group(after, c)] #![trigger occurs(cells@, c, k + 1)]
                    has_group(after, c) <==> occurs(cells@, c, k + 1) by {
                    if has_group(after, c) {
                        let j = choose|j: int| 0 <= j < after.len() && #[trigger] after[j].cell == c;
                        if j < p {
                            assert(before[j].cell == c);
                        } else if j > p {
                            assert(before[j - 1].cell == c);
                        } else {
                            assert(cells@[k as int] == c);
                        }
                        if j != p {
                            assert(has_group(before, c));
                        let q = choose|q: int| 0 <= q < k && #[trigger] cells@[q] == c;
                            assert(0 <= q < k + 1 && cells@[q] == c);
                        }
                    }
                    if occurs(cells@, c, k + 1) {
                        let q = choose|q: int| 0 <= q < k + 1 && #[trigger] cells@[q] == c;
                        if q < k {
                            assert(occurs(cells@, c, k as int));
                            let j = choose|j: int| 0 <= j < before.len() && #[trigger] before[j].cell == c;
                            if j < p {
                                assert(after[j].cell == c);
                            } else {
                                assert(after[j + 1].cell == c);
                            }
                        } else {
                            assert(after[p as int].cell == c);
                        }
                    }
                }
                assert forall|i: int, j: int| #![trigger after[i], after[j]] 0 <= i < j < after.len()
                    implies cell_before(after[i].cell, after[j].cell) by {
                    if j < p {
                        assert(after[i] == before[i] && after[j] == before[j]);
                    } else if i > p {
                        assert(after[i] == before[i - 1] && after[j] == before[j - 1]);
                    } else if j == p {
                        assert(after[i] == before[i]);
                    } else if i == p {
                        assert(after[j] == before[j - 1]);
                        assert(!cell_before(before[p as int].cell, cell));
                        assert(before[p as int].cell != cell);
                        if j - 1 > p {
                            assert(cell_before(before[p as int].cell, before[j - 1].cell));
                        }
                    } else {
                        assert(after[i] == before[i] && after[j] == before[j - 1]);
                    }
                }
            }
        }
        k = k + 1;
    }
    groups
}

proof fn lemma_points_in_absent(cells: Seq<Cell>, cell: Cell, n: int)
    requires
        0 <= n <= cells.len(),
        forall|q: int| 0 <= q < n ==> cells[q] != cell,
    ensures
        points_in(cells, cell, n) == Seq::<usize>::empty(),
    decreases n,
{
    if n > 0 {
        lemma_points_in_absent(cells, cell, n - 1);
    }
}

/// The cells of the groups that are still unclaimed.
spec fn region_of(groups: Seq<CellPoints>, unclaimed: Seq<bool>) -> Set<Cell> {
    Set::new(|c: Cell| unclaimed_cell(groups, unclaimed, c))
}

/// Whether the rows of all cells leave room for a step up and down.
pub open spec fn rows_in_range(cells: Seq<Cell>) -> bool {
    forall|i: int| 0 <= i < cells.len() ==> i32::MIN < #[trigger] cells[i].1 < i32::MAX
}

/// The column `x + dx` wrapped into the 64 columns.
fn wrap_column(x: i32, dx: i64) -> (w: i32)
    requires
        -1 <= dx <= 1,
    ensures
        w == (x + dx) % 64,
{
    let shifted: i64 = x as i64 + dx + 4294967296;
    let w = (shifted as u64 % 64) as i32;
    proof {
        vstd::arithmetic::div_mod::lemma_mod_multiples_vanish(67108864, x + dx, 64);
        assert(64 * 67108864 + (x + dx) == shifted);
    }
    w
}

/// The `k`-th cell around `c`.
fn neighbor(c: Cell, k: usize) -> (n: Cell)
    requires
        k < 9,
        i32::MIN < c.1 < i32::MAX,
    ensures
        n == neighbor_at(c, k as int),
{
    let dx: i64 = (k / 3) as i64 - 1;
    let dy: i32 = (k % 3) as i32 - 1;
    (wrap_column(c.0, dx), c.1 + dy)
}

/// Finds the group of cell `c`.
fn find_cell(groups: &Vec<CellPoints>, c: Cell) -> (found: Option<usize>)
    ensures
        found matches Some(j) ==> j < groups@.len() && groups@[j as int].cell == c,
        found is None ==> !has_group(groups@, c),
{
    let mut j: usize = 0;
    while j < groups.len()
        invariant
            j <= groups@.len(),
            forall|i: int| 0 <= i < j ==> #[trigger] groups@[i].cell != c,
        decreases groups.len() - j,
    {
        if groups[j].cell.0 == c.0 && groups[j].cell.1 == c.1 {
            return Some(j);
        }
        j = j + 1;
    }
    None
}

/// Appends `points` to `cluster`.
fn append_points(cluster: &mut Vec<usize>, points: &Vec<usize>)
    ensures
        final(cluster)@ == old(cluster)@ + points@,
{
    let mut m: usize = 0;
    while m < points.len()
        invariant
            m <= points@.len(),
            cluster@ == old(cluster)@ + points@.take(m as int),
        decreases points.len() - m,
    {
        cluster.push(points[m]);
        proof {
            assert(points@.take(m + 1) =~= points@.take(m as int).push(points@[m as int]));
        }
        m = m + 1;
    }
    assert(points@.take(points@.len() as int) =~= points@);
}

/// Groups of different positions are of different cells.
proof fn lemma_groups_distinct(groups: Seq<CellPoints>, i: int, j: int)
    requires
        cells_sorted(groups),
        0 <= i < groups.len(),
        0 <= j < groups.len(),
        i != j,
    ensures
        groups[i].cell != groups[j].cell,
{
    if i < j {
        assert(cell_before(groups[i].cell, groups[j].cell));
    } else {
        assert(cell_before(groups[j].cell, groups[i].cell));
    }
}

/// The region of unclaimed groups is finite.
proof fn lemma_region_finite(groups: Seq<CellPoints>, unclaimed: Seq<bool>)
    ensures
        region_of(groups, unclaimed).finite(),
{
    let all = groups.map_values(|g: CellPoints| g.cell).to_set();
    vstd::seq_lib::seq_to_set_is_finite(groups.map_values(|g: CellPoints| g.cell));
    assert forall|c: Cell| region_of(groups, unclaimed).contains(c) implies all.contains(c) by {
        assert(unclaimed_cell(groups, unclaimed, c));
        let j = choose|j: int| 0 <= j < groups.len() && unclaimed[j] && #[trigger] groups[j].cell == c;
        assert(groups.map_values(|g: CellPoints| g.cell)[j] == c);
    }
    vstd::set_lib::lemma_len_subset(region_of(groups, unclaimed), all);
}

/// A path to a cell extends to a neighbor in the region.
proof fn lemma_reach_step(region: Set<Cell>, from: Cell, to: Cell, next: Cell)
    requires
        reaches(region, from, to),
        neighbors(to, next),
        region.contains(next),
    ensures
        reaches(region, from, next),
{
    let path = choose|path: Seq<Cell>| #[trigger] is_path(region, path) && path[0] == from && path.last() == to;
    let longer = path.push(next);
    assert forall|i: int| 0 <= i < longer.len() - 1 implies neighbors(#[trigger] longer[i], longer[i + 1]) by {
        if i < path.len() - 1 {
            assert(longer[i] == path[i] && longer[i + 1] == path[i + 1]);
        }
    }
    assert(is_path(region, longer));
}

/// A cell reaches itself.
pub proof fn lemma_reach_self(region: Set<Cell>, cell: Cell)
    requires
        region.contains(cell),
    ensures
        reaches(region, cell, cell),
{
    assert(is_path(region, seq![cell]));
}

/// A set of cells of the region that holds `from` and every neighbor in the region
/// of its cells holds everything that paths within the region reach from `from`.
proof fn lemma_closed_holds_component(region: Set<Cell>, closed: Set<Cell>, from: Cell, to: Cell)
    requires
        closed.contains(from),
        forall|v: Cell, n: Cell|
            #![trigger closed.contains(v), neighbors(v, n)]
            closed.contains(v) && neighbors(v, n) && region.contains(n) ==> closed.contains(n),
        reaches(region, from, to),
    ensures
        closed.contains(to),
{
    let path = choose|path: Seq<Cell>| #[trigger] is_path(region, path) && path[0] == from && path.last() == to;
    lemma_path_in_closed(region, closed, path, path.len() - 1);
}

proof fn lemma_path_in_closed(region: Set<Cell>, closed: Set<Cell>, path: Seq<Cell>, i: int)
    requires
        is_path(region, path),
        closed.contains(path[0]),
        forall|v: Cell, n: Cell|
            #![trigger closed.contains(v), neighbors(v, n)]
            closed.contains(v) && neighbors(v, n) && region.contains(n) ==> closed.contains(n),
        0 <= i < path.len(),
    ensures
        closed.contains(path[i]),
    decreases i,
{
    if i > 0 {
        lemma_path_in_closed(region, closed, path, i - 1);
        assert(neighbors(path[i - 1], path[i]));
        assert(region.contains(path[i]));
    }
}

/// No point lies in no cell.
proof fn lemma_weight_empty(cells: Seq<Cell>, n: int)
    ensures
        weight(cells, Set::empty(), n) == 0,
    decreases n,
{
    if n > 0 {
        lemma_weight_empty(cells, n - 1);
    }
}

/// Claiming one more cell adds the points in it.
proof fn lemma_weight_insert(cells: Seq<Cell>, cluster: Set<Cell>, cell: Cell, n: int)
    requires
        0 <= n <= cells.len(),
        !cluster.contains(cell),
    ensures
        weight(cells, cluster.insert(cell), n) == weight(cells, cluster, n) + points_in(cells, cell, n).len(),
    decreases n,
{
    if n > 0 {
        lemma_weight_insert(cells, cluster, cell, n - 1);
    }
}

/// Whether `c` is the cell of an unclaimed group.
spec fn unclaimed_cell(groups: Seq<CellPoints>, unclaimed: Seq<bool>, c: Cell) -> bool {
    exists|j: int| 0 <= j < groups.len() && unclaimed[j] && #[trigger] groups[j].cell == c
}

/// Pushes the cells around `c` whose groups are unclaimed onto `pending`.
fn push_unclaimed_neighbors(groups: &Vec<CellPoints>, unclaimed: &Vec<bool>, c: Cell, pending: &mut Vec<Cell>)
    requires
        cells_sorted(groups@),
        unclaimed@.len() == groups@.len(),
        i32::MIN < c.1 < i32::MAX,
    ensures
        final(pending)@.len() >= old(pending)@.len(),
        final(pending)@.subrange(0, old(pending)@.len() as int) == old(pending)@,
        forall|q: int|
            old(pending)@.len() <= q < final(pending)@.len() ==> neighbors(c, #[trigger] final(pending)@[q])
                && unclaimed_cell(groups@, unclaimed@, final(pending)@[q]),
        forall|m: int|
            0 <= m < 9 && #[trigger] unclaimed_cell(groups@, unclaimed@, neighbor_at(c, m)) ==> final(pending)@.contains(
                neighbor_at(c, m),
            ),
{
    let ghost base = pending@;
    let mut k: usize = 0;
    while k < 9
        invariant
            k <= 9,
            cells_sorted(groups@),
            unclaimed@.len() == groups@.len(),
            i32::MIN < c.1 < i32::MAX,
            pending@.len() >= base.len(),
            pending@.subrange(0, base.len() as int) == base,
            forall|q: int|
                base.len() <= q < pending@.len() ==> neighbors(c, #[trigger] pending@[q]) && unclaimed_cell(
                    groups@,
                    unclaimed@,
                    pending@[q],
                ),
            forall|m: int|
                0 <= m < k && #[trigger] unclaimed_cell(groups@, unclaimed@, neighbor_at(c, m)) ==> pending@.contains(
                    neighbor_at(c, m),
                ),
        decreases 9 - k,
    {
        let n = neighbor(c, k);
        let ghost before = pending@;
        match find_cell(groups, n) {
            Some(j) => {
                if unclaimed[j] {
                    pending.push(n);
                    proof {
                        assert(pending@.subrange(0, base.len() as int) =~= before.subrange(0, base.len() as int));
                        assert(pending@[before.len() as int] == n);
                        assert(neighbors(c, n));
                        assert forall|m: int|
                            0 <= m < k + 1 && #[trigger] unclaimed_cell(groups@, unclaimed@, neighbor_at(c, m))
                                implies pending@.contains(neighbor_at(c, m)) by {
                            if m < k {
                                let q = choose|q: int| 0 <= q < before.len() && before[q] == neighbor_at(c, m);
                                assert(pending@[q] == neighbor_at(c, m));
                            }
                        }
                    }
                } else {
                    proof {
                        assert(!unclaimed_cell(groups@, unclaimed@, n)) by {
                            if unclaimed_cell(groups@, unclaimed@, n) {
                                let i = choose|i: int| 0 <= i < groups@.len() && unclaimed@[i] && #[trigger] groups@[i].cell == n;
                                if i != j {
                                    lemma_groups_distinct(groups@, i, j as int);
                                }
                            }
                        }
                    }
                }
            },
            None => {},
        }
        k = k + 1;
    }
}

/// Claims the cells that paths through unclaimed cells reach from the cell of group
/// `seed`, and collects their points, cell by cell as a depth-first search meets them.
#[verifier::rlimit(80)]
#[verifier::spinoff_prover]
fn explore(groups: &Vec<CellPoints>, unclaimed: &mut Vec<bool>, seed: usize, Ghost(cells): Ghost<Seq<Cell>>) -> (cluster: Vec<usize>)
    requires
        cells.len() <= usize::MAX,
        rows_in_range(cells),
        grouped(cells, groups@, cells.len() as int),
        old(unclaimed)@.len() == groups@.len(),
        seed < groups@.len(),
        old(unclaimed)@[seed as int],
    ensures
        final(unclaimed)@.len() == groups@.len(),
        forall|j: int|
            0 <= j < groups@.len() ==> #[trigger] final(unclaimed)@[j] == (old(unclaimed)@[j] && !component(
                region_of(groups@, old(unclaimed)@),
                groups@[seed as int].cell,
            ).contains(groups@[j].cell)),
        forall|i: usize|
            #[trigger] cluster@.contains(i) <==> i < cells.len() && component(
                region_of(groups@, old(unclaimed)@),
                groups@[seed as int].cell,
            ).contains(cells[i as int]),
        cluster@.no_duplicates(),
        cluster@.len() == weight(
            cells,
            component(region_of(groups@, old(unclaimed)@), groups@[seed as int].cell),
            cells.len() as int,
        ),
{
    let ghost start = unclaimed@;
    let ghost region = region_of(groups@, start);
    let ghost s = groups@[seed as int].cell;
    let ghost mut claimed: Set<Cell> = Set::empty();
    let mut pending: Vec<Cell> = Vec::new();
    pending.push(groups[seed].cell);
    let mut cluster: Vec<usize> = Vec::new();
    proof {
        lemma_region_finite(groups@, start);
        assert(unclaimed_cell(groups@, start, s));
        lemma_reach_self(region, s);
        assert(pending@[0] == s);
        lemma_weight_empty(cells, cells.len() as int);
    }
    while pending.len() > 0
        invariant
            cells.len() <= usize::MAX,
            rows_in_range(cells),
            grouped(cells, groups@, cells.len() as int),
            start.len() == groups@.len(),
            unclaimed@.len() == groups@.len(),
            region == region_of(groups@, start),
            region.finite(),
            forall|j: int| 0 <= j < groups@.len() ==> #[trigger] unclaimed@[j] == (start[j] && !claimed.contains(groups@[j].cell)),
            forall|c: Cell| #[trigger] claimed.contains(c) ==> region.contains(c) && reaches(region, s, c),
            claimed.finite(),
            claimed.len() <= region.len(),
            forall|q: int| 0 <= q < pending@.len() ==> region.contains(#[trigger] pending@[q]) && reaches(region, s, pending@[q]),
            claimed.contains(s) || pending@.contains(s),
            forall|v: Cell, n: Cell|
                #![trigger claimed.contains(v), neighbors(v, n)]
                claimed.contains(v) && neighbors(v, n) && region.contains(n) ==> claimed.contains(n) || pending@.contains(n),
            forall|i: usize| #[trigger] cluster@.contains(i) <==> i < cells.len() && claimed.contains(cells[i as int]),
            cluster@.no_duplicates(),
            cluster@.len() == weight(cells, claimed, cells.len() as int),
        decreases region.len() - claimed.len(), pending@.len(),
    {
        let ghost before = pending@;
        let c = match pending.pop() {
            Some(c) => c,
            None => {
                proof {
                    assert(false);
                }
                return cluster;
            },
        };
        proof {
            assert(before[before.len() - 1] == c);
            assert(pending@ =~= before.drop_last());
            assert(region.contains(c));
        }
        let found = find_cell(groups, c);
        let visit = match found {
            Some(j) => unclaimed[j],
            None => false,
        };
        if visit {
            let j = found.unwrap();
            let ghost old_claimed = claimed;
            let ghost popped = pending@;
            unclaimed.set(j, false);
            proof {
                claimed = claimed.insert(c);
                assert(!old_claimed.contains(c));
                assert forall|jj: int| 0 <= jj < groups@.len() implies #[trigger] unclaimed@[jj] == (start[jj]
                    && !claimed.contains(groups@[jj].cell)) by {
                    if jj != j {
                        lemma_groups_distinct(groups@, jj, j as int);
                    }
                }
                vstd::set_lib::lemma_len_subset(claimed, region);
                lemma_points_in_range(cells, c, cells.len() as int);
                lemma_weight_insert(cells, old_claimed, c, cells.len() as int);
                assert(groups@[j as int].points@ == points_in(cells, c, cells.len() as int));
                assert(has_group(groups@, c));
                let p = choose|p: int| 0 <= p < cells.len() && #[trigger] cells[p] == c;
            }
            let ghost old_cluster = cluster@;
            append_points(&mut cluster, &groups[j].points);
            proof {
                let added = points_in(cells, c, cells.len() as int);
                assert forall|i: usize| #[trigger] cluster@.contains(i) <==> i < cells.len() && claimed.contains(cells[i as int]) by {
                    if cluster@.contains(i) {
                        let k = choose|k: int| 0 <= k < cluster@.len() && cluster@[k] == i;
                        if k < old_cluster.len() {
                            assert(old_cluster[k] == i);
                            assert(old_cluster.contains(i));
                        } else {
                            assert(added[k - old_cluster.len()] == i);
                        }
                    }
                    if i < cells.len() && claimed.contains(cells[i as int]) {
                        if old_claimed.contains(cells[i as int]) {
                            assert(old_cluster.contains(i));
                            let k = choose|k: int| 0 <= k < old_cluster.len() && old_cluster[k] == i;
                            assert(cluster@[k] == i);
                        } else {
                            assert(added.contains(i));
                            let k = choose|k: int| 0 <= k < added.len() && added[k] == i;
                            assert(cluster@[old_cluster.len() + k] == i);
                        }
                    }
                }
                assert forall|a: int, b: int| 0 <= a < cluster@.len() && 0 <= b < cluster@.len() && a != b implies cluster@[a]
                    != cluster@[b] by {
                    if a < old_cluster.len() && b >= old_cluster.len() {
                        assert(old_cluster.contains(cluster@[a]));
                        assert(added[b - old_cluster.len()] == cluster@[b]);
                    } else if b < old_cluster.len() && a >= old_cluster.len() {
                        assert(old_cluster.contains(cluster@[b]));
                        assert(added[a - old_cluster.len()] == cluster@[a]);
                    } else if a >= old_cluster.len() {
                        assert(added[a - old_cluster.len()] == cluster@[a]);
                        assert(added[b - old_cluster.len()] == cluster@[b]);
                    }
                }
            }
            push_unclaimed_neighbors(groups, unclaimed, c, &mut pending);
            proof {
                assert forall|q: int| 0 <= q < pending@.len() implies region.contains(#[trigger] pending@[q]) && reaches(
                    region,
                    s,
                    pending@[q],
                ) by {
                    if q < popped.len() {
                        assert(pending@[q] == pending@.subrange(0, popped.len() as int)[q]);
                        assert(popped[q] == before[q]);
                    } else {
                        let n = pending@[q];
                        let jj = choose|jj: int| 0 <= jj < groups@.len() && unclaimed@[jj] && #[trigger] groups@[jj].cell == n;
                        assert(unclaimed_cell(groups@, start, n));
                        lemma_reach_step(region, s, c, n);
                    }
                }
                assert(claimed.contains(s) || pending@.contains(s)) by {
                    if !claimed.contains(s) {
                        let q = choose|q: int| 0 <= q < before.len() && before[q] == s;
                        assert(q < popped.len());
                        assert(pending@[q] == pending@.subrange(0, popped.len() as int)[q]);
                    }
                }
                assert forall|v: Cell, n: Cell|
                    #![trigger claimed.contains(v), neighbors(v, n)]
                    claimed.contains(v) && neighbors(v, n) && region.contains(n) implies claimed.contains(n) || pending@.contains(
                        n,
                    ) by {
                    if !claimed.contains(n) {
                        if v == c {
                            let m = choose|m: int| 0 <= m < 9 && n == #[trigger] neighbor_at(v, m);
                            assert(unclaimed_cell(groups@, start, n));
                            let jj = choose|jj: int| 0 <= jj < groups@.len() && start[jj] && #[trigger] groups@[jj].cell == n;
                            assert(unclaimed@[jj]);
                            assert(unclaimed_cell(groups@, unclaimed@, neighbor_at(c, m)));
                        } else {
                            assert(old_claimed.contains(v));
                            assert(before.contains(n));
                            let q = choose|q: int| 0 <= q < before.len() && before[q] == n;
                            if q == before.len() - 1 {
                                assert(n == c);
                            } else {
                                assert(popped[q] == n);
                                assert(pending@[q] == pending@.subrange(0, popped.len() as int)[q]);
                            }
                        }
                    }
                }
            }
        } else {
            proof {
                assert(claimed.contains(c)) by {
                    assert(unclaimed_cell(groups@, start, c));
                    let jj = choose|jj: int| 0 <= jj < groups@.len() && start[jj] && #[trigger] groups@[jj].cell == c;
                    assert(has_group(groups@, c));
                    let j = found->0;
                    if jj != j {
                        lemma_groups_distinct(groups@, jj, j as int);
                    }
                }
                assert forall|q: int| 0 <= q < pending@.len() implies region.contains(#[trigger] pending@[q]) && reaches(
                    region,
                    s,
                    pending@[q],
                ) by {
                    assert(pending@[q] == before[q]);
                }
                assert(claimed.contains(s) || pending@.contains(s)) by {
                    if !claimed.contains(s) {
                        let q = choose|q: int| 0 <= q < before.len() && before[q] == s;
                        assert(pending@[q] == s);
                    }
                }
                assert forall|v: Cell, n: Cell|
                    #![trigger claimed.contains(v), neighbors(v, n)]
                    claimed.contains(v) && neighbors(v, n) && region.contains(n) implies claimed.contains(n) || pending@.contains(
                        n,
                    ) by {
                    if !claimed.contains(n) {
                        let q = choose|q: int| 0 <= q < before.len() && before[q] == n;
                        if q < before.len() - 1 {
                            assert(pending@[q] == n);
                        }
                    }
                }
            }
        }
    }
    proof {
        let comp = component(region, s);
        assert(claimed.contains(s));
        assert forall|c: Cell| #[trigger] comp.contains(c) <==> claimed.contains(c) by {
            if comp.contains(c) {
                lemma_closed_holds_component(region, claimed, s, c);
            }
        }
        assert(claimed =~= comp);
    }
    cluster
}

/// The cluster that rounds over `region` end with, having found `best` so far: each
/// round takes the cells that paths within the region reach from its first cell, keeps
/// them where they hold more points than the best so far, and goes on with the rest.
pub open spec fn largest_from(cells: Seq<Cell>, region: Set<Cell>, best: Set<Cell>) -> Set<Cell>
    decreases region.len(),
    when region.finite()
{
    let seed = first_cell(region);
    if region.contains(seed) {
        let found = component(region, seed);
        proof {
            lemma_component_shrinks(region, seed);
        }
        largest_from(
            cells,
            region.difference(found),
            if weight(cells, found, cells.len() as int) > weight(cells, best, cells.len() as int) {
                found
            } else {
                best
            },
        )
    } else {
        best
    }
}

/// The largest cluster of the cells of the points: of the clusters that paths
/// between neighboring occupied cells form, the one with the most points; of
/// clusters with as many points, the one whose first cell comes first.
pub open spec fn largest_cluster(cells: Seq<Cell>) -> Set<Cell> {
    largest_from(cells, cells.to_set(), Set::empty())
}

pub proof fn lemma_component_shrinks(region: Set<Cell>, seed: Cell)
    requires
        region.finite(),
        region.contains(seed),
    ensures
        region.difference(component(region, seed)).finite(),
        region.difference(component(region, seed)).len() < region.len(),
{
    lemma_reach_self(region, seed);
    let rest = region.difference(component(region, seed));
    assert(rest.subset_of(region.remove(seed)));
    vstd::set_lib::lemma_len_subset(rest, region.remove(seed));
}

/// Finds the first unclaimed group.
fn first_unclaimed(unclaimed: &Vec<bool>) -> (found: Option<usize>)
    ensures
        found matches Some(j) ==> j < unclaimed@.len() && unclaimed@[j as int] && forall|i: int|
            0 <= i < j ==> !#[trigger] unclaimed@[i],
        found is None ==> forall|i: int| 0 <= i < unclaimed@.len() ==> !#[trigger] unclaimed@[i],
{
    let mut j: usize = 0;
    while j < unclaimed.len()
        invariant
            j <= unclaimed@.len(),
            forall|i: int| 0 <= i < j ==> !#[trigger] unclaimed@[i],
        decreases unclaimed.len() - j,
    {
        if unclaimed[j] {
            return Some(j);
        }
        j = j + 1;
    }
    None
}

/// The points of the largest cluster of cells (see `largest_cluster`), as positions
/// among `cells`, which give the cell of each point.
pub fn largest_land_cluster(cells: &Vec<Cell>) -> (cluster: Vec<usize>)
    requires
        rows_in_range(cells@),
    ensures
        forall|i: usize|
            #[trigger] cluster@.contains(i) <==> i < cells@.len() && largest_cluster(cells@).contains(cells@[i as int]),
        cluster@.no_duplicates(),
{
    let groups = group_cells(cells);
    let mut unclaimed: Vec<bool> = Vec::new();
    let mut g: usize = 0;
    while g < groups.len()
        invariant
            g <= groups@.len(),
            unclaimed@.len() == g,
            forall|i: int| 0 <= i < g ==> #[trigger] unclaimed@[i],
        decreases groups.len() - g,
    {
        unclaimed.push(true);
        g = g + 1;
    }
    let mut largest: Vec<usize> = Vec::new();
    let ghost mut best: Set<Cell> = Set::empty();
    proof {
        assert forall|c: Cell| #[trigger] region_of(groups@, unclaimed@).contains(c) <==> cells@.to_set().contains(c) by {
            if region_of(groups@, unclaimed@).contains(c) {
                assert(unclaimed_cell(groups@, unclaimed@, c));
                let j = choose|j: int| 0 <= j < groups@.len() && unclaimed@[j] && #[trigger] groups@[j].cell == c;
                assert(has_group(groups@, c));
                let p = choose|p: int| 0 <= p < cells@.len() && #[trigger] cells@[p] == c;
                assert(cells@.contains(c));
            }
            if cells@.to_set().contains(c) {
                assert(cells@.contains(c));
                let p = choose|p: int| 0 <= p < cells@.len() && cells@[p] == c;
                assert(occurs(cells@, c, cells@.len() as int));
                let j = choose|j: int| 0 <= j < groups@.len() && #[trigger] groups@[j].cell == c;
                assert(unclaimed_cell(groups@, unclaimed@, c));
            }
        }
        assert(region_of(groups@, unclaimed@) =~= cells@.to_set());
        lemma_weight_empty(cells@, cells@.len() as int);
    }
    let count = cells.len();
    loop
        invariant
            count == cells@.len(),
            rows_in_range(cells@),
            grouped(cells@, groups@, cells@.len() as int),
            unclaimed@.len() == groups@.len(),
            largest_cluster(cells@) == largest_from(cells@, region_of(groups@, unclaimed@), best),
            forall|i: usize| #[trigger] largest@.contains(i) <==> i < cells@.len() && best.contains(cells@[i as int]),
            largest@.no_duplicates(),
            largest@.len() == weight(cells@, best, cells@.len() as int),
        decreases region_of(groups@, unclaimed@).len(),
    {
        let ghost region = region_of(groups@, unclaimed@);
        let ghost before = unclaimed@;
        proof {
            lemma_region_finite(groups@, unclaimed@);
        }
        let seed = match first_unclaimed(&unclaimed) {
            Some(j) => j,
            None => {
                proof {
                    assert(region =~= Set::<Cell>::empty()) by {
                        assert forall|c: Cell| !region.contains(c) by {
                            if region.contains(c) {
                                assert(unclaimed_cell(groups@, unclaimed@, c));
                            }
                        }
                    }
                    assert(!region.contains(first_cell(region)));
                }
                return largest;
            },
        };
        let ghost s = groups@[seed as int].cell;
        proof {
            assert(unclaimed_cell(groups@, unclaimed@, s));
            assert(region.contains(s));
            assert forall|d: Cell| #[trigger] region.contains(d) implies !cell_before(d, s) by {
                assert(unclaimed_cell(groups@, unclaimed@, d));
                let jj = choose|jj: int| 0 <= jj < groups@.len() && unclaimed@[jj] && #[trigger] groups@[jj].cell == d;
                if jj > seed {
                    assert(cell_before(groups@[seed as int].cell, groups@[jj].cell));
                }
            }
            let first = first_cell(region);
            assert(region.contains(first) && forall|d: Cell| #[trigger] region.contains(d) ==> !cell_before(d, first));
            assert(!cell_before(s, first) && !cell_before(first, s));
            assert(first == s);
        }
        let cluster = explore(&groups, &mut unclaimed, seed, Ghost(cells@));
        proof {
            let found = component(region, s);
            assert forall|c: Cell| #[trigger] region_of(groups@, unclaimed@).contains(c) <==> region.difference(found).contains(c) by {
                if region_of(groups@, unclaimed@).contains(c) {
                    assert(unclaimed_cell(groups@, unclaimed@, c));
                    let jj = choose|jj: int| 0 <= jj < groups@.len() && unclaimed@[jj] && #[trigger] groups@[jj].cell == c;
                    assert(unclaimed_cell(groups@, before, c));
                }
                if region.difference(found).contains(c) {
                    assert(unclaimed_cell(groups@, before, c));
                    let jj = choose|jj: int| 0 <= jj < groups@.len() && before[jj] && #[trigger] groups@[jj].cell == c;
                    assert(unclaimed@[jj]);
                    assert(unclaimed_cell(groups@, unclaimed@, c));
                }
            }
            assert(region_of(groups@, unclaimed@) =~= region.difference(found));
            lemma_component_shrinks(region, s);
        }
        if cluster.len() > largest.len() {
            largest = cluster;
            proof {
                best = component(region, s);
            }
        }
    }
}

/// Whether every cell of `cluster` is reached from one of its cells by a path
/// through `region` (an empty cluster is linked).
pub open spec fn linked(cluster: Set<Cell>, region: Set<Cell>) -> bool {
    cluster =~= Set::<Cell>::empty() || exists|seed: Cell|
        cluster.contains(seed) && forall|c: Cell| #[trigger] cluster.contains(c) ==> reaches(region, seed, c)
}

/// A path within a region is a path within any region around it.
proof fn lemma_reach_widens(small: Set<Cell>, large: Set<Cell>, from: Cell, to: Cell)
    requires
        small.subset_of(large),
        reaches(small, from, to),
    ensures
        reaches(large, from, to),
{
    let path = choose|path: Seq<Cell>| #[trigger] is_path(small, path) && path[0] == from && path.last() == to;
    assert(is_path(large, path));
}

proof fn lemma_rounds_linked(cells: Seq<Cell>, region: Set<Cell>, best: Set<Cell>, all: Set<Cell>)
    requires
        region.finite(),
        region.subset_of(all),
        linked(best, all),
    ensures
        linked(largest_from(cells, region, best), all),
    decreases region.len(),
{
    let seed = first_cell(region);
    if region.contains(seed) {
        let found = component(region, seed);
        lemma_component_shrinks(region, seed);
        lemma_reach_self(region, seed);
        assert forall|c: Cell| #[trigger] found.contains(c) implies reaches(all, seed, c) by {
            lemma_reach_widens(region, all, seed, c);
        }
        assert(found.contains(seed));
        let next = if weight(cells, found, cells.len() as int) > weight(cells, best, cells.len() as int) {
            found
        } else {
            best
        };
        assert(linked(next, all));
        lemma_rounds_linked(cells, region.difference(found), next, all);
    }
}

/// Distant holdings never join the largest cluster: every one of its cells is
/// reached from one of them through cells that points occupy, step by step
/// between neighboring cells.
pub proof fn lemma_largest_cluster_linked(cells: Seq<Cell>)
    ensures
        linked(largest_cluster(cells), cells.to_set()),
{
    vstd::seq_lib::seq_to_set_is_finite(cells);
    lemma_rounds_linked(cells, cells.to_set(), Set::empty(), cells.to_set());
}

/// Whether every cell lies within the map's 64 columns, with room for a step up
/// and down in its row.
pub open spec fn on_map(cells: Seq<Cell>) -> bool {
    forall|i: int|
        0 <= i < cells.len() ==> 0 <= #[trigger] cells[i].0 < 64 && i32::MIN < cells[i].1 < i32::MAX
}

/// Whether a cell lies within the map's columns, with room for a step up and down.
pub open spec fn on_map_cell(c: Cell) -> bool {
    0 <= c.0 < 64 && i32::MIN < c.1 < i32::MAX
}

/// Stepping to a neighbor and back by the opposite offset returns to the cell.
proof fn lemma_step_back(a: Cell, k: int)
    requires
        on_map_cell(a),
        0 <= k < 9,
    ensures
        neighbor_at(neighbor_at(a, k), 8 - k) == a,
{
    let b = neighbor_at(a, k);
    if k == 0 {
        assert(b.0 == (a.0 - 1) % 64 && b.1 == a.1 - 1);
    } else if k == 1 {
        assert(b.0 == (a.0 - 1) % 64 && b.1 == a.1);
    } else if k == 2 {
        assert(b.0 == (a.0 - 1) % 64 && b.1 == a.1 + 1);
    } else if k == 3 {
        assert(b.0 == a.0 % 64 && b.1 == a.1 - 1);
    } else if k == 4 {
        assert(b.0 == a.0 % 64 && b.1 == a.1);
    } else if k == 5 {
        assert(b.0 == a.0 % 64 && b.1 == a.1 + 1);
    } else if k == 6 {
        assert(b.0 == (a.0 + 1) % 64 && b.1 == a.1 - 1);
    } else if k == 7 {
        assert(b.0 == (a.0 + 1) % 64 && b.1 == a.1);
    } else {
        assert(b.0 == (a.0 + 1) % 64 && b.1 == a.1 + 1);
    }
}

/// On the map, neighboring is mutual.
proof fn lemma_neighbors_mutual(a: Cell, b: Cell)
    requires
        on_map_cell(a),
        neighbors(a, b),
    ensures
        neighbors(b, a),
{
    let k = choose|k: int| 0 <= k < 9 && b == #[trigger] neighbor_at(a, k);
    lemma_step_back(a, k);
    assert(a == neighbor_at(b, 8 - k));
}

/// On the map, a path walked backwards is a path.
proof fn lemma_reach_back(region: Set<Cell>, from: Cell, to: Cell)
    requires
        forall|c: Cell| #[trigger] region.contains(c) ==> on_map_cell(c),
        reaches(region, from, to),
    ensures
        reaches(region, to, from),
{
    let path = choose|path: Seq<Cell>| #[trigger] is_path(region, path) && path[0] == from && path.last() == to;
    let back = path.reverse();
    assert forall|i: int| 0 <= i < back.len() - 1 implies neighbors(#[trigger] back[i], back[i + 1]) by {
        let j = path.len() - 2 - i;
        assert(back[i] == path[j + 1] && back[i + 1] == path[j]);
        assert(neighbors(path[j], path[j + 1]));
        assert(region.contains(path[j]));
        lemma_neighbors_mutual(path[j], path[j + 1]);
    }
    assert forall|i: int| 0 <= i < back.len() implies region.contains(#[trigger] back[i]) by {
        assert(back[i] == path[path.len() - 1 - i]);
    }
    assert(is_path(region, back));
}

/// Paths join end to end.
proof fn lemma_reach_join(region: Set<Cell>, a: Cell, b: Cell, c: Cell)
    requires
        reaches(region, a, b),
        reaches(region, b, c),
    ensures
        reaches(region, a, c),
{
    let first = choose|path: Seq<Cell>| #[trigger] is_path(region, path) && path[0] == a && path.last() == b;
    let second = choose|path: Seq<Cell>| #[trigger] is_path(region, path) && path[0] == b && path.last() == c;
    let joined = first + second.drop_first();
    assert forall|i: int| 0 <= i < joined.len() implies region.contains(#[trigger] joined[i]) by {
        if i >= first.len() {
            assert(joined[i] == second[i - first.len() + 1]);
        }
    }
    assert forall|i: int| 0 <= i < joined.len() - 1 implies neighbors(#[trigger] joined[i], joined[i + 1]) by {
        if i < first.len() - 1 {
            assert(joined[i] == first[i] && joined[i + 1] == first[i + 1]);
        } else if i == first.len() - 1 {
            assert(joined[i] == b && joined[i + 1] == second[1]);
            assert(neighbors(second[0], second[1]));
        } else {
            assert(joined[i] == second[i - first.len() + 1] && joined[i + 1] == second[i - first.len() + 2]);
        }
    }
    assert(is_path(region, joined));
    if second.len() == 1 {
        assert(joined =~= first);
    } else {
        assert(joined.last() == second.last());
    }
}

/// Whether `region` is a union of whole clusters of `all`: what a cell of it
/// reaches within `all` lies in it.
pub open spec fn closed_within(region: Set<Cell>, all: Set<Cell>) -> bool {
    &&& region.subset_of(all)
    &&& forall|a: Cell, b: Cell|
        #![trigger region.contains(a), reaches(all, a, b)]
        region.contains(a) && reaches(all, a, b) ==> region.contains(b)
}

/// Within a union of whole clusters, the cluster of a cell is its cluster in the whole.
proof fn lemma_component_unchanged(region: Set<Cell>, all: Set<Cell>, seed: Cell)
    requires
        closed_within(region, all),
        region.contains(seed),
    ensures
        component(region, seed) =~= component(all, seed),
{
    assert forall|c: Cell| #[trigger] component(all, seed).contains(c) implies component(region, seed).contains(c) by {
        let path = choose|path: Seq<Cell>| #[trigger] is_path(all, path) && path[0] == seed && path.last() == c;
        assert forall|i: int| 0 <= i < path.len() implies region.contains(#[trigger] path[i]) by {
            let prefix = path.take(i + 1);
            assert forall|j: int| 0 <= j < prefix.len() - 1 implies neighbors(#[trigger] prefix[j], prefix[j + 1]) by {
                assert(prefix[j] == path[j] && prefix[j + 1] == path[j + 1]);
            }
            assert(is_path(all, prefix));
            assert(prefix[0] == seed && prefix.last() == path[i]);
            assert(reaches(all, seed, path[i]));
        }
        assert(is_path(region, path));
    }
    assert forall|c: Cell| #[trigger] component(region, seed).contains(c) implies component(all, seed).contains(c) by {
        lemma_reach_widens(region, all, seed, c);
    }
}

/// Taking one whole cluster out of a union of whole clusters leaves a union of
/// whole clusters.
proof fn lemma_rest_closed(region: Set<Cell>, all: Set<Cell>, seed: Cell)
    requires
        closed_within(region, all),
        region.contains(seed),
        forall|c: Cell| #[trigger] all.contains(c) ==> on_map_cell(c),
    ensures
        closed_within(region.difference(component(region, seed)), all),
{
    let found = component(region, seed);
    lemma_component_unchanged(region, all, seed);
    let rest = region.difference(found);
    assert forall|a: Cell, b: Cell|
        #![trigger rest.contains(a), reaches(all, a, b)]
        rest.contains(a) && reaches(all, a, b) implies rest.contains(b) by {
        assert(region.contains(b));
        if found.contains(b) {
            assert(reaches(all, seed, b));
            lemma_reach_back(all, a, b);
            lemma_reach_join(all, seed, b, a);
            assert(component(all, seed).contains(a));
        }
    }
}

/// On the map, a cell that a cluster's cell reaches has the same cluster.
proof fn lemma_same_cluster(all: Set<Cell>, seed: Cell, c: Cell)
    requires
        forall|d: Cell| #[trigger] all.contains(d) ==> on_map_cell(d),
        reaches(all, seed, c),
    ensures
        component(all, c) =~= component(all, seed),
{
    assert forall|d: Cell| #[trigger] component(all, c).contains(d) <==> component(all, seed).contains(d) by {
        if component(all, c).contains(d) {
            lemma_reach_join(all, seed, c, d);
        }
        if component(all, seed).contains(d) {
            lemma_reach_back(all, seed, c);
            lemma_reach_join(all, c, seed, d);
        }
    }
}

/// Whether `best` holds a cell that comes before every cell of `region`.
spec fn leads(best: Set<Cell>, region: Set<Cell>) -> bool {
    exists|d: Cell| best.contains(d) && forall|r: Cell| #[trigger] region.contains(r) ==> cell_before(d, r)
}

/// Whether `best` holds a cell that does not come after `c`.
pub open spec fn holds_cell_up_to(best: Set<Cell>, c: Cell) -> bool {
    exists|d: Cell| best.contains(d) && !cell_before(c, d)
}

proof fn lemma_rounds_largest(cells: Seq<Cell>, region: Set<Cell>, best: Set<Cell>, all: Set<Cell>)
    requires
        region.finite(),
        closed_within(region, all),
        all == cells.to_set(),
        forall|c: Cell| #[trigger] all.contains(c) ==> on_map_cell(c),
        forall|c: Cell|
            #![trigger all.contains(c)]
            all.contains(c) && !region.contains(c) ==> weight(cells, component(all, c), cells.len() as int) <= weight(
                cells,
                best,
                cells.len() as int,
            ),
        forall|c: Cell|
            #![trigger all.contains(c)]
            all.contains(c) && !region.contains(c) && weight(cells, component(all, c), cells.len() as int) == weight(
                cells,
                best,
                cells.len() as int,
            ) ==> holds_cell_up_to(best, c),
        best == Set::<Cell>::empty() || leads(best, region),
    ensures
        forall|c: Cell|
            #[trigger] all.contains(c) ==> weight(cells, component(all, c), cells.len() as int) <= weight(
                cells,
                largest_from(cells, region, best),
                cells.len() as int,
            ),
        forall|c: Cell|
            #![trigger all.contains(c)]
            all.contains(c) && weight(cells, component(all, c), cells.len() as int) == weight(
                cells,
                largest_from(cells, region, best),
                cells.len() as int,
            ) ==> holds_cell_up_to(largest_from(cells, region, best), c),
    decreases region.len(),
{
    let seed = first_cell(region);
    if region.contains(seed) {
        let found = component(region, seed);
        lemma_component_shrinks(region, seed);
        lemma_component_unchanged(region, all, seed);
        lemma_reach_self(region, seed);
        let n = cells.len() as int;
        assert(cells.contains(seed));
        let i = choose|i: int| 0 <= i < cells.len() && cells[i] == seed;
        lemma_weight_positive(cells, found, i, n);
        lemma_weight_empty(cells, n);
        let replaced = weight(cells, found, n) > weight(cells, best, n);
        let next = if replaced {
            found
        } else {
            best
        };
        let rest = region.difference(found);
        lemma_rest_closed(region, all, seed);
        assert forall|c: Cell| #[trigger] found.contains(c) implies component(all, c) =~= found by {
            assert(reaches(all, seed, c));
            lemma_same_cluster(all, seed, c);
        }
        assert forall|c: Cell|
            #![trigger all.contains(c)]
            all.contains(c) && !rest.contains(c) implies weight(cells, component(all, c), n) <= weight(cells, next, n)
            && (weight(cells, component(all, c), n) == weight(cells, next, n) ==> holds_cell_up_to(next, c)) by {
            if region.contains(c) {
                assert(found.contains(c));
                assert(component(all, c) =~= found);
                if replaced {
                    assert(found.contains(c) && !cell_before(c, c));
                } else if weight(cells, component(all, c), n) == weight(cells, next, n) {
                    assert(best != Set::<Cell>::empty());
                    let d = choose|d: Cell| best.contains(d) && forall|r: Cell| #[trigger] region.contains(r) ==> cell_before(d, r);
                    assert(cell_before(d, c));
                    assert(best.contains(d) && !cell_before(c, d));
                }
            }
        }
        assert(next == Set::<Cell>::empty() || leads(next, rest)) by {
            if replaced {
                lemma_first_cell_exists(region, seed);
                assert forall|r: Cell| #[trigger] rest.contains(r) implies cell_before(seed, r) by {
                    assert(region.contains(r) && !found.contains(r));
                    assert(!cell_before(r, seed));
                    assert(r != seed);
                }
                assert(found.contains(seed));
            } else if best != Set::<Cell>::empty() {
                let d = choose|d: Cell| best.contains(d) && forall|r: Cell| #[trigger] region.contains(r) ==> cell_before(d, r);
                assert forall|r: Cell| #[trigger] rest.contains(r) implies cell_before(d, r) by {
                    assert(region.contains(r));
                }
            }
        }
        lemma_rounds_largest(cells, rest, next, all);
    } else {
        assert forall|c: Cell| #[trigger] all.contains(c) implies !region.contains(c) by {
            if region.contains(c) {
                lemma_first_cell_exists(region, c);
            }
        }
    }
}

/// A region with a cell has a first cell.
proof fn lemma_first_cell_exists(region: Set<Cell>, c: Cell)
    requires
        region.finite(),
        region.contains(c),
    ensures
        region.contains(first_cell(region)),
        forall|d: Cell| #[trigger] region.contains(d) ==> !cell_before(d, first_cell(region)),
    decreases region.len(),
{
    let rest = region.remove(c);
    if rest.len() == 0 {
        assert forall|d: Cell| #[trigger] region.contains(d) implies !cell_before(d, c) by {
            if d != c {
                assert(rest.contains(d));
            }
        }
        assert(region.contains(c) && forall|d: Cell| #[trigger] region.contains(d) ==> !cell_before(d, c));
    } else {
        let other = rest.choose();
        assert(rest.contains(other));
        lemma_first_cell_exists(rest, other);
        let m = first_cell(rest);
        if cell_before(c, m) {
            assert forall|d: Cell| #[trigger] region.contains(d) implies !cell_before(d, c) by {
                if d != c {
                    assert(rest.contains(d));
                    assert(!cell_before(d, m));
                }
            }
            assert(region.contains(c) && forall|d: Cell| #[trigger] region.contains(d) ==> !cell_before(d, c));
        } else {
            assert forall|d: Cell| #[trigger] region.contains(d) implies !cell_before(d, m) by {
                if d != c {
                    assert(rest.contains(d));
                }
            }
            assert(region.contains(m) && forall|d: Cell| #[trigger] region.contains(d) ==> !cell_before(d, m));
        }
    }
}

/// No cluster holds more points than the largest, and ties keep the first: on a
/// map whose cells lie within its 64 columns, the cluster of any occupied cell has
/// at most as many points as the largest cluster, and where it has as many, the
/// largest cluster holds a cell that does not come after any of its cells.
pub proof fn lemma_largest_cluster_is_largest(cells: Seq<Cell>, c: Cell)
    requires
        on_map(cells),
        cells.contains(c),
    ensures
        weight(cells, component(cells.to_set(), c), cells.len() as int) <= weight(
            cells,
            largest_cluster(cells),
            cells.len() as int,
        ),
        weight(cells, component(cells.to_set(), c), cells.len() as int) == weight(
            cells,
            largest_cluster(cells),
            cells.len() as int,
        ) ==> holds_cell_up_to(largest_cluster(cells), c),
{
    let all = cells.to_set();
    vstd::seq_lib::seq_to_set_is_finite(cells);
    assert forall|d: Cell| #[trigger] all.contains(d) implies on_map_cell(d) by {
        let i = choose|i: int| 0 <= i < cells.len() && cells[i] == d;
        assert(0 <= cells[i].0 < 64);
    }
    assert forall|a: Cell, b: Cell|
        #![trigger all.contains(a), reaches(all, a, b)]
        all.contains(a) && reaches(all, a, b) implies all.contains(b) by {
        let path = choose|path: Seq<Cell>| #[trigger] is_path(all, path) && path[0] == a && path.last() == b;
        assert(all.contains(path[path.len() - 1]));
    }
    lemma_rounds_largest(cells, all, Set::empty(), all);
    assert(all.contains(c));
}

/// A count of points is never negative.
proof fn lemma_weight_nonnegative(cells: Seq<Cell>, cluster: Set<Cell>, n: int)
    ensures
        weight(cells, cluster, n) >= 0,
    decreases n,
{
    if n > 0 {
        lemma_weight_nonnegative(cells, cluster, n - 1);
    }
}

/// A cluster that holds the cell of one of the first `n` points holds a point.
proof fn lemma_weight_positive(cells: Seq<Cell>, cluster: Set<Cell>, i: int, n: int)
    requires
        0 <= i < n,
        cluster.contains(cells[i]),
    ensures
        weight(cells, cluster, n) >= 1,
    decreases n,
{
    if i < n - 1 {
        lemma_weight_positive(cells, cluster, i, n - 1);
    } else {
        lemma_weight_nonnegative(cells, cluster, n - 1);
    }
}

/// Whether `cluster` is one whole cluster of `all`: the cells that paths within
/// `all` reach from one of its cells.
pub open spec fn whole_cluster(cluster: Set<Cell>, all: Set<Cell>) -> bool {
    exists|seed: Cell| all.contains(seed) && cluster == #[trigger] component(all, seed)
}

proof fn lemma_rounds_whole(cells: Seq<Cell>, region: Set<Cell>, best: Set<Cell>, all: Set<Cell>)
    requires
        region.finite(),
        closed_within(region, all),
        all == cells.to_set(),
        forall|c: Cell| #[trigger] all.contains(c) ==> on_map_cell(c),
        best == Set::<Cell>::empty() || whole_cluster(best, all),
        best == Set::<Cell>::empty() ==> exists|c: Cell| region.contains(c),
    ensures
        whole_cluster(largest_from(cells, region, best), all),
    decreases region.len(),
{
    let seed = first_cell(region);
    if region.contains(seed) {
        let found = component(region, seed);
        lemma_component_shrinks(region, seed);
        lemma_component_unchanged(region, all, seed);
        lemma_rest_closed(region, all, seed);
        assert(whole_cluster(found, all));
        let next = if weight(cells, found, cells.len() as int) > weight(cells, best, cells.len() as int) {
            found
        } else {
            best
        };
        if best == Set::<Cell>::empty() {
            lemma_weight_empty(cells, cells.len() as int);
            assert(cells.contains(seed));
            let i = choose|i: int| 0 <= i < cells.len() && cells[i] == seed;
            lemma_reach_self(region, seed);
            lemma_weight_positive(cells, found, i, cells.len() as int);
            assert(next == found);
        }
        let w = choose|w: Cell| all.contains(w) && next == #[trigger] component(all, w);
        lemma_reach_self(all, w);
        assert(next.contains(w));
        lemma_rounds_whole(cells, region.difference(found), next, all);
    } else if best == Set::<Cell>::empty() {
        let c = choose|c: Cell| region.contains(c);
        lemma_first_cell_exists(region, c);
    }
}

/// The largest cluster is one whole cluster: on a map whose cells lie within its
/// 64 columns, it is all the cells that paths between neighboring occupied cells
/// reach from one occupied cell, so it holds every point of that cluster and no
/// other; and it is empty exactly when there are no points.
pub proof fn lemma_largest_cluster_is_whole(cells: Seq<Cell>)
    requires
        on_map(cells),
    ensures
        cells.len() > 0 ==> whole_cluster(largest_cluster(cells), cells.to_set()),
        largest_cluster(cells) == Set::<Cell>::empty() <==> cells.len() == 0,
{
    let all = cells.to_set();
    vstd::seq_lib::seq_to_set_is_finite(cells);
    if cells.len() == 0 {
        assert(all =~= Set::<Cell>::empty());
        assert(!all.contains(first_cell(all)));
    } else {
        assert forall|d: Cell| #[trigger] all.contains(d) implies on_map_cell(d) by {
            let i = choose|i: int| 0 <= i < cells.len() && cells[i] == d;
            assert(0 <= cells[i].0 < 64);
        }
        assert forall|a: Cell, b: Cell|
            #![trigger all.contains(a), reaches(all, a, b)]
            all.contains(a) && reaches(all, a, b) implies all.contains(b) by {
            let path = choose|path: Seq<Cell>| #[trigger] is_path(all, path) && path[0] == a && path.last() == b;
            assert(all.contains(path[path.len() - 1]));
        }
        assert(all.contains(cells[0]));
        lemma_rounds_whole(cells, all, Set::empty(), all);
        let w = choose|w: Cell| all.contains(w) && largest_cluster(cells) == #[trigger] component(all, w);
        lemma_reach_self(all, w);
        assert(largest_cluster(cells).contains(w));
    }
}

} // verus!
