use vstd::prelude::*;
use vstd::multiset::Multiset;
use crate::agent::{agent_ok, Agent, Health, UNITS_PER_CELL};

verus! {

broadcast use {vstd::multiset::group_multiset_axioms, vstd::seq_lib::group_to_multiset_ensures};

/// Largest side of the domain, in cells.
pub const MAX_DOMAIN: u32 = 1000;

/// The census key that counts every agent whatever its health.
pub open spec fn any_kind() -> nat {
    4
}

/// 0 for healthy, 1 for infected, 2 for recovered, 3 for dead.
pub open spec fn kind_of(h: Health) -> nat {
    match h {
        Health::Healthy => 0,
        Health::Infected(_) => 1,
        Health::Recovered => 2,
        Health::Dead => 3,
    }
}

pub open spec fn counts_as(a: Agent, k: nat) -> bool {
    k == any_kind() || kind_of(a.health) == k
}

/// How many agents of `s` are of kind `k` (all of them for `any_kind()`).
pub open spec fn tally(s: Seq<Agent>, k: nat) -> int
    decreases s.len(),
{
    if s.len() == 0 {
        0
    } else {
        tally(s.drop_last(), k) + if counts_as(s.last(), k) { 1int } else { 0int }
    }
}

/// How many agents of kind `k` the cells hold together.
pub open spec fn census(cells: Seq<Vec<Agent>>, k: nat) -> int
    decreases cells.len(),
{
    if cells.len() == 0 {
        0
    } else {
        census(cells.drop_last(), k) + tally(cells.last()@, k)
    }
}

/// The agents of all cells, cell after cell.
pub open spec fn flat(cells: Seq<Vec<Agent>>) -> Seq<Agent>
    decreases cells.len(),
{
    if cells.len() == 0 {
        Seq::empty()
    } else {
        flat(cells.drop_last()) + cells.last()@
    }
}

/// The agents of all cells, as a multiset.
pub open spec fn grid_ms(cells: Seq<Vec<Agent>>) -> Multiset<Agent>
    decreases cells.len(),
{
    if cells.len() == 0 {
        Multiset::empty()
    } else {
        grid_ms(cells.drop_last()).add(cells.last()@.to_multiset())
    }
}

/// Index of the cell that holds `a` in a grid `cols` cells wide:
/// the row is `floor(y)`, the column `floor(x)`, both in cells.
pub open spec fn cell_index(a: Agent, cols: int) -> int {
    (a.y as int / UNITS_PER_CELL as int) * cols + a.x as int / UNITS_PER_CELL as int
}

pub proof fn lemma_tally_push(s: Seq<Agent>, a: Agent, k: nat)
    ensures
        tally(s.push(a), k) == tally(s, k) + if counts_as(a, k) { 1int } else { 0int },
{
    assert(s.push(a).drop_last() =~= s);
}

pub proof fn lemma_tally_update(s: Seq<Agent>, i: int, a: Agent, k: nat)
    requires
        0 <= i < s.len(),
    ensures
        tally(s.update(i, a), k) == tally(s, k) - (if counts_as(s[i], k) { 1int } else { 0int }) + if counts_as(a, k) {
            1int
        } else {
            0int
        },
    decreases s.len(),
{
    let u = s.update(i, a);
    if i == s.len() - 1 {
        assert(u.drop_last() =~= s.drop_last());
    } else {
        assert(u.drop_last() =~= s.drop_last().update(i, a));
        lemma_tally_update(s.drop_last(), i, a, k);
    }
}

pub proof fn lemma_tally_zero(s: Seq<Agent>, k: nat, i: int)
    requires
        tally(s, k) == 0,
        0 <= i < s.len(),
    ensures
        !counts_as(s[i], k),
    decreases s.len(),
{
    lemma_tally_bounds(s.drop_last(), k);
    if i < s.len() - 1 {
        lemma_tally_zero(s.drop_last(), k, i);
    }
}

pub proof fn lemma_tally_bounds(s: Seq<Agent>, k: nat)
    ensures
        0 <= tally(s, k) <= s.len(),
        tally(s, any_kind()) == s.len(),
    decreases s.len(),
{
    if s.len() > 0 {
        lemma_tally_bounds(s.drop_last(), k);
    }
}

pub proof fn lemma_tally_take(s: Seq<Agent>, j: int, k: nat)
    requires
        0 <= j < s.len(),
    ensures
        tally(s.take(j + 1), k) == tally(s.take(j), k) + if counts_as(s[j], k) { 1int } else { 0int },
{
    assert(s.take(j + 1).drop_last() =~= s.take(j));
}

pub proof fn lemma_census_take(cells: Seq<Vec<Agent>>, c: int, k: nat)
    requires
        0 <= c < cells.len(),
    ensures
        census(cells.take(c + 1), k) == census(cells.take(c), k) + tally(cells[c]@, k),
{
    assert(cells.take(c + 1).drop_last() =~= cells.take(c));
}

pub proof fn lemma_flat_take(cells: Seq<Vec<Agent>>, c: int)
    requires
        0 <= c < cells.len(),
    ensures
        flat(cells.take(c + 1)) == flat(cells.take(c)) + cells[c]@,
{
    assert(cells.take(c + 1).drop_last() =~= cells.take(c));
}

pub proof fn lemma_census_update(cells: Seq<Vec<Agent>>, i: int, v: Vec<Agent>, k: nat)
    requires
        0 <= i < cells.len(),
    ensures
        census(cells.update(i, v), k) == census(cells, k) - tally(cells[i]@, k) + tally(v@, k),
    decreases cells.len(),
{
    let u = cells.update(i, v);
    if i == cells.len() - 1 {
        assert(u.drop_last() =~= cells.drop_last());
    } else {
        assert(u.drop_last() =~= cells.drop_last().update(i, v));
        lemma_census_update(cells.drop_last(), i, v, k);
    }
}

pub proof fn lemma_grid_ms_update(cells: Seq<Vec<Agent>>, i: int, v: Vec<Agent>)
    requires
        0 <= i < cells.len(),
    ensures
        grid_ms(cells.update(i, v)).add(cells[i]@.to_multiset()) =~= grid_ms(cells).add(v@.to_multiset()),
    decreases cells.len(),
{
    let u = cells.update(i, v);
    assert(grid_ms(u) == grid_ms(u.drop_last()).add(u.last()@.to_multiset()));
    assert(grid_ms(cells) == grid_ms(cells.drop_last()).add(cells.last()@.to_multiset()));
    if i == cells.len() - 1 {
        assert(u.drop_last() =~= cells.drop_last());
        assert(u.last() == v);
        assert(cells[i] == cells.last());
    } else {
        assert(u.drop_last() =~= cells.drop_last().update(i, v));
        assert(u.last() == cells.last());
        assert(cells.drop_last()[i] == cells[i]);
        lemma_grid_ms_update(cells.drop_last(), i, v);
    }
    assert forall|x: Agent|
        #[trigger] grid_ms(u).add(cells[i]@.to_multiset()).count(x) == grid_ms(cells).add(v@.to_multiset()).count(x) by {
        if i < cells.len() - 1 {
            assert(grid_ms(u.drop_last()).add(cells[i]@.to_multiset()).count(x) == grid_ms(cells.drop_last()).add(
                v@.to_multiset(),
            ).count(x));
        }
    }
}

pub proof fn lemma_grid_ms_empty(cells: Seq<Vec<Agent>>)
    requires
        forall|i: int| 0 <= i < cells.len() ==> (#[trigger] cells[i])@.len() == 0,
    ensures
        grid_ms(cells) =~= Multiset::<Agent>::empty(),
    decreases cells.len(),
{
    if cells.len() > 0 {
        lemma_grid_ms_empty(cells.drop_last());
        assert(cells.last()@ =~= Seq::<Agent>::empty());
    }
}

pub proof fn lemma_flat_ms(cells: Seq<Vec<Agent>>)
    ensures
        flat(cells).to_multiset() == grid_ms(cells),
    decreases cells.len(),
{
    if cells.len() > 0 {
        lemma_flat_ms(cells.drop_last());
        vstd::seq_lib::lemma_multiset_commutative(flat(cells.drop_last()), cells.last()@);
    }
}

/// The first cells flatten to a prefix of all cells.
pub proof fn lemma_flat_prefix(cells: Seq<Vec<Agent>>, c: int)
    requires
        0 <= c <= cells.len(),
    ensures
        flat(cells.take(c)).len() <= flat(cells).len(),
        flat(cells).take(flat(cells.take(c)).len() as int) == flat(cells.take(c)),
    decreases cells.len(),
{
    if c == cells.len() {
        assert(cells.take(c) =~= cells);
        assert(flat(cells).take(flat(cells).len() as int) =~= flat(cells));
    } else {
        assert(cells.take(c) =~= cells.drop_last().take(c));
        lemma_flat_prefix(cells.drop_last(), c);
        let p = flat(cells.take(c));
        assert(flat(cells).take(p.len() as int) =~= flat(cells.drop_last()).take(p.len() as int));
    }
}

pub proof fn lemma_flat_len_mono(cells: Seq<Vec<Agent>>, a: int, b: int)
    requires
        0 <= a <= b <= cells.len(),
    ensures
        flat(cells.take(a)).len() <= flat(cells.take(b)).len(),
    decreases b - a,
{
    if a < b {
        lemma_flat_take(cells, b - 1);
        lemma_flat_len_mono(cells, a, b - 1);
    }
}

/// Agent `j` of cell `c` stands at `flat(cells.take(c)).len() + j` in `flat(cells)`.
pub proof fn lemma_flat_index(cells: Seq<Vec<Agent>>, c: int, j: int)
    requires
        0 <= c < cells.len(),
        0 <= j < cells[c]@.len(),
    ensures
        flat(cells.take(c)).len() + j < flat(cells).len(),
        flat(cells)[flat(cells.take(c)).len() + j] == cells[c]@[j],
{
    lemma_flat_take(cells, c);
    lemma_flat_prefix(cells, c + 1);
    let k = flat(cells.take(c)).len() + j;
    assert(flat(cells.take(c + 1))[k] == cells[c]@[j]);
    assert(flat(cells).take(flat(cells.take(c + 1)).len() as int)[k] == flat(cells)[k]);
}

pub proof fn lemma_census_prefix(cells: Seq<Vec<Agent>>, c: int)
    requires
        0 <= c <= cells.len(),
    ensures
        0 <= census(cells.take(c), any_kind()) <= census(cells, any_kind()),
    decreases cells.len(),
{
    if c == cells.len() {
        assert(cells.take(c) =~= cells);
        lemma_census_nonneg(cells);
    } else {
        assert(cells.take(c) =~= cells.drop_last().take(c));
        lemma_census_prefix(cells.drop_last(), c);
        lemma_tally_bounds(cells.last()@, any_kind());
    }
}

pub proof fn lemma_census_nonneg(cells: Seq<Vec<Agent>>)
    ensures
        0 <= census(cells, any_kind()),
    decreases cells.len(),
{
    if cells.len() > 0 {
        lemma_census_nonneg(cells.drop_last());
        lemma_tally_bounds(cells.last()@, any_kind());
    }
}

pub proof fn lemma_census_zero(cells: Seq<Vec<Agent>>, k: nat, c: int, j: int)
    requires
        census(cells, k) == 0,
        0 <= c < cells.len(),
        0 <= j < cells[c]@.len(),
    ensures
        !counts_as(cells[c]@[j], k),
    decreases cells.len(),
{
    lemma_census_nonneg_of(cells.drop_last(), k);
    lemma_tally_bounds(cells.last()@, k);
    if c == cells.len() - 1 {
        lemma_tally_zero(cells.last()@, k, j);
    } else {
        assert(cells.drop_last()[c] == cells[c]);
        lemma_census_zero(cells.drop_last(), k, c, j);
    }
}

pub proof fn lemma_census_nonneg_of(cells: Seq<Vec<Agent>>, k: nat)
    ensures
        0 <= census(cells, k),
    decreases cells.len(),
{
    if cells.len() > 0 {
        lemma_census_nonneg_of(cells.drop_last(), k);
        lemma_tally_bounds(cells.last()@, k);
    }
}

pub proof fn lemma_census_empty(cells: Seq<Vec<Agent>>, k: nat)
    requires
        forall|i: int| 0 <= i < cells.len() ==> (#[trigger] cells[i])@.len() == 0,
    ensures
        census(cells, k) == 0,
    decreases cells.len(),
{
    if cells.len() > 0 {
        lemma_census_empty(cells.drop_last(), k);
        assert(cells.last()@ =~= Seq::<Agent>::empty());
    }
}

/// The agents of a rectangular domain, bucketed by the unit cell that holds
/// each one. Cell `(cx, cy)` is stored at index `cy * cols + cx`.
pub struct SpatialGrid {
    pub cols: usize,
    pub rows: usize,
    pub max_x: i64,
    pub max_y: i64,
    pub cells: Vec<Vec<Agent>>,
}

impl SpatialGrid {
    /// The sizes agree: the domain is `cols - 1` by `rows - 1` cells, plus
    /// one row and column for agents that stand exactly on the far walls.
    pub open spec fn dims_ok(&self) -> bool {
        &&& 2 <= self.cols <= MAX_DOMAIN + 1
        &&& 2 <= self.rows <= MAX_DOMAIN + 1
        &&& self.max_x == (self.cols - 1) * UNITS_PER_CELL
        &&& self.max_y == (self.rows - 1) * UNITS_PER_CELL
        &&& self.cells@.len() == self.cols * self.rows
    }

    /// Every stored agent is alive, inside the domain, and in the cell that
    /// its position falls in.
    pub open spec fn wf(&self) -> bool {
        &&& self.dims_ok()
        &&& forall|i: int, j: int|
            0 <= i < self.cells@.len() && 0 <= j < self.cells@[i]@.len() ==> {
                let a = #[trigger] self.cells@[i]@[j];
                agent_ok(a, self.max_x as int, self.max_y as int) && cell_index(a, self.cols as int) == i
            }
    }

    /// How many stored agents are of kind `k`.
    pub open spec fn count(&self, k: nat) -> int {
        census(self.cells@, k)
    }

    pub open spec fn domain_x(&self) -> int {
        self.cols - 1
    }

    pub open spec fn domain_y(&self) -> int {
        self.rows - 1
    }

    /// An empty grid over `domain_x` by `domain_y` cells.
    pub fn new(domain_x: u32, domain_y: u32) -> (r: SpatialGrid)
        requires
            1 <= domain_x <= MAX_DOMAIN,
            1 <= domain_y <= MAX_DOMAIN,
        ensures
            r.wf(),
            r.domain_x() == domain_x,
            r.domain_y() == domain_y,
            forall|c: int| 0 <= c < r.cells@.len() ==> (#[trigger] r.cells@[c])@.len() == 0,
            forall|k: nat| r.count(k) == 0,
    {
        let cols = domain_x as usize + 1;
        let rows = domain_y as usize + 1;
        assert(cols * rows <= 1001 * 1001) by (nonlinear_arith)
            requires cols <= 1001, rows <= 1001;
        let n = cols * rows;
        let mut cells: Vec<Vec<Agent>> = Vec::new();
        let mut i: usize = 0;
        while i < n
            invariant
                i <= n,
                cells@.len() == i,
                forall|c: int| 0 <= c < cells@.len() ==> (#[trigger] cells@[c])@.len() == 0,
            decreases n - i,
        {
            cells.push(Vec::new());
            i = i + 1;
        }
        let r = SpatialGrid {
            cols,
            rows,
            max_x: domain_x as i64 * UNITS_PER_CELL,
            max_y: domain_y as i64 * UNITS_PER_CELL,
            cells,
        };
        proof {
            assert forall|k: nat| r.count(k) == 0 by {
                lemma_census_empty(r.cells@, k);
            }
        }
        r
    }

    /// Far corner of the domain, in position units.
    pub fn max_x(&self) -> (r: i64)
        ensures
            r == self.max_x,
    {
        self.max_x
    }

    pub fn max_y(&self) -> (r: i64)
        ensures
            r == self.max_y,
    {
        self.max_y
    }

    /// Number of cells, counting the row and column on the far walls.
    pub fn num_cells(&self) -> (r: usize)
        ensures
            r == self.cells@.len(),
    {
        self.cells.len()
    }

    /// The index of the cell that `a` falls in.
    pub fn index_of(&self, a: &Agent) -> (r: usize)
        requires
            self.dims_ok(),
            agent_ok(*a, self.max_x as int, self.max_y as int),
        ensures
            r == cell_index(*a, self.cols as int),
            r < self.cells@.len(),
    {
        let cx = a.x / UNITS_PER_CELL;
        let cy = a.y / UNITS_PER_CELL;
        let cols = self.cols;
        let rows = self.rows;
        assert(cx <= cols - 1) by (nonlinear_arith)
            requires cx == a.x / 100_000, 0 <= a.x <= (cols - 1) * 100_000;
        assert(cy <= rows - 1) by (nonlinear_arith)
            requires cy == a.y / 100_000, 0 <= a.y <= (rows - 1) * 100_000;
        assert(0 <= cy * cols + cx < cols * rows) by (nonlinear_arith)
            requires 0 <= cx <= cols - 1, 0 <= cy <= rows - 1, 1 <= cols;
        assert(cy * cols <= 1001 * 1001) by (nonlinear_arith)
            requires 0 <= cy <= 1001, cols <= 1001;
        let row = cy as usize;
        let col = cx as usize;
        row * cols + col
    }

    /// The agents of the cell at `index`.
    pub fn cell(&self, index: usize) -> (r: &Vec<Agent>)
        requires
            index < self.cells@.len(),
        ensures
            *r == self.cells@[index as int],
    {
        &self.cells[index]
    }

    /// Stores `a` in the cell that its position falls in.
    pub fn relocate(&mut self, a: Agent)
        requires
            old(self).wf(),
            agent_ok(a, old(self).max_x as int, old(self).max_y as int),
        ensures
            final(self).wf(),
            final(self).cols == old(self).cols,
            final(self).rows == old(self).rows,
            final(self).max_x == old(self).max_x,
            final(self).max_y == old(self).max_y,
            forall|k: nat| #[trigger] final(self).count(k) == old(self).count(k) + if counts_as(a, k) { 1int } else { 0int },
            final(self).cells@.len() == old(self).cells@.len(),
            final(self).cells@[cell_index(a, old(self).cols as int)]@ == old(self).cells@[cell_index(a, old(self).cols as int)]@.push(a),
            forall|c: int| 0 <= c < old(self).cells@.len() && c != cell_index(a, old(self).cols as int)
                ==> #[trigger] final(self).cells@[c] == old(self).cells@[c],
            grid_ms(final(self).cells@) =~= grid_ms(old(self).cells@).insert(a),
    {
        let i = self.index_of(&a);
        let ghost before = self.cells@;
        self.cells[i].push(a);
        proof {
            broadcast use vstd::seq_lib::group_to_multiset_ensures;
            lemma_grid_ms_update(before, i as int, self.cells@[i as int]);
            assert(self.cells@ == before.update(i as int, self.cells@[i as int]));
            assert(self.cells@[i as int]@ == before[i as int]@.push(a));
            assert forall|x: Agent| #[trigger] grid_ms(self.cells@).count(x) == grid_ms(before).insert(a).count(x) by {
                assert(grid_ms(self.cells@).add(before[i as int]@.to_multiset()).count(x) == grid_ms(before).add(
                    self.cells@[i as int]@.to_multiset(),
                ).count(x));
            }
            assert forall|k: nat| #[trigger] self.count(k) == census(before, k) + if counts_as(a, k) { 1int } else { 0int } by {
                lemma_census_update(before, i as int, self.cells@[i as int], k);
                lemma_tally_push(before[i as int]@, a, k);
            }
            assert forall|c: int, j: int|
                0 <= c < self.cells@.len() && 0 <= j < self.cells@[c]@.len() implies {
                    let b = #[trigger] self.cells@[c]@[j];
                    agent_ok(b, self.max_x as int, self.max_y as int) && cell_index(b, self.cols as int) == c
                } by {
                if c != i {
                    assert(self.cells@[c] == before[c]);
                } else if j < before[c]@.len() {
                    assert(self.cells@[c]@[j] == before[c]@[j]);
                }
            }
        }
    }

    /// Every stored agent, cell after cell.
    pub fn all_agents(&self) -> (r: Vec<Agent>)
        ensures
            r@ == flat(self.cells@),
    {
        let mut out: Vec<Agent> = Vec::new();
        let mut c: usize = 0;
        while c < self.cells.len()
            invariant
                c <= self.cells@.len(),
                out@ == flat(self.cells@.take(c as int)),
            decreases self.cells@.len() - c,
        {
            let cell = &self.cells[c];
            let mut j: usize = 0;
            while j < cell.len()
                invariant
                    c < self.cells@.len(),
                    *cell == self.cells@[c as int],
                    j <= cell@.len(),
                    out@ == flat(self.cells@.take(c as int)) + cell@.take(j as int),
                decreases cell@.len() - j,
            {
                out.push(cell[j]);
                j = j + 1;
                assert(cell@.take(j as int) =~= cell@.take(j - 1).push(cell@[j - 1]));
            }
            proof {
                lemma_flat_take(self.cells@, c as int);
                assert(cell@.take(j as int) =~= cell@);
            }
            c = c + 1;
        }
        assert(self.cells@.take(c as int) =~= self.cells@);
        out
    }

    /// Counts the healthy, infected and recovered agents.
    pub fn census_counts(&self) -> (r: (u64, u64, u64))
        requires
            self.wf(),
            self.count(any_kind()) <= u64::MAX,
        ensures
            r.0 == self.count(0),
            r.1 == self.count(1),
            r.2 == self.count(2),
            r.0 + r.1 + r.2 == self.count(any_kind()),
    {
        let mut h: u64 = 0;
        let mut inf: u64 = 0;
        let mut rec: u64 = 0;
        let mut c: usize = 0;
        while c < self.cells.len()
            invariant
                self.wf(),
                self.count(any_kind()) <= u64::MAX,
                c <= self.cells@.len(),
                h == census(self.cells@.take(c as int), 0),
                inf == census(self.cells@.take(c as int), 1),
                rec == census(self.cells@.take(c as int), 2),
                h + inf + rec == census(self.cells@.take(c as int), any_kind()),
            decreases self.cells@.len() - c,
        {
            let cell = &self.cells[c];
            let mut j: usize = 0;
            proof {
                lemma_census_prefix(self.cells@, c as int + 1);
                lemma_census_take(self.cells@, c as int, any_kind());
                lemma_tally_bounds(cell@, any_kind());
                assert(cell@.take(0) =~= Seq::<Agent>::empty());
            }
            while j < cell.len()
                invariant
                    self.wf(),
                    c < self.cells@.len(),
                    *cell == self.cells@[c as int],
                    j <= cell@.len(),
                    census(self.cells@.take(c as int), any_kind()) + cell@.len() <= u64::MAX,
                    h == census(self.cells@.take(c as int), 0) + tally(cell@.take(j as int), 0),
                    inf == census(self.cells@.take(c as int), 1) + tally(cell@.take(j as int), 1),
                    rec == census(self.cells@.take(c as int), 2) + tally(cell@.take(j as int), 2),
                    h + inf + rec == census(self.cells@.take(c as int), any_kind()) + j,
                decreases cell@.len() - j,
            {
                let a = cell[j];
                assert(agent_ok(self.cells@[c as int]@[j as int], self.max_x as int, self.max_y as int));
                proof {
                    lemma_tally_take(cell@, j as int, 0);
                    lemma_tally_take(cell@, j as int, 1);
                    lemma_tally_take(cell@, j as int, 2);
                }
                match a.health {
                    Health::Healthy => { h = h + 1; },
                    Health::Infected(_) => { inf = inf + 1; },
                    _ => { rec = rec + 1; },
                }
                j = j + 1;
            }
            proof {
                assert(cell@.take(j as int) =~= cell@);
                lemma_census_take(self.cells@, c as int, 0);
                lemma_census_take(self.cells@, c as int, 1);
                lemma_census_take(self.cells@, c as int, 2);
            }
            c = c + 1;
        }
        assert(self.cells@.take(c as int) =~= self.cells@);
        (h, inf, rec)
    }
}

} // verus!
