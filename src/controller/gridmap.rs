use vstd::prelude::*;

use crate::geometry::point::Point;
use crate::geometry::pose::Pose;
use crate::geometry::vector::{Vector, MAX_COORD};
use crate::math::div_floor;
use crate::pointcloud::PointCloud;
use crate::sensor::laserscanner::{projected_all, Scan};

verus! {

/// Cells on each side of the default grid.
pub const SIZE: usize = 111;

/// Edge length of a cell of the default grid, in world units.
pub const CELL_LENGTH: i64 = 250;

/// Most cells on each side that a grid may have.
pub const MAX_GRID_SIZE: usize = 4096;

/// What a cell of the grid knows. A hit makes any cell `Occupied(1)`, and
/// each further hit adds one to the count, which stops at `u32::MAX`.
#[derive(Clone, Copy, Debug, PartialEq, Eq, Structural)]
pub enum CellState {
    Occupied(u32),
    Freespace,
    Void,
}

impl Default for CellState {
    fn default() -> (r: CellState)
        ensures
            r == CellState::Void,
    {
        CellState::Void
    }
}

/// What becomes of a point that falls outside the grid.
#[derive(Clone, Copy, Debug, PartialEq, Eq, Structural)]
pub enum Boundary {
    /// The point is dropped.
    Reject,
    /// Each index is moved to the nearest edge of the grid.
    Clamp,
}

/// The state of a cell after one more hit.
pub open spec fn bumped(c: CellState) -> CellState {
    match c {
        CellState::Occupied(n) => CellState::Occupied(
            if n < u32::MAX {
                (n + 1) as u32
            } else {
                n
            },
        ),
        _ => CellState::Occupied(1),
    }
}

/// The hit count of a cell: zero where it has never been hit.
pub open spec fn count_of(c: CellState) -> int {
    match c {
        CellState::Occupied(n) => n as int,
        _ => 0,
    }
}

/// `n` cells that know nothing.
pub open spec fn blank(n: nat) -> Seq<CellState> {
    Seq::new(n, |i: int| CellState::Void)
}

/// The cell coordinate of world coordinate `v`, unbounded:
/// `floor(v / len + size / 2)`.
pub open spec fn quantize(v: int, size: int, len: int) -> int {
    (2 * v + size * len) / (2 * len)
}

/// Where index `i` lands on a side of `size` cells under `boundary`.
pub open spec fn place(i: int, size: int, boundary: Boundary) -> Option<int> {
    match boundary {
        Boundary::Reject => if 0 <= i < size {
            Some(i)
        } else {
            None
        },
        Boundary::Clamp => Some(
            if i < 0 {
                0
            } else if i >= size {
                size - 1
            } else {
                i
            },
        ),
    }
}

/// The state of cell `(r, c)` of a grid of `size` cells a side, or none
/// where the indices are out of range.
pub open spec fn cell_at(cells: Seq<CellState>, size: int, r: int, c: int) -> Option<CellState> {
    if 0 <= r < size && 0 <= c < size {
        Some(cells[r * size + c])
    } else {
        None
    }
}

/// A square grid of cells, each holding the evidence that it is occupied.
/// The row of a world point comes from its `y`, the column from its `x`; the
/// grid's centre lies at the world's origin. Each cell is read either as its
/// state (`cell_state`) or as a bare hit counter that starts at zero
/// (`cell_count`).
pub struct GridMap {
    size: usize,
    cell_length: i64,
    boundary: Boundary,
    cells: Vec<CellState>,
}

impl View for GridMap {
    type V = Seq<CellState>;

    /// The cells, row after row.
    closed spec fn view(&self) -> Seq<CellState> {
        self.cells@
    }
}

impl GridMap {
    pub closed spec fn grid_size(&self) -> int {
        self.size as int
    }

    pub closed spec fn cell_len(&self) -> int {
        self.cell_length as int
    }

    pub closed spec fn policy(&self) -> Boundary {
        self.boundary
    }

    pub closed spec fn wf(&self) -> bool {
        &&& 0 < self.size <= MAX_GRID_SIZE
        &&& 0 < self.cell_length <= MAX_COORD
        &&& self.cells@.len() == self.size * self.size
    }

    /// The shape stays what it was, whatever the cells hold.
    pub open spec fn same_shape(&self, other: &GridMap) -> bool {
        &&& other.grid_size() == self.grid_size()
        &&& other.cell_len() == self.cell_len()
        &&& other.policy() == self.policy()
    }

    /// The index, along one axis, of world coordinate `v`.
    pub open spec fn index_of(&self, v: int) -> Option<int> {
        place(quantize(v, self.grid_size(), self.cell_len()), self.grid_size(), self.policy())
    }

    /// The cell `(row, column)` of world point `p`.
    pub open spec fn cell_of(&self, p: Vector) -> Option<(int, int)> {
        match (self.index_of(p.y as int), self.index_of(p.x as int)) {
            (Some(r), Some(c)) => Some((r, c)),
            _ => None,
        }
    }

    /// `cells` after one hit at `p`.
    pub open spec fn marked(&self, cells: Seq<CellState>, p: Vector) -> Seq<CellState> {
        match self.cell_of(p) {
            Some((r, c)) => {
                let i = r * self.grid_size() + c;
                cells.update(i, bumped(cells[i]))
            },
            None => cells,
        }
    }

    /// `cells` after a hit at each of `pts`, in order.
    pub open spec fn accumulated(&self, cells: Seq<CellState>, pts: Seq<Point>) -> Seq<CellState>
        decreases pts.len(),
    {
        if pts.len() == 0 {
            cells
        } else {
            self.marked(self.accumulated(cells, pts.drop_last()), pts.last().pos)
        }
    }

    /// A grid of `size` cells a side, each `cell_length` world units long,
    /// that treats points outside it as `boundary` says; none for an empty
    /// or oversized grid or a cell length that is not positive or too long.
    pub fn new(size: usize, cell_length: i64, boundary: Boundary) -> (r: Option<GridMap>)
        ensures
            r is Some <==> 0 < size <= MAX_GRID_SIZE && 0 < cell_length <= MAX_COORD,
            r is Some ==> {
                let g = r->Some_0;
                &&& g.wf()
                &&& g.grid_size() == size
                &&& g.cell_len() == cell_length
                &&& g.policy() == boundary
                &&& g@ == blank((size * size) as nat)
            },
    {
        if size == 0 || size > MAX_GRID_SIZE || cell_length <= 0 || cell_length > MAX_COORD {
            return None;
        }
        assert(size * size <= MAX_GRID_SIZE * MAX_GRID_SIZE) by (nonlinear_arith)
            requires size <= MAX_GRID_SIZE;
        let cells = Self::blank_cells(size * size);
        Some(GridMap { size, cell_length, boundary, cells })
    }

    fn blank_cells(n: usize) -> (r: Vec<CellState>)
        ensures
            r@ == blank(n as nat),
    {
        let mut cells: Vec<CellState> = Vec::new();
        for i in 0..n
            invariant
                cells@ == blank(i as nat),
        {
            cells.push(CellState::Void);
            assert(cells@ =~= blank(i as nat + 1));
        }
        cells
    }

    /// Forget every hit: each cell goes back to `Void`.
    pub fn clear(&mut self)
        requires
            old(self).wf(),
        ensures
            final(self).wf(),
            old(self).same_shape(final(self)),
            final(self)@ == blank(old(self)@.len()),
    {
        assert(self.size * self.size <= MAX_GRID_SIZE * MAX_GRID_SIZE) by (nonlinear_arith)
            requires self.size <= MAX_GRID_SIZE;
        self.cells = Self::blank_cells(self.size * self.size);
    }

    /// The index, along one axis, of world coordinate `v`.
    fn index_from_dist(&self, v: i64) -> (r: Option<usize>)
        requires
            self.wf(),
        ensures
            r matches Some(i) ==> self.index_of(v as int) == Some(i as int),
            r is None ==> self.index_of(v as int) is None,
    {
        let size = self.size as i128;
        let len = self.cell_length as i128;
        assert(size * len <= 0x1_0000_0000_0000_0000int) by (nonlinear_arith)
            requires 0 < size <= 4096, 0 < len <= MAX_COORD;
        assert(size * len > 0) by (nonlinear_arith)
            requires 0 < size, 0 < len;
        let i = div_floor(2 * (v as i128) + size * len, 2 * len);
        match self.boundary {
            Boundary::Reject => if 0 <= i && i < size {
                Some(i as usize)
            } else {
                None
            },
            Boundary::Clamp => if i < 0 {
                Some(0)
            } else if i >= size {
                Some(self.size - 1)
            } else {
                Some(i as usize)
            },
        }
    }

    /// The cell `(row, column)` of world point `pos`.
    fn indices_from_pos(&self, pos: Vector) -> (r: Option<(usize, usize)>)
        requires
            self.wf(),
        ensures
            r matches Some((row, col)) ==> self.cell_of(pos) == Some((row as int, col as int)),
            r is None ==> self.cell_of(pos) is None,
            r matches Some((row, col)) ==> row < self.grid_size() && col < self.grid_size(),
    {
        match self.index_from_dist(pos.y) {
            Some(r) => match self.index_from_dist(pos.x) {
                Some(c) => Some((r, c)),
                None => None,
            },
            None => None,
        }
    }

    /// Record one hit at world point `p`; a point outside the grid is
    /// dropped or clamped, as the grid's boundary policy says.
    pub fn add_point(&mut self, p: Vector)
        requires
            old(self).wf(),
        ensures
            final(self).wf(),
            old(self).same_shape(final(self)),
            final(self)@ == old(self).marked(old(self)@, p),
    {
        match self.indices_from_pos(p) {
            Some((r, c)) => {
                proof {
                    lemma_index_fits(r as int, c as int, self.size as int);
                }
                let i = r * self.size + c;
                let next = match self.cells[i] {
                    CellState::Occupied(n) => CellState::Occupied(
                        if n < u32::MAX {
                            n + 1
                        } else {
                            n
                        },
                    ),
                    _ => CellState::Occupied(1),
                };
                self.cells.set(i, next);
            },
            None => {},
        }
    }

    /// Record a hit at each point of `cloud`, in order.
    pub fn update_points(&mut self, cloud: &PointCloud)
        requires
            old(self).wf(),
        ensures
            final(self).wf(),
            old(self).same_shape(final(self)),
            final(self)@ == old(self).accumulated(old(self)@, cloud@),
    {
        let n = cloud.size();
        for i in 0..n
            invariant
                n == cloud@.len(),
                self.wf(),
                old(self).same_shape(self),
                self@ == old(self).accumulated(old(self)@, cloud@.take(i as int)),
        {
            let p = cloud.get(i);
            proof {
                let pts = cloud@.take(i as int + 1);
                assert(pts.drop_last() == cloud@.take(i as int));
                assert(pts.last() == p);
            }
            self.add_point(p.pos);
        }
        proof {
            assert(cloud@.take(n as int) == cloud@);
        }
    }

    /// Record the readings of `scan`, taken from `pose`: a hit at the world
    /// point of each reading, in order.
    pub fn update(&mut self, pose: &Pose, scan: &Scan)
        requires
            old(self).wf(),
            pose.wf(),
            forall|i: int| 0 <= i < scan@.len() ==> (#[trigger] scan@[i]).wf(),
        ensures
            final(self).wf(),
            old(self).same_shape(final(self)),
            final(self)@ == old(self).accumulated(old(self)@, projected_all(scan@, *pose)),
    {
        let cloud = scan.to_pointcloud(pose);
        self.update_points(&cloud);
    }

    /// The state of cell `(r, c)`, or none where the indices are out of range.
    pub fn cell_state(&self, r: usize, c: usize) -> (s: Option<&CellState>)
        requires
            self.wf(),
        ensures
            s matches Some(st) ==> cell_at(self@, self.grid_size(), r as int, c as int) == Some(*st),
            s is None ==> cell_at(self@, self.grid_size(), r as int, c as int) is None,
    {
        if r < self.size && c < self.size {
            proof {
                lemma_index_fits(r as int, c as int, self.size as int);
            }
            Some(&self.cells[r * self.size + c])
        } else {
            None
        }
    }

    /// The hit count of cell `(r, c)`, or none where the indices are out of
    /// range.
    pub fn cell_count(&self, r: usize, c: usize) -> (n: Option<u32>)
        requires
            self.wf(),
        ensures
            n matches Some(k) ==> cell_at(self@, self.grid_size(), r as int, c as int) matches Some(st)
                && count_of(st) == k,
            n is None ==> cell_at(self@, self.grid_size(), r as int, c as int) is None,
    {
        match self.cell_state(r, c) {
            Some(CellState::Occupied(k)) => Some(*k),
            Some(_) => Some(0),
            None => None,
        }
    }

    pub fn size(&self) -> (r: usize)
        ensures
            r == self.grid_size(),
    {
        self.size
    }

    pub fn cell_length(&self) -> (r: i64)
        ensures
            r == self.cell_len(),
    {
        self.cell_length
    }

    pub fn boundary(&self) -> (r: Boundary)
        ensures
            r == self.policy(),
    {
        self.boundary
    }
}

/// Accumulating points depends on a grid's shape alone, not on its cells.
pub proof fn lemma_accumulated_by_shape(a: GridMap, b: GridMap, cells: Seq<CellState>, pts: Seq<Point>)
    requires
        a.same_shape(&b),
    ensures
        a.accumulated(cells, pts) == b.accumulated(cells, pts),
    decreases pts.len(),
{
    if pts.len() > 0 {
        lemma_accumulated_by_shape(a, b, cells, pts.drop_last());
    }
}

/// Accumulating points keeps the number of cells.
pub proof fn lemma_accumulated_len(g: GridMap, cells: Seq<CellState>, pts: Seq<Point>)
    requires
        g.wf(),
        cells.len() == g@.len(),
    ensures
        g.accumulated(cells, pts).len() == cells.len(),
    decreases pts.len(),
{
    if pts.len() > 0 {
        lemma_accumulated_len(g, cells, pts.drop_last());
        lemma_cell_in_grid(g, pts.last().pos);
    }
}

/// The cell of a point, where it has one, lies within the grid.
pub proof fn lemma_cell_in_grid(g: GridMap, p: Vector)
    requires
        g.wf(),
    ensures
        g.cell_of(p) matches Some((r, c)) ==> {
            &&& 0 <= r < g.grid_size()
            &&& 0 <= c < g.grid_size()
            &&& 0 <= r * g.grid_size() + c < g@.len()
        },
{
    if let Some((r, c)) = g.cell_of(p) {
        lemma_index_fits(r, c, g.grid_size());
    }
}

/// Clearing undoes every update: whatever points were recorded, each query
/// of the cleared cells answers as a freshly made grid of the same shape
/// does, `Void` for a cell of the grid and nothing outside it.
pub proof fn lemma_clear_after_update(g: GridMap, pts: Seq<Point>, r: int, c: int)
    requires
        g.wf(),
    ensures
        ({
            let n = g.grid_size();
            let cleared = blank(g.accumulated(g@, pts).len());
            &&& cleared == blank((n * n) as nat)
            &&& cell_at(cleared, n, r, c) == if 0 <= r < n && 0 <= c < n {
                Some(CellState::Void)
            } else {
                None
            }
        }),
{
    let n = g.grid_size();
    lemma_accumulated_len(g, g@, pts);
    if 0 <= r < n && 0 <= c < n {
        lemma_index_fits(r, c, n);
    }
}

/// Two hits at the same world point add two to the count of its cell (a
/// cell that knew nothing becomes `Occupied(2)`), and leave every other cell
/// as it was, as long as the count stays below its ceiling.
pub proof fn lemma_accumulation(g: GridMap, cells: Seq<CellState>, p: Point)
    requires
        g.wf(),
        cells.len() == g@.len(),
        g.cell_of(p.pos) is Some,
        ({
            let (r, c) = g.cell_of(p.pos)->Some_0;
            count_of(cells[r * g.grid_size() + c]) + 2 <= u32::MAX
        }),
    ensures
        ({
            let (r, c) = g.cell_of(p.pos)->Some_0;
            let i = r * g.grid_size() + c;
            let after = g.accumulated(cells, seq![p, p]);
            &&& after.len() == cells.len()
            &&& after[i] == CellState::Occupied((count_of(cells[i]) + 2) as u32)
            &&& cells[i] == CellState::Void ==> after[i] == CellState::Occupied(2)
            &&& forall|j: int| 0 <= j < cells.len() && j != i ==> after[j] == cells[j]
        }),
{
    let (r, c) = g.cell_of(p.pos)->Some_0;
    lemma_index_fits(r, c, g.grid_size());
    let pts = seq![p, p];
    assert(pts.drop_last() == seq![p]);
    assert(seq![p].drop_last() == Seq::<Point>::empty());
    assert(seq![p].last() == p);
    assert(pts.last() == p);
    assert(g.accumulated(cells, Seq::<Point>::empty()) == cells);
    let once = g.accumulated(cells, seq![p]);
    assert(once == g.marked(cells, p.pos));
    assert(g.accumulated(cells, pts) == g.marked(once, p.pos));
}

/// A coordinate exactly half the grid's width from its centre lies on the
/// grid's edge. On the positive side it is the first index past the grid:
/// a rejecting grid drops it and a clamping grid puts it in the last cell.
/// On the negative side it is the first cell. A coordinate less than one
/// cell short of the positive edge is in the last cell under both policies.
pub proof fn lemma_boundary_edge(g: GridMap, v: int, w: int)
    requires
        g.wf(),
        2 * v == g.grid_size() * g.cell_len(),
        g.grid_size() * g.cell_len() - 2 * g.cell_len() <= 2 * w < g.grid_size() * g.cell_len(),
    ensures
        quantize(v, g.grid_size(), g.cell_len()) == g.grid_size(),
        g.policy() == Boundary::Reject ==> g.index_of(v) is None,
        g.policy() == Boundary::Clamp ==> g.index_of(v) == Some(g.grid_size() - 1),
        g.index_of(-v) == Some(0int),
        g.index_of(w) == Some(g.grid_size() - 1),
{
    let n = g.grid_size();
    let len = g.cell_len();
    let d = 2 * len;
    assert(n * d == 2 * v + n * len) by (nonlinear_arith)
        requires d == 2 * len, 2 * v == n * len;
    vstd::arithmetic::div_mod::lemma_fundamental_div_mod_converse(2 * v + n * len, d, n, 0);
    vstd::arithmetic::div_mod::lemma_fundamental_div_mod_converse(-2 * v + n * len, d, 0, 0);
    assert(2 * w + n * len == (n - 1) * d + (2 * w + n * len - (n - 1) * d)) by (nonlinear_arith);
    assert((n - 1) * d == n * len + n * len - 2 * len) by (nonlinear_arith)
        requires d == 2 * len;
    vstd::arithmetic::div_mod::lemma_fundamental_div_mod_converse(
        2 * w + n * len,
        d,
        n - 1,
        2 * w + n * len - (n - 1) * d,
    );
}

/// Cell `(r, c)` of a grid of `n` cells a side lies within its `n * n`
/// cells, and that many fit in a `usize`.
proof fn lemma_index_fits(r: int, c: int, n: int)
    requires
        0 <= r < n,
        0 <= c < n,
        n <= MAX_GRID_SIZE,
    ensures
        0 <= r * n,
        r * n + c < n * n,
        n * n <= MAX_GRID_SIZE * MAX_GRID_SIZE,
{
    assert(0 <= r * n && r * n + c < n * n) by (nonlinear_arith)
        requires 0 <= r < n, 0 <= c < n;
    assert(n * n <= MAX_GRID_SIZE * MAX_GRID_SIZE) by (nonlinear_arith)
        requires 0 <= n <= MAX_GRID_SIZE;
}

impl Default for GridMap {
    /// The grid of `SIZE` cells a side, `CELL_LENGTH` long, that drops
    /// points outside it.
    fn default() -> (r: GridMap)
        ensures
            r.wf(),
            r.grid_size() == SIZE,
            r.cell_len() == CELL_LENGTH,
            r.policy() == Boundary::Reject,
            r@ == blank((SIZE * SIZE) as nat),
    {
        GridMap {
            size: SIZE,
            cell_length: CELL_LENGTH,
            boundary: Boundary::Reject,
            cells: Self::blank_cells(SIZE * SIZE),
        }
    }
}

} // verus!
