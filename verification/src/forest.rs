//! The grid model: cell state, edge-aware neighbor adjacency, and the
//! synchronized simulation step.

use vstd::prelude::*;

use crate::lighter;
use crate::lighter::PROB_SCALE;

verus! {

/// The state of one tree cell. Transitions run `Alive -> Burning -> Burned`
/// and never backwards; `Burned` is terminal.
#[derive(PartialEq, Eq, Structural, Debug, Copy, Clone)]
pub enum TreeState {
    Alive,
    Burning,
    Burned,
}

/// A coordinate in a grid.
pub struct Coord {
    pub x: usize,
    pub y: usize,
}

/// A rectangular forest: a flat row-major vector of cells, of length
/// `width * height`; the cell at `(x, y)` sits at index `y * width + x`.
pub struct Forest {
    pub trees: Vec<TreeState>,
    pub width: usize,
    pub height: usize,
}

/// Row-major index of the coordinate `c` in a grid of width `width`.
pub fn coord_ix(width: usize, c: Coord) -> (ix: usize)
    requires
        width * c.y + c.x <= usize::MAX,
    ensures
        ix == width * c.y + c.x,
{
    width * c.y + c.x
}

/// The coordinate at row-major index `ix` in a grid of width `width`:
/// the inverse of `coord_ix`.
pub fn ix_coord(width: usize, ix: usize) -> (c: Coord)
    requires
        width >= 1,
    ensures
        c.x == ix % width,
        c.y == ix / width,
        width * c.y + c.x == ix,
{
    proof {
        vstd::arithmetic::div_mod::lemma_fundamental_div_mod(ix as int, width as int);
    }
    Coord { x: ix % width, y: ix / width }
}

/// The row-major index the offset `(dx, dy)` from `(x, y)` leads to: one
/// index when it stays inside the `width * height` grid, nothing otherwise.
pub open spec fn offset_ix(width: int, height: int, x: int, y: int, dx: int, dy: int) -> Seq<int> {
    if 0 <= x + dx < width && 0 <= y + dy < height {
        seq![width * (y + dy) + (x + dx)]
    } else {
        Seq::empty()
    }
}

/// The row-major indices of the Moore neighborhood of `(x, y)`, clipped at
/// the grid edges, in the fixed offset order
/// `(-1,-1),(0,-1),(1,-1),(-1,0),(1,0),(-1,1),(0,1),(1,1)`.
pub open spec fn neighbor_indices(width: int, height: int, x: int, y: int) -> Seq<int> {
    offset_ix(width, height, x, y, -1, -1) + offset_ix(width, height, x, y, 0, -1)
        + offset_ix(width, height, x, y, 1, -1) + offset_ix(width, height, x, y, -1, 0)
        + offset_ix(width, height, x, y, 1, 0) + offset_ix(width, height, x, y, -1, 1)
        + offset_ix(width, height, x, y, 0, 1) + offset_ix(width, height, x, y, 1, 1)
}

/// Every clipped Moore-neighbor index is a valid cell index.
pub proof fn lemma_neighbor_indices_in_bounds(width: int, height: int, x: int, y: int)
    requires
        0 <= x < width,
        0 <= y < height,
    ensures
        forall|k: int|
            0 <= k < neighbor_indices(width, height, x, y).len()
                ==> 0 <= #[trigger] neighbor_indices(width, height, x, y)[k] < width * height,
{
    let ns = neighbor_indices(width, height, x, y);
    assert forall|k: int| 0 <= k < ns.len() implies 0 <= #[trigger] ns[k] < width * height by {
        assert forall|nx: int, ny: int| 0 <= nx < width && 0 <= ny < height
            implies 0 <= #[trigger] (width * ny + nx) < width * height by {
            assert(0 <= width * ny + nx < width * height) by (nonlinear_arith)
                requires
                    0 <= nx < width,
                    0 <= ny < height,
            ;
        }
    }
}

/// The clipped Moore neighborhood of the in-bounds cell `(x, y)`: the indices
/// of `neighbor_indices`, in that order. A corner cell has 3 neighbors, a
/// non-corner edge cell 5, an interior cell 8.
pub fn neighbors(width: usize, height: usize, c: Coord) -> (r: Vec<usize>)
    requires
        c.x < width,
        c.y < height,
        width * height <= usize::MAX,
    ensures
        r@.len() == neighbor_indices(width as int, height as int, c.x as int, c.y as int).len(),
        forall|k: int|
            0 <= k < r@.len()
                ==> r@[k] == neighbor_indices(width as int, height as int, c.x as int, c.y as int)[k],
        forall|k: int| 0 <= k < r@.len() ==> #[trigger] r@[k] < width * height,
{
    let ghost w = width as int;
    let ghost h = height as int;
    let ghost xi = c.x as int;
    let ghost yi = c.y as int;
    proof {
        lemma_neighbor_indices_in_bounds(w, h, xi, yi);
        assert forall|nx: int, ny: int| 0 <= nx < w && 0 <= ny < h
            implies 0 <= #[trigger] (w * ny + nx) < w * h by {
            assert(0 <= w * ny + nx < w * h) by (nonlinear_arith)
                requires
                    0 <= nx < w,
                    0 <= ny < h,
            ;
        }
        assert forall|ny: int| 0 <= ny < h implies 0 <= #[trigger] (w * ny) < w * h by {
            assert(0 <= w * ny < w * h) by (nonlinear_arith)
                requires
                    0 <= ny < h,
                    w >= 1,
            ;
        }
    }
    let mut v: Vec<usize> = Vec::new();
    if c.x > 0 && c.y > 0 {
        v.push(width * (c.y - 1) + (c.x - 1));
    }
    if c.y > 0 {
        v.push(width * (c.y - 1) + c.x);
    }
    if c.x + 1 < width && c.y > 0 {
        v.push(width * (c.y - 1) + (c.x + 1));
    }
    if c.x > 0 {
        v.push(width * c.y + (c.x - 1));
    }
    if c.x + 1 < width {
        v.push(width * c.y + (c.x + 1));
    }
    if c.x > 0 && c.y + 1 < height {
        v.push(width * (c.y + 1) + (c.x - 1));
    }
    if c.y + 1 < height {
        v.push(width * (c.y + 1) + c.x);
    }
    if c.x + 1 < width && c.y + 1 < height {
        v.push(width * (c.y + 1) + (c.x + 1));
    }
    proof {
        assert(v@.map_values(|u: usize| u as int) =~= neighbor_indices(w, h, xi, yi));
        assert(forall|k: int|
            0 <= k < v@.len()
                ==> v@[k] == v@.map_values(|u: usize| u as int)[k]);
    }
    v
}

/// The neighbor count of any in-bounds cell in a grid at least 2 wide and
/// 2 high: 3 for a corner cell, 5 for a non-corner edge cell, 8 for an
/// interior cell.
pub proof fn lemma_neighbor_count(width: int, height: int, x: int, y: int)
    requires
        width >= 2,
        height >= 2,
        0 <= x < width,
        0 <= y < height,
    ensures
        (x == 0 || x == width - 1) && (y == 0 || y == height - 1)
            ==> neighbor_indices(width, height, x, y).len() == 3,
        ((x == 0 || x == width - 1) != (y == 0 || y == height - 1))
            ==> neighbor_indices(width, height, x, y).len() == 5,
        0 < x < width - 1 && 0 < y < height - 1
            ==> neighbor_indices(width, height, x, y).len() == 8,
{
}

/// The states at the given cell indices, in order.
pub open spec fn neighbor_states_of(
    trees: Seq<TreeState>,
    width: int,
    height: int,
    x: int,
    y: int,
) -> Seq<TreeState> {
    neighbor_indices(width, height, x, y).map(|k: int, i: int| trees[i])
}

/// How many of the given states are `Burning`.
pub open spec fn count_burning_in(states: Seq<TreeState>) -> nat
    decreases states.len(),
{
    if states.len() == 0 {
        0
    } else {
        count_burning_in(states.drop_last()) + if states.last() == TreeState::Burning {
            1nat
        } else {
            0nat
        }
    }
}

/// How many Moore neighbors of `(x, y)` are burning in `trees`.
pub open spec fn burning_neighbors_of(
    trees: Seq<TreeState>,
    width: int,
    height: int,
    x: int,
    y: int,
) -> nat {
    count_burning_in(neighbor_states_of(trees, width, height, x, y))
}

/// The transitions one step may make: `Alive -> Burning -> Burned`, each
/// state also allowed to stand, and never a step backwards.
pub open spec fn cell_step_allowed(pre: TreeState, post: TreeState) -> bool {
    match pre {
        TreeState::Alive => post == TreeState::Alive || post == TreeState::Burning,
        TreeState::Burning => post == TreeState::Burning || post == TreeState::Burned,
        TreeState::Burned => post == TreeState::Burned,
    }
}

/// Everything one synchronized step guarantees of the cell at flat index `i`:
/// only the allowed transitions, and the deterministic outcomes — a cell with
/// no burning neighbor or under spread probability zero stays alive, one with
/// a burning neighbor under spread probability one ignites, and a burning
/// cell stands under burn-out probability zero and goes out under burn-out
/// probability one.
pub open spec fn step_cell_ok(
    trees: Seq<TreeState>,
    width: int,
    height: int,
    prob_spread: int,
    prob_burn_out: int,
    i: int,
    post: TreeState,
) -> bool {
    let pre = trees[i];
    let bns = burning_neighbors_of(trees, width, height, i % width, i / width);
    &&& cell_step_allowed(pre, post)
    &&& pre == TreeState::Alive && bns == 0 ==> post == TreeState::Alive
    &&& pre == TreeState::Alive && prob_spread == 0 ==> post == TreeState::Alive
    &&& pre == TreeState::Alive && prob_spread == PROB_SCALE && bns >= 1
        ==> post == TreeState::Burning
    &&& pre == TreeState::Burning && prob_burn_out == 0 ==> post == TreeState::Burning
    &&& pre == TreeState::Burning && prob_burn_out == PROB_SCALE ==> post == TreeState::Burned
}

/// The progress order on cell states: `a` can reach `b` along
/// `Alive -> Burning -> Burned`. `Burned` never becomes `Alive` or
/// `Burning`, and `Burning` never becomes `Alive`.
pub open spec fn state_le(a: TreeState, b: TreeState) -> bool {
    match a {
        TreeState::Alive => true,
        TreeState::Burning => b == TreeState::Burning || b == TreeState::Burned,
        TreeState::Burned => b == TreeState::Burned,
    }
}

/// One step only moves a cell forward in the progress order.
pub proof fn lemma_step_respects_order(a: TreeState, b: TreeState)
    requires
        cell_step_allowed(a, b),
    ensures
        state_le(a, b),
{
}

/// The progress order is transitive, so over any number of steps no cell
/// state ever regresses.
pub proof fn lemma_state_le_trans(a: TreeState, b: TreeState, c: TreeState)
    requires
        state_le(a, b),
        state_le(b, c),
    ensures
        state_le(a, c),
{
}

impl Forest {
    /// The grid dimensions as mathematical integers.
    pub open spec fn spec_width(&self) -> int {
        self.width as int
    }

    pub open spec fn spec_height(&self) -> int {
        self.height as int
    }

    /// Structural invariant: the flat cell vector covers the whole grid.
    pub open spec fn wf(&self) -> bool {
        self.trees@.len() == self.spec_width() * self.spec_height()
    }

    /// Whether some cell is burning.
    pub open spec fn spec_any_burning(&self) -> bool {
        exists|i: int| 0 <= i < self.trees@.len() && self.trees@[i] == TreeState::Burning
    }

    /// A fresh `width * height` forest with every cell alive.
    pub fn new(width: usize, height: usize) -> (f: Forest)
        requires
            width * height <= usize::MAX,
        ensures
            f.wf(),
            f.spec_width() == width,
            f.spec_height() == height,
            f.trees@.len() == width * height,
            forall|i: int| 0 <= i < f.trees@.len() ==> f.trees@[i] == TreeState::Alive,
    {
        let v = vec![TreeState::Alive; width * height];
        Forest { width, height, trees: v }
    }

    /// The number of cells, `width * height`.
    pub fn size(&self) -> (s: usize)
        requires
            self.wf(),
        ensures
            s == self.spec_width() * self.spec_height(),
    {
        let n = self.trees.len();
        assert(self.spec_width() * self.spec_height() == n);
        self.width * self.height
    }

    /// Set the cell nearest the geometric center, `(width / 2, height / 2)`,
    /// to `Burning`; every other cell is unchanged.
    pub fn light(&mut self)
        requires
            old(self).wf(),
            old(self).spec_width() >= 1,
            old(self).spec_height() >= 1,
        ensures
            final(self).wf(),
            final(self).spec_width() == old(self).spec_width(),
            final(self).spec_height() == old(self).spec_height(),
            final(self).trees@ == old(self).trees@.update(
                old(self).spec_width() * (old(self).spec_height() / 2)
                    + old(self).spec_width() / 2,
                TreeState::Burning,
            ),
    {
        let ghost w = self.width as int;
        let ghost h = self.height as int;
        let n = self.trees.len();
        let c = Coord { x: self.width / 2, y: self.height / 2 };
        proof {
            assert(w * (h / 2) + w / 2 < w * h) by (nonlinear_arith)
                requires
                    w >= 1,
                    h >= 1,
            ;
            assert(w * h == n);
        }
        let center = coord_ix(self.width, c);
        let cell = &mut self.trees[center];
        *cell = TreeState::Burning;
    }

    /// The state of the cell at `c`, which must be in bounds.
    pub fn tree_at(&self, c: Coord) -> (t: &TreeState)
        requires
            self.wf(),
            c.x < self.spec_width(),
            c.y < self.spec_height(),
        ensures
            *t == self.trees@[c.y * self.spec_width() + c.x],
    {
        let ghost w = self.width as int;
        let ghost h = self.height as int;
        let n = self.trees.len();
        proof {
            assert(0 <= w * (c.y as int) + c.x < w * h) by (nonlinear_arith)
                requires
                    0 <= c.x < w,
                    0 <= c.y < h,
            ;
            assert(c.y * w == w * c.y) by (nonlinear_arith);
            assert(w * h == n);
        }
        &self.trees[coord_ix(self.width, c)]
    }

    /// The states of the Moore neighbors of `c`, in the order of
    /// `neighbor_indices`.
    pub fn neighbor_states(&self, c: Coord) -> (ts: Vec<TreeState>)
        requires
            self.wf(),
            c.x < self.spec_width(),
            c.y < self.spec_height(),
        ensures
            ts@ == neighbor_states_of(
                self.trees@,
                self.spec_width(),
                self.spec_height(),
                c.x as int,
                c.y as int,
            ),
    {
        let ghost w = self.width as int;
        let ghost h = self.height as int;
        let n = self.trees.len();
        proof {
            assert(w * h == n);
        }
        let ns = neighbors(self.width, self.height, c);
        let mut ts: Vec<TreeState> = Vec::new();
        let mut i: usize = 0;
        while i < ns.len()
            invariant
                self.wf(),
                i <= ns@.len(),
                ts@.len() == i,
                self.trees@.len() == w * h,
                ns@.len() == neighbor_indices(w, h, c.x as int, c.y as int).len(),
                forall|k: int|
                    0 <= k < ns@.len()
                        ==> ns@[k] == neighbor_indices(w, h, c.x as int, c.y as int)[k],
                forall|k: int| 0 <= k < ns@.len() ==> #[trigger] ns@[k] < w * h,
                forall|k: int| 0 <= k < i ==> ts@[k] == self.trees@[ns@[k] as int],
            decreases ns@.len() - i,
        {
            let ix = ns[i];
            ts.push(self.trees[ix]);
            i = i + 1;
        }
        proof {
            assert(ts@ =~= neighbor_states_of(self.trees@, w, h, c.x as int, c.y as int));
        }
        ts
    }

    /// How many Moore neighbors of `c` are burning.
    pub fn num_burning_neighbors(&self, c: Coord) -> (r: usize)
        requires
            self.wf(),
            c.x < self.spec_width(),
            c.y < self.spec_height(),
        ensures
            r == burning_neighbors_of(
                self.trees@,
                self.spec_width(),
                self.spec_height(),
                c.x as int,
                c.y as int,
            ),
    {
        let ghost w = self.width as int;
        let ghost h = self.height as int;
        let ghost states = neighbor_states_of(self.trees@, w, h, c.x as int, c.y as int);
        let ts = self.neighbor_states(c);
        let mut burning: usize = 0;
        let mut i: usize = 0;
        while i < ts.len()
            invariant
                i <= ts@.len(),
                ts@ == states,
                burning == count_burning_in(states.take(i as int)),
                burning <= i,
            decreases ts@.len() - i,
        {
            proof {
                assert(states.take(i + 1).drop_last() =~= states.take(i as int));
                assert(states.take(i + 1).last() == states[i as int]);
            }
            if ts[i] == TreeState::Burning {
                burning = burning + 1;
            }
            i = i + 1;
        }
        proof {
            assert(states.take(ts@.len() as int) =~= states);
        }
        burning
    }

    /// One synchronized simulation step: every cell's next state is computed
    /// from a snapshot of the current sequence, then the sequence is replaced
    /// as a whole. Each cell obeys `step_cell_ok`; in particular no cell ever
    /// steps backwards, and under burn-out probability zero a burning grid
    /// stays burning.
    pub fn burn(&mut self, prob_spread: u64, prob_burn_out: u64)
        requires
            old(self).wf(),
            prob_spread <= PROB_SCALE,
            prob_burn_out <= PROB_SCALE,
        ensures
            final(self).wf(),
            final(self).spec_width() == old(self).spec_width(),
            final(self).spec_height() == old(self).spec_height(),
            final(self).trees@.len() == old(self).trees@.len(),
            forall|i: int|
                0 <= i < old(self).trees@.len()
                    ==> step_cell_ok(
                        old(self).trees@,
                        old(self).spec_width(),
                        old(self).spec_height(),
                        prob_spread as int,
                        prob_burn_out as int,
                        i,
                        final(self).trees@[i],
                    ),
            prob_burn_out == 0 && old(self).spec_any_burning() ==> final(self).spec_any_burning(),
    {
        let ghost w = self.width as int;
        let ghost h = self.height as int;
        let ghost t0 = self.trees@;
        let len = self.trees.len();
        let mut v: Vec<TreeState> = Vec::with_capacity(len);
        let mut ix: usize = 0;
        while ix < len
            invariant
                self == old(self),
                self.wf(),
                self.trees@ == t0,
                self.trees@.len() == len,
                w == self.spec_width(),
                h == self.spec_height(),
                prob_spread <= PROB_SCALE,
                prob_burn_out <= PROB_SCALE,
                ix <= len,
                v@.len() == ix,
                forall|i: int|
                    0 <= i < ix
                        ==> step_cell_ok(
                            t0,
                            w,
                            h,
                            prob_spread as int,
                            prob_burn_out as int,
                            i,
                            v@[i],
                        ),
            decreases len - ix,
        {
            proof {
                assert(w >= 1) by (nonlinear_arith)
                    requires
                        0 <= ix < w * h,
                        h >= 0,
                ;
                vstd::arithmetic::div_mod::lemma_fundamental_div_mod(ix as int, w);
                vstd::arithmetic::div_mod::lemma_mod_bound(ix as int, w);
                assert((ix as int) / w < h) by (nonlinear_arith)
                    requires
                        w >= 1,
                        0 <= ix < w * h,
                        ix == w * ((ix as int) / w) + (ix as int) % w,
                        0 <= (ix as int) % w < w,
                ;
            }
            let c = ix_coord(self.width, ix);
            let t = self.trees[ix];
            let new_state = match t {
                TreeState::Alive => {
                    let bns = self.num_burning_neighbors(c);
                    if lighter::spark(bns, prob_spread) {
                        TreeState::Burning
                    } else {
                        TreeState::Alive
                    }
                },
                TreeState::Burning => if lighter::burn_out(prob_burn_out) {
                    TreeState::Burned
                } else {
                    TreeState::Burning
                },
                TreeState::Burned => TreeState::Burned,
            };
            v.push(new_state);
            ix = ix + 1;
        }
        self.trees = v;
        proof {
            if prob_burn_out == 0 && old(self).spec_any_burning() {
                let i = choose|i: int|
                    0 <= i < t0.len() && t0[i] == TreeState::Burning;
                assert(self.trees@[i] == TreeState::Burning);
            }
        }
    }

    /// Whether at least one cell is currently `Burning`.
    pub fn burning(&self) -> (r: bool)
        ensures
            r == self.spec_any_burning(),
    {
        let mut i: usize = 0;
        while i < self.trees.len()
            invariant
                i <= self.trees@.len(),
                forall|j: int| 0 <= j < i ==> self.trees@[j] != TreeState::Burning,
            decreases self.trees@.len() - i,
        {
            if self.trees[i] == TreeState::Burning {
                return true;
            }
            i = i + 1;
        }
        false
    }
}

} // verus!
