//! The 3x3 board: cell access, free-cell enumeration, neighbor scanning and
//! the capture rule.
//!
//! A cell value of 0 means the cell is empty; 1..=6 is a placed die face.
//! A capture merges a subset (of size at least 2) of the occupied orthogonal
//! neighbors of a landing cell into one die, provided the summed face value
//! stays within 6.

use vstd::prelude::*;

use crate::combinations::{combos_spec, combs_match, Combinations, lemma_combos_props};
use crate::position::{pos_of_index, Position, lemma_neighbor_wf};

verus! {

/// A well-formed board: 9 cells, each holding 0 (empty) or a die face 1..=6.
pub open spec fn cells_wf(cells: Seq<u8>) -> bool {
    &&& cells.len() == 9
    &&& forall|i: int| 0 <= i < cells.len() ==> (#[trigger] cells[i]) <= 6
}

/// The free cells among the first `n` cells, in row-major order.
pub open spec fn free_cells_upto(cells: Seq<u8>, n: int) -> Seq<Position>
    decreases n,
{
    if n <= 0 {
        Seq::empty()
    } else if cells[n - 1] == 0 {
        free_cells_upto(cells, n - 1).push(pos_of_index(n - 1))
    } else {
        free_cells_upto(cells, n - 1)
    }
}

/// The singleton sequence holding an occupied neighbor, or the empty
/// sequence when there is no neighbor or it is empty.
pub open spec fn opt_occupied(cells: Seq<u8>, o: Option<Position>) -> Seq<Position> {
    match o {
        Option::Some(p) => if cells[p.idx()] != 0 {
            seq![p]
        } else {
            Seq::empty()
        },
        Option::None => Seq::empty(),
    }
}

/// The occupied orthogonal neighbors of `p`, in the fixed order
/// up, right, down, left.  This order is load-bearing: it decides which
/// combination-table index names which physical neighbor.
pub open spec fn neighbours_spec(cells: Seq<u8>, p: Position) -> Seq<Position> {
    opt_occupied(cells, p.top_spec()) + opt_occupied(cells, p.right_spec()) + opt_occupied(
        cells,
        p.bottom_spec(),
    ) + opt_occupied(cells, p.left_spec())
}

/// The summed face value of the neighbors selected by the index list `comb`.
pub open spec fn comb_value(cells: Seq<u8>, ns: Seq<Position>, comb: Seq<usize>) -> int
    decreases comb.len(),
{
    if comb.len() == 0 {
        0
    } else {
        comb_value(cells, ns, comb.drop_last()) + cells[ns[comb.last() as int].idx()]
    }
}

/// The neighbor positions selected by the index list `comb`, in list order.
pub open spec fn comb_positions(ns: Seq<Position>, comb: Seq<usize>) -> Seq<Position> {
    comb.map_values(|j: usize| ns[j as int])
}

/// The captures produced by the index lists `combs`, in table order: each
/// list whose summed value stays within 6 yields one (value, positions)
/// capture; the others are discarded whole.
pub open spec fn captures_from(cells: Seq<u8>, ns: Seq<Position>, combs: Seq<Seq<usize>>) -> Seq<
    (u8, Seq<Position>),
>
    decreases combs.len(),
{
    if combs.len() == 0 {
        Seq::empty()
    } else {
        let rest = captures_from(cells, ns, combs.drop_first());
        if comb_value(cells, ns, combs.first()) <= 6 {
            seq![
                (
                    comb_value(cells, ns, combs.first()) as u8,
                    comb_positions(ns, combs.first()),
                ),
            ] + rest
        } else {
            rest
        }
    }
}

/// All capture options available when landing on the empty cell `p`:
/// nothing with fewer than two occupied neighbors, otherwise the
/// bounded-sum subsets drawn from the combination table.
pub open spec fn captures_spec(cells: Seq<u8>, p: Position) -> Seq<(u8, Seq<Position>)> {
    let ns = neighbours_spec(cells, p);
    if ns.len() < 2 {
        Seq::empty()
    } else {
        captures_from(cells, ns, combos_spec(ns.len() as int))
    }
}

/// The (value, positions) pairs an executable capture list stands for.
pub open spec fn cap_models(s: Seq<Capture>) -> Seq<(u8, Seq<Position>)> {
    s.map_values(|c: Capture| (c.value, c.positions@))
}

/// One capture option: the merged face value and the neighbor cells consumed.
pub struct Capture {
    pub value: u8,
    pub positions: Vec<Position>,
}

impl Capture {
    pub fn new(value: u8, positions: Vec<Position>) -> (r: Self)
        ensures
            r.value == value,
            r.positions == positions,
    {
        Capture { value, positions }
    }
}

/// The fixed 9-cell board in row-major order.
pub struct Grid {
    cells: Vec<u8>,
}

impl View for Grid {
    type V = Seq<u8>;

    closed spec fn view(&self) -> Seq<u8> {
        self.cells@
    }
}

impl Clone for Grid {
    fn clone(&self) -> (r: Self)
        ensures
            r@ == self@,
    {
        let mut cells: Vec<u8> = Vec::new();
        let mut i: usize = 0;
        while i < self.cells.len()
            invariant
                i <= self.cells.len(),
                cells@ == self.cells@.take(i as int),
            decreases self.cells.len() - i,
        {
            cells.push(self.cells[i]);
            proof {
                assert(self.cells@.take(i + 1 as int) =~= self.cells@.take(i as int).push(
                    self.cells@[i as int],
                ));
            }
            i = i + 1;
        }
        proof {
            assert(self.cells@.take(self.cells@.len() as int) =~= self.cells@);
        }
        Grid { cells }
    }
}

impl Grid {
    /// A well-formed board.
    pub open spec fn wf(&self) -> bool {
        cells_wf(self@)
    }

    /// The all-empty board.
    pub fn empty() -> (r: Self)
        ensures
            r@.len() == 9,
            forall|i: int| 0 <= i < 9 ==> (#[trigger] r@[i]) == 0,
            r.wf(),
    {
        let mut cells: Vec<u8> = Vec::new();
        let mut i: usize = 0;
        while i < 9
            invariant
                i <= 9,
                cells@.len() == i,
                forall|k: int| 0 <= k < i ==> (#[trigger] cells@[k]) == 0,
            decreases 9 - i,
        {
            cells.push(0);
            i = i + 1;
        }
        Grid { cells }
    }

    /// The value of the cell at `position`.
    pub fn get(&self, position: &Position) -> (r: u8)
        requires
            position.wf(),
            self@.len() == 9,
        ensures
            r == self@[position.idx()],
    {
        self.cells[3 * position.line + position.column]
    }

    /// Writes `value` into the cell at `position`.
    pub fn set(&mut self, position: &Position, value: u8)
        requires
            position.wf(),
            old(self)@.len() == 9,
        ensures
            final(self)@ == old(self)@.update(position.idx(), value),
    {
        self.cells[3 * position.line + position.column] = value;
    }

    /// The empty cells, in row-major order.
    pub fn free_cells(&self) -> (r: Vec<Position>)
        requires
            self@.len() == 9,
        ensures
            r@ == free_cells_upto(self@, 9),
    {
        let mut cells: Vec<Position> = Vec::new();
        let mut i: usize = 0;
        while i < 9
            invariant
                i <= 9,
                self@.len() == 9,
                cells@ == free_cells_upto(self@, i as int),
            decreases 9 - i,
        {
            if self.cells[i] == 0 {
                cells.push(Position::from_index(i));
            }
            i = i + 1;
        }
        cells
    }

    /// The occupied orthogonal neighbors of `position`, in the fixed order
    /// up, right, down, left.
    pub fn neighbour_dices(&self, position: &Position) -> (r: Vec<Position>)
        requires
            position.wf(),
            self@.len() == 9,
        ensures
            r@ == neighbours_spec(self@, *position),
    {
        proof {
            lemma_neighbor_wf(*position);
        }
        let mut neighbours: Vec<Position> = Vec::new();

        if let Some(top) = position.top() {
            if self.get(&top) > 0 {
                neighbours.push(top);
            }
        }
        assert(neighbours@ =~= opt_occupied(self@, position.top_spec()));

        if let Some(right) = position.right() {
            if self.get(&right) > 0 {
                neighbours.push(right);
            }
        }
        assert(neighbours@ =~= opt_occupied(self@, position.top_spec()) + opt_occupied(
            self@,
            position.right_spec(),
        ));

        if let Some(bottom) = position.bottom() {
            if self.get(&bottom) > 0 {
                neighbours.push(bottom);
            }
        }
        assert(neighbours@ =~= opt_occupied(self@, position.top_spec()) + opt_occupied(
            self@,
            position.right_spec(),
        ) + opt_occupied(self@, position.bottom_spec()));

        if let Some(left) = position.left() {
            if self.get(&left) > 0 {
                neighbours.push(left);
            }
        }
        assert(neighbours@ =~= neighbours_spec(self@, *position));

        neighbours
    }

    /// All capture options for landing on `position`.
    pub fn captures(&self, position: &Position, combinations: &Combinations) -> (r: Vec<Capture>)
        requires
            position.wf(),
            self.wf(),
            combinations.wf(),
        ensures
            cap_models(r@) == captures_spec(self@, *position),
    {
        let ghost cells = self@;
        let mut captures: Vec<Capture> = Vec::new();
        let dices = self.neighbour_dices(position);
        let count = dices.len();
        let ghost ns = neighbours_spec(cells, *position);

        proof {
            lemma_neighbours_props(cells, *position);
            assert(cap_models(captures@) =~= Seq::<(u8, Seq<Position>)>::empty());
        }

        if count < 2 {
            return captures;
        }

        proof {
            lemma_combos_props(count as int);
        }
        let ghost cs = combos_spec(count as int);
        let combs = combinations.get(count);
        proof {
            assert(cs.skip(0) =~= cs);
            assert(cap_models(captures@) + captures_from(cells, ns, cs) =~= captures_from(
                cells,
                ns,
                cs,
            ));
        }

        let mut ci: usize = 0;
        while ci < combs.len()
            invariant
                ci <= combs.len(),
                cells == self@,
                self.wf(),
                position.wf(),
                2 <= count <= 4,
                dices@ == ns,
                ns == neighbours_spec(cells, *position),
                count == ns.len(),
                cs == combos_spec(count as int),
                combs_match(combs@, cs),
                forall|i: int|
                    0 <= i < cs.len() ==> {
                        &&& 2 <= (#[trigger] cs[i]).len() <= 4
                        &&& forall|j: int| 0 <= j < cs[i].len() ==> (#[trigger] cs[i][j]) < count
                    },
                forall|k: int|
                    0 <= k < ns.len() ==> (#[trigger] ns[k]).wf() && 1 <= cells[ns[k].idx()] <= 6,
                captures_spec(cells, *position) == cap_models(captures@) + captures_from(
                    cells,
                    ns,
                    cs.skip(ci as int),
                ),
            decreases combs.len() - ci,
        {
            let comb = &combs[ci];
            let mut positions: Vec<Position> = Vec::new();
            let mut value: u8 = 0;
            let mut k: usize = 0;

            assert(comb@ == cs[ci as int]);
            assert(comb_positions(ns, comb@.take(0)) =~= Seq::<Position>::empty());

            while k < comb.len()
                invariant
                    k <= comb.len(),
                    comb@ == cs[ci as int],
                    0 <= (ci as int) < cs.len(),
                    cells == self@,
                    self.wf(),
                    dices@ == ns,
                    count == ns.len(),
                    comb@.len() <= 4,
                    forall|j: int| 0 <= j < comb@.len() ==> (#[trigger] comb@[j]) < count,
                    forall|kk: int|
                        0 <= kk < ns.len() ==> (#[trigger] ns[kk]).wf() && 1 <= cells[ns[kk].idx()]
                            <= 6,
                    value as int == comb_value(cells, ns, comb@.take(k as int)),
                    value <= 6 * k,
                    positions@ == comb_positions(ns, comb@.take(k as int)),
                decreases comb.len() - k,
            {
                let index = comb[k];
                let dice_position = &dices[index];
                positions.push(dice_position.clone());
                value = value + self.get(dice_position);
                proof {
                    assert(comb@.take(k + 1 as int).drop_last() =~= comb@.take(k as int));
                    assert(comb@.take(k + 1 as int).last() == comb@[k as int]);
                    assert(comb_positions(ns, comb@.take(k + 1 as int)) =~= comb_positions(
                        ns,
                        comb@.take(k as int),
                    ).push(ns[comb@[k as int] as int]));
                }
                k = k + 1;
            }
            assert(comb@.take(comb@.len() as int) =~= comb@);

            if value <= 6 {
                let c = Capture::new(value, positions);
                captures.push(c);
                proof {
                    assert(cap_models(captures@) =~= cap_models(captures@.drop_last()).push(
                        (value, comb_positions(ns, comb@)),
                    ));
                }
            }
            proof {
                assert(cs.skip(ci as int).first() == cs[ci as int]);
                assert(cs.skip(ci as int).drop_first() =~= cs.skip(ci + 1 as int));
                if comb_value(cells, ns, cs[ci as int]) <= 6 {
                    assert(cap_models(captures@) + captures_from(cells, ns, cs.skip(ci + 1 as int))
                        =~= cap_models(captures@.drop_last()) + (seq![
                        (
                            comb_value(cells, ns, cs[ci as int]) as u8,
                            comb_positions(ns, cs[ci as int]),
                        ),
                    ] + captures_from(cells, ns, cs.skip(ci + 1 as int))));
                }
            }
            ci = ci + 1;
        }
        proof {
            assert(cs.skip(cs.len() as int) =~= Seq::<Seq<usize>>::empty());
        }
        captures
    }
}

/// Occupied-neighbor lists are short, and each entry is a well-formed
/// position holding a die face 1..=6.
pub proof fn lemma_neighbours_props(cells: Seq<u8>, p: Position)
    requires
        cells_wf(cells),
        p.wf(),
    ensures
        neighbours_spec(cells, p).len() <= 4,
        forall|k: int|
            0 <= k < neighbours_spec(cells, p).len() ==> (#[trigger] neighbours_spec(cells, p)[k]).wf()
                && 1 <= cells[neighbours_spec(cells, p)[k].idx()] <= 6,
{
    lemma_neighbor_wf(p);
    let a = opt_occupied(cells, p.top_spec());
    let b = opt_occupied(cells, p.right_spec());
    let c = opt_occupied(cells, p.bottom_spec());
    let d = opt_occupied(cells, p.left_spec());
    let ns = neighbours_spec(cells, p);
    assert forall|k: int| 0 <= k < ns.len() implies (#[trigger] ns[k]).wf() && 1 <= cells[ns[k].idx()]
        <= 6 by {
        if k < a.len() {
            assert(ns[k] == a[k]);
        } else if k < a.len() + b.len() {
            assert(ns[k] == b[k - a.len()]);
        } else if k < a.len() + b.len() + c.len() {
            assert(ns[k] == c[k - a.len() - b.len()]);
        } else {
            assert(ns[k] == d[k - a.len() - b.len() - c.len()]);
        }
    }
}

/// The summed value of an index list is at least the number of indices,
/// as long as every selected neighbor holds at least 1.
pub proof fn lemma_comb_value_lower(cells: Seq<u8>, ns: Seq<Position>, comb: Seq<usize>)
    requires
        forall|j: int| 0 <= j < comb.len() ==> (#[trigger] comb[j]) < ns.len(),
        forall|k: int| 0 <= k < ns.len() ==> 1 <= cells[(#[trigger] ns[k]).idx()],
    ensures
        comb_value(cells, ns, comb) >= comb.len(),
    decreases comb.len(),
{
    if comb.len() > 0 {
        lemma_comb_value_lower(cells, ns, comb.drop_last());
    }
}

/// Every capture the table yields merges at least two dice into a face
/// value between 2 and 6, and consumes only well-formed board positions.
pub proof fn lemma_captures_from_props(cells: Seq<u8>, ns: Seq<Position>, combs: Seq<Seq<usize>>)
    requires
        forall|k: int| 0 <= k < ns.len() ==> (#[trigger] ns[k]).wf() && 1 <= cells[ns[k].idx()],
        forall|i: int|
            0 <= i < combs.len() ==> {
                &&& 2 <= (#[trigger] combs[i]).len()
                &&& forall|j: int| 0 <= j < combs[i].len() ==> (#[trigger] combs[i][j]) < ns.len()
            },
    ensures
        forall|i: int|
            0 <= i < captures_from(cells, ns, combs).len() ==> {
                let c = #[trigger] captures_from(cells, ns, combs)[i];
                &&& 2 <= c.0 <= 6
                &&& c.1.len() >= 2
                &&& forall|j: int| 0 <= j < c.1.len() ==> (#[trigger] c.1[j]).wf()
            },
    decreases combs.len(),
{
    if combs.len() > 0 {
        lemma_captures_from_props(cells, ns, combs.drop_first());
        let first = combs.first();
        assert(first == combs[0]);
        lemma_comb_value_lower(cells, ns, first);
        let rest = captures_from(cells, ns, combs.drop_first());
        let all = captures_from(cells, ns, combs);
        if comb_value(cells, ns, first) <= 6 {
            let c0 = (comb_value(cells, ns, first) as u8, comb_positions(ns, first));
            assert(all == seq![c0] + rest);
            assert(c0.1.len() == first.len());
            assert forall|j: int| 0 <= j < c0.1.len() implies (#[trigger] c0.1[j]).wf() by {
                assert(c0.1[j] == ns[first[j] as int]);
            }
            assert forall|i: int|
                0 <= i < all.len() implies {
                let c = #[trigger] all[i];
                &&& 2 <= c.0 <= 6
                &&& c.1.len() >= 2
                &&& forall|j: int| 0 <= j < c.1.len() ==> (#[trigger] c.1[j]).wf()
            } by {
                if i == 0 {
                    assert(all[0] == c0);
                } else {
                    assert(all[i] == rest[i - 1]);
                }
            }
        } else {
            assert(all == rest);
        }
    }
}

/// The capture-sum bound: every emitted capture carries a merged value in
/// 2..=6 and consumes at least two well-formed cells.
pub proof fn lemma_captures_props(cells: Seq<u8>, p: Position)
    requires
        cells_wf(cells),
        p.wf(),
    ensures
        forall|i: int|
            0 <= i < captures_spec(cells, p).len() ==> {
                let c = #[trigger] captures_spec(cells, p)[i];
                &&& 2 <= c.0 <= 6
                &&& c.1.len() >= 2
                &&& forall|j: int| 0 <= j < c.1.len() ==> (#[trigger] c.1[j]).wf()
            },
{
    let ns = neighbours_spec(cells, p);
    lemma_neighbours_props(cells, p);
    if ns.len() >= 2 {
        lemma_combos_props(ns.len() as int);
        lemma_captures_from_props(cells, ns, combos_spec(ns.len() as int));
    }
}

/// Every free cell the enumeration yields is a well-formed, empty position,
/// and the enumeration never repeats an index.
pub proof fn lemma_free_cells_props(cells: Seq<u8>, n: int)
    requires
        n <= 9,
        n <= cells.len(),
    ensures
        forall|k: int|
            0 <= k < free_cells_upto(cells, n).len() ==> {
                let p = #[trigger] free_cells_upto(cells, n)[k];
                &&& p.wf()
                &&& 0 <= p.idx() < n
                &&& cells[p.idx()] == 0
            },
    decreases n,
{
    if n > 0 {
        lemma_free_cells_props(cells, n - 1);
        if cells[n - 1] == 0 {
            let p = pos_of_index(n - 1);
            vstd::arithmetic::div_mod::lemma_fundamental_div_mod(n - 1, 3);
            vstd::arithmetic::div_mod::lemma_mod_bound(n - 1, 3);
            assert(p.wf());
            assert(p.idx() == n - 1);
        }
        let f = free_cells_upto(cells, n);
        let f0 = free_cells_upto(cells, n - 1);
        assert forall|k: int|
            0 <= k < f.len() implies {
            let p = #[trigger] f[k];
            &&& p.wf()
            &&& 0 <= p.idx() < n
            &&& cells[p.idx()] == 0
        } by {
            if cells[n - 1] == 0 && k == f0.len() {
                assert(f[k] == pos_of_index(n - 1));
            } else {
                assert(f[k] == f0[k]);
            }
        }
    }
}

} // verus!
