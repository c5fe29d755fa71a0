//! A game state: a board plus the count of moves played so far.
//!
//! A state generates its successor states for a move, detects terminal
//! boards, encodes a board as a positional decimal number, and packs
//! (depth, cells) into a lossless 64-bit memoization key.

use vstd::prelude::*;

use crate::combinations::Combinations;
use crate::grid::{
    cells_wf, captures_spec, cap_models, lemma_captures_props, neighbours_spec, Capture, Grid,
};
use crate::position::Position;

verus! {

/// Every cell holds a die: the board is full.
pub open spec fn is_full(cells: Seq<u8>) -> bool {
    forall|i: int| 0 <= i < cells.len() ==> (#[trigger] cells[i]) != 0
}

/// The board after emptying the first `n` of the positions in `ps`, in order.
pub open spec fn zero_upto(cells: Seq<u8>, ps: Seq<Position>, n: int) -> Seq<u8>
    decreases n,
{
    if n <= 0 {
        cells
    } else {
        zero_upto(cells, ps, n - 1).update(ps[n - 1].idx(), 0u8)
    }
}

/// The board after playing at `p`: a plain placement puts a die of face 1
/// there; a capture puts the merged value there and empties every consumed
/// cell.
pub open spec fn next_cells(cells: Seq<u8>, p: Position, cap: Option<(u8, Seq<Position>)>) -> Seq<
    u8,
> {
    match cap {
        Option::None => cells.update(p.idx(), 1u8),
        Option::Some(c) => zero_upto(cells.update(p.idx(), c.0), c.1, c.1.len() as int),
    }
}

/// The boards of all successor states for playing at `p`: one per capture
/// option, or the single plain placement when no capture is possible.
pub open spec fn succ_cells(cells: Seq<u8>, p: Position) -> Seq<Seq<u8>> {
    let caps = captures_spec(cells, p);
    if caps.len() == 0 {
        seq![next_cells(cells, p, Option::None)]
    } else {
        caps.map_values(|c: (u8, Seq<Position>)| next_cells(cells, p, Option::Some(c)))
    }
}

/// The positional-digit encoding of a board: the 9 cell values read
/// row-major as the digits of a decimal number, cell 0 most significant.
pub open spec fn result_spec(cells: Seq<u8>) -> int {
    100000000 * cells[0] + 10000000 * cells[1] + 1000000 * cells[2] + 100000 * cells[3] + 10000
        * cells[4] + 1000 * cells[5] + 100 * cells[6] + 10 * cells[7] + cells[8]
}

/// The memoization key after packing the first `n` cells: depth in the high
/// bits, one 4-bit nibble per cell below it.
pub open spec fn hash_upto(depth: u8, cells: Seq<u8>, n: int) -> u64
    decreases n,
{
    if n <= 0 {
        depth as u64
    } else {
        (hash_upto(depth, cells, n - 1) << 4) | (cells[n - 1] as u64)
    }
}

/// The memoization key of a state: a lossless encoding of (depth, cells)
/// for cell values below 16.
pub open spec fn hash_spec(depth: u8, cells: Seq<u8>) -> u64 {
    hash_upto(depth, cells, 9)
}

/// The (value, positions) pair a capture argument stands for.
pub open spec fn capture_model(capture: Option<&Capture>) -> Option<(u8, Seq<Position>)> {
    match capture {
        Option::Some(c) => Option::Some((c.value, c.positions@)),
        Option::None => Option::None,
    }
}

/// An immutable snapshot of the game: the board and the number of moves
/// played to reach it.
pub struct GameState {
    pub depth: u8,
    pub grid: Grid,
}

impl GameState {
    /// The state's board is well-formed.
    pub open spec fn wf(&self) -> bool {
        cells_wf(self.grid@)
    }

    /// The root state: the initial board with no moves played.
    pub fn init(grid: Grid) -> (r: Self)
        ensures
            r.depth == 0,
            r.grid == grid,
    {
        GameState { grid, depth: 0 }
    }

    /// The successor state for playing at `position`, either as a plain
    /// placement or by taking the given capture.
    pub fn next(&self, position: &Position, capture: Option<&Capture>) -> (r: Self)
        requires
            self.wf(),
            position.wf(),
            self.depth < 255,
            capture matches Some(c) ==> c.value <= 6 && forall|j: int|
                0 <= j < c.positions@.len() ==> (#[trigger] c.positions@[j]).wf(),
        ensures
            r.depth == self.depth + 1,
            r.grid@ == next_cells(self.grid@, *position, capture_model(capture)),
            r.wf(),
    {
        let mut grid = self.grid.clone();

        match capture {
            None => {
                grid.set(position, 1);
            },
            Some(capture) => {
                grid.set(position, capture.value);
                let ghost base = self.grid@.update(position.idx(), capture.value);
                let mut k: usize = 0;
                while k < capture.positions.len()
                    invariant
                        k <= capture.positions@.len(),
                        grid@ == zero_upto(base, capture.positions@, k as int),
                        base.len() == 9,
                        forall|j: int|
                            0 <= j < capture.positions@.len() ==> (
                            #[trigger] capture.positions@[j]).wf(),
                    decreases capture.positions@.len() - k,
                {
                    proof {
                        lemma_zero_upto_len(base, capture.positions@, k as int);
                    }
                    grid.set(&capture.positions[k], 0);
                    k = k + 1;
                }
            },
        };

        proof {
            lemma_next_cells_wf(self.grid@, *position, capture_model(capture));
        }
        GameState { grid, depth: self.depth + 1 }
    }

    /// All successor states reachable by playing at `position`: one per
    /// available capture option, or exactly one plain placement when no
    /// capture is possible.
    pub fn play(&self, position: &Position, combinations: &Combinations) -> (r: Vec<Self>)
        requires
            self.wf(),
            position.wf(),
            combinations.wf(),
            self.depth < 255,
        ensures
            r@.len() == succ_cells(self.grid@, *position).len(),
            forall|i: int|
                0 <= i < r@.len() ==> {
                    let s = #[trigger] r@[i];
                    &&& s.depth == self.depth + 1
                    &&& s.grid@ == succ_cells(self.grid@, *position)[i]
                    &&& s.wf()
                },
    {
        let ghost cells = self.grid@;
        let ghost caps = captures_spec(cells, *position);
        let ghost sc = succ_cells(cells, *position);
        proof {
            lemma_captures_props(cells, *position);
        }
        let captures = self.grid.captures(position, combinations);

        if captures.len() == 0 {
            let mut next_states: Vec<GameState> = Vec::new();
            next_states.push(self.next(position, None));
            return next_states;
        }

        let mut next_states: Vec<GameState> = Vec::new();
        let mut j: usize = 0;
        while j < captures.len()
            invariant
                j <= captures@.len(),
                self.wf(),
                position.wf(),
                self.depth < 255,
                cells == self.grid@,
                caps == captures_spec(cells, *position),
                cap_models(captures@) == caps,
                captures@.len() == caps.len(),
                caps.len() > 0,
                sc == succ_cells(cells, *position),
                sc.len() == caps.len(),
                forall|i: int|
                    0 <= i < caps.len() ==> {
                        let c = #[trigger] caps[i];
                        &&& 2 <= c.0 <= 6
                        &&& forall|jj: int| 0 <= jj < c.1.len() ==> (#[trigger] c.1[jj]).wf()
                    },
                next_states@.len() == j,
                forall|i: int|
                    0 <= i < j ==> {
                        let s = #[trigger] next_states@[i];
                        &&& s.depth == self.depth + 1
                        &&& s.grid@ == sc[i]
                        &&& s.wf()
                    },
            decreases captures@.len() - j,
        {
            proof {
                assert(cap_models(captures@)[j as int] == (
                    captures@[j as int].value,
                    captures@[j as int].positions@,
                ));
                assert(sc[j as int] == next_cells(cells, *position, Option::Some(caps[j as int])));
            }
            let s = self.next(position, Some(&captures[j]));
            next_states.push(s);
            j = j + 1;
        }
        next_states
    }

    /// Whether the board is full.
    pub fn is_final(&self) -> (r: bool)
        requires
            self.grid@.len() == 9,
        ensures
            r == is_full(self.grid@),
    {
        let mut i: usize = 0;
        while i < 9
            invariant
                i <= 9,
                self.grid@.len() == 9,
                forall|k: int| 0 <= k < i ==> (#[trigger] self.grid@[k]) != 0,
            decreases 9 - i,
        {
            if self.grid.get(&Position::from_index(i)) == 0 {
                return false;
            }
            i = i + 1;
        }
        true
    }

    /// The positional-digit encoding of this state's board.
    pub fn result(&self) -> (r: u32)
        requires
            self.wf(),
        ensures
            r as int == result_spec(self.grid@),
            r < 0x40000000,
    {
        let g = &self.grid;
        100000000 * g.get(&Position::new(0, 0)) as u32 + 10000000 * g.get(&Position::new(0, 1))
            as u32 + 1000000 * g.get(&Position::new(0, 2)) as u32 + 100000 * g.get(
            &Position::new(1, 0),
        ) as u32 + 10000 * g.get(&Position::new(1, 1)) as u32 + 1000 * g.get(&Position::new(1, 2))
            as u32 + 100 * g.get(&Position::new(2, 0)) as u32 + 10 * g.get(&Position::new(2, 1))
            as u32 + g.get(&Position::new(2, 2)) as u32
    }

    /// The memoization key of this state.
    pub fn hash(&self) -> (r: u64)
        requires
            self.grid@.len() == 9,
        ensures
            r == hash_spec(self.depth, self.grid@),
    {
        let mut h: u64 = self.depth as u64;
        let mut i: usize = 0;
        while i < 9
            invariant
                i <= 9,
                self.grid@.len() == 9,
                h == hash_upto(self.depth, self.grid@, i as int),
            decreases 9 - i,
        {
            h = (h << 4) | (self.grid.get(&Position::from_index(i)) as u64);
            i = i + 1;
        }
        h
    }
}

/// Emptying cells at well-formed positions does not change the board's
/// length.
pub proof fn lemma_zero_upto_len(cells: Seq<u8>, ps: Seq<Position>, n: int)
    requires
        cells.len() == 9,
        forall|j: int| 0 <= j < ps.len() ==> (#[trigger] ps[j]).wf(),
        n <= ps.len(),
    ensures
        zero_upto(cells, ps, n).len() == 9,
    decreases n,
{
    if n > 0 {
        lemma_zero_upto_len(cells, ps, n - 1);
    }
}

/// Emptying well-formed cells keeps the board well-formed.
pub proof fn lemma_zero_upto_wf(cells: Seq<u8>, ps: Seq<Position>, n: int)
    requires
        cells_wf(cells),
        forall|j: int| 0 <= j < ps.len() ==> (#[trigger] ps[j]).wf(),
        n <= ps.len(),
    ensures
        cells_wf(zero_upto(cells, ps, n)),
    decreases n,
{
    if n > 0 {
        lemma_zero_upto_wf(cells, ps, n - 1);
    }
}

/// Playing a move on a well-formed board yields a well-formed board.
pub proof fn lemma_next_cells_wf(cells: Seq<u8>, p: Position, cap: Option<(u8, Seq<Position>)>)
    requires
        cells_wf(cells),
        p.wf(),
        cap matches Some(c) ==> c.0 <= 6 && forall|j: int|
            0 <= j < c.1.len() ==> (#[trigger] c.1[j]).wf(),
    ensures
        cells_wf(next_cells(cells, p, cap)),
{
    match cap {
        Option::None => {},
        Option::Some(c) => {
            lemma_zero_upto_wf(cells.update(p.idx(), c.0), c.1, c.1.len() as int);
        },
    }
}

/// Every successor of a well-formed state is well-formed.
pub proof fn lemma_succ_wf(cells: Seq<u8>, p: Position)
    requires
        cells_wf(cells),
        p.wf(),
    ensures
        succ_cells(cells, p).len() >= 1,
        forall|i: int|
            0 <= i < succ_cells(cells, p).len() ==> cells_wf(#[trigger] succ_cells(cells, p)[i]),
{
    let caps = captures_spec(cells, p);
    lemma_captures_props(cells, p);
    assert forall|i: int| 0 <= i < succ_cells(cells, p).len() implies cells_wf(
        #[trigger] succ_cells(cells, p)[i],
    ) by {
        if caps.len() == 0 {
            lemma_next_cells_wf(cells, p, Option::None);
        } else {
            assert(succ_cells(cells, p)[i] == next_cells(cells, p, Option::Some(caps[i])));
            lemma_next_cells_wf(cells, p, Option::Some(caps[i]));
        }
    }
}

/// When a position has fewer than two occupied neighbors, no capture is
/// legal and playing there yields exactly one successor: the plain
/// placement.
pub proof fn lemma_no_capture_single_successor(cells: Seq<u8>, p: Position)
    requires
        cells_wf(cells),
        p.wf(),
        neighbours_spec(cells, p).len() <= 1,
    ensures
        captures_spec(cells, p).len() == 0,
        succ_cells(cells, p).len() == 1,
        succ_cells(cells, p)[0] == next_cells(cells, p, Option::<(u8, Seq<Position>)>::None),
{
}

/// The memoization key is a lossless encoding: two states with equal keys
/// agree on the depth and on every cell, for all cell values below 16 and
/// any depth that fits in a byte.
pub proof fn lemma_hash_injective(d1: u8, c1: Seq<u8>, d2: u8, c2: Seq<u8>)
    requires
        c1.len() == 9,
        c2.len() == 9,
        forall|i: int| 0 <= i < 9 ==> (#[trigger] c1[i]) < 16,
        forall|i: int| 0 <= i < 9 ==> (#[trigger] c2[i]) < 16,
        hash_spec(d1, c1) == hash_spec(d2, c2),
    ensures
        d1 == d2,
        c1 == c2,
{
    let x0 = hash_upto(d1, c1, 0);
    let x1 = hash_upto(d1, c1, 1);
    let x2 = hash_upto(d1, c1, 2);
    let x3 = hash_upto(d1, c1, 3);
    let x4 = hash_upto(d1, c1, 4);
    let x5 = hash_upto(d1, c1, 5);
    let x6 = hash_upto(d1, c1, 6);
    let x7 = hash_upto(d1, c1, 7);
    let x8 = hash_upto(d1, c1, 8);
    let x9 = hash_upto(d1, c1, 9);
    let y0 = hash_upto(d2, c2, 0);
    let y1 = hash_upto(d2, c2, 1);
    let y2 = hash_upto(d2, c2, 2);
    let y3 = hash_upto(d2, c2, 3);
    let y4 = hash_upto(d2, c2, 4);
    let y5 = hash_upto(d2, c2, 5);
    let y6 = hash_upto(d2, c2, 6);
    let y7 = hash_upto(d2, c2, 7);
    let y8 = hash_upto(d2, c2, 8);
    let y9 = hash_upto(d2, c2, 9);
    let a0 = c1[0] as u64;
    let a1 = c1[1] as u64;
    let a2 = c1[2] as u64;
    let a3 = c1[3] as u64;
    let a4 = c1[4] as u64;
    let a5 = c1[5] as u64;
    let a6 = c1[6] as u64;
    let a7 = c1[7] as u64;
    let a8 = c1[8] as u64;
    let b0 = c2[0] as u64;
    let b1 = c2[1] as u64;
    let b2 = c2[2] as u64;
    let b3 = c2[3] as u64;
    let b4 = c2[4] as u64;
    let b5 = c2[5] as u64;
    let b6 = c2[6] as u64;
    let b7 = c2[7] as u64;
    let b8 = c2[8] as u64;
    assert(x0 == y0 && a0 == b0 && a1 == b1 && a2 == b2 && a3 == b3 && a4 == b4 && a5 == b5 && a6
        == b6 && a7 == b7 && a8 == b8) by (bit_vector)
        requires
            x9 == y9,
            x1 == (x0 << 4) | a0,
            x2 == (x1 << 4) | a1,
            x3 == (x2 << 4) | a2,
            x4 == (x3 << 4) | a3,
            x5 == (x4 << 4) | a4,
            x6 == (x5 << 4) | a5,
            x7 == (x6 << 4) | a6,
            x8 == (x7 << 4) | a7,
            x9 == (x8 << 4) | a8,
            y1 == (y0 << 4) | b0,
            y2 == (y1 << 4) | b1,
            y3 == (y2 << 4) | b2,
            y4 == (y3 << 4) | b3,
            y5 == (y4 << 4) | b4,
            y6 == (y5 << 4) | b5,
            y7 == (y6 << 4) | b6,
            y8 == (y7 << 4) | b7,
            y9 == (y8 << 4) | b8,
            x0 < 256,
            y0 < 256,
            a0 < 16,
            a1 < 16,
            a2 < 16,
            a3 < 16,
            a4 < 16,
            a5 < 16,
            a6 < 16,
            a7 < 16,
            a8 < 16,
            b0 < 16,
            b1 < 16,
            b2 < 16,
            b3 < 16,
            b4 < 16,
            b5 < 16,
            b6 < 16,
            b7 < 16,
            b8 < 16,
    ;
    assert(c1 =~= c2);
}

} // verus!
