//! The recursive, memoized enumeration of every move sequence.
//!
//! The aggregate of a state is defined by the pure recursion
//! `compute_spec`: a terminal or depth-capped board contributes its
//! positional-digit encoding; any other state folds the aggregates of all
//! successors of all free cells into a running total, reduced modulo 2^30
//! after every addition.  The executable engine carries a cache keyed by
//! the lossless state hash; the hash's injectivity is what makes a cache
//! hit sound.

use std::collections::HashMap;
use vstd::prelude::*;

use crate::combinations::Combinations;
use crate::grid::{cells_wf, free_cells_upto, lemma_free_cells_props};
use crate::position::Position;
use crate::state::{
    hash_spec, is_full, lemma_hash_injective, result_spec, succ_cells, GameState,
};

verus! {

broadcast use vstd::std_specs::hash::group_hash_axioms;

/// The modulus of the aggregate: 2^30.
pub const GAME_RESULT_MOD: u32 = 0x40000000;

/// One addition folded into the aggregate, reduced modulo 2^30.
pub open spec fn mod_add(a: int, b: int) -> int {
    (a + b) % (GAME_RESULT_MOD as int)
}

/// The aggregate of a state: the modular sum of the positional-digit
/// encodings of every terminal or depth-capped board reachable from it.
pub open spec fn compute_spec(depth: int, cells: Seq<u8>, max_depth: int) -> int
    decreases max_depth - depth, 2int, 0int,
{
    if depth >= max_depth || is_full(cells) {
        result_spec(cells)
    } else {
        acc_free(0, depth, cells, max_depth, free_cells_upto(cells, 9))
    }
}

/// Folds into `acc` the aggregates of every successor of every listed free
/// cell, in list order.
pub open spec fn acc_free(acc: int, depth: int, cells: Seq<u8>, max_depth: int, ps: Seq<Position>) -> int
    decreases max_depth - depth, 1int, ps.len(),
{
    if ps.len() == 0 || depth >= max_depth {
        acc
    } else {
        acc_free(
            acc_succ(acc, depth + 1, succ_cells(cells, ps.first()), max_depth),
            depth,
            cells,
            max_depth,
            ps.drop_first(),
        )
    }
}

/// Folds into `acc` the aggregates of the listed successor boards, in list
/// order, each one evaluated at depth `dnext`.
pub open spec fn acc_succ(acc: int, dnext: int, succs: Seq<Seq<u8>>, max_depth: int) -> int
    decreases max_depth - dnext + 1, 0int, succs.len(),
{
    if succs.len() == 0 || dnext > max_depth {
        acc
    } else {
        acc_succ(
            mod_add(acc, compute_spec(dnext, succs.first(), max_depth)),
            dnext,
            succs.drop_first(),
            max_depth,
        )
    }
}

/// The pair (d, cells) explains the cache line (h, v): the key is the
/// state's hash and the value is the state's aggregate.
pub open spec fn entry_witness(h: u64, v: u32, max_depth: int, d: u8, cells: Seq<u8>) -> bool {
    &&& hash_spec(d, cells) == h
    &&& cells_wf(cells)
    &&& d <= max_depth
    &&& v as int == compute_spec(d as int, cells, max_depth)
}

/// Some well-formed state within the depth bound explains the cache line.
pub open spec fn cache_entry_ok(h: u64, v: u32, max_depth: int) -> bool {
    exists|d: u8, cells: Seq<u8>| #[trigger] entry_witness(h, v, max_depth, d, cells)
}

/// Every line of the cache is the true aggregate of the state its key
/// encodes, for the given depth bound.
pub open spec fn cache_ok(m: Map<u64, u32>, max_depth: int) -> bool {
    forall|h: u64| #[trigger] m.contains_key(h) ==> cache_entry_ok(h, m[h], max_depth)
}

/// The shared memoization cache and the capture-combination table.
pub struct GameCache {
    pub results: HashMap<u64, u32>,
    pub combinations: Combinations,
}

impl GameCache {
    /// The capture table is the fixed one.
    pub open spec fn wf(&self) -> bool {
        self.combinations.wf()
    }

    /// A fresh, empty cache.  An empty cache is valid for every depth
    /// bound.
    pub fn new() -> (r: Self)
        ensures
            r.wf(),
            r.results@ == Map::<u64, u32>::empty(),
    {
        GameCache { results: HashMap::new(), combinations: Combinations::init() }
    }
}

/// Whatever lands in the accumulator, one folded successor step stays
/// within the modulus.
pub proof fn lemma_acc_succ_range(acc: int, dnext: int, succs: Seq<Seq<u8>>, max_depth: int)
    requires
        0 <= acc < GAME_RESULT_MOD,
    ensures
        0 <= acc_succ(acc, dnext, succs, max_depth) < GAME_RESULT_MOD,
    decreases succs.len(),
{
    if !(succs.len() == 0 || dnext > max_depth) {
        let a2 = mod_add(acc, compute_spec(dnext, succs.first(), max_depth));
        vstd::arithmetic::div_mod::lemma_mod_bound(
            acc + compute_spec(dnext, succs.first(), max_depth),
            GAME_RESULT_MOD as int,
        );
        lemma_acc_succ_range(a2, dnext, succs.drop_first(), max_depth);
    }
}

/// Folding any list of free cells keeps the aggregate within the modulus.
pub proof fn lemma_acc_free_range(
    acc: int,
    depth: int,
    cells: Seq<u8>,
    max_depth: int,
    ps: Seq<Position>,
)
    requires
        0 <= acc < GAME_RESULT_MOD,
    ensures
        0 <= acc_free(acc, depth, cells, max_depth, ps) < GAME_RESULT_MOD,
    decreases ps.len(),
{
    if !(ps.len() == 0 || depth >= max_depth) {
        let a2 = acc_succ(acc, depth + 1, succ_cells(cells, ps.first()), max_depth);
        lemma_acc_succ_range(acc, depth + 1, succ_cells(cells, ps.first()), max_depth);
        lemma_acc_free_range(a2, depth, cells, max_depth, ps.drop_first());
    }
}

/// The aggregate of any well-formed state lies in [0, 2^30).
pub proof fn lemma_compute_spec_range(depth: int, cells: Seq<u8>, max_depth: int)
    requires
        cells_wf(cells),
    ensures
        0 <= compute_spec(depth, cells, max_depth) < GAME_RESULT_MOD,
{
    if depth >= max_depth || is_full(cells) {
        assert(cells[0] <= 6 && cells[1] <= 6 && cells[2] <= 6 && cells[3] <= 6 && cells[4] <= 6
            && cells[5] <= 6 && cells[6] <= 6 && cells[7] <= 6 && cells[8] <= 6);
    } else {
        lemma_acc_free_range(0, depth, cells, max_depth, free_cells_upto(cells, 9));
    }
}

impl GameState {
    /// The recursive, memoized search.  The result is exactly the pure
    /// aggregate of this state, whatever the cache held on entry, and the
    /// cache stays valid for the same depth bound.
    pub fn compute(&self, max_depth: u8, cache: &mut GameCache) -> (r: u32)
        requires
            self.wf(),
            self.depth <= max_depth,
            old(cache).wf(),
            cache_ok(old(cache).results@, max_depth as int),
        ensures
            final(cache).wf(),
            cache_ok(final(cache).results@, max_depth as int),
            r as int == compute_spec(self.depth as int, self.grid@, max_depth as int),
            r < GAME_RESULT_MOD,
        decreases max_depth - self.depth,
    {
        let ghost d = self.depth as int;
        let ghost cells = self.grid@;
        let ghost maxi = max_depth as int;
        proof {
            lemma_compute_spec_range(d, cells, maxi);
        }

        let hash = self.hash();

        if let Some(cached_result) = cache.results.get(&hash) {
            let r = *cached_result;
            proof {
                assert(cache.results@.contains_key(hash));
                assert(cache_entry_ok(hash, cache.results@[hash], maxi));
                let (d2, c2) = choose|d2: u8, c2: Seq<u8>| #[trigger] entry_witness(
                    hash,
                    r,
                    maxi,
                    d2,
                    c2,
                );
                lemma_hash_injective(self.depth, cells, d2, c2);
            }
            return r;
        }

        if self.depth == max_depth || self.is_final() {
            let result = self.result();
            let ghost m0 = cache.results@;
            cache.results.insert(hash, result);
            proof {
                assert(entry_witness(hash, result, maxi, self.depth, cells));
                assert forall|h2: u64| cache.results@.contains_key(h2) implies cache_entry_ok(
                    h2,
                    cache.results@[h2],
                    maxi,
                ) by {
                    if h2 != hash {
                        assert(m0.contains_key(h2) && m0[h2] == cache.results@[h2]);
                    }
                }
            }
            return result;
        }

        let free = self.grid.free_cells();
        let ghost fseq = free_cells_upto(cells, 9);
        proof {
            lemma_free_cells_props(cells, 9);
            assert(fseq.skip(0) =~= fseq);
        }

        let mut result: u32 = 0;
        let mut i: usize = 0;
        while i < free.len()
            invariant
                i <= free@.len(),
                free@ == fseq,
                fseq == free_cells_upto(cells, 9),
                cells == self.grid@,
                self.wf(),
                d == self.depth as int,
                maxi == max_depth as int,
                d < maxi,
                self.depth < max_depth,
                cache.wf(),
                cache_ok(cache.results@, maxi),
                result < GAME_RESULT_MOD,
                forall|k: int| 0 <= k < fseq.len() ==> (#[trigger] fseq[k]).wf(),
                acc_free(0, d, cells, maxi, fseq) == acc_free(
                    result as int,
                    d,
                    cells,
                    maxi,
                    fseq.skip(i as int),
                ),
            decreases free@.len() - i,
        {
            let position = &free[i];
            let states = self.play(position, &cache.combinations);
            let ghost sc = succ_cells(cells, fseq[i as int]);
            let ghost result0 = result as int;
            proof {
                assert(sc.skip(0) =~= sc);
            }

            let mut j: usize = 0;
            while j < states.len()
                invariant
                    j <= states@.len(),
                    states@.len() == sc.len(),
                    forall|k: int|
                        0 <= k < states@.len() ==> {
                            let s = #[trigger] states@[k];
                            &&& s.depth == self.depth + 1
                            &&& s.grid@ == sc[k]
                            &&& s.wf()
                        },
                    sc == succ_cells(cells, fseq[i as int]),
                    cells == self.grid@,
                    self.wf(),
                    d == self.depth as int,
                    maxi == max_depth as int,
                    d < maxi,
                    self.depth < max_depth,
                    cache.wf(),
                    cache_ok(cache.results@, maxi),
                    result < GAME_RESULT_MOD,
                    0 <= result0 < GAME_RESULT_MOD,
                    acc_succ(result0, d + 1, sc, maxi) == acc_succ(
                        result as int,
                        d + 1,
                        sc.skip(j as int),
                        maxi,
                    ),
                decreases states@.len() - j,
            {
                let next_state = &states[j];
                let next_state_result = next_state.compute(max_depth, cache);
                proof {
                    assert(sc.skip(j as int).first() == sc[j as int]);
                    assert(sc.skip(j as int).drop_first() =~= sc.skip(j + 1 as int));
                }
                result = (result + next_state_result) % GAME_RESULT_MOD;
                j = j + 1;
            }
            proof {
                assert(sc.skip(sc.len() as int) =~= Seq::<Seq<u8>>::empty());
                assert(fseq.skip(i as int).first() == fseq[i as int]);
                assert(fseq.skip(i as int).drop_first() =~= fseq.skip(i + 1 as int));
            }
            i = i + 1;
        }
        proof {
            assert(fseq.skip(fseq.len() as int) =~= Seq::<Position>::empty());
            assert(result as int == acc_free(0, d, cells, maxi, fseq));
        }

        let ghost m0 = cache.results@;
        cache.results.insert(hash, result);
        proof {
            assert(entry_witness(hash, result, maxi, self.depth, cells));
            assert forall|h2: u64| cache.results@.contains_key(h2) implies cache_entry_ok(
                h2,
                cache.results@[h2],
                maxi,
            ) by {
                if h2 != hash {
                    assert(m0.contains_key(h2) && m0[h2] == cache.results@[h2]);
                }
            }
        }
        result
    }
}

/// The plain (unreduced) sum of the aggregates of the listed successor
/// boards, each evaluated at depth `dnext`.
pub open spec fn succ_sum(dnext: int, succs: Seq<Seq<u8>>, max_depth: int) -> int
    decreases succs.len(),
{
    if succs.len() == 0 {
        0
    } else {
        compute_spec(dnext, succs.first(), max_depth) + succ_sum(
            dnext,
            succs.drop_first(),
            max_depth,
        )
    }
}

/// The plain (unreduced) sum, over the listed free cells, of the summed
/// aggregates of each cell's successors.
pub open spec fn pos_sum(depth: int, cells: Seq<u8>, max_depth: int, ps: Seq<Position>) -> int
    decreases ps.len(),
{
    if ps.len() == 0 {
        0
    } else {
        succ_sum(depth + 1, succ_cells(cells, ps.first()), max_depth) + pos_sum(
            depth,
            cells,
            max_depth,
            ps.drop_first(),
        )
    }
}

/// Folding successors one by one, reducing after every addition, is one
/// modular reduction of the plain sum.
pub proof fn lemma_acc_succ_is_mod_sum(acc: int, dnext: int, succs: Seq<Seq<u8>>, max_depth: int)
    requires
        succs.len() > 0,
        dnext <= max_depth,
    ensures
        acc_succ(acc, dnext, succs, max_depth) == mod_add(acc, succ_sum(dnext, succs, max_depth)),
    decreases succs.len(),
{
    let x = compute_spec(dnext, succs.first(), max_depth);
    if succs.len() == 1 {
        assert(succ_sum(dnext, succs.drop_first(), max_depth) == 0);
        assert(acc_succ(mod_add(acc, x), dnext, succs.drop_first(), max_depth) == mod_add(acc, x));
        assert(acc_succ(acc, dnext, succs, max_depth) == mod_add(acc, x));
    } else {
        lemma_acc_succ_is_mod_sum(mod_add(acc, x), dnext, succs.drop_first(), max_depth);
        let rest = succ_sum(dnext, succs.drop_first(), max_depth);
        assert(acc_succ(acc, dnext, succs, max_depth) == acc_succ(
            mod_add(acc, x),
            dnext,
            succs.drop_first(),
            max_depth,
        ));
        assert(succ_sum(dnext, succs, max_depth) == x + rest);
        vstd::arithmetic::div_mod::lemma_add_mod_noop_right(
            rest,
            acc + x,
            GAME_RESULT_MOD as int,
        );
        assert(mod_add(mod_add(acc, x), rest) == mod_add(acc, x + rest));
    }
}

/// Removing one successor from the list removes exactly its aggregate from
/// the plain sum.
pub proof fn lemma_succ_sum_remove(dnext: int, succs: Seq<Seq<u8>>, max_depth: int, i: int)
    requires
        0 <= i < succs.len(),
    ensures
        succ_sum(dnext, succs.remove(i), max_depth) == succ_sum(dnext, succs, max_depth)
            - compute_spec(dnext, succs[i], max_depth),
    decreases succs.len(),
{
    if i == 0 {
        assert(succs.remove(0) =~= succs.drop_first());
    } else {
        assert(succs.remove(i).drop_first() =~= succs.drop_first().remove(i - 1));
        assert(succs.remove(i).first() == succs.first());
        lemma_succ_sum_remove(dnext, succs.drop_first(), max_depth, i - 1);
    }
}

/// The plain successor sum does not depend on the order of the list.
pub proof fn lemma_succ_sum_permutation(
    dnext: int,
    s1: Seq<Seq<u8>>,
    s2: Seq<Seq<u8>>,
    max_depth: int,
)
    requires
        s1.to_multiset() == s2.to_multiset(),
    ensures
        succ_sum(dnext, s1, max_depth) == succ_sum(dnext, s2, max_depth),
    decreases s1.len(),
{
    broadcast use vstd::seq_lib::group_to_multiset_ensures;

    if s1.len() == 0 {
        assert(s2.to_multiset().len() == 0);
    } else {
        let x = s1[0];
        assert(s1.contains(x));
        assert(s2.to_multiset().count(x) > 0);
        assert(s2.contains(x));
        let i = choose|i: int| 0 <= i < s2.len() && s2[i] == x;
        assert(s1.drop_first() =~= s1.remove(0));
        assert(s1.remove(0).to_multiset() =~= s1.to_multiset().remove(x));
        assert(s2.remove(i).to_multiset() =~= s2.to_multiset().remove(x));
        lemma_succ_sum_permutation(dnext, s1.drop_first(), s2.remove(i), max_depth);
        lemma_succ_sum_remove(dnext, s2, max_depth, i);
    }
}

/// The aggregate folded over a list of capture-option successors is
/// independent of the order in which the options are enumerated.
pub proof fn lemma_capture_order_irrelevant(
    acc: int,
    dnext: int,
    s1: Seq<Seq<u8>>,
    s2: Seq<Seq<u8>>,
    max_depth: int,
)
    requires
        s1.to_multiset() == s2.to_multiset(),
    ensures
        acc_succ(acc, dnext, s1, max_depth) == acc_succ(acc, dnext, s2, max_depth),
{
    broadcast use vstd::seq_lib::group_to_multiset_ensures;

    if s1.len() == 0 {
        assert(s2.to_multiset().len() == 0);
    } else if dnext > max_depth {
        assert(s2.to_multiset().len() == s1.to_multiset().len());
    } else {
        assert(s2.len() == s2.to_multiset().len());
        lemma_acc_succ_is_mod_sum(acc, dnext, s1, max_depth);
        lemma_acc_succ_is_mod_sum(acc, dnext, s2, max_depth);
        lemma_succ_sum_permutation(dnext, s1, s2, max_depth);
    }
}

/// Every free cell owns at least one successor, so folding one free cell
/// always folds at least one aggregate.
pub proof fn lemma_acc_free_is_mod_sum(
    acc: int,
    depth: int,
    cells: Seq<u8>,
    max_depth: int,
    ps: Seq<Position>,
)
    requires
        ps.len() > 0,
        depth < max_depth,
    ensures
        acc_free(acc, depth, cells, max_depth, ps) == mod_add(
            acc,
            pos_sum(depth, cells, max_depth, ps),
        ),
    decreases ps.len(),
{
    let sc = succ_cells(cells, ps.first());
    assert(sc.len() > 0);
    lemma_acc_succ_is_mod_sum(acc, depth + 1, sc, max_depth);
    let a2 = acc_succ(acc, depth + 1, sc, max_depth);
    let s0 = succ_sum(depth + 1, sc, max_depth);
    if ps.len() == 1 {
        assert(pos_sum(depth, cells, max_depth, ps.drop_first()) == 0);
        assert(acc_free(a2, depth, cells, max_depth, ps.drop_first()) == a2);
        assert(acc_free(acc, depth, cells, max_depth, ps) == a2);
        assert(a2 == mod_add(acc, s0));
    } else {
        lemma_acc_free_is_mod_sum(a2, depth, cells, max_depth, ps.drop_first());
        let rest = pos_sum(depth, cells, max_depth, ps.drop_first());
        assert(acc_free(acc, depth, cells, max_depth, ps) == acc_free(
            a2,
            depth,
            cells,
            max_depth,
            ps.drop_first(),
        ));
        assert(pos_sum(depth, cells, max_depth, ps) == s0 + rest);
        vstd::arithmetic::div_mod::lemma_add_mod_noop_right(
            rest,
            acc + s0,
            GAME_RESULT_MOD as int,
        );
        assert(mod_add(mod_add(acc, s0), rest) == mod_add(acc, s0 + rest));
    }
}

/// Removing one free cell from the list removes exactly its contribution
/// from the plain sum.
pub proof fn lemma_pos_sum_remove(
    depth: int,
    cells: Seq<u8>,
    max_depth: int,
    ps: Seq<Position>,
    i: int,
)
    requires
        0 <= i < ps.len(),
    ensures
        pos_sum(depth, cells, max_depth, ps.remove(i)) == pos_sum(depth, cells, max_depth, ps)
            - succ_sum(depth + 1, succ_cells(cells, ps[i]), max_depth),
    decreases ps.len(),
{
    if i == 0 {
        assert(ps.remove(0) =~= ps.drop_first());
    } else {
        assert(ps.remove(i).drop_first() =~= ps.drop_first().remove(i - 1));
        assert(ps.remove(i).first() == ps.first());
        lemma_pos_sum_remove(depth, cells, max_depth, ps.drop_first(), i - 1);
    }
}

/// The plain free-cell sum does not depend on the order of the list.
pub proof fn lemma_pos_sum_permutation(
    depth: int,
    cells: Seq<u8>,
    max_depth: int,
    ps1: Seq<Position>,
    ps2: Seq<Position>,
)
    requires
        ps1.to_multiset() == ps2.to_multiset(),
    ensures
        pos_sum(depth, cells, max_depth, ps1) == pos_sum(depth, cells, max_depth, ps2),
    decreases ps1.len(),
{
    broadcast use vstd::seq_lib::group_to_multiset_ensures;

    if ps1.len() == 0 {
        assert(ps2.to_multiset().len() == 0);
    } else {
        let x = ps1[0];
        assert(ps1.contains(x));
        assert(ps2.to_multiset().count(x) > 0);
        assert(ps2.contains(x));
        let i = choose|i: int| 0 <= i < ps2.len() && ps2[i] == x;
        assert(ps1.drop_first() =~= ps1.remove(0));
        assert(ps1.remove(0).to_multiset() =~= ps1.to_multiset().remove(x));
        assert(ps2.remove(i).to_multiset() =~= ps2.to_multiset().remove(x));
        lemma_pos_sum_permutation(depth, cells, max_depth, ps1.drop_first(), ps2.remove(i));
        lemma_pos_sum_remove(depth, cells, max_depth, ps2, i);
    }
}

/// The aggregate folded over a list of free cells is independent of the
/// order in which the cells are enumerated.
pub proof fn lemma_free_cell_order_irrelevant(
    acc: int,
    depth: int,
    cells: Seq<u8>,
    max_depth: int,
    ps1: Seq<Position>,
    ps2: Seq<Position>,
)
    requires
        ps1.to_multiset() == ps2.to_multiset(),
    ensures
        acc_free(acc, depth, cells, max_depth, ps1) == acc_free(acc, depth, cells, max_depth, ps2),
{
    broadcast use vstd::seq_lib::group_to_multiset_ensures;

    if ps1.len() == 0 {
        assert(ps2.to_multiset().len() == 0);
    } else if depth >= max_depth {
        assert(ps2.to_multiset().len() == ps1.to_multiset().len());
    } else {
        assert(ps2.len() == ps2.to_multiset().len());
        lemma_acc_free_is_mod_sum(acc, depth, cells, max_depth, ps1);
        lemma_acc_free_is_mod_sum(acc, depth, cells, max_depth, ps2);
        lemma_pos_sum_permutation(depth, cells, max_depth, ps1, ps2);
    }
}

} // verus!
