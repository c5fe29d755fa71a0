//! The fixed table of capturable index subsets.
//!
//! For a landing cell with `n` occupied neighbors (n in 2..=4), the table
//! lists every subset of `{0, ..., n-1}` of size at least 2, each subset as
//! an ordered sequence of indices into the neighbor list.

use vstd::prelude::*;

verus! {

/// The table entry for `n` occupied neighbors: every subset of
/// `{0, ..., n-1}` with at least two elements, in a fixed enumeration order.
pub open spec fn combos_spec(n: int) -> Seq<Seq<usize>> {
    if n == 2 {
        seq![seq![0usize, 1]]
    } else if n == 3 {
        seq![seq![0usize, 1], seq![0usize, 2], seq![1usize, 2], seq![0usize, 1, 2]]
    } else if n == 4 {
        seq![
            seq![0usize, 1],
            seq![0usize, 2],
            seq![0usize, 3],
            seq![1usize, 2],
            seq![1usize, 3],
            seq![2usize, 3],
            seq![0usize, 1, 2],
            seq![0usize, 1, 3],
            seq![0usize, 2, 3],
            seq![1usize, 2, 3],
            seq![0usize, 1, 2, 3],
        ]
    } else {
        Seq::empty()
    }
}

/// An executable list of index lists matches a specification-level table entry.
pub open spec fn combs_match(s: Seq<Vec<usize>>, t: Seq<Seq<usize>>) -> bool {
    &&& s.len() == t.len()
    &&& forall|i: int| 0 <= i < s.len() ==> #[trigger] s[i]@ == t[i]
}

/// Every index list in a table entry has at least two indices, and every
/// index points into `{0, ..., n-1}`.
pub proof fn lemma_combos_props(n: int)
    requires
        2 <= n <= 4,
    ensures
        forall|i: int|
            0 <= i < combos_spec(n).len() ==> {
                &&& 2 <= (#[trigger] combos_spec(n)[i]).len() <= 4
                &&& forall|j: int|
                    0 <= j < combos_spec(n)[i].len() ==> (#[trigger] combos_spec(n)[i][j]) < n
            },
{
    assert forall|i: int| 0 <= i < combos_spec(n).len() implies {
        &&& 2 <= (#[trigger] combos_spec(n)[i]).len() <= 4
        &&& forall|j: int| 0 <= j < combos_spec(n)[i].len() ==> (#[trigger] combos_spec(n)[i][j]) < n
    } by {
        let c = combos_spec(n)[i];
        assert forall|j: int| 0 <= j < c.len() implies (#[trigger] c[j]) < n by {
            assert(c[j] < n);
        }
    }
}

/// The precomputed capture-combination table, one entry per possible
/// occupied-neighbor count.
pub struct Combinations {
    data: Vec<Vec<Vec<usize>>>,
}

impl Combinations {
    /// The table holds exactly the subsets `combos_spec` describes for every
    /// neighbor count 2..=4.
    pub closed spec fn wf(&self) -> bool {
        &&& self.data@.len() == 5
        &&& forall|n: int| 2 <= n < 5 ==> combs_match((#[trigger] self.data@[n])@, combos_spec(n))
    }

    /// Builds the full table.
    pub fn init() -> (r: Self)
        ensures
            r.wf(),
    {
        let mut data: Vec<Vec<Vec<usize>>> = Vec::new();
        data.push(Vec::new());
        data.push(Vec::new());

        let mut two: Vec<Vec<usize>> = Vec::new();
        two.push(pair(0, 1));
        data.push(two);

        let mut three: Vec<Vec<usize>> = Vec::new();
        three.push(pair(0, 1));
        three.push(pair(0, 2));
        three.push(pair(1, 2));
        three.push(triple(0, 1, 2));
        data.push(three);

        let mut four: Vec<Vec<usize>> = Vec::new();
        four.push(pair(0, 1));
        four.push(pair(0, 2));
        four.push(pair(0, 3));
        four.push(pair(1, 2));
        four.push(pair(1, 3));
        four.push(pair(2, 3));
        four.push(triple(0, 1, 2));
        four.push(triple(0, 1, 3));
        four.push(triple(0, 2, 3));
        four.push(triple(1, 2, 3));
        four.push(quad(0, 1, 2, 3));
        data.push(four);

        let r = Combinations { data };
        assert(combs_match(r.data@[2]@, combos_spec(2)));
        assert(combs_match(r.data@[3]@, combos_spec(3)));
        assert(combs_match(r.data@[4]@, combos_spec(4)));
        r
    }

    /// The table entry for `n` occupied neighbors.
    pub fn get(&self, n: usize) -> (r: &Vec<Vec<usize>>)
        requires
            self.wf(),
            2 <= n <= 4,
        ensures
            combs_match(r@, combos_spec(n as int)),
    {
        &self.data[n]
    }
}

fn pair(a: usize, b: usize) -> (r: Vec<usize>)
    ensures
        r@ == seq![a, b],
{
    let mut r: Vec<usize> = Vec::new();
    r.push(a);
    r.push(b);
    assert(r@ =~= seq![a, b]);
    r
}

fn triple(a: usize, b: usize, c: usize) -> (r: Vec<usize>)
    ensures
        r@ == seq![a, b, c],
{
    let mut r: Vec<usize> = Vec::new();
    r.push(a);
    r.push(b);
    r.push(c);
    assert(r@ =~= seq![a, b, c]);
    r
}

fn quad(a: usize, b: usize, c: usize, d: usize) -> (r: Vec<usize>)
    ensures
        r@ == seq![a, b, c, d],
{
    let mut r: Vec<usize> = Vec::new();
    r.push(a);
    r.push(b);
    r.push(c);
    r.push(d);
    assert(r@ =~= seq![a, b, c, d]);
    r
}

} // verus!
