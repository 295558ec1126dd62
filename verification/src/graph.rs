use vstd::prelude::*;
use itertools::Itertools;
use crate::entities::surface_grid::{renumbered, SurfaceC0Grid};
use std::collections::HashMap;

verus! {

/// The boundary row of a Bezier patch, seen as an edge between the two
/// corner points `points[0][0]` and `points[0][3]`: `points[0]` is the
/// edge itself, rows 1..3 the control points behind it.
#[derive(Clone, Copy, Debug, PartialEq, Eq)]
pub struct C0Edge {
    pub points: [[usize; 4]; 4],
}

/// Three edges forming a closed loop of boundary edges.
#[derive(Clone, Copy, Debug, PartialEq, Eq)]
pub struct C0EdgeTriangle(pub [C0Edge; 3]);

/// The same points read in the other direction along the edge.
pub open spec fn spec_reverse(e: C0Edge) -> C0Edge {
    C0Edge {
        points: [
            [e.points[0][3], e.points[0][2], e.points[0][1], e.points[0][0]],
            [e.points[1][3], e.points[1][2], e.points[1][1], e.points[1][0]],
            [e.points[2][3], e.points[2][2], e.points[2][1], e.points[2][0]],
            [e.points[3][3], e.points[3][2], e.points[3][1], e.points[3][0]],
        ],
    }
}

pub open spec fn spec_endpoints(e: C0Edge) -> (usize, usize) {
    (e.points[0][0], e.points[0][3])
}

/// The edge's own points as a tuple, the key edges are ordered and grouped by.
pub open spec fn edge_key(e: C0Edge) -> (usize, usize, usize, usize) {
    (e.points[0][0], e.points[0][1], e.points[0][2], e.points[0][3])
}

impl C0Edge {
    pub fn new(points: [[usize; 4]; 4]) -> (e: C0Edge)
        ensures
            e.points == points,
    {
        C0Edge { points }
    }

    pub fn reverse(&self) -> (r: C0Edge)
        ensures
            r == spec_reverse(*self),
    {
        C0Edge {
            points: [
                [self.points[0][3], self.points[0][2], self.points[0][1], self.points[0][0]],
                [self.points[1][3], self.points[1][2], self.points[1][1], self.points[1][0]],
                [self.points[2][3], self.points[2][2], self.points[2][1], self.points[2][0]],
                [self.points[3][3], self.points[3][2], self.points[3][1], self.points[3][0]],
            ],
        }
    }

    pub fn edge_points(&self) -> (r: &[usize; 4])
        ensures
            *r == self.points[0],
    {
        &self.points[0]
    }

    pub fn endpoints(&self) -> (r: (usize, usize))
        ensures
            r == spec_endpoints(*self),
    {
        let edge_points = self.edge_points();
        (edge_points[0], edge_points[3])
    }

    pub fn is_endpoint(&self, id: usize) -> (b: bool)
        ensures
            b == (spec_endpoints(*self).0 == id || spec_endpoints(*self).1 == id),
    {
        let endpoints = self.endpoints();
        endpoints.0 == id || endpoints.1 == id
    }
}

/// Reversing an edge twice gives the edge back.
pub proof fn lemma_reverse_involution(e: C0Edge)
    ensures
        spec_reverse(spec_reverse(e)) == e,
{
    let r = spec_reverse(spec_reverse(e));
    assert(r.points[0] =~= e.points[0]);
    assert(r.points[1] =~= e.points[1]);
    assert(r.points[2] =~= e.points[2]);
    assert(r.points[3] =~= e.points[3]);
    assert(r.points =~= e.points);
}

/// Reversing an edge swaps its endpoints and keeps which points are endpoints.
pub proof fn lemma_reverse_endpoints(e: C0Edge)
    ensures
        spec_endpoints(spec_reverse(e)) == (spec_endpoints(e).1, spec_endpoints(e).0),
{
}


/// `id`'s new number, where `changes` gives it one.
fn renumber_id(id: usize, changes: &HashMap<usize, usize>) -> (r: usize)
    ensures
        r == renumbered(changes@, id),
{
    broadcast use vstd::std_specs::hash::group_hash_axioms;

    match changes.get(&id) {
        Some(new_id) => *new_id,
        None => id,
    }
}

fn renumber_row(row: [usize; 4], changes: &HashMap<usize, usize>) -> (r: [usize; 4])
    ensures
        forall|j: int| 0 <= j < 4 ==> r[j] == renumbered(changes@, row[j]),
{
    [
        renumber_id(row[0], changes),
        renumber_id(row[1], changes),
        renumber_id(row[2], changes),
        renumber_id(row[3], changes),
    ]
}

fn renumber_edge(e: C0Edge, changes: &HashMap<usize, usize>) -> (r: C0Edge)
    ensures
        forall|i: int, j: int|
            0 <= i < 4 && 0 <= j < 4 ==> r.points[i][j] == renumbered(changes@, e.points[i][j]),
{
    C0Edge {
        points: [
            renumber_row(e.points[0], changes),
            renumber_row(e.points[1], changes),
            renumber_row(e.points[2], changes),
            renumber_row(e.points[3], changes),
        ],
    }
}

impl C0EdgeTriangle {
    /// Point ids renumbered (after points were merged or the scene
    /// reloaded): each id with a new number takes it, the others stay.
    pub fn notify_about_reindexing(&mut self, changes: &HashMap<usize, usize>)
        ensures
            forall|t: int, i: int, j: int|
                0 <= t < 3 && 0 <= i < 4 && 0 <= j < 4 ==> final(self).0[t].points[i][j]
                    == renumbered(changes@, old(self).0[t].points[i][j]),
    {
        let edges = self.0;
        self.0 = [
            renumber_edge(edges[0], changes),
            renumber_edge(edges[1], changes),
            renumber_edge(edges[2], changes),
        ];
    }
}

/// Lexicographic order of edge keys, as std orders `[usize; 4]`.
pub open spec fn key_le(a: (usize, usize, usize, usize), b: (usize, usize, usize, usize)) -> bool {
    a.0 < b.0 || (a.0 == b.0 && (a.1 < b.1 || (a.1 == b.1 && (a.2 < b.2 || (a.2 == b.2 && a.3
        <= b.3)))))
}

/// Edges sorted by their own points (`points[0]`, which std compares
/// lexicographically). Calls `Itertools::sorted_by_key`, which collects the
/// edges into a `Vec` and sorts it with `slice::sort_by_key`. That this sort
/// is stable is not stated.
#[verifier::external_body]
fn sorted_by_edge_points(edges: Vec<C0Edge>) -> (r: Vec<C0Edge>)
    ensures
        r@.to_multiset() == edges@.to_multiset(),
        forall|i: int, j: int|
            0 <= i < j < r@.len() ==> key_le(edge_key(#[trigger] r@[i]), edge_key(#[trigger] r@[j])),
{
    edges.into_iter().sorted_by_key(|e| e.points[0]).collect()
}

/// No other edge of `s` has the key of `s[i]`.
pub open spec fn key_is_unique(s: Seq<C0Edge>, i: int) -> bool {
    forall|j: int| 0 <= j < s.len() && j != i ==> edge_key(#[trigger] s[j]) != edge_key(s[i])
}

/// `e` is in `s` and no other edge of `s` has its key.
pub open spec fn has_unique_key(s: Seq<C0Edge>, e: C0Edge) -> bool {
    exists|i: int| 0 <= i < s.len() && s[i] == e && key_is_unique(s, i)
}

proof fn lemma_two_positions_count(s: Seq<C0Edge>, i: int, j: int)
    requires
        0 <= i < s.len(),
        0 <= j < s.len(),
        i != j,
        s[i] == s[j],
    ensures
        s.to_multiset().count(s[i]) >= 2,
{
    broadcast use vstd::seq_lib::group_to_multiset_ensures, vstd::multiset::group_multiset_axioms;

    let r = s.remove(i);
    let k = if j < i {
        j
    } else {
        j - 1
    };
    assert(r[k] == s[j]);
    assert(r.contains(s[i]));
    assert(r.to_multiset().count(s[i]) > 0);
    assert(r.to_multiset() =~= s.to_multiset().remove(s[i]));
    assert(s.to_multiset().count(s[i]) > 0);
}

proof fn lemma_count_two_positions(s: Seq<C0Edge>, x: C0Edge)
    requires
        s.to_multiset().count(x) >= 2,
    ensures
        exists|i: int, j: int| 0 <= i < s.len() && 0 <= j < s.len() && i != j && s[i] == x && s[j] == x,
{
    broadcast use vstd::seq_lib::group_to_multiset_ensures, vstd::multiset::group_multiset_axioms;

    assert(s.contains(x));
    let i = choose|i: int| 0 <= i < s.len() && s[i] == x;
    let r = s.remove(i);
    assert(r.to_multiset() =~= s.to_multiset().remove(x));
    assert(r.to_multiset().count(x) > 0);
    assert(r.contains(x));
    let k = choose|k: int| 0 <= k < r.len() && r[k] == x;
    let j = if k < i {
        k
    } else {
        k + 1
    };
    assert(s[j] == x);
}

/// Having the only copy of a key carries over between sequences with the
/// same elements.
proof fn lemma_unique_key_transfer(s1: Seq<C0Edge>, s2: Seq<C0Edge>, e: C0Edge)
    requires
        s1.to_multiset() == s2.to_multiset(),
        has_unique_key(s1, e),
    ensures
        has_unique_key(s2, e),
{
    broadcast use vstd::seq_lib::group_to_multiset_ensures;

    let m = choose|m: int| 0 <= m < s1.len() && s1[m] == e && key_is_unique(s1, m);
    assert(s1.contains(e));
    assert(s1.to_multiset().count(e) > 0);
    assert(s2.to_multiset().count(e) > 0);
    assert(s2.contains(e));
    let i = choose|i: int| 0 <= i < s2.len() && s2[i] == e;
    assert forall|j: int| 0 <= j < s2.len() && j != i implies edge_key(#[trigger] s2[j])
        != edge_key(s2[i]) by {
        if edge_key(s2[j]) == edge_key(s2[i]) {
            if s2[j] == e {
                lemma_two_positions_count(s2, i, j);
                lemma_count_two_positions(s1, e);
                let (a, b) = choose|a: int, b: int|
                    0 <= a < s1.len() && 0 <= b < s1.len() && a != b && s1[a] == e && s1[b] == e;
                if a != m {
                    assert(edge_key(s1[a]) == edge_key(s1[m]));
                } else {
                    assert(edge_key(s1[b]) == edge_key(s1[m]));
                }
            } else {
                assert(s2.contains(s2[j]));
                assert(s2.to_multiset().count(s2[j]) > 0);
                assert(s1.to_multiset().count(s2[j]) > 0);
                assert(s1.contains(s2[j]));
                let p = choose|p: int| 0 <= p < s1.len() && s1[p] == s2[j];
                assert(p != m);
                assert(edge_key(s1[p]) == edge_key(s1[m]));
            }
        }
    }
}


pub open spec fn key_lt(a: (usize, usize, usize, usize), b: (usize, usize, usize, usize)) -> bool {
    key_le(a, b) && a != b
}

/// A patch edge as the graph keeps it: none for an edge whose endpoints
/// coincide, else oriented from the smaller endpoint id to the larger.
pub open spec fn normalized(e: C0Edge) -> Option<C0Edge> {
    if spec_endpoints(e).0 == spec_endpoints(e).1 {
        None
    } else if spec_endpoints(e).0 > spec_endpoints(e).1 {
        Some(spec_reverse(e))
    } else {
        Some(e)
    }
}

/// The patch edges that can be on a boundary, oriented.
pub open spec fn candidate_edges(edges: Seq<C0Edge>) -> Seq<C0Edge> {
    edges.filter_map(|e: C0Edge| normalized(e))
}

pub open spec fn sorted_by_key(s: Seq<C0Edge>) -> bool {
    forall|i: int, j: int| 0 <= i < j < s.len() ==> key_le(edge_key(#[trigger] s[i]), edge_key(#[trigger] s[j]))
}

/// In a sorted sequence an edge has the only copy of its key exactly when
/// its neighbours have other keys.
proof fn lemma_sorted_unique_neighbours(s: Seq<C0Edge>, m: int)
    requires
        sorted_by_key(s),
        0 <= m < s.len(),
    ensures
        key_is_unique(s, m) <==> ((m == 0 || edge_key(s[m - 1]) != edge_key(s[m])) && (m + 1
            == s.len() || edge_key(s[m + 1]) != edge_key(s[m]))),
{
    if (m == 0 || edge_key(s[m - 1]) != edge_key(s[m])) && (m + 1 == s.len() || edge_key(s[m + 1])
        != edge_key(s[m])) {
        assert forall|j: int| 0 <= j < s.len() && j != m implies edge_key(#[trigger] s[j])
            != edge_key(s[m]) by {
            if j < m {
                assert(key_le(edge_key(s[j]), edge_key(s[m - 1])));
                assert(key_le(edge_key(s[m - 1]), edge_key(s[m])));
            } else {
                assert(key_le(edge_key(s[m]), edge_key(s[m + 1])));
                assert(key_le(edge_key(s[m + 1]), edge_key(s[j])));
            }
        }
    }
}

/// Boundary edges of a set of C0 patches: the patch edges that belong to
/// exactly one patch.
#[derive(Clone, Debug)]
pub struct C0EdgeGraph {
    edges: Vec<C0Edge>,
}

impl C0EdgeGraph {
    pub closed spec fn spec_edges(&self) -> Seq<C0Edge> {
        self.edges@
    }

    /// Edges run from the smaller endpoint id to the larger and are strictly
    /// ordered by their own points.
    pub open spec fn wf(&self) -> bool {
        &&& forall|i: int|
            0 <= i < self.spec_edges().len() ==> spec_endpoints(#[trigger] self.spec_edges()[i]).0
                < spec_endpoints(self.spec_edges()[i]).1
        &&& forall|i: int, j: int|
            0 <= i < j < self.spec_edges().len() ==> key_lt(
                edge_key(#[trigger] self.spec_edges()[i]),
                edge_key(#[trigger] self.spec_edges()[j]),
            )
    }

    /// The graph of the given patch edges: degenerate edges are dropped, the
    /// rest oriented from the smaller endpoint id, and an edge is kept when no
    /// other edge runs through the same points; edges are ordered by their points.
    pub fn from_edges(edges: Vec<C0Edge>) -> (g: C0EdgeGraph)
        ensures
            g.wf(),
            forall|e: C0Edge|
                g.spec_edges().contains(e) <==> has_unique_key(candidate_edges(edges@), e),
    {
        let mut candidates: Vec<C0Edge> = Vec::new();
        let mut i: usize = 0;
        assert(edges@.take(0) =~= Seq::<C0Edge>::empty());
        while i < edges.len()
            invariant
                i <= edges.len(),
                candidates@ == candidate_edges(edges@.take(i as int)),
            decreases edges.len() - i,
        {
            let e = edges[i];
            let (a, b) = e.endpoints();
            proof {
                edges@.lemma_filter_map_take_succ(|e: C0Edge| normalized(e), i as int);
            }
            if a != b {
                if a > b {
                    candidates.push(e.reverse());
                } else {
                    candidates.push(e);
                }
            }
            i = i + 1;
        }
        assert(edges@.take(i as int) =~= edges@);
        let ghost cand = candidates@;
        let sorted = sorted_by_edge_points(candidates);
        let mut result: Vec<C0Edge> = Vec::new();
        let n = sorted.len();
        let mut i: usize = 0;
        while i < n
            invariant
                n == sorted@.len(),
                i <= n,
                sorted_by_key(sorted@),
                forall|a: int, b: int|
                    0 <= a < b < result@.len() ==> key_lt(
                        edge_key(#[trigger] result@[a]),
                        edge_key(#[trigger] result@[b]),
                    ),
                forall|a: int|
                    0 <= a < result@.len() ==> exists|m: int|
                        0 <= m < i && #[trigger] result@[a] == sorted@[m],
                forall|x: C0Edge|
                    result@.contains(x) <==> exists|m: int|
                        0 <= m < i && sorted@[m] == x && key_is_unique(sorted@, m),
            decreases n - i,
        {
            let key = sorted[i].edge_points();
            let differs_before = i == 0 || {
                let prev = sorted[i - 1].edge_points();
                !(prev[0] == key[0] && prev[1] == key[1] && prev[2] == key[2] && prev[3] == key[3])
            };
            let differs_after = i + 1 == n || {
                let next = sorted[i + 1].edge_points();
                !(next[0] == key[0] && next[1] == key[1] && next[2] == key[2] && next[3] == key[3])
            };
            proof {
                lemma_sorted_unique_neighbours(sorted@, i as int);
            }
            let ghost old_result = result@;
            if differs_before && differs_after {
                let e = sorted[i];
                assert forall|a: int| 0 <= a < old_result.len() implies key_lt(
                    edge_key(#[trigger] old_result[a]),
                    edge_key(e),
                ) by {
                    let m = choose|m: int| 0 <= m < i && old_result[a] == sorted@[m];
                    assert(key_le(edge_key(sorted@[m]), edge_key(sorted@[i as int])));
                    if m < i - 1 {
                        assert(key_le(edge_key(sorted@[m]), edge_key(sorted@[i - 1])));
                        assert(key_le(edge_key(sorted@[i - 1]), edge_key(sorted@[i as int])));
                    }
                }
                result.push(e);
                assert forall|x: C0Edge| result@.contains(x) <==> exists|m: int|
                    0 <= m < i + 1 && sorted@[m] == x && key_is_unique(sorted@, m) by {
                    if result@.contains(x) && x != e {
                        let k = choose|k: int| 0 <= k < result@.len() && result@[k] == x;
                        assert(old_result.contains(x));
                    }
                    if exists|m: int| 0 <= m < i + 1 && sorted@[m] == x && key_is_unique(sorted@, m) {
                        let m = choose|m: int| 0 <= m < i + 1 && sorted@[m] == x && key_is_unique(sorted@, m);
                        if m < i {
                            assert(old_result.contains(x));
                            let k = choose|k: int| 0 <= k < old_result.len() && old_result[k] == x;
                            assert(result@[k] == x);
                        } else {
                            assert(result@[old_result.len() as int] == x);
                        }
                    }
                }
                assert forall|a: int| 0 <= a < result@.len() implies exists|m: int|
                    0 <= m < i + 1 && #[trigger] result@[a] == sorted@[m] by {
                    if a < old_result.len() {
                        assert(result@[a] == old_result[a]);
                    } else {
                        assert(result@[a] == sorted@[i as int]);
                    }
                }
            } else {
                assert forall|x: C0Edge| result@.contains(x) <==> exists|m: int|
                    0 <= m < i + 1 && sorted@[m] == x && key_is_unique(sorted@, m) by {
                    if exists|m: int| 0 <= m < i + 1 && sorted@[m] == x && key_is_unique(sorted@, m) {
                        let m = choose|m: int| 0 <= m < i + 1 && sorted@[m] == x && key_is_unique(sorted@, m);
                        assert(m < i);
                    }
                }
            }
            i = i + 1;
        }
        proof {
            assert forall|e: C0Edge| result@.contains(e) <==> has_unique_key(cand, e) by {
                if result@.contains(e) {
                    lemma_unique_key_transfer(sorted@, cand, e);
                }
                if has_unique_key(cand, e) {
                    lemma_unique_key_transfer(cand, sorted@, e);
                }
            }
        }
        let g = C0EdgeGraph { edges: result };
        assert forall|k: int| 0 <= k < g.spec_edges().len() implies spec_endpoints(
            #[trigger] g.spec_edges()[k],
        ).0 < spec_endpoints(g.spec_edges()[k]).1 by {
            assert(g.spec_edges().contains(g.spec_edges()[k]));
            assert(has_unique_key(cand, g.spec_edges()[k]));
            let x = g.spec_edges()[k];
            assert(cand.contains(x));
            edges@.lemma_filter_map_contains(|e: C0Edge| normalized(e), x);
        }
        g
    }
}


/// Both endpoints of each edge, in order.
pub open spec fn endpoint_seq(edges: Seq<C0Edge>) -> Seq<usize> {
    edges.flat_map(|e: C0Edge| seq![spec_endpoints(e).0, spec_endpoints(e).1])
}

/// The vertices of the edges, each once, in order of first appearance.
pub open spec fn spec_vertices(edges: Seq<C0Edge>) -> Seq<usize> {
    endpoint_seq(edges).remove_duplicates(seq![])
}

/// `e` read from `v0` to `v1`, if those are its endpoints.
pub open spec fn oriented(e: C0Edge, v0: usize, v1: usize) -> Option<C0Edge> {
    if spec_endpoints(e) == (v0, v1) {
        Some(e)
    } else if spec_endpoints(e) == (v1, v0) {
        Some(spec_reverse(e))
    } else {
        None
    }
}

pub open spec fn spec_oriented_edges(edges: Seq<C0Edge>, v0: usize, v1: usize) -> Seq<C0Edge> {
    edges.filter_map(|e: C0Edge| oriented(e, v0, v1))
}

fn vec_contains(v: &Vec<usize>, x: usize) -> (b: bool)
    ensures
        b == v@.contains(x),
{
    let mut i: usize = 0;
    while i < v.len()
        invariant
            i <= v.len(),
            forall|j: int| 0 <= j < i ==> v@[j] != x,
        decreases v.len() - i,
    {
        if v[i] == x {
            return true;
        }
        i = i + 1;
    }
    false
}

/// `xs` with `x` appended, keeping first occurrences only.
proof fn lemma_unique_push(xs: Seq<usize>, x: usize)
    ensures
        (xs + seq![x]).remove_duplicates(seq![]) == if xs.remove_duplicates(seq![]).contains(x) {
            xs.remove_duplicates(seq![])
        } else {
            xs.remove_duplicates(seq![]) + seq![x]
        },
{
    xs.lemma_remove_duplicates_properties(seq![]);
    xs.lemma_remove_duplicates_append(x, seq![]);
    assert(xs + seq![] =~= xs);
}

impl C0EdgeGraph {
    pub fn edges(&self) -> (r: &[C0Edge])
        ensures
            r@ == self.spec_edges(),
    {
        self.edges.as_slice()
    }

    /// The endpoints of the edges, each once, in order of first appearance.
    pub fn vertices(&self) -> (r: Vec<usize>)
        ensures
            r@ == spec_vertices(self.spec_edges()),
    {
        let mut result: Vec<usize> = Vec::new();
        let mut i: usize = 0;
        let ghost f = |e: C0Edge| seq![spec_endpoints(e).0, spec_endpoints(e).1];
        assert(self.edges@.take(0) =~= Seq::<C0Edge>::empty());
        assert(endpoint_seq(Seq::<C0Edge>::empty()) =~= Seq::<usize>::empty());
        while i < self.edges.len()
            invariant
                i <= self.edges@.len(),
                f == (|e: C0Edge| seq![spec_endpoints(e).0, spec_endpoints(e).1]),
                result@ == spec_vertices(self.edges@.take(i as int)),
            decreases self.edges@.len() - i,
        {
            let (a, b) = self.edges[i].endpoints();
            let ghost prefix = endpoint_seq(self.edges@.take(i as int));
            proof {
                self.edges@.lemma_flat_map_take_append(f, i as int);
                assert(endpoint_seq(self.edges@.take(i + 1)) =~= (prefix + seq![a]) + seq![b]);
                lemma_unique_push(prefix, a);
                lemma_unique_push(prefix + seq![a], b);
            }
            if !vec_contains(&result, a) {
                result.push(a);
            }
            assert(result@ == (prefix + seq![a]).remove_duplicates(seq![]));
            if !vec_contains(&result, b) {
                result.push(b);
            }
            assert(result@ == ((prefix + seq![a]) + seq![b]).remove_duplicates(seq![]));
            i = i + 1;
        }
        assert(self.edges@.take(i as int) =~= self.edges@);
        result
    }

    /// The edges between `vertex0` and `vertex1`, each read from `vertex0`.
    pub fn oriented_edges(&self, vertex0: usize, vertex1: usize) -> (r: Vec<C0Edge>)
        ensures
            r@ == spec_oriented_edges(self.spec_edges(), vertex0, vertex1),
            forall|i: int| 0 <= i < r@.len() ==> spec_endpoints(#[trigger] r@[i]) == (vertex0, vertex1),
    {
        let mut result: Vec<C0Edge> = Vec::new();
        let mut i: usize = 0;
        assert(self.edges@.take(0) =~= Seq::<C0Edge>::empty());
        while i < self.edges.len()
            invariant
                i <= self.edges@.len(),
                result@ == spec_oriented_edges(self.edges@.take(i as int), vertex0, vertex1),
                forall|k: int| 0 <= k < result@.len() ==> spec_endpoints(#[trigger] result@[k]) == (vertex0, vertex1),
            decreases self.edges@.len() - i,
        {
            let e = self.edges[i];
            let endpoints = e.endpoints();
            proof {
                self.edges@.lemma_filter_map_take_succ(|e: C0Edge| oriented(e, vertex0, vertex1), i as int);
            }
            if endpoints.0 == vertex0 && endpoints.1 == vertex1 {
                result.push(e);
            } else if endpoints.0 == vertex1 && endpoints.1 == vertex0 {
                result.push(e.reverse());
            }
            i = i + 1;
        }
        assert(self.edges@.take(i as int) =~= self.edges@);
        result
    }
}


pub open spec fn make_triangle(e0: C0Edge, e1: C0Edge) -> spec_fn(C0Edge) -> C0EdgeTriangle {
    |e2: C0Edge| C0EdgeTriangle([e0, e1, e2])
}

/// Triangles `e0, e1, e2` for each `e1` of `first` and `e2` of `second`.
pub open spec fn pair_triangles(e0: C0Edge, second: Seq<C0Edge>) -> spec_fn(C0Edge) -> Seq<
    C0EdgeTriangle,
> {
    |e1: C0Edge| second.map_values(make_triangle(e0, e1))
}

/// Triangles closing edge `e` (from `a` to `b`) through a vertex `v` above
/// both: each edge from `b` to `v` with each edge from `v` back to `a`.
pub open spec fn triangles_at(edges: Seq<C0Edge>, e: C0Edge, v: usize) -> Seq<C0EdgeTriangle> {
    let a = spec_endpoints(e).0;
    let b = spec_endpoints(e).1;
    if a < v && b < v {
        spec_oriented_edges(edges, b, v).flat_map(
            pair_triangles(e, spec_oriented_edges(edges, v, a)),
        )
    } else {
        seq![]
    }
}

pub open spec fn triangles_through(edges: Seq<C0Edge>, e: C0Edge) -> spec_fn(usize) -> Seq<
    C0EdgeTriangle,
> {
    |v: usize| triangles_at(edges, e, v)
}

pub open spec fn triangles_of_edge(edges: Seq<C0Edge>) -> spec_fn(C0Edge) -> Seq<C0EdgeTriangle> {
    |e: C0Edge| spec_vertices(edges).flat_map(triangles_through(edges, e))
}

/// For each edge in order, for each vertex in order, the triangles that
/// close the edge through the vertex.
pub open spec fn spec_triangles(edges: Seq<C0Edge>) -> Seq<C0EdgeTriangle> {
    edges.flat_map(triangles_of_edge(edges))
}

/// The three edges run `a -> b -> c -> a`, with `c` above `a` and `b`.
pub open spec fn closes(t: C0EdgeTriangle) -> bool {
    let (a, b) = spec_endpoints(t.0[0]);
    let (b1, c) = spec_endpoints(t.0[1]);
    let (c2, a2) = spec_endpoints(t.0[2]);
    b1 == b && c2 == c && a2 == a && a < c && b < c
}

impl C0EdgeGraph {
    /// Every loop of three boundary edges, listed from each of its edges
    /// whose far vertex is the loop's largest.
    pub fn find_triangles(&self) -> (r: Vec<C0EdgeTriangle>)
        ensures
            r@ == spec_triangles(self.spec_edges()),
            forall|i: int| 0 <= i < r@.len() ==> closes(#[trigger] r@[i]),
    {
        let edges = self.edges();
        let vertices = self.vertices();
        let ghost all = self.spec_edges();
        let mut result: Vec<C0EdgeTriangle> = Vec::new();
        let mut i: usize = 0;
        assert(all.take(0) =~= Seq::<C0Edge>::empty());
        assert(Seq::<C0Edge>::empty().flat_map(triangles_of_edge(all)) =~= Seq::<C0EdgeTriangle>::empty());
        while i < edges.len()
            invariant
                edges@ == all,
                all == self.spec_edges(),
                vertices@ == spec_vertices(all),
                i <= all.len(),
                result@ == all.take(i as int).flat_map(triangles_of_edge(all)),
                forall|t: int| 0 <= t < result@.len() ==> closes(#[trigger] result@[t]),
            decreases all.len() - i,
        {
            let e = edges[i];
            let (a, b) = e.endpoints();
            let ghost base_i = result@;
            let mut j: usize = 0;
            assert(vertices@.take(0) =~= Seq::<usize>::empty());
            assert(Seq::<usize>::empty().flat_map(triangles_through(all, e)) =~= Seq::<C0EdgeTriangle>::empty());
            assert(base_i + Seq::<C0EdgeTriangle>::empty() =~= base_i);
            while j < vertices.len()
                invariant
                    edges@ == all,
                    all == self.spec_edges(),
                    vertices@ == spec_vertices(all),
                    i < all.len(),
                    e == all[i as int],
                    (a, b) == spec_endpoints(e),
                    j <= vertices@.len(),
                    result@ == base_i + vertices@.take(j as int).flat_map(triangles_through(all, e)),
                    forall|t: int| 0 <= t < result@.len() ==> closes(#[trigger] result@[t]),
                decreases vertices@.len() - j,
            {
                let v = vertices[j];
                let ghost base_ij = result@;
                proof {
                    vertices@.lemma_flat_map_take_append(triangles_through(all, e), j as int);
                }
                if a < v && b < v {
                    let first = self.oriented_edges(b, v);
                    let second = self.oriented_edges(v, a);
                    let mut k: usize = 0;
                    assert(first@.take(0) =~= Seq::<C0Edge>::empty());
                    assert(Seq::<C0Edge>::empty().flat_map(pair_triangles(e, second@)) =~= Seq::<C0EdgeTriangle>::empty());
                    assert(base_ij + Seq::<C0EdgeTriangle>::empty() =~= base_ij);
                    while k < first.len()
                        invariant
                            a < v && b < v,
                            (a, b) == spec_endpoints(e),
                            forall|x: int| 0 <= x < first@.len() ==> spec_endpoints(#[trigger] first@[x]) == (b, v),
                            forall|x: int| 0 <= x < second@.len() ==> spec_endpoints(#[trigger] second@[x]) == (v, a),
                            k <= first@.len(),
                            result@ == base_ij + first@.take(k as int).flat_map(pair_triangles(e, second@)),
                            forall|t: int| 0 <= t < result@.len() ==> closes(#[trigger] result@[t]),
                        decreases first@.len() - k,
                    {
                        let e1 = first[k];
                        let ghost base_ijk = result@;
                        proof {
                            first@.lemma_flat_map_take_append(pair_triangles(e, second@), k as int);
                        }
                        let mut l: usize = 0;
                        assert(second@.take(0) =~= Seq::<C0Edge>::empty());
                        assert(Seq::<C0Edge>::empty().map_values(make_triangle(e, e1)) =~= Seq::<C0EdgeTriangle>::empty());
                        assert(base_ijk + Seq::<C0EdgeTriangle>::empty() =~= base_ijk);
                        while l < second.len()
                            invariant
                                a < v && b < v,
                                (a, b) == spec_endpoints(e),
                                spec_endpoints(e1) == (b, v),
                                forall|x: int| 0 <= x < second@.len() ==> spec_endpoints(#[trigger] second@[x]) == (v, a),
                                l <= second@.len(),
                                result@ == base_ijk + second@.take(l as int).map_values(make_triangle(e, e1)),
                                forall|t: int| 0 <= t < result@.len() ==> closes(#[trigger] result@[t]),
                            decreases second@.len() - l,
                        {
                            let e2 = second[l];
                            proof {
                                second@.lemma_map_take_succ(make_triangle(e, e1), l as int);
                            }
                            let t = C0EdgeTriangle([e, e1, e2]);
                            assert(closes(t));
                            result.push(t);
                            l = l + 1;
                        }
                        assert(second@.take(l as int) =~= second@);
                        k = k + 1;
                    }
                    assert(first@.take(k as int) =~= first@);
                } else {
                    assert(triangles_at(all, e, v) =~= Seq::<C0EdgeTriangle>::empty());
                }
                j = j + 1;
            }
            assert(vertices@.take(j as int) =~= vertices@);
            proof {
                all.lemma_flat_map_take_append(triangles_of_edge(all), i as int);
            }
            i = i + 1;
        }
        assert(all.take(i as int) =~= all);
        result
    }
}


/// The border edges of the surfaces, surface by surface.
pub open spec fn surfaces_edges(surfaces: Seq<SurfaceC0Grid>) -> Seq<C0Edge> {
    surfaces.flat_map(|s: SurfaceC0Grid| s.spec_patch_edges())
}

impl C0EdgeGraph {
    /// The graph of the border edges of the selected C0 surfaces.
    pub fn new(surfaces: &Vec<SurfaceC0Grid>) -> (g: C0EdgeGraph)
        requires
            forall|i: int| 0 <= i < surfaces@.len() ==> (#[trigger] surfaces@[i]).wf(),
        ensures
            g.wf(),
            forall|e: C0Edge|
                g.spec_edges().contains(e) <==> has_unique_key(
                    candidate_edges(surfaces_edges(surfaces@)),
                    e,
                ),
    {
        let mut edges: Vec<C0Edge> = Vec::new();
        let mut i: usize = 0;
        assert(surfaces@.take(0) =~= Seq::<SurfaceC0Grid>::empty());
        assert(surfaces_edges(Seq::<SurfaceC0Grid>::empty()) =~= Seq::<C0Edge>::empty());
        while i < surfaces.len()
            invariant
                i <= surfaces@.len(),
                forall|i: int| 0 <= i < surfaces@.len() ==> (#[trigger] surfaces@[i]).wf(),
                edges@ == surfaces_edges(surfaces@.take(i as int)),
            decreases surfaces@.len() - i,
        {
            let mut surface_edges = surfaces[i].patch_edges();
            proof {
                surfaces@.lemma_flat_map_take_append(|s: SurfaceC0Grid| s.spec_patch_edges(), i as int);
            }
            edges.append(&mut surface_edges);
            i = i + 1;
        }
        assert(surfaces@.take(i as int) =~= surfaces@);
        Self::from_edges(edges)
    }
}


/// The edges between two distinct vertices read one way are those read the
/// other way, each reversed.
pub proof fn lemma_oriented_edges_reverse(edges: Seq<C0Edge>, v0: usize, v1: usize)
    requires
        v0 != v1,
    ensures
        spec_oriented_edges(edges, v1, v0) == spec_oriented_edges(edges, v0, v1).map_values(
            |e: C0Edge| spec_reverse(e),
        ),
    decreases edges.len(),
{
    let f = |e: C0Edge| spec_reverse(e);
    if edges.len() > 0 {
        let rest = edges.drop_last();
        lemma_oriented_edges_reverse(rest, v0, v1);
        let e = edges.last();
        lemma_reverse_involution(e);
        let a = spec_oriented_edges(rest, v0, v1);
        if spec_endpoints(e) == (v0, v1) {
            assert((a + seq![e]).map_values(f) =~= a.map_values(f) + seq![spec_reverse(e)]);
        } else if spec_endpoints(e) == (v1, v0) {
            assert((a + seq![spec_reverse(e)]).map_values(f) =~= a.map_values(f) + seq![e]);
        }
    } else {
        assert(spec_oriented_edges(edges, v0, v1).map_values(f) =~= Seq::<C0Edge>::empty());
    }
}

/// A vertex is listed exactly when it is an endpoint of an edge.
pub proof fn lemma_vertices_are_endpoints(edges: Seq<C0Edge>, v: usize)
    ensures
        spec_vertices(edges).contains(v) <==> exists|i: int|
            0 <= i < edges.len() && (spec_endpoints(#[trigger] edges[i]).0 == v || spec_endpoints(
                edges[i],
            ).1 == v),
    decreases edges.len(),
{
    let s = endpoint_seq(edges);
    s.lemma_remove_duplicates_properties(seq![]);
    assert(s + seq![] =~= s);
    lemma_endpoint_seq_contains(edges, v);
}

proof fn lemma_endpoint_seq_contains(edges: Seq<C0Edge>, v: usize)
    ensures
        endpoint_seq(edges).contains(v) <==> exists|i: int|
            0 <= i < edges.len() && (spec_endpoints(#[trigger] edges[i]).0 == v || spec_endpoints(
                edges[i],
            ).1 == v),
    decreases edges.len(),
{
    let f = |e: C0Edge| seq![spec_endpoints(e).0, spec_endpoints(e).1];
    if edges.len() == 0 {
        assert(endpoint_seq(edges) =~= Seq::<usize>::empty());
    } else {
        let k = edges.len() - 1;
        edges.lemma_flat_map_take_append(f, k);
        assert(edges.take(k + 1) =~= edges);
        assert(edges.take(k) =~= edges.drop_last());
        lemma_endpoint_seq_contains(edges.drop_last(), v);
        let prefix = endpoint_seq(edges.drop_last());
        assert(endpoint_seq(edges) == prefix + f(edges[k]));
        if endpoint_seq(edges).contains(v) {
            let j = choose|j: int| 0 <= j < endpoint_seq(edges).len() && endpoint_seq(edges)[j] == v;
            if j < prefix.len() {
                assert(prefix[j] == v);
                let i = choose|i: int|
                    0 <= i < edges.drop_last().len() && (spec_endpoints(
                        #[trigger] edges.drop_last()[i],
                    ).0 == v || spec_endpoints(edges.drop_last()[i]).1 == v);
                assert(edges[i] == edges.drop_last()[i]);
            } else {
                assert(spec_endpoints(edges[k]).0 == v || spec_endpoints(edges[k]).1 == v);
            }
        }
        if exists|i: int|
            0 <= i < edges.len() && (spec_endpoints(#[trigger] edges[i]).0 == v || spec_endpoints(
                edges[i],
            ).1 == v) {
            let i = choose|i: int|
                0 <= i < edges.len() && (spec_endpoints(#[trigger] edges[i]).0 == v
                    || spec_endpoints(edges[i]).1 == v);
            if i < k {
                assert(edges.drop_last()[i] == edges[i]);
                assert(prefix.contains(v));
                let j = choose|j: int| 0 <= j < prefix.len() && prefix[j] == v;
                assert(endpoint_seq(edges)[j] == v);
            } else {
                if spec_endpoints(edges[k]).0 == v {
                    assert(endpoint_seq(edges)[prefix.len() as int] == v);
                } else {
                    assert(endpoint_seq(edges)[prefix.len() as int + 1] == v);
                }
            }
        }
    }
}

/// An element of `f(s[i])` is in `s.flat_map(f)`.
proof fn lemma_flat_map_contains<A, B>(s: Seq<A>, f: spec_fn(A) -> Seq<B>, i: int, x: B)
    requires
        0 <= i < s.len(),
        f(s[i]).contains(x),
    ensures
        s.flat_map(f).contains(x),
    decreases s.len(),
{
    let init = s.drop_last();
    init.lemma_flat_map_push(f, s.last());
    assert(init.push(s.last()) =~= s);
    if i == s.len() - 1 {
        let k = choose|k: int| 0 <= k < f(s[i]).len() && #[trigger] f(s[i])[k] == x;
        assert(s.flat_map(f)[init.flat_map(f).len() + k] == x);
    } else {
        lemma_flat_map_contains(init, f, i, x);
        let k = choose|k: int| 0 <= k < init.flat_map(f).len() && #[trigger] init.flat_map(f)[k] == x;
        assert(s.flat_map(f)[k] == x);
    }
}

/// An element that `f` keeps from `s[i]` is in `s.filter_map(f)`.
pub(crate) proof fn lemma_filter_map_keeps<A, B>(s: Seq<A>, f: spec_fn(A) -> Option<B>, i: int, x: B)
    requires
        0 <= i < s.len(),
        f(s[i]) == Some(x),
    ensures
        s.filter_map(f).contains(x),
    decreases s.len(),
{
    let init = s.drop_last();
    if i == s.len() - 1 {
        assert(s.filter_map(f) == init.filter_map(f) + seq![x]);
        assert(s.filter_map(f)[init.filter_map(f).len() as int] == x);
    } else {
        assert(init[i] == s[i]);
        lemma_filter_map_keeps(init, f, i, x);
        let k = choose|k: int| 0 <= k < init.filter_map(f).len() && #[trigger] init.filter_map(f)[k] == x;
        match f(s.last()) {
            Some(y) => {
                assert(s.filter_map(f) == init.filter_map(f) + seq![y]);
                assert(s.filter_map(f)[k] == x);
            },
            None => {},
        }
    }
}

/// `read` is `edge` read from `from` to `to`: the edge itself when it runs
/// that way, else the edge reversed when it runs the other way.
pub open spec fn runs_between(edge: C0Edge, read: C0Edge, from: usize, to: usize) -> bool {
    ||| read == edge && spec_endpoints(edge) == (from, to)
    ||| read == spec_reverse(edge) && spec_endpoints(edge) == (to, from)
}

/// Every loop of three graph edges is found: for an edge `a -> b` of the
/// graph, a vertex `v` above both `a` and `b`, and graph edges read `b -> v`
/// and `v -> a`, the triangle of the three is among those found.
pub proof fn lemma_find_triangles_complete(
    edges: Seq<C0Edge>,
    i: int,
    v: usize,
    j: int,
    e1: C0Edge,
    k: int,
    e2: C0Edge,
)
    requires
        0 <= i < edges.len(),
        0 <= j < edges.len(),
        0 <= k < edges.len(),
        spec_endpoints(edges[i]).0 < v,
        spec_endpoints(edges[i]).1 < v,
        runs_between(edges[j], e1, spec_endpoints(edges[i]).1, v),
        runs_between(edges[k], e2, v, spec_endpoints(edges[i]).0),
    ensures
        spec_triangles(edges).contains(C0EdgeTriangle([edges[i], e1, e2])),
{
    let e = edges[i];
    let (a, b) = spec_endpoints(e);
    let t = C0EdgeTriangle([e, e1, e2]);
    let first = spec_oriented_edges(edges, b, v);
    let second = spec_oriented_edges(edges, v, a);
    assert(oriented(edges[j], b, v) == Some(e1));
    lemma_filter_map_keeps(edges, |x: C0Edge| oriented(x, b, v), j, e1);
    assert(oriented(edges[k], v, a) == Some(e2));
    lemma_filter_map_keeps(edges, |x: C0Edge| oriented(x, v, a), k, e2);
    let m = choose|m: int| 0 <= m < first.len() && #[trigger] first[m] == e1;
    let n = choose|n: int| 0 <= n < second.len() && #[trigger] second[n] == e2;
    assert(pair_triangles(e, second)(first[m])[n] == t);
    lemma_flat_map_contains(first, pair_triangles(e, second), m, t);
    assert(triangles_at(edges, e, v).contains(t));
    lemma_vertices_are_endpoints(edges, v);
    if spec_endpoints(edges[j]).1 == v {
        assert(spec_endpoints(edges[j]).0 == v || spec_endpoints(edges[j]).1 == v);
    }
    assert(spec_vertices(edges).contains(v));
    let w = choose|w: int| 0 <= w < spec_vertices(edges).len() && #[trigger] spec_vertices(edges)[w] == v;
    lemma_flat_map_contains(spec_vertices(edges), triangles_through(edges, e), w, t);
    assert(triangles_of_edge(edges)(edges[i]).contains(t));
    lemma_flat_map_contains(edges, triangles_of_edge(edges), i, t);
}

} // verus!
