use vstd::prelude::*;
use crate::graph::C0Edge;
use std::collections::HashMap;
use vstd::arithmetic::div_mod::lemma_fundamental_div_mod_converse;

verus! {

/// The control point ids of a C0 Bezier surface, `points[u][v]`: patches
/// share their border rows, so `3 * n + 1` rows give `n` patches; a cylinder
/// wraps in `u`, its last patch closing on row 0.
pub struct SurfaceC0Grid {
    pub points: Vec<Vec<usize>>,
    pub is_cylinder: bool,
}

/// The control point ids of a C2 (B-spline) surface, `points[u][v]`: each
/// patch takes 4 consecutive rows and columns; a cylinder wraps in `u`.
pub struct SurfaceC2Grid {
    pub points: Vec<Vec<usize>>,
    pub is_cylinder: bool,
}

/// `patch` turned a quarter: row `i` of the result is column `i` of
/// `patch`, read from its last row up.
pub open spec fn spec_rotate_patch(p: [[usize; 4]; 4]) -> [[usize; 4]; 4] {
    [
        [p[3][0], p[2][0], p[1][0], p[0][0]],
        [p[3][1], p[2][1], p[1][1], p[0][1]],
        [p[3][2], p[2][2], p[1][2], p[0][2]],
        [p[3][3], p[2][3], p[1][3], p[0][3]],
    ]
}

pub fn rotate_patch(patch: &[[usize; 4]; 4]) -> (r: [[usize; 4]; 4])
    ensures
        r == spec_rotate_patch(*patch),
{
    [
        [patch[3][0], patch[2][0], patch[1][0], patch[0][0]],
        [patch[3][1], patch[2][1], patch[1][1], patch[0][1]],
        [patch[3][2], patch[2][2], patch[1][2], patch[0][2]],
        [patch[3][3], patch[2][3], patch[1][3], patch[0][3]],
    ]
}

/// Four quarter turns give the patch back.
pub proof fn lemma_rotate_patch_four_times(p: [[usize; 4]; 4])
    ensures
        spec_rotate_patch(spec_rotate_patch(spec_rotate_patch(spec_rotate_patch(p)))) == p,
{
    let r = spec_rotate_patch(spec_rotate_patch(spec_rotate_patch(spec_rotate_patch(p))));
    assert(r[0] =~= p[0]);
    assert(r[1] =~= p[1]);
    assert(r[2] =~= p[2]);
    assert(r[3] =~= p[3]);
    assert(r =~= p);
}

proof fn lemma_index_bound(p: int, n: int)
    requires
        0 <= p,
        p < n / 3 || p < (n - 1) / 3,
        n >= 0,
    ensures
        p * 3 + 3 <= n,
        p < (n - 1) / 3 ==> p * 3 + 3 < n,
{
    assert(p < n / 3 ==> p * 3 + 3 <= n) by (nonlinear_arith)
        requires
            0 <= p,
            n >= 0,
    ;
    assert(p < (n - 1) / 3 ==> p * 3 + 3 < n) by (nonlinear_arith)
        requires
            0 <= p,
            n >= 0,
    ;
}

impl SurfaceC0Grid {
    pub open spec fn id(&self, u: int, v: int) -> usize {
        self.points@[u]@[v]
    }

    pub open spec fn spec_u_patches(&self) -> int {
        if self.is_cylinder {
            self.points@.len() as int / 3
        } else {
            (self.points@.len() - 1) / 3
        }
    }

    pub open spec fn spec_v_patches(&self) -> int {
        if self.points@.len() == 0 {
            0
        } else {
            (self.points@[0]@.len() - 1) / 3
        }
    }

    /// A rectangular grid with at least one patch each way.
    pub open spec fn wf(&self) -> bool {
        &&& self.points@.len() > 0
        &&& forall|u: int|
            0 <= u < self.points@.len() ==> (#[trigger] self.points@[u])@.len()
                == self.points@[0]@.len()
        &&& self.spec_u_patches() >= 1
        &&& self.spec_v_patches() >= 1
    }

    /// The 4x4 control points of patch `(patch_u, patch_v)`, by rows of `u`.
    pub open spec fn spec_patch(&self, patch_u: int, patch_v: int) -> [[usize; 4]; 4] {
        let u = patch_u * 3;
        let v = patch_v * 3;
        let last = if self.is_cylinder && patch_u == self.spec_u_patches() - 1 {
            0
        } else {
            u + 3
        };
        [
            [self.id(u, v), self.id(u, v + 1), self.id(u, v + 2), self.id(u, v + 3)],
            [self.id(u + 1, v), self.id(u + 1, v + 1), self.id(u + 1, v + 2), self.id(u + 1, v + 3)],
            [self.id(u + 2, v), self.id(u + 2, v + 1), self.id(u + 2, v + 2), self.id(u + 2, v + 3)],
            [self.id(last, v), self.id(last, v + 1), self.id(last, v + 2), self.id(last, v + 3)],
        ]
    }

    pub fn u_patches(&self) -> (r: usize)
        requires
            self.is_cylinder || self.points@.len() > 0,
        ensures
            r == self.spec_u_patches(),
    {
        if self.is_cylinder {
            self.points.len() / 3
        } else {
            (self.points.len() - 1) / 3
        }
    }

    pub fn v_patches(&self) -> (r: usize)
        requires
            self.points@.len() > 0 ==> self.points@[0]@.len() > 0,
        ensures
            r == self.spec_v_patches(),
    {
        if self.points.len() == 0 {
            0
        } else {
            (self.points[0].len() - 1) / 3
        }
    }

    pub fn patch(&self, patch_u: usize, patch_v: usize) -> (r: [[usize; 4]; 4])
        requires
            self.wf(),
            patch_u < self.spec_u_patches(),
            patch_v < self.spec_v_patches(),
        ensures
            r == self.spec_patch(patch_u as int, patch_v as int),
    {
        let rows = self.points.len();
        let columns = self.points[0].len();
        proof {
            let n = rows as int;
            let m = columns as int;
            lemma_index_bound(patch_u as int, n);
            lemma_index_bound(patch_v as int, m);
        }
        let u = patch_u * 3;
        let v = patch_v * 3;
        let last = if self.is_cylinder && patch_u == self.u_patches() - 1 {
            0
        } else {
            u + 3
        };
        assert(self.points@[u as int]@.len() == self.points@[0]@.len());
        assert(self.points@[u + 1]@.len() == self.points@[0]@.len());
        assert(self.points@[u + 2]@.len() == self.points@[0]@.len());
        assert(self.points@[last as int]@.len() == self.points@[0]@.len());
        [
            [self.points[u][v], self.points[u][v + 1], self.points[u][v + 2], self.points[u][v + 3]],
            [
                self.points[u + 1][v],
                self.points[u + 1][v + 1],
                self.points[u + 1][v + 2],
                self.points[u + 1][v + 3],
            ],
            [
                self.points[u + 2][v],
                self.points[u + 2][v + 1],
                self.points[u + 2][v + 2],
                self.points[u + 2][v + 3],
            ],
            [
                self.points[last][v],
                self.points[last][v + 1],
                self.points[last][v + 2],
                self.points[last][v + 3],
            ],
        ]
    }
}


pub open spec fn rotations(p: [[usize; 4]; 4], n: nat) -> [[usize; 4]; 4]
    decreases n,
{
    if n == 0 {
        p
    } else {
        spec_rotate_patch(rotations(p, (n - 1) as nat))
    }
}

impl SurfaceC0Grid {
    /// The four borders of the surface as edges, each a patch turned so that
    /// the border is its first row: the `u = 0` side (not for a cylinder),
    /// the last `v` side, the last `u` side (not for a cylinder), the `v = 0` side.
    pub open spec fn spec_patch_edges(&self) -> Seq<C0Edge> {
        let up = self.spec_u_patches();
        let vp = self.spec_v_patches();
        let left = if self.is_cylinder {
            Seq::<C0Edge>::empty()
        } else {
            Seq::new(vp as nat, |v: int| C0Edge { points: self.spec_patch(0, v) })
        };
        let top = Seq::new(
            up as nat,
            |u: int| C0Edge { points: rotations(self.spec_patch(u, vp - 1), 3) },
        );
        let right = if self.is_cylinder {
            Seq::<C0Edge>::empty()
        } else {
            Seq::new(vp as nat, |v: int| C0Edge { points: rotations(self.spec_patch(up - 1, v), 2) })
        };
        let bottom = Seq::new(up as nat, |u: int| C0Edge { points: rotations(self.spec_patch(u, 0), 1) });
        left + top + right + bottom
    }

    pub fn patch_edges(&self) -> (r: Vec<C0Edge>)
        requires
            self.wf(),
        ensures
            r@ == self.spec_patch_edges(),
    {
        let u_patches = self.u_patches();
        let v_patches = self.v_patches();
        let mut edges: Vec<C0Edge> = Vec::new();
        let ghost up = u_patches as int;
        let ghost vp = v_patches as int;
        let ghost left = if self.is_cylinder {
            Seq::<C0Edge>::empty()
        } else {
            Seq::new(vp as nat, |v: int| C0Edge { points: self.spec_patch(0, v) })
        };
        let ghost top = Seq::new(
            up as nat,
            |u: int| C0Edge { points: rotations(self.spec_patch(u, vp - 1), 3) },
        );
        let ghost right = if self.is_cylinder {
            Seq::<C0Edge>::empty()
        } else {
            Seq::new(vp as nat, |v: int| C0Edge { points: rotations(self.spec_patch(up - 1, v), 2) })
        };
        let ghost bottom = Seq::new(up as nat, |u: int| C0Edge { points: rotations(self.spec_patch(u, 0), 1) });
        if !self.is_cylinder {
            let mut v: usize = 0;
            while v < v_patches
                invariant
                    self.wf(),
                    !self.is_cylinder,
                    u_patches == self.spec_u_patches(),
                    v_patches == self.spec_v_patches(),
                    v <= v_patches,
                    edges@ == left.take(v as int),
                    left == Seq::new(vp as nat, |v: int| C0Edge { points: self.spec_patch(0, v) }),
                    vp == v_patches,
                decreases v_patches - v,
            {
                edges.push(C0Edge::new(self.patch(0, v)));
                assert(edges@ =~= left.take(v + 1));
                v = v + 1;
            }
        }
        assert(edges@ =~= left);
        let mut u: usize = 0;
        while u < u_patches
            invariant
                self.wf(),
                u_patches == self.spec_u_patches(),
                v_patches == self.spec_v_patches(),
                up == u_patches,
                vp == v_patches,
                u <= u_patches,
                edges@ == left + top.take(u as int),
                top == Seq::new(
                    up as nat,
                    |u: int| C0Edge { points: rotations(self.spec_patch(u, vp - 1), 3) },
                ),
            decreases u_patches - u,
        {
            let p = self.patch(u, v_patches - 1);
            let patch = rotate_patch(&rotate_patch(&rotate_patch(&p)));
            proof {
                reveal_with_fuel(rotations, 4);
            }
            edges.push(C0Edge::new(patch));
            assert(edges@ =~= left + top.take(u + 1));
            u = u + 1;
        }
        assert(top.take(u as int) =~= top);
        if !self.is_cylinder {
            let mut v: usize = 0;
            while v < v_patches
                invariant
                    self.wf(),
                    !self.is_cylinder,
                    u_patches == self.spec_u_patches(),
                    v_patches == self.spec_v_patches(),
                    up == u_patches,
                    vp == v_patches,
                    v <= v_patches,
                    edges@ == left + top + right.take(v as int),
                    right == Seq::new(vp as nat, |v: int| C0Edge { points: rotations(self.spec_patch(up - 1, v), 2) }),
                decreases v_patches - v,
            {
                let p = self.patch(u_patches - 1, v);
                let patch = rotate_patch(&rotate_patch(&p));
                proof {
                    reveal_with_fuel(rotations, 3);
                }
                edges.push(C0Edge::new(patch));
                assert(edges@ =~= left + top + right.take(v + 1));
                v = v + 1;
            }
            assert(right.take(v as int) =~= right);
        }
        assert(edges@ =~= left + top + right);
        let mut u: usize = 0;
        while u < u_patches
            invariant
                self.wf(),
                u_patches == self.spec_u_patches(),
                v_patches == self.spec_v_patches(),
                up == u_patches,
                u <= u_patches,
                edges@ == left + top + right + bottom.take(u as int),
                bottom == Seq::new(up as nat, |u: int| C0Edge { points: rotations(self.spec_patch(u, 0), 1) }),
            decreases u_patches - u,
        {
            let p = self.patch(u, 0);
            let patch = rotate_patch(&p);
            proof {
                reveal_with_fuel(rotations, 2);
            }
            edges.push(C0Edge::new(patch));
            assert(edges@ =~= left + top + right + bottom.take(u + 1));
            u = u + 1;
        }
        assert(bottom.take(u as int) =~= bottom);
        edges
    }

    /// The 16 control point ids of patch `(patch_u, patch_v)`, row by row in
    /// `v`; rows of `u` wrap around.
    pub open spec fn spec_patch_control_points(&self, patch_u: int, patch_v: int) -> Seq<usize> {
        Seq::new(
            16,
            |k: int| self.id((patch_u * 3 + k % 4) % (self.points@.len() as int), patch_v * 3 + k / 4),
        )
    }

    pub fn patch_control_points(&self, patch_u: usize, patch_v: usize) -> (r: Vec<usize>)
        requires
            self.wf(),
            patch_u * 3 + 3 <= usize::MAX,
            patch_v < self.spec_v_patches(),
        ensures
            r@ == self.spec_patch_control_points(patch_u as int, patch_v as int),
    {
        let rows = self.points.len();
        let columns = self.points[0].len();
        proof {
            lemma_index_bound(patch_v as int, columns as int);
        }
        let ghost target = self.spec_patch_control_points(patch_u as int, patch_v as int);
        let mut points: Vec<usize> = Vec::new();
        let mut v: usize = 0;
        while v < 4
            invariant
                self.wf(),
                rows == self.points@.len(),
                columns == self.points@[0]@.len(),
                patch_u * 3 + 3 <= usize::MAX,
                patch_v * 3 + 3 < columns,
                target == self.spec_patch_control_points(patch_u as int, patch_v as int),
                v <= 4,
                points@ == target.take(v * 4),
            decreases 4 - v,
        {
            let mut u: usize = 0;
            while u < 4
                invariant
                    self.wf(),
                    rows == self.points@.len(),
                    columns == self.points@[0]@.len(),
                    patch_u * 3 + 3 <= usize::MAX,
                    patch_v * 3 + 3 < columns,
                    target == self.spec_patch_control_points(patch_u as int, patch_v as int),
                    v < 4,
                    u <= 4,
                    points@ == target.take(v * 4 + u),
                decreases 4 - u,
            {
                let row = (patch_u * 3 + u) % rows;
                assert(self.points@[row as int]@.len() == columns);
                let ghost k = v * 4 + u;
                assert(k % 4 == u && k / 4 == v);
                points.push(self.points[row][patch_v * 3 + v]);
                assert(points@ =~= target.take(v * 4 + u + 1));
                u = u + 1;
            }
            v = v + 1;
        }
        assert(points@ =~= target);
        points
    }
}


/// The ids of a grid, row by row.
pub open spec fn grid_view(points: Seq<Vec<usize>>) -> Seq<Seq<usize>> {
    points.map_values(|row: Vec<usize>| row@)
}

pub(crate) fn copy_row(row: &Vec<usize>) -> (r: Vec<usize>)
    ensures
        r@ == row@,
{
    let mut r: Vec<usize> = Vec::new();
    let mut i: usize = 0;
    while i < row.len()
        invariant
            i <= row.len(),
            r@ == row@.take(i as int),
        decreases row.len() - i,
    {
        r.push(row[i]);
        assert(r@ =~= row@.take(i + 1));
        i = i + 1;
    }
    assert(row@.take(i as int) =~= row@);
    r
}

impl SurfaceC2Grid {
    pub open spec fn id(&self, u: int, v: int) -> usize {
        self.points@[u]@[v]
    }

    pub open spec fn spec_u_patches(&self) -> int {
        if self.is_cylinder {
            self.points@.len() as int
        } else {
            self.points@.len() - 3
        }
    }

    pub open spec fn spec_v_patches(&self) -> int {
        if self.points@.len() == 0 {
            0
        } else {
            self.points@[0]@.len() - 3
        }
    }

    /// A rectangular grid with at least one patch each way.
    pub open spec fn wf(&self) -> bool {
        &&& self.points@.len() >= 3
        &&& forall|u: int|
            0 <= u < self.points@.len() ==> (#[trigger] self.points@[u])@.len()
                == self.points@[0]@.len()
        &&& self.spec_u_patches() >= 1
        &&& self.spec_v_patches() >= 1
    }

    /// The rows with, for a cylinder, its first three rows repeated at the
    /// end so that every patch has four consecutive rows.
    pub open spec fn spec_wrapped_points(&self) -> Seq<Seq<usize>> {
        let g = grid_view(self.points@);
        if self.is_cylinder {
            g + seq![g[0], g[1], g[2]]
        } else {
            g
        }
    }

    pub fn wrapped_points(&self) -> (r: Vec<Vec<usize>>)
        requires
            self.is_cylinder ==> self.points@.len() >= 3,
        ensures
            grid_view(r@) == self.spec_wrapped_points(),
    {
        let mut points: Vec<Vec<usize>> = Vec::new();
        let mut i: usize = 0;
        while i < self.points.len()
            invariant
                i <= self.points@.len(),
                points@.len() == i,
                grid_view(points@) == grid_view(self.points@).take(i as int),
            decreases self.points@.len() - i,
        {
            let row = copy_row(&self.points[i]);
            let ghost old = points@;
            points.push(row);
            assert forall|k: int| 0 <= k < i + 1 implies grid_view(points@)[k] == grid_view(
                self.points@,
            ).take(i + 1)[k] by {
                if k < i {
                    assert(points@[k] == old[k]);
                    assert(grid_view(old)[k] == grid_view(self.points@).take(i as int)[k]);
                }
            }
            assert(grid_view(points@) =~= grid_view(self.points@).take(i + 1));
            i = i + 1;
        }
        assert(grid_view(points@) =~= grid_view(self.points@));
        if self.is_cylinder {
            let ghost g = grid_view(self.points@);
            points.push(copy_row(&self.points[0]));
            points.push(copy_row(&self.points[1]));
            points.push(copy_row(&self.points[2]));
            assert(grid_view(points@) =~= g + seq![g[0], g[1], g[2]]);
        }
        points
    }

    pub fn u_patches(&self) -> (r: usize)
        requires
            self.is_cylinder || self.points@.len() >= 3,
        ensures
            r == self.spec_u_patches(),
    {
        if self.is_cylinder {
            self.points.len()
        } else {
            self.points.len() - 3
        }
    }

    pub fn v_patches(&self) -> (r: usize)
        requires
            self.points@.len() > 0 ==> self.points@[0]@.len() >= 3,
        ensures
            r == self.spec_v_patches(),
    {
        if self.points.len() == 0 {
            0
        } else {
            self.points[0].len() - 3
        }
    }

    /// The 16 control point ids of patch `(patch_u, patch_v)`, row by row in
    /// `v`; rows of `u` wrap around.
    pub open spec fn spec_patch_control_points(&self, patch_u: int, patch_v: int) -> Seq<usize> {
        Seq::new(
            16,
            |k: int| self.id((patch_u + k % 4) % (self.points@.len() as int), patch_v + k / 4),
        )
    }

    pub fn patch_control_points(&self, patch_u: usize, patch_v: usize) -> (r: Vec<usize>)
        requires
            self.wf(),
            patch_u + 3 <= usize::MAX,
            patch_v < self.spec_v_patches(),
        ensures
            r@ == self.spec_patch_control_points(patch_u as int, patch_v as int),
    {
        let rows = self.points.len();
        let columns = self.points[0].len();
        let ghost target = self.spec_patch_control_points(patch_u as int, patch_v as int);
        let mut points: Vec<usize> = Vec::new();
        let mut v: usize = 0;
        while v < 4
            invariant
                self.wf(),
                rows == self.points@.len(),
                columns == self.points@[0]@.len(),
                patch_u + 3 <= usize::MAX,
                patch_v + 3 < columns,
                target == self.spec_patch_control_points(patch_u as int, patch_v as int),
                v <= 4,
                points@ == target.take(v * 4),
            decreases 4 - v,
        {
            let mut u: usize = 0;
            while u < 4
                invariant
                    self.wf(),
                    rows == self.points@.len(),
                    columns == self.points@[0]@.len(),
                    patch_u + 3 <= usize::MAX,
                    patch_v + 3 < columns,
                    target == self.spec_patch_control_points(patch_u as int, patch_v as int),
                    v < 4,
                    u <= 4,
                    points@ == target.take(v * 4 + u),
                decreases 4 - u,
            {
                let row = (patch_u + u) % rows;
                assert(self.points@[row as int]@.len() == columns);
                let ghost k = v * 4 + u;
                assert(k % 4 == u && k / 4 == v);
                points.push(self.points[row][patch_v + v]);
                assert(points@ =~= target.take(v * 4 + u + 1));
                u = u + 1;
            }
            v = v + 1;
        }
        assert(points@ =~= target);
        points
    }
}


/// Neighbouring patches of a C2 surface agree on the control points they
/// share: point `(du, dv)` of patch `(pu, pv)` and point `(eu, ev)` of patch
/// `(qu, qv)` are one id when they stand for the same grid point.
pub proof fn lemma_c2_patches_share_points(
    g: SurfaceC2Grid,
    pu: int,
    pv: int,
    du: int,
    dv: int,
    qu: int,
    qv: int,
    eu: int,
    ev: int,
)
    requires
        g.wf(),
        0 <= pu,
        0 <= pv,
        0 <= qu,
        0 <= qv,
        0 <= du < 4,
        0 <= dv < 4,
        0 <= eu < 4,
        0 <= ev < 4,
        pu + du == qu + eu,
        pv + dv == qv + ev,
    ensures
        g.spec_patch_control_points(pu, pv)[dv * 4 + du] == g.spec_patch_control_points(
            qu,
            qv,
        )[ev * 4 + eu],
{
    lemma_fundamental_div_mod_converse(dv * 4 + du, 4, dv, du);
    lemma_fundamental_div_mod_converse(ev * 4 + eu, 4, ev, eu);
}

/// The row of the grid that closes patch row `u`: the next patch's first
/// row, or row 0 where a cylinder's last patch wraps around.
pub open spec fn closing_row(g: SurfaceC0Grid, u: int) -> int {
    if g.is_cylinder && u == g.spec_u_patches() - 1 {
        0
    } else {
        3 * u + 3
    }
}

/// The border edges of a C0 surface lie on the grid's outer rows and
/// columns, one edge per patch along each side: the `u = 0` row and the
/// last row `3 * u_patches` (both only when the surface is not a cylinder),
/// the last column `3 * v_patches`, and column 0, each edge running along
/// its patch's stretch of that border.
pub proof fn lemma_patch_edges_on_border(g: SurfaceC0Grid)
    requires
        g.wf(),
    ensures
        ({
            let up = g.spec_u_patches();
            let vp = g.spec_v_patches();
            let sides = if g.is_cylinder {
                0int
            } else {
                vp
            };
            let e = g.spec_patch_edges();
            &&& e.len() == 2 * up + 2 * sides
            &&& forall|v: int, k: int|
                0 <= v < sides && 0 <= k < 4 ==> #[trigger] e[v].points[0][k] == g.id(0, 3 * v + k)
            &&& forall|u: int, k: int|
                0 <= u < up && 0 <= k < 4 ==> #[trigger] e[sides + u].points[0][k] == g.id(
                    if k == 3 {
                        closing_row(g, u)
                    } else {
                        3 * u + k
                    },
                    3 * vp,
                )
            &&& forall|v: int, k: int|
                0 <= v < sides && 0 <= k < 4 ==> #[trigger] e[sides + up + v].points[0][k] == g.id(
                    3 * up,
                    3 * v + 3 - k,
                )
            &&& forall|u: int, k: int|
                0 <= u < up && 0 <= k < 4 ==> #[trigger] e[2 * sides + up + u].points[0][k]
                    == g.id(
                    if k == 0 {
                        closing_row(g, u)
                    } else {
                        3 * u + 3 - k
                    },
                    0,
                )
        }),
{
    reveal_with_fuel(rotations, 4);
}

/// `id` after renumbering: its new id if it has one.
pub open spec fn renumbered(changes: Map<usize, usize>, id: usize) -> usize {
    if changes.contains_key(id) {
        changes[id]
    } else {
        id
    }
}

/// The grid with every id renumbered.
pub open spec fn renumbered_grid(grid: Seq<Seq<usize>>, changes: Map<usize, usize>) -> Seq<Seq<usize>> {
    grid.map_values(|row: Seq<usize>| row.map_values(|id: usize| renumbered(changes, id)))
}

/// Renumbering changes each id of the grid once: an id that `changes` has a
/// new number for takes that number, every other id stays, and the grid
/// keeps its shape.
pub proof fn lemma_renumbering_applies_changes_once(
    grid: Seq<Seq<usize>>,
    changes: Map<usize, usize>,
)
    ensures
        renumbered_grid(grid, changes).len() == grid.len(),
        forall|u: int|
            0 <= u < grid.len() ==> (#[trigger] renumbered_grid(grid, changes)[u]).len()
                == grid[u].len(),
        forall|u: int, v: int|
            0 <= u < grid.len() && 0 <= v < grid[u].len() ==> #[trigger] renumbered_grid(
                grid,
                changes,
            )[u][v] == (if changes.contains_key(grid[u][v]) {
                changes[grid[u][v]]
            } else {
                grid[u][v]
            }),
{
}

/// Gives the ids of a grid their new numbers, where they have one.
pub fn reindex_grid(points: &mut Vec<Vec<usize>>, changes: &HashMap<usize, usize>)
    ensures
        grid_view(final(points)@) == renumbered_grid(grid_view(old(points)@), changes@),
{
    broadcast use vstd::std_specs::hash::group_hash_axioms;

    let ghost start = grid_view(points@);
    let ghost target = renumbered_grid(start, changes@);
    let mut u: usize = 0;
    while u < points.len()
        invariant
            u <= points@.len(),
            points@.len() == start.len(),
            start == grid_view(old(points)@),
            target == renumbered_grid(start, changes@),
            forall|k: int| 0 <= k < u ==> (#[trigger] points@[k])@ == target[k],
            forall|k: int| u <= k < points@.len() ==> (#[trigger] points@[k])@ == start[k],
        decreases points@.len() - u,
    {
        let mut row: Vec<usize> = Vec::new();
        let ghost original = points@[u as int]@;
        let mut v: usize = 0;
        while v < points[u].len()
            invariant
                u < points@.len(),
                original == points@[u as int]@,
                v <= original.len(),
                row@.len() == v,
                forall|k: int| 0 <= k < v ==> row@[k] == renumbered(changes@, original[k]),
            decreases original.len() - v,
        {
            let id = points[u][v];
            let new_id = match changes.get(&id) {
                Some(new_id) => *new_id,
                None => id,
            };
            row.push(new_id);
            v = v + 1;
        }
        assert(row@ =~= target[u as int]);
        let ghost before = points@;
        points.set(u, row);
        assert forall|k: int| 0 <= k < points@.len() && k != u implies points@[k] == before[k] by {}
        u = u + 1;
    }
    assert(grid_view(points@) =~= target);
}


impl SurfaceC0Grid {
    /// Point ids renumbered (after points were merged or the scene reloaded).
    pub fn notify_about_reindexing(&mut self, changes: &HashMap<usize, usize>)
        ensures
            grid_view(final(self).points@) == renumbered_grid(grid_view(old(self).points@), changes@),
            final(self).is_cylinder == old(self).is_cylinder,
    {
        reindex_grid(&mut self.points, changes);
    }
}


impl SurfaceC2Grid {
    /// Point ids renumbered (after points were merged or the scene reloaded).
    pub fn notify_about_reindexing(&mut self, changes: &HashMap<usize, usize>)
        ensures
            grid_view(final(self).points@) == renumbered_grid(grid_view(old(self).points@), changes@),
            final(self).is_cylinder == old(self).is_cylinder,
    {
        reindex_grid(&mut self.points, changes);
    }
}

} // verus!
