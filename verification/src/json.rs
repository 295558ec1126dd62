use vstd::prelude::*;
use crate::entities::surface_grid::{grid_view, SurfaceC0Grid, SurfaceC2Grid};
use vstd::arithmetic::div_mod::{lemma_fundamental_div_mod_converse, lemma_small_mod};

verus! {

/// A pair of counts (`{"x": .., "y": ..}` in a scene file).
#[derive(Clone, Copy, Debug, PartialEq, Eq, Structural)]
pub struct Xy {
    pub x: usize,
    pub y: usize,
}

/// A reference to a point by its id.
#[derive(Clone, Copy, Debug, PartialEq, Eq, Structural)]
pub struct PointRef {
    pub id: usize,
}

/// Whether a surface closes on itself in `u` and in `v`.
#[derive(Clone, Copy, Debug, PartialEq, Eq, Structural)]
pub struct ParameterWrapped {
    pub u: bool,
    pub v: bool,
}

/// One patch of a surface in a scene file: its 16 control points, row by
/// row in `v`, and its sampling.
#[derive(Clone, Debug)]
pub struct JPatch {
    pub object_type: String,
    pub name: Option<String>,
    pub id: usize,
    pub control_points: [PointRef; 16],
    pub samples: Xy,
}

/// A C0 Bezier surface in a scene file: `size.x * size.y` patches, patch
/// `(u, v)` at index `v * size.x + u`.
#[derive(Clone, Debug)]
pub struct JBezierSurfaceC0 {
    pub object_type: String,
    pub name: Option<String>,
    pub id: usize,
    pub patches: Vec<JPatch>,
    pub parameter_wrapped: ParameterWrapped,
    pub size: Xy,
}

/// A C2 surface in a scene file, laid out as `JBezierSurfaceC0`.
#[derive(Clone, Debug)]
pub struct JBezierSurfaceC2 {
    pub object_type: String,
    pub name: Option<String>,
    pub id: usize,
    pub patches: Vec<JPatch>,
    pub parameter_wrapped: ParameterWrapped,
    pub size: Xy,
}

pub open spec fn min(a: int, b: int) -> int {
    if a < b {
        a
    } else {
        b
    }
}

proof fn lemma_patch_index(up: int, vp: int, x: int, y: int)
    requires
        0 <= up < x,
        0 <= vp < y,
    ensures
        vp * x + up < x * y,
        0 <= vp * x,
{
    assert(vp * x + up < x * y) by (nonlinear_arith)
        requires
            0 <= up < x,
            0 <= vp < y,
    ;
    assert(0 <= vp * x) by (nonlinear_arith)
        requires
            0 <= vp,
            0 <= x,
    ;
}

impl JBezierSurfaceC0 {
    /// Point `(u, v)` of the grid: patches share their border points, and
    /// where they do the patch with the larger `u`, then the larger `v`, gives
    /// the id; a grid with no patches is all zeros.
    pub open spec fn point_at(&self, u: int, v: int) -> usize {
        let x = self.size.x as int;
        let y = self.size.y as int;
        if x == 0 || y == 0 {
            0
        } else {
            let up = min(u / 3, x - 1);
            let vp = min(v / 3, y - 1);
            self.patches@[vp * x + up].control_points[(v - 3 * vp) * 4 + (u - 3 * up)].id
        }
    }

    /// The grid of `3 * size.x + 1` by `3 * size.y + 1` point ids, without
    /// its last row when the surface wraps in `u`.
    pub open spec fn spec_control_points(&self) -> Seq<Seq<usize>> {
        let rows = 3 * self.size.x + 1 - if self.parameter_wrapped.u {
            1int
        } else {
            0int
        };
        Seq::new(
            rows as nat,
            |u: int| Seq::new((3 * self.size.y + 1) as nat, |v: int| self.point_at(u, v)),
        )
    }

    pub fn control_points(&self) -> (r: Vec<Vec<usize>>)
        requires
            3 * self.size.x + 1 <= usize::MAX,
            3 * self.size.y + 1 <= usize::MAX,
            self.patches@.len() >= self.size.x * self.size.y,
        ensures
            grid_view(r@) == self.spec_control_points(),
    {
        let x = self.size.x;
        let y = self.size.y;
        let u_points = x * 3 + 1 - if self.parameter_wrapped.u {
            1
        } else {
            0
        };
        let v_points = y * 3 + 1;
        let ghost target = self.spec_control_points();
        let mut points: Vec<Vec<usize>> = Vec::new();
        let mut u: usize = 0;
        while u < u_points
            invariant
                x == self.size.x,
                y == self.size.y,
                3 * x + 1 <= usize::MAX,
                3 * y + 1 <= usize::MAX,
                self.patches@.len() >= x * y,
                target == self.spec_control_points(),
                u_points == target.len(),
                v_points == 3 * y + 1,
                u <= u_points,
                points@.len() == u,
                grid_view(points@) == target.take(u as int),
            decreases u_points - u,
        {
            let mut row: Vec<usize> = Vec::new();
            let mut v: usize = 0;
            while v < v_points
                invariant
                    x == self.size.x,
                    y == self.size.y,
                    3 * x + 1 <= usize::MAX,
                    3 * y + 1 <= usize::MAX,
                    self.patches@.len() >= x * y,
                    target == self.spec_control_points(),
                    u < u_points,
                    u_points == target.len(),
                    v_points == 3 * y + 1,
                    v <= v_points,
                    row@ == target[u as int].take(v as int),
                decreases v_points - v,
            {
                let id = if x == 0 || y == 0 {
                    0
                } else {
                    let up = if u / 3 < x - 1 {
                        u / 3
                    } else {
                        x - 1
                    };
                    let vp = if v / 3 < y - 1 {
                        v / 3
                    } else {
                        y - 1
                    };
                    let count = self.patches.len();
                    proof {
                        lemma_patch_index(up as int, vp as int, x as int, y as int);
                        assert(3 * vp <= v && v - 3 * vp <= 3);
                        assert(3 * up <= u && u - 3 * up <= 3);
                    }
                    self.patches[vp * x + up].control_points[(v - 3 * vp) * 4 + (u - 3 * up)].id
                };
                row.push(id);
                assert(row@ =~= target[u as int].take(v + 1));
                v = v + 1;
            }
            assert(row@ =~= target[u as int]);
            let ghost old = points@;
            points.push(row);
            assert forall|k: int| 0 <= k < u + 1 implies grid_view(points@)[k] == target.take(
                u + 1,
            )[k] by {
                if k < u {
                    assert(points@[k] == old[k]);
                    assert(grid_view(old)[k] == target.take(u as int)[k]);
                }
            }
            assert(grid_view(points@) =~= target.take(u + 1));
            u = u + 1;
        }
        assert(target.take(u as int) =~= target);
        points
    }

    /// The sampling of the first patch.
    pub fn sampling(&self) -> (r: Xy)
        requires
            self.patches@.len() > 0,
        ensures
            r == self.patches@[0].samples,
    {
        self.patches[0].samples
    }
}

impl JBezierSurfaceC2 {
    /// Point `(u, v)` of the grid: patch `(pu, pv)` covers points `pu..pu+4`
    /// by `pv..pv+4`; where patches overlap the one with the larger `u`, then
    /// the larger `v`, gives the id; a grid with no patches is all zeros.
    pub open spec fn point_at(&self, u: int, v: int) -> usize {
        let x = self.size.x as int;
        let y = self.size.y as int;
        if x == 0 || y == 0 {
            0
        } else {
            let up = min(u, x - 1);
            let vp = min(v, y - 1);
            self.patches@[vp * x + up].control_points[(v - vp) * 4 + (u - up)].id
        }
    }

    /// The grid of `size.x + 3` by `size.y + 3` point ids, without its last
    /// three rows when the surface wraps in `u`.
    pub open spec fn spec_control_points(&self) -> Seq<Seq<usize>> {
        let rows = self.size.x + 3 - if self.parameter_wrapped.u {
            3int
        } else {
            0int
        };
        Seq::new(
            rows as nat,
            |u: int| Seq::new((self.size.y + 3) as nat, |v: int| self.point_at(u, v)),
        )
    }

    pub fn control_points(&self) -> (r: Vec<Vec<usize>>)
        requires
            self.size.x + 3 <= usize::MAX,
            self.size.y + 3 <= usize::MAX,
            self.patches@.len() >= self.size.x * self.size.y,
        ensures
            grid_view(r@) == self.spec_control_points(),
    {
        let x = self.size.x;
        let y = self.size.y;
        let u_points = x + 3 - if self.parameter_wrapped.u {
            3
        } else {
            0
        };
        let v_points = y + 3;
        let ghost target = self.spec_control_points();
        let mut points: Vec<Vec<usize>> = Vec::new();
        let mut u: usize = 0;
        while u < u_points
            invariant
                x == self.size.x,
                y == self.size.y,
                x + 3 <= usize::MAX,
                y + 3 <= usize::MAX,
                self.patches@.len() >= x * y,
                target == self.spec_control_points(),
                u_points == target.len(),
                v_points == y + 3,
                u <= u_points,
                points@.len() == u,
                grid_view(points@) == target.take(u as int),
            decreases u_points - u,
        {
            let mut row: Vec<usize> = Vec::new();
            let mut v: usize = 0;
            while v < v_points
                invariant
                    x == self.size.x,
                    y == self.size.y,
                    x + 3 <= usize::MAX,
                    y + 3 <= usize::MAX,
                    self.patches@.len() >= x * y,
                    target == self.spec_control_points(),
                    u < u_points,
                    u_points == target.len(),
                    v_points == y + 3,
                    v <= v_points,
                    row@ == target[u as int].take(v as int),
                decreases v_points - v,
            {
                let id = if x == 0 || y == 0 {
                    0
                } else {
                    let up = if u < x - 1 {
                        u
                    } else {
                        x - 1
                    };
                    let vp = if v < y - 1 {
                        v
                    } else {
                        y - 1
                    };
                    let count = self.patches.len();
                    proof {
                        lemma_patch_index(up as int, vp as int, x as int, y as int);
                        assert(vp <= v && v - vp <= 3);
                        assert(up <= u && u - up <= 3);
                    }
                    self.patches[vp * x + up].control_points[(v - vp) * 4 + (u - up)].id
                };
                row.push(id);
                assert(row@ =~= target[u as int].take(v + 1));
                v = v + 1;
            }
            assert(row@ =~= target[u as int]);
            let ghost old = points@;
            points.push(row);
            assert forall|k: int| 0 <= k < u + 1 implies grid_view(points@)[k] == target.take(
                u + 1,
            )[k] by {
                if k < u {
                    assert(points@[k] == old[k]);
                    assert(grid_view(old)[k] == target.take(u as int)[k]);
                }
            }
            assert(grid_view(points@) =~= target.take(u + 1));
            u = u + 1;
        }
        assert(target.take(u as int) =~= target);
        points
    }

    /// The sampling of the first patch.
    pub fn sampling(&self) -> (r: Xy)
        requires
            self.patches@.len() > 0,
        ensures
            r == self.patches@[0].samples,
    {
        self.patches[0].samples
    }
}

/// Slot `dv * 4 + du` of a patch's 16 control points stands for the grid
/// offset `(du, dv)` from the patch's corner.
proof fn lemma_patch_slot(du: int, dv: int)
    requires
        0 <= du < 4,
        0 <= dv < 4,
    ensures
        (dv * 4 + du) % 4 == du,
        (dv * 4 + du) / 4 == dv,
        0 <= dv * 4 + du < 16,
{
    lemma_fundamental_div_mod_converse(dv * 4 + du, 4, dv, du);
}

/// `s` is what saving `g` writes: its size in patches, its wrapping in `u`,
/// and at index `pv * size.x + pu` the control points of patch `(pu, pv)`.
pub open spec fn saves_c0(s: JBezierSurfaceC0, g: SurfaceC0Grid) -> bool {
    &&& s.size.x == g.spec_u_patches()
    &&& s.size.y == g.spec_v_patches()
    &&& s.parameter_wrapped.u == g.is_cylinder
    &&& s.patches@.len() == s.size.x * s.size.y
    &&& forall|pu: int, pv: int, k: int|
        0 <= pu < s.size.x && 0 <= pv < s.size.y && 0 <= k < 16 ==> s.patches@[pv * s.size.x
            + pu].control_points[k].id == #[trigger] g.spec_patch_control_points(pu, pv)[k]
}

/// `s` is what saving `g` writes, as for `saves_c0`.
pub open spec fn saves_c2(s: JBezierSurfaceC2, g: SurfaceC2Grid) -> bool {
    &&& s.size.x == g.spec_u_patches()
    &&& s.size.y == g.spec_v_patches()
    &&& s.parameter_wrapped.u == g.is_cylinder
    &&& s.patches@.len() == s.size.x * s.size.y
    &&& forall|pu: int, pv: int, k: int|
        0 <= pu < s.size.x && 0 <= pv < s.size.y && 0 <= k < 16 ==> s.patches@[pv * s.size.x
            + pu].control_points[k].id == #[trigger] g.spec_patch_control_points(pu, pv)[k]
}

/// Reading back the grid of a saved C0 surface gives the surface's grid,
/// when the grid has exactly the rows and columns its patches use.
pub proof fn lemma_c0_saved_grid_reads_back(s: JBezierSurfaceC0, g: SurfaceC0Grid)
    requires
        g.wf(),
        g.points@.len() == 3 * g.spec_u_patches() + (if g.is_cylinder {
            0int
        } else {
            1int
        }),
        g.points@[0]@.len() == 3 * g.spec_v_patches() + 1,
        saves_c0(s, g),
    ensures
        s.spec_control_points() == grid_view(g.points@),
{
    let x = s.size.x as int;
    let y = s.size.y as int;
    let len = g.points@.len() as int;
    let t = s.spec_control_points();
    let e = grid_view(g.points@);
    assert(t.len() == e.len());
    assert forall|u: int| 0 <= u < t.len() implies #[trigger] t[u] == e[u] by {
        assert(t[u].len() == e[u].len());
        assert forall|v: int| 0 <= v < t[u].len() implies t[u][v] == e[u][v] by {
            let up = min(u / 3, x - 1);
            let vp = min(v / 3, y - 1);
            let du = u - 3 * up;
            let dv = v - 3 * vp;
            assert(0 <= du < 4 && 0 <= dv < 4);
            lemma_patch_slot(du, dv);
            let k = dv * 4 + du;
            assert(s.patches@[vp * x + up].control_points[k].id == g.spec_patch_control_points(
                up,
                vp,
            )[k]);
            lemma_small_mod(u as nat, len as nat);
            assert(g.spec_patch_control_points(up, vp)[k] == g.id(u, v));
        }
        assert(t[u] =~= e[u]);
    }
    assert(t =~= e);
}

/// Reading back the grid of a saved C2 surface gives the surface's grid.
pub proof fn lemma_c2_saved_grid_reads_back(s: JBezierSurfaceC2, g: SurfaceC2Grid)
    requires
        g.wf(),
        saves_c2(s, g),
    ensures
        s.spec_control_points() == grid_view(g.points@),
{
    let x = s.size.x as int;
    let y = s.size.y as int;
    let len = g.points@.len() as int;
    let t = s.spec_control_points();
    let e = grid_view(g.points@);
    assert(t.len() == e.len());
    assert forall|u: int| 0 <= u < t.len() implies #[trigger] t[u] == e[u] by {
        assert(t[u].len() == e[u].len());
        assert forall|v: int| 0 <= v < t[u].len() implies t[u][v] == e[u][v] by {
            let up = min(u, x - 1);
            let vp = min(v, y - 1);
            let du = u - up;
            let dv = v - vp;
            assert(0 <= du < 4 && 0 <= dv < 4);
            lemma_patch_slot(du, dv);
            let k = dv * 4 + du;
            assert(s.patches@[vp * x + up].control_points[k].id == g.spec_patch_control_points(
                up,
                vp,
            )[k]);
            lemma_small_mod(u as nat, len as nat);
            assert(g.spec_patch_control_points(up, vp)[k] == g.id(u, v));
        }
        assert(t[u] =~= e[u]);
    }
    assert(t =~= e);
}

/// The patches of `s` agree on the grid points they share: point `(u, v)`
/// of patch `(pu, pv)` covers grid point `(pu + u, pv + v)`.
pub open spec fn c2_patches_agree(s: JBezierSurfaceC2) -> bool {
    forall|pu: int, pv: int, u: int, v: int, qu: int, qv: int, eu: int, ev: int|
        0 <= pu < s.size.x && 0 <= pv < s.size.y && 0 <= qu < s.size.x && 0 <= qv < s.size.y
            && 0 <= u < 4 && 0 <= v < 4 && 0 <= eu < 4 && 0 <= ev < 4 && pu + u == qu + eu && pv
            + v == qv + ev ==> #[trigger] s.patches@[pv * s.size.x + pu].control_points[v * 4
            + u].id == #[trigger] s.patches@[qv * s.size.x + qu].control_points[ev * 4 + eu].id
}

/// When the patches of a C2 surface record agree on the points they share,
/// the grid read from it holds each patch: its point `(u, v)` of patch
/// `(pu, pv)` is grid point `(pu + u, pv + v)`, on every row the grid keeps.
pub proof fn lemma_c2_grid_holds_patches(s: JBezierSurfaceC2, pu: int, pv: int, u: int, v: int)
    requires
        c2_patches_agree(s),
        s.patches@.len() >= s.size.x * s.size.y,
        0 <= pu < s.size.x,
        0 <= pv < s.size.y,
        0 <= u < 4,
        0 <= v < 4,
        pu + u < s.spec_control_points().len(),
    ensures
        s.spec_control_points()[pu + u][pv + v] == s.patches@[pv * s.size.x
            + pu].control_points[v * 4 + u].id,
{
    let x = s.size.x as int;
    let y = s.size.y as int;
    let up = min(pu + u, x - 1);
    let vp = min(pv + v, y - 1);
    let eu = pu + u - up;
    let ev = pv + v - vp;
    assert(s.spec_control_points()[pu + u][pv + v] == s.point_at(pu + u, pv + v));
    assert(s.point_at(pu + u, pv + v) == s.patches@[vp * x + up].control_points[ev * 4 + eu].id);
    assert(s.patches@[pv * x + pu].control_points[v * 4 + u].id == s.patches@[vp * x
        + up].control_points[ev * 4 + eu].id);
}

} // verus!
