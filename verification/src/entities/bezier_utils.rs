use vstd::prelude::*;
use crate::entities::surface_grid::{copy_row, grid_view};

verus! {

/// The rows of control point ids that a surface is built from: the grid as
/// it is, and for a cylinder its first row once more at the end, so that the
/// last patch closes on the first.
pub open spec fn closed_rows(points: Seq<Vec<usize>>, is_cylinder: bool) -> Seq<Seq<usize>> {
    let g = grid_view(points);
    if is_cylinder {
        g.push(g[0])
    } else {
        g
    }
}

fn close_rows(points: &[Vec<usize>], is_cylinder: bool) -> (r: Vec<Vec<usize>>)
    requires
        is_cylinder ==> points@.len() >= 1,
    ensures
        grid_view(r@) == closed_rows(points@, is_cylinder),
{
    let mut rows: Vec<Vec<usize>> = Vec::new();
    let mut i: usize = 0;
    while i < points.len()
        invariant
            i <= points@.len(),
            rows@.len() == i,
            grid_view(rows@) == grid_view(points@).take(i as int),
        decreases points@.len() - i,
    {
        let row = copy_row(&points[i]);
        let ghost before = rows@;
        rows.push(row);
        assert forall|k: int| 0 <= k < i + 1 implies grid_view(rows@)[k] == grid_view(
            points@,
        ).take(i + 1)[k] by {
            if k < i {
                assert(rows@[k] == before[k]);
                assert(grid_view(before)[k] == grid_view(points@).take(i as int)[k]);
            }
        }
        assert(grid_view(rows@) =~= grid_view(points@).take(i + 1));
        i = i + 1;
    }
    assert(grid_view(rows@) =~= grid_view(points@));
    if is_cylinder {
        let ghost g = grid_view(points@);
        rows.push(copy_row(&points[0]));
        assert(grid_view(rows@) =~= g.push(g[0]));
    }
    rows
}

/// The control point ids, row by row, of the Bezier surface on `points`:
/// for a cylinder the first row is repeated at the end. Where the points
/// stand in space, and the surface evaluated from them, is floating point
/// and is looked up by the caller from these ids.
pub fn create_bezier_surface(points: &[Vec<usize>], is_cylinder: bool) -> (r: Vec<Vec<usize>>)
    requires
        is_cylinder ==> points@.len() >= 1,
    ensures
        grid_view(r@) == closed_rows(points@, is_cylinder),
{
    close_rows(points, is_cylinder)
}

/// The control point ids, row by row, of the control grid drawn for
/// `points`: for a cylinder the first row is repeated at the end, which
/// closes the grid's polygon.
pub fn create_grid(points: &[Vec<usize>], is_cylinder: bool) -> (r: Vec<Vec<usize>>)
    requires
        is_cylinder ==> points@.len() >= 1,
    ensures
        grid_view(r@) == closed_rows(points@, is_cylinder),
{
    close_rows(points, is_cylinder)
}

} // verus!
