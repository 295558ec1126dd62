use kalimorfia::entities::surface_grid::{rotate_patch, SurfaceC0Grid, SurfaceC2Grid};
use kalimorfia::graph::{C0Edge, C0EdgeGraph, C0EdgeTriangle};

/// An edge whose own points are `a, m, n, b` and whose inner rows are
/// filled with `fill`.
fn edge(a: usize, m: usize, n: usize, b: usize, fill: usize) -> C0Edge {
    C0Edge::new([[a, m, n, b], [fill; 4], [fill + 1; 4], [fill + 2; 4]])
}

#[test]
fn reverse_reads_rows_backwards() {
    let e = C0Edge::new([[1, 2, 3, 4], [5, 6, 7, 8], [9, 10, 11, 12], [13, 14, 15, 16]]);
    let r = e.reverse();
    assert_eq!(r.points, [[4, 3, 2, 1], [8, 7, 6, 5], [12, 11, 10, 9], [16, 15, 14, 13]]);
    assert_eq!(r.reverse(), e);
    assert_eq!(e.endpoints(), (1, 4));
    assert_eq!(r.endpoints(), (4, 1));
    assert_eq!(e.edge_points(), &[1, 2, 3, 4]);
    assert!(e.is_endpoint(1) && e.is_endpoint(4) && !e.is_endpoint(2));
}

#[test]
fn graph_keeps_unshared_edges_oriented_and_sorted() {
    let shared = edge(5, 6, 7, 8, 100);
    let edges = vec![
        edge(30, 31, 32, 20, 200), // reversed to 20 -> 30
        shared,
        edge(9, 1, 2, 9, 300), // degenerate loop, dropped
        edge(1, 2, 3, 4, 400),
        shared.reverse(), // the same edge from the other patch
    ];
    let g = C0EdgeGraph::from_edges(edges);
    let kept: Vec<[usize; 4]> = g.edges().iter().map(|e| *e.edge_points()).collect();
    assert_eq!(kept, vec![[1, 2, 3, 4], [20, 32, 31, 30]]);
    assert_eq!(g.edges()[1].points[1], [200; 4]);
    assert_eq!(g.vertices(), vec![1, 4, 20, 30]);
}

#[test]
fn oriented_edges_read_from_the_first_vertex() {
    let g = C0EdgeGraph::from_edges(vec![edge(1, 2, 3, 4, 10), edge(4, 5, 6, 9, 20)]);
    let forward = g.oriented_edges(1, 4);
    assert_eq!(forward.len(), 1);
    assert_eq!(forward[0].endpoints(), (1, 4));
    let backward = g.oriented_edges(4, 1);
    assert_eq!(backward.len(), 1);
    assert_eq!(backward[0], forward[0].reverse());
    assert!(g.oriented_edges(1, 9).is_empty());
}

#[test]
fn triangles_close_through_the_largest_vertex() {
    let e01 = edge(1, 11, 12, 2, 10);
    let e12 = edge(2, 21, 22, 3, 20);
    let e20 = edge(3, 31, 32, 1, 30);
    let extra = edge(3, 41, 42, 7, 40);
    let g = C0EdgeGraph::from_edges(vec![e01, e12, e20, extra]);
    let triangles: Vec<C0EdgeTriangle> = g.find_triangles();
    assert_eq!(triangles.len(), 1);
    let t = triangles[0].0;
    assert_eq!(t[0].endpoints(), (1, 2));
    assert_eq!(t[1].endpoints(), (2, 3));
    assert_eq!(t[2].endpoints(), (3, 1));
    assert_eq!(t[2], e20);
}

#[test]
fn rotating_a_patch_four_times_gives_it_back() {
    let p = [[1, 2, 3, 4], [5, 6, 7, 8], [9, 10, 11, 12], [13, 14, 15, 16]];
    let r = rotate_patch(&p);
    assert_eq!(r, [[13, 9, 5, 1], [14, 10, 6, 2], [15, 11, 7, 3], [16, 12, 8, 4]]);
    assert_eq!(rotate_patch(&rotate_patch(&rotate_patch(&r))), p);
}

fn grid(rows: usize, columns: usize) -> Vec<Vec<usize>> {
    (0..rows).map(|u| (0..columns).map(|v| u * 100 + v).collect()).collect()
}

#[test]
fn c0_surface_patches_and_border() {
    let s = SurfaceC0Grid { points: grid(7, 4), is_cylinder: false };
    assert_eq!(s.u_patches(), 2);
    assert_eq!(s.v_patches(), 1);
    let p = s.patch(1, 0);
    assert_eq!(p[0], [300, 301, 302, 303]);
    assert_eq!(p[3], [600, 601, 602, 603]);
    let edges = s.patch_edges();
    // one left edge, two top edges, one right edge, two bottom edges
    assert_eq!(edges.len(), 6);
    assert_eq!(edges[0].edge_points(), &[0, 1, 2, 3]);
    assert_eq!(edges[1].edge_points(), &[3, 103, 203, 303]);
    assert_eq!(edges[3].edge_points(), &[603, 602, 601, 600]);
    assert_eq!(edges[4].edge_points(), &[300, 200, 100, 0]);
    assert_eq!(s.patch_control_points(1, 0)[..5], [300, 400, 500, 600, 301]);
}

#[test]
fn c0_cylinder_wraps_to_the_first_row() {
    let s = SurfaceC0Grid { points: grid(6, 4), is_cylinder: true };
    assert_eq!(s.u_patches(), 2);
    assert_eq!(s.patch(1, 0)[3], [0, 1, 2, 3]);
    assert_eq!(s.patch_edges().len(), 4);
    assert_eq!(s.patch_control_points(1, 0)[..4], [300, 400, 500, 0]);
}

#[test]
fn graph_of_two_patches_keeps_the_outer_border() {
    let s = SurfaceC0Grid { points: grid(7, 4), is_cylinder: false };
    let g = C0EdgeGraph::new(&vec![s]);
    assert_eq!(g.edges().len(), 6);
    assert!(g.edges().iter().all(|e| e.endpoints().0 < e.endpoints().1));
    assert!(g.find_triangles().is_empty());
}

#[test]
fn c2_surface_wraps_three_rows() {
    let s = SurfaceC2Grid { points: grid(4, 5), is_cylinder: true };
    let w = s.wrapped_points();
    assert_eq!(w.len(), 7);
    assert_eq!(w[4], s.points[0]);
    assert_eq!(w[6], s.points[2]);
    assert_eq!(s.u_patches(), 4);
    assert_eq!(s.v_patches(), 2);
    assert_eq!(s.patch_control_points(3, 1)[..4], [301, 1, 101, 201]);
    let flat = SurfaceC2Grid { points: grid(4, 5), is_cylinder: false };
    assert_eq!(flat.wrapped_points(), flat.points);
    assert_eq!(flat.u_patches(), 1);
}

#[test]
fn reindexing_renumbers_known_ids_only() {
    let mut s = SurfaceC0Grid { points: grid(4, 4), is_cylinder: false };
    let changes: std::collections::HashMap<usize, usize> = [(0, 7000), (303, 7001), (9999, 1)].into_iter().collect();
    s.notify_about_reindexing(&changes);
    assert_eq!(s.points[0][0], 7000);
    assert_eq!(s.points[3][3], 7001);
    assert_eq!(s.points[1][2], 102);
    let mut c2 = SurfaceC2Grid { points: grid(4, 4), is_cylinder: true };
    c2.notify_about_reindexing(&changes);
    assert_eq!(c2.points[0][0], 7000);
    assert!(c2.is_cylinder);
}

#[test]
fn a_triangle_takes_new_point_ids() {
    let mut t = C0EdgeTriangle([edge(1, 2, 3, 4, 10), edge(4, 5, 6, 7, 20), edge(7, 8, 9, 1, 30)]);
    let changes: std::collections::HashMap<usize, usize> =
        [(1, 100), (7, 700), (21, 2100)].into_iter().collect();
    t.notify_about_reindexing(&changes);
    assert_eq!(t.0[0].points[0], [100, 2, 3, 4]);
    assert_eq!(t.0[1].points[0], [4, 5, 6, 700]);
    assert_eq!(t.0[1].points[2], [2100; 4]);
    assert_eq!(t.0[2].points[0], [700, 8, 9, 100]);
    assert_eq!(t.0[2].points[1], [30; 4]);
}
