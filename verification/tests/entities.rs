use kalimorfia::entities::bezier_surface_args::{
    c0_point_counts, c2_point_counts, clamp_patches, raise_c2_cylinder_around_patches,
};
use kalimorfia::entities::bezier_utils::{create_bezier_surface, create_grid};
use kalimorfia::entities::changeable_name::{ChangeableName, NameRepository};
use kalimorfia::entities::entity::{ControlResult, DrawType};
use kalimorfia::entities::surface_grid::{SurfaceC0Grid, SurfaceC2Grid};
use kalimorfia::entities::manager::{intersection, EntityManager, ReferentialSceneEntity};
use kalimorfia::entities::utils::{segregate_points, update_point_subs, EntitySummary};
use kalimorfia::json::{JBezierSurfaceC0, JBezierSurfaceC2, JPatch, ParameterWrapped, PointRef, Xy};
use std::collections::{HashMap, HashSet};

#[derive(Clone, Debug, Default)]
struct Recorder {
    refuse: bool,
    log: Vec<String>,
}

fn sorted(ids: &HashSet<usize>) -> Vec<usize> {
    let mut d: Vec<usize> = ids.iter().copied().collect();
    d.sort();
    d
}

impl Recorder {
    fn with_entry(&self, entry: String) -> Self {
        let mut after = self.clone();
        after.log.push(entry);
        after
    }
}

impl ReferentialSceneEntity for Recorder {
    fn after_subscribe(&self, subscribee: usize) -> Self {
        self.with_entry(format!("sub {}", subscribee))
    }
    fn after_unsubscribe(&self, subscribee: usize) -> Self {
        self.with_entry(format!("unsub {}", subscribee))
    }
    fn allows_deletion(&self, _deleted: &HashSet<usize>) -> bool {
        !self.refuse
    }
    fn after_deletion(&self, deleted: &HashSet<usize>) -> Self {
        self.with_entry(format!("deleted {:?}", sorted(deleted)))
    }
    fn after_modification(&self, modified: &HashSet<usize>) -> Self {
        self.with_entry(format!("modified {:?}", sorted(modified)))
    }
    fn subscribe(&mut self, subscribee: usize) {
        *self = self.after_subscribe(subscribee);
    }
    fn unsubscribe(&mut self, subscribee: usize) {
        *self = self.after_unsubscribe(subscribee);
    }
    fn allow_deletion(&self, deleted: &HashSet<usize>) -> bool {
        self.allows_deletion(deleted)
    }
    fn notify_about_deletion(&mut self, deleted: &HashSet<usize>) {
        *self = self.after_deletion(deleted);
    }
    fn notify_about_modification(&mut self, modified: &HashSet<usize>) {
        *self = self.after_modification(modified);
    }
}

#[test]
fn ids_are_handed_out_in_order() {
    let mut m: EntityManager<Recorder> = EntityManager::new();
    assert_eq!(m.add_entity(Recorder::default()), 0);
    assert_eq!(m.add_entity(Recorder::default()), 1);
    assert_eq!(m.remove_entity(0), None);
    assert_eq!(m.add_entity(Recorder::default()), 2);
    let ids: Vec<usize> = m.entities().iter().map(|(id, _)| *id).collect();
    assert_eq!(ids, vec![1, 2]);
}

#[test]
fn subscribing_twice_tells_once() {
    let mut m: EntityManager<Recorder> = EntityManager::new();
    let a = m.add_entity(Recorder::default());
    let b = m.add_entity(Recorder::default());
    m.subscribe(a, b);
    m.subscribe(a, b);
    m.unsubscribe(a, b);
    m.unsubscribe(a, b);
    assert_eq!(m.get_entity(a).log, vec!["sub 1", "unsub 1"]);
    assert!(m.get_entity(b).log.is_empty());
    m.get_entity_mut(b).log.push("touched".to_string());
    assert_eq!(m.get_entity(b).log, vec!["touched"]);
}

#[test]
fn the_least_refusing_subscriber_is_named() {
    let mut m: EntityManager<Recorder> = EntityManager::new();
    let point = m.add_entity(Recorder::default());
    let willing = m.add_entity(Recorder::default());
    let first = m.add_entity(Recorder { refuse: true, log: Vec::new() });
    let second = m.add_entity(Recorder { refuse: true, log: Vec::new() });
    m.subscribe(second, point);
    m.subscribe(willing, point);
    m.subscribe(first, point);
    assert_eq!(m.remove_entity(point), Some(first));
    assert_eq!(m.get_entity(willing).log, vec!["sub 0"]);
    assert_eq!(m.entities().len(), 4);
}

#[test]
fn a_subscriber_can_refuse_a_deletion() {
    let mut m: EntityManager<Recorder> = EntityManager::new();
    let point = m.add_entity(Recorder::default());
    let curve = m.add_entity(Recorder::default());
    let surface = m.add_entity(Recorder { refuse: true, log: Vec::new() });
    m.subscribe(curve, point);
    assert_eq!(m.remove_entity(point), None);
    assert_eq!(m.get_entity(curve).log, vec!["sub 0", "deleted [0]"]);
    let p2 = m.add_entity(Recorder::default());
    m.subscribe(surface, p2);
    assert_eq!(m.remove_entity(p2), Some(surface));
    assert_eq!(m.entities().len(), 3);
}

#[test]
fn an_undone_subscription_no_longer_blocks_a_deletion() {
    let mut m: EntityManager<Recorder> = EntityManager::new();
    let point = m.add_entity(Recorder::default());
    let surface = m.add_entity(Recorder { refuse: true, log: Vec::new() });
    m.subscribe(surface, point);
    m.unsubscribe(surface, point);
    assert_eq!(m.remove_entity(point), None);
    assert_eq!(m.get_entity(surface).log, vec!["sub 0", "unsub 0"]);
}

#[test]
fn modifications_reach_subscribers_only() {
    let mut m: EntityManager<Recorder> = EntityManager::new();
    let p = m.add_entity(Recorder::default());
    let q = m.add_entity(Recorder::default());
    let c = m.add_entity(Recorder::default());
    let d = m.add_entity(Recorder::default());
    m.subscribe(c, p);
    m.subscribe(c, q);
    m.subscribe(d, q);
    let changes: HashSet<usize> = [p, q].into_iter().collect();
    let exclude: HashSet<usize> = [d].into_iter().collect();
    m.notify_about_modifications(&exclude, &changes);
    assert_eq!(m.get_entity(c).log.last().unwrap(), "modified [0, 1]");
    assert_eq!(m.get_entity(d).log, vec!["sub 1"]);
    assert!(m.get_entity(p).log.is_empty());
}

#[test]
fn intersection_of_sets() {
    let a: HashSet<usize> = [1, 2, 3].into_iter().collect();
    let b: HashSet<usize> = [2, 3, 4].into_iter().collect();
    let expected: HashSet<usize> = [2, 3].into_iter().collect();
    assert_eq!(intersection(&a, &b), expected);
}

#[test]
fn last_selection_entry_wins() {
    let mut subs: HashMap<usize, HashSet<usize>> = HashMap::new();
    subs.insert(7, [1, 2].into_iter().collect());
    subs.insert(8, [1].into_iter().collect());
    update_point_subs(vec![(3, true), (1, false), (3, false), (1, true), (5, true)], 7, &mut subs);
    let expected: HashSet<usize> = [1, 2, 5].into_iter().collect();
    assert_eq!(subs[&7], expected);
    assert_eq!(subs[&8], [1].into_iter().collect());
}

#[test]
fn an_empty_selection_needs_no_subscriptions() {
    let mut subs: HashMap<usize, HashSet<usize>> = HashMap::new();
    subs.insert(8, [1].into_iter().collect());
    update_point_subs(Vec::new(), 7, &mut subs);
    assert_eq!(subs.len(), 1);
    assert_eq!(subs[&8], [1].into_iter().collect());
}

fn summary(id: usize, name: &str, is_single_point: bool) -> EntitySummary {
    EntitySummary { id, name: name.to_string(), is_single_point }
}

#[test]
fn selected_points_come_first() {
    let entities = vec![
        summary(0, "p0", true),
        summary(1, "curve", false),
        summary(2, "p2", true),
        summary(3, "p3", true),
    ];
    let r = segregate_points(&entities, &[3, 1]);
    assert_eq!(
        r,
        vec![
            (3, "p3".to_string(), true),
            (1, "curve".to_string(), true),
            (0, "p0".to_string(), false),
            (2, "p2".to_string(), false),
        ]
    );
}

#[derive(Clone)]
struct Counter(usize);

impl NameRepository for Counter {
    fn generated_name(&self, name: &str) -> String {
        format!("{} {}", name, self.0 + 1)
    }
    fn after_generate(&self, _name: &str) -> Self {
        Counter(self.0 + 1)
    }
    fn can_take(&self, name: &str) -> bool {
        name != "taken"
    }
    fn after_take(&self, _name: &str) -> Self {
        self.clone()
    }
    fn generate_name(&mut self, name: &str) -> String {
        let generated = self.generated_name(name);
        *self = self.after_generate(name);
        generated
    }
    fn take_name(&mut self, name: &str) -> Result<String, ()> {
        if self.can_take(name) {
            *self = self.after_take(name);
            Ok(name.to_string())
        } else {
            Err(())
        }
    }
}

#[test]
fn names_come_from_the_repository() {
    let mut repo = Counter(0);
    let mut n = ChangeableName::new("Point", &mut repo);
    assert_eq!(n.name(), "Point 1");
    assert_eq!(n.rename, "Point 1");
    assert_eq!(repo.0, 1);
    n.set_similar_name("free", &mut repo);
    assert_eq!(n.name(), "free");
    assert_eq!(repo.0, 1);
    n.set_similar_name("taken", &mut repo);
    assert_eq!(n.name(), "taken 2");
    assert_eq!(n.rename, n.name);
    assert_eq!(repo.0, 2);
}

#[test]
fn a_given_name_fills_the_rename_box() {
    let mut n = ChangeableName::from_name("Torus 3".to_string());
    assert_eq!(n.name, "Torus 3");
    assert_eq!(n.rename, "Torus 3");
    n.adopt_name("Ring".to_string());
    assert_eq!(n.name(), "Ring");
    assert_eq!(n.rename, "Ring");
}

#[test]
fn control_result_starts_empty() {
    let r = ControlResult::default();
    assert!(r.modified.is_empty() && r.notification_excluded.is_empty());
    assert_ne!(DrawType::Regular, DrawType::Selected);
}

fn patch(first: usize) -> JPatch {
    let mut control_points = [PointRef { id: 0 }; 16];
    for (i, p) in control_points.iter_mut().enumerate() {
        p.id = first + i;
    }
    JPatch {
        object_type: "bezierPatchC0".to_string(),
        name: None,
        id: first,
        control_points,
        samples: Xy { x: 4, y: 5 },
    }
}

/// The grid as the scene loader writes it, patch after patch.
fn reference_c0(x: usize, y: usize, wrapped: bool, patches: &[JPatch]) -> Vec<Vec<usize>> {
    let mut points: Vec<Vec<usize>> = (0..x * 3 + 1).map(|_| vec![0; y * 3 + 1]).collect();
    for u_patch in 0..x {
        for v_patch in 0..y {
            for u in 0..4 {
                for v in 0..4 {
                    points[u_patch * 3 + u][v_patch * 3 + v] =
                        patches[v_patch * x + u_patch].control_points[v * 4 + u].id;
                }
            }
        }
    }
    if wrapped {
        points.pop();
    }
    points
}

fn reference_c2(x: usize, y: usize, wrapped: bool, patches: &[JPatch]) -> Vec<Vec<usize>> {
    let mut points: Vec<Vec<usize>> = (0..x + 3).map(|_| vec![0; y + 3]).collect();
    for u_patch in 0..x {
        for v_patch in 0..y {
            for u in 0..4 {
                for v in 0..4 {
                    points[u_patch + u][v_patch + v] =
                        patches[v_patch * x + u_patch].control_points[v * 4 + u].id;
                }
            }
        }
    }
    if wrapped {
        points.pop();
        points.pop();
        points.pop();
    }
    points
}

#[test]
fn surface_grids_match_patch_by_patch_filling() {
    for &(x, y) in &[(1, 1), (2, 3), (3, 2), (0, 2), (2, 0)] {
        for &wrapped in &[false, true] {
            let patches: Vec<JPatch> = (0..x * y).map(|i| patch(100 * i + 1)).collect();
            let c0 = JBezierSurfaceC0 {
                object_type: "bezierSurfaceC0".to_string(),
                name: Some("s".to_string()),
                id: 9,
                patches: patches.clone(),
                parameter_wrapped: ParameterWrapped { u: wrapped, v: false },
                size: Xy { x, y },
            };
            assert_eq!(c0.control_points(), reference_c0(x, y, wrapped, &patches));
            let c2 = JBezierSurfaceC2 {
                object_type: "bezierSurfaceC2".to_string(),
                name: None,
                id: 9,
                patches: patches.clone(),
                parameter_wrapped: ParameterWrapped { u: wrapped, v: false },
                size: Xy { x, y },
            };
            assert_eq!(c2.control_points(), reference_c2(x, y, wrapped, &patches));
            if x * y > 0 {
                assert_eq!(c0.sampling(), Xy { x: 4, y: 5 });
                assert_eq!(c2.sampling(), Xy { x: 4, y: 5 });
            }
        }
    }
}

#[test]
fn a_cylinder_surface_closes_on_its_first_row() {
    let points = vec![vec![1, 2], vec![3, 4], vec![5, 6]];
    assert_eq!(
        create_bezier_surface(&points, true),
        vec![vec![1, 2], vec![3, 4], vec![5, 6], vec![1, 2]]
    );
    assert_eq!(create_bezier_surface(&points, false), points);
    assert_eq!(create_grid(&points, true), vec![vec![1, 2], vec![3, 4], vec![5, 6], vec![1, 2]]);
    assert_eq!(create_grid(&[], false), Vec::<Vec<usize>>::new());
}

fn id_grid(rows: usize, columns: usize) -> Vec<Vec<usize>> {
    (0..rows).map(|u| (0..columns).map(|v| u * 100 + v).collect()).collect()
}

fn saved_patch(ids: Vec<usize>) -> JPatch {
    let mut control_points = [PointRef { id: 0 }; 16];
    for (p, id) in control_points.iter_mut().zip(ids) {
        p.id = id;
    }
    JPatch {
        object_type: "bezierPatch".to_string(),
        name: Some("patch".to_string()),
        id: 0,
        control_points,
        samples: Xy { x: 3, y: 3 },
    }
}

#[test]
fn a_saved_c0_surface_reads_back() {
    for (rows, cylinder) in [(7, false), (6, true)] {
        let g = SurfaceC0Grid { points: id_grid(rows, 7), is_cylinder: cylinder };
        let (x, y) = (g.u_patches(), g.v_patches());
        let mut patches = Vec::new();
        for pv in 0..y {
            for pu in 0..x {
                patches.push(saved_patch(g.patch_control_points(pu, pv)));
            }
        }
        let s = JBezierSurfaceC0 {
            object_type: "bezierSurfaceC0".to_string(),
            name: None,
            id: 1,
            patches,
            parameter_wrapped: ParameterWrapped { u: cylinder, v: false },
            size: Xy { x, y },
        };
        assert_eq!(s.control_points(), g.points);
    }
}

#[test]
fn a_saved_c2_surface_reads_back() {
    for (rows, cylinder) in [(5, false), (4, true)] {
        let g = SurfaceC2Grid { points: id_grid(rows, 5), is_cylinder: cylinder };
        let (x, y) = (g.u_patches(), g.v_patches());
        let mut patches = Vec::new();
        for pv in 0..y {
            for pu in 0..x {
                patches.push(saved_patch(g.patch_control_points(pu, pv)));
            }
        }
        let s = JBezierSurfaceC2 {
            object_type: "bezierSurfaceC2".to_string(),
            name: None,
            id: 1,
            patches,
            parameter_wrapped: ParameterWrapped { u: cylinder, v: false },
            size: Xy { x, y },
        };
        assert_eq!(s.control_points(), g.points);
    }
}

#[test]
fn patch_counts_are_clamped() {
    for (given, kept) in [(-5, 1), (0, 1), (1, 1), (17, 17), (30, 30), (31, 30)] {
        let mut n = given;
        clamp_patches(&mut n);
        assert_eq!(n, kept);
    }
}

#[test]
fn new_surfaces_have_the_points_their_patches_use() {
    assert_eq!(c0_point_counts(2, 3, false), (7, 10));
    assert_eq!(c0_point_counts(2, 3, true), (6, 10));
    assert_eq!(c2_point_counts(2, 3, false), (5, 6));
    assert_eq!(c2_point_counts(4, 3, true), (4, 6));
}

#[test]
fn c2_cylinders_have_at_least_three_patches_around() {
    for (given, kept) in [(-1, 3), (1, 3), (3, 3), (7, 7)] {
        let mut n = given;
        raise_c2_cylinder_around_patches(&mut n);
        assert_eq!(n, kept);
    }
}

#[test]
fn ids_are_never_reused_after_removals() {
    let mut m: EntityManager<Recorder> = EntityManager::new();
    for expected in 0..3 {
        assert_eq!(m.add_entity(Recorder::default()), expected);
    }
    assert_eq!(m.remove_entity(2), None);
    assert_eq!(m.remove_entity(0), None);
    assert_eq!(m.add_entity(Recorder::default()), 3);
    m.entities_mut()[0].1.log.push("changed".to_string());
    assert_eq!(m.get_entity(1).log, vec!["changed"]);
    assert_eq!(m.add_entity(Recorder::default()), 4);
}
