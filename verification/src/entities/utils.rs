use vstd::prelude::*;
use std::collections::{HashMap, HashSet};
use crate::graph::lemma_filter_map_keeps;

verus! {

/// The subscription set after the selection's changes, applied in order:
/// `(id, true)` subscribes to `id`, `(id, false)` unsubscribes.
pub open spec fn apply_selection(s: Set<usize>, selection: Seq<(usize, bool)>) -> Set<usize>
    decreases selection.len(),
{
    if selection.len() == 0 {
        s
    } else {
        let prev = apply_selection(s, selection.drop_last());
        let (id, selected) = selection.last();
        if selected {
            prev.insert(id)
        } else {
            prev.remove(id)
        }
    }
}

/// Applies a point selection to the subscriptions of `controller_id`.
pub fn update_point_subs(
    selection: Vec<(usize, bool)>,
    controller_id: usize,
    subscriptions: &mut HashMap<usize, HashSet<usize>>,
)
    requires
        selection@.len() > 0 ==> old(subscriptions)@.contains_key(controller_id),
    ensures
        selection@.len() == 0 ==> *final(subscriptions) == *old(subscriptions),
        final(subscriptions)@.dom() == old(subscriptions)@.dom(),
        forall|k: usize|
            k != controller_id && old(subscriptions)@.contains_key(k) ==> #[trigger] final(subscriptions)@[k] == old(subscriptions)@[k],
        selection@.len() > 0 ==> final(subscriptions)@[controller_id]@ == apply_selection(
            old(subscriptions)@[controller_id]@,
            selection@,
        ),
{
    broadcast use vstd::std_specs::hash::group_hash_axioms;

    if selection.len() == 0 {
        return;
    }

    let mut set = match subscriptions.remove(&controller_id) {
        Some(set) => set,
        None => HashSet::new(),
    };
    let ghost start = set@;
    let mut i: usize = 0;
    while i < selection.len()
        invariant
            i <= selection@.len(),
            set@ == apply_selection(start, selection@.take(i as int)),
        decreases selection@.len() - i,
    {
        let (id, selected) = selection[i];
        assert(selection@.take(i + 1).drop_last() =~= selection@.take(i as int));
        if selected {
            set.insert(id);
        } else {
            set.remove(&id);
        }
        i = i + 1;
    }
    assert(selection@.take(i as int) =~= selection@);
    subscriptions.insert(controller_id, set);
}


/// The choice the last entry of the selection for `id` makes, if any.
pub open spec fn last_choice(selection: Seq<(usize, bool)>, id: usize) -> Option<bool>
    decreases selection.len(),
{
    if selection.len() == 0 {
        None
    } else if selection.last().0 == id {
        Some(selection.last().1)
    } else {
        last_choice(selection.drop_last(), id)
    }
}

/// After a selection is applied, each point is subscribed as the last entry
/// for it says, and a point with no entry keeps its state.
pub proof fn lemma_last_choice_wins(s: Set<usize>, selection: Seq<(usize, bool)>, id: usize)
    ensures
        apply_selection(s, selection).contains(id) == match last_choice(selection, id) {
            Some(b) => b,
            None => s.contains(id),
        },
    decreases selection.len(),
{
    if selection.len() > 0 {
        lemma_last_choice_wins(s, selection.drop_last(), id);
    }
}

/// What the point list of a scene shows of one entity: its id, its name and
/// whether it is a single point (one that can be read now).
#[derive(Clone, Debug)]
pub struct EntitySummary {
    pub id: usize,
    pub name: String,
    pub is_single_point: bool,
}

/// Entity ids strictly increasing, as a `BTreeMap` walks them.
pub open spec fn ids_increasing(entities: Seq<EntitySummary>) -> bool {
    forall|i: int, j: int| 0 <= i < j < entities.len() ==> entities[i].id < entities[j].id
}

pub open spec fn has_id(entities: Seq<EntitySummary>, id: usize) -> bool {
    exists|i: int| 0 <= i < entities.len() && entities[i].id == id
}

/// The name of the entity with the given id.
pub open spec fn name_of(entities: Seq<EntitySummary>, id: usize) -> String {
    entities[choose|i: int| 0 <= i < entities.len() && entities[i].id == id].name
}

pub open spec fn unselected_point(selected: Seq<usize>) -> spec_fn(EntitySummary) -> Option<
    (usize, String, bool),
> {
    |e: EntitySummary|
        if e.is_single_point && !selected.contains(e.id) {
            Some((e.id, e.name, false))
        } else {
            None
        }
}

/// The selected entities in selection order, marked selected, then the
/// other single points in id order, marked not selected.
pub open spec fn spec_segregate_points(entities: Seq<EntitySummary>, selected: Seq<usize>) -> Seq<
    (usize, String, bool),
> {
    selected.map_values(|id: usize| (id, name_of(entities, id), true)) + entities.filter_map(
        unselected_point(selected),
    )
}

fn find_id(entities: &Vec<EntitySummary>, id: usize) -> (r: usize)
    requires
        ids_increasing(entities@),
        has_id(entities@, id),
    ensures
        r < entities@.len(),
        entities@[r as int].id == id,
        r == (choose|i: int| 0 <= i < entities@.len() && entities@[i].id == id),
{
    let ghost w = choose|i: int| 0 <= i < entities@.len() && entities@[i].id == id;
    let mut i: usize = 0;
    while i < entities.len()
        invariant
            i <= entities@.len(),
            ids_increasing(entities@),
            w == (choose|i: int| 0 <= i < entities@.len() && entities@[i].id == id),
            0 <= w < entities@.len() && entities@[w].id == id,
            forall|j: int| 0 <= j < i ==> entities@[j].id != id,
        decreases entities@.len() - i,
    {
        if entities[i].id == id {
            assert(i == w) by {
                if i < w {
                    assert(entities@[i as int].id < entities@[w].id);
                } else if w < i {
                    assert(entities@[w].id != id);
                }
            }
            return i;
        }
        i = i + 1;
    }
    assert(entities@[w].id != id);
    0
}

fn slice_contains(s: &[usize], x: usize) -> (b: bool)
    ensures
        b == s@.contains(x),
{
    let mut i: usize = 0;
    while i < s.len()
        invariant
            i <= s@.len(),
            forall|j: int| 0 <= j < i ==> s@[j] != x,
        decreases s@.len() - i,
    {
        if s[i] == x {
            return true;
        }
        i = i + 1;
    }
    false
}

/// The list of points of the point selection window.
pub fn segregate_points(entities: &Vec<EntitySummary>, selected: &[usize]) -> (r: Vec<
    (usize, String, bool),
>)
    requires
        ids_increasing(entities@),
        forall|i: int| 0 <= i < selected@.len() ==> has_id(entities@, #[trigger] selected@[i]),
    ensures
        r@ == spec_segregate_points(entities@, selected@),
{
    let mut result: Vec<(usize, String, bool)> = Vec::new();
    let ghost f = |id: usize| (id, name_of(entities@, id), true);
    let mut i: usize = 0;
    while i < selected.len()
        invariant
            i <= selected@.len(),
            ids_increasing(entities@),
            forall|i: int| 0 <= i < selected@.len() ==> has_id(entities@, #[trigger] selected@[i]),
            f == (|id: usize| (id, name_of(entities@, id), true)),
            result@ == selected@.take(i as int).map_values(f),
        decreases selected@.len() - i,
    {
        let id = selected[i];
        let k = find_id(entities, id);
        let name = entities[k].name.clone();
        result.push((id, name, true));
        assert(result@ =~= selected@.take(i + 1).map_values(f));
        i = i + 1;
    }
    assert(selected@.take(i as int) =~= selected@);
    let ghost head = result@;
    let mut j: usize = 0;
    assert(entities@.take(0) =~= Seq::<EntitySummary>::empty());
    assert(head + Seq::<(usize, String, bool)>::empty() =~= head);
    while j < entities.len()
        invariant
            j <= entities@.len(),
            result@ == head + entities@.take(j as int).filter_map(unselected_point(selected@)),
        decreases entities@.len() - j,
    {
        proof {
            entities@.lemma_filter_map_take_succ(unselected_point(selected@), j as int);
        }
        let e = &entities[j];
        if e.is_single_point && !slice_contains(selected, e.id) {
            result.push((e.id, e.name.clone(), false));
        }
        j = j + 1;
    }
    assert(entities@.take(j as int) =~= entities@);
    result
}

/// What the point selection list shows: first the selection, in its order
/// and marked selected; after it, marked not selected, exactly the single
/// points of the entity list that are not selected, each with its name.
pub proof fn lemma_segregated_points(entities: Seq<EntitySummary>, selected: Seq<usize>)
    ensures
        ({
            let r = spec_segregate_points(entities, selected);
            &&& forall|k: int|
                0 <= k < selected.len() ==> (#[trigger] r[k]).0 == selected[k] && r[k].2
            &&& forall|k: int|
                selected.len() <= k < r.len() ==> !(#[trigger] r[k]).2 && exists|i: int|
                    0 <= i < entities.len() && entities[i].is_single_point && !selected.contains(
                        entities[i].id,
                    ) && r[k] == (entities[i].id, entities[i].name, false)
            &&& forall|i: int|
                0 <= i < entities.len() && (#[trigger] entities[i]).is_single_point
                    && !selected.contains(entities[i].id) ==> r.contains(
                    (entities[i].id, entities[i].name, false),
                )
        }),
{
    let r = spec_segregate_points(entities, selected);
    let head = selected.map_values(|id: usize| (id, name_of(entities, id), true));
    let tail = entities.filter_map(unselected_point(selected));
    assert(r == head + tail);
    assert forall|k: int| selected.len() <= k < r.len() implies !(#[trigger] r[k]).2 && exists|i: int|
        0 <= i < entities.len() && entities[i].is_single_point && !selected.contains(entities[i].id)
            && r[k] == (entities[i].id, entities[i].name, false) by {
        let x = r[k];
        assert(x == tail[k - selected.len()]);
        assert(tail.contains(x));
        entities.lemma_filter_map_contains(unselected_point(selected), x);
        let t = choose|t: EntitySummary|
            #[trigger] entities.contains(t) && unselected_point(selected)(t) == Some(x);
        let i = choose|i: int| 0 <= i < entities.len() && entities[i] == t;
        assert(entities[i] == t);
    }
    assert forall|i: int|
        0 <= i < entities.len() && (#[trigger] entities[i]).is_single_point && !selected.contains(
            entities[i].id,
        ) implies r.contains((entities[i].id, entities[i].name, false)) by {
        let x = (entities[i].id, entities[i].name, false);
        lemma_filter_map_keeps(entities, unselected_point(selected), i, x);
        let k = choose|k: int| 0 <= k < tail.len() && #[trigger] tail[k] == x;
        assert(r[selected.len() + k] == x);
    }
}

} // verus!
