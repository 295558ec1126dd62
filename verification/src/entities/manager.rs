use vstd::prelude::*;
use std::collections::{HashMap, HashSet};

verus! {

/// What the registry asks of the entities it holds. An implementation
/// writes the spec functions below as functions of the entity and the ids
/// it is told of, and its methods are held to them (believed, not proved,
/// for implementations outside this crate).
pub trait ReferentialSceneEntity {
    /// What the entity becomes when subscribed to `subscribee`.
    spec fn after_subscribe(&self, subscribee: usize) -> Self where Self: Sized;

    /// What the entity becomes when unsubscribed from `subscribee`.
    spec fn after_unsubscribe(&self, subscribee: usize) -> Self where Self: Sized;

    /// Whether the entity lets `deleted` go.
    spec fn allows_deletion(&self, deleted: &HashSet<usize>) -> bool;

    /// What the entity becomes when told that `deleted` were deleted.
    spec fn after_deletion(&self, deleted: &HashSet<usize>) -> Self where Self: Sized;

    /// What the entity becomes when told that `modified` were modified.
    spec fn after_modification(&self, modified: &HashSet<usize>) -> Self where Self: Sized;

    /// Told when it has been subscribed to `subscribee`.
    fn subscribe(&mut self, subscribee: usize)
        where Self: Sized
        ensures
            *final(self) == old(self).after_subscribe(subscribee),
    ;

    /// Told when it has been unsubscribed from `subscribee`.
    fn unsubscribe(&mut self, subscribee: usize)
        where Self: Sized
        ensures
            *final(self) == old(self).after_unsubscribe(subscribee),
    ;

    /// Whether the entity, subscribed to some of `deleted`, lets them go.
    fn allow_deletion(&self, deleted: &HashSet<usize>) -> (r: bool)
        ensures
            r == self.allows_deletion(deleted),
    ;

    /// Told that entities it subscribes to were deleted.
    fn notify_about_deletion(&mut self, deleted: &HashSet<usize>)
        where Self: Sized
        ensures
            *final(self) == old(self).after_deletion(deleted),
    ;

    /// Told that entities it subscribes to were modified.
    fn notify_about_modification(&mut self, modified: &HashSet<usize>)
        where Self: Sized
        ensures
            *final(self) == old(self).after_modification(modified),
    ;
}

/// The ids in both sets.
pub fn intersection(a: &HashSet<usize>, b: &HashSet<usize>) -> (r: HashSet<usize>)
    ensures
        r@ == a@.intersect(b@),
{
    broadcast use vstd::std_specs::hash::group_hash_axioms;

    let mut r: HashSet<usize> = HashSet::new();
    let ghost mut done: Set<usize> = Set::empty();
    for x in it: a.iter()
        invariant
            it.seq().unref().to_set() == a@,
            done == Set::new(|y: usize| exists|k: int| 0 <= k < it.index() && *it.seq()[k] == y),
            r@ == done.intersect(b@),
            it.index() == it.seq().len() ==> done == a@,
    {
        proof {
            done = done.insert(*x);
        }
        if b.contains(x) {
            r.insert(*x);
        }
        assert(r@ =~= done.intersect(b@));
        proof {
            assert(*x == *it.seq()[it.index() as int]);
            assert forall|y: usize| done.contains(y) implies a@.contains(y) by {
                if y != *x {
                    let k = choose|k: int| 0 <= k < it.index() && *it.seq()[k] == y;
                    assert(it.seq().unref()[k] == y);
                    assert(it.seq().unref().to_set().contains(y));
                } else {
                    let k = it.index() as int;
                    assert(it.seq().unref()[k] == y);
                    assert(it.seq().unref().to_set().contains(y));
                }
            }
            assert forall|y: usize|
                a@.contains(y) && it.index() + 1 == it.seq().len() implies done.contains(y) by {
                assert(it.seq().unref().to_set().contains(y));
                let k = choose|k: int| 0 <= k < it.seq().unref().len() && it.seq().unref()[k] == y;
                assert(*it.seq()[k] == y);
            }
            assert(it.index() + 1 == it.seq().len() ==> done =~= a@);
        }
    }
    r
}

/// The scene's entities under the ids given to them, and for each id the
/// ids it subscribes to.
pub struct EntityManager<E> {
    id_counter: usize,
    entities: Vec<(usize, E)>,
    subscriptions: HashMap<usize, HashSet<usize>>,
}

impl<E> EntityManager<E> {
    /// The next id to give.
    pub closed spec fn next_id(&self) -> usize {
        self.id_counter
    }

    /// The ids of the entities, increasing.
    pub closed spec fn ids(&self) -> Seq<usize> {
        self.entities@.map_values(|p: (usize, E)| p.0)
    }

    pub closed spec fn entity_seq(&self) -> Seq<E> {
        self.entities@.map_values(|p: (usize, E)| p.1)
    }

    pub open spec fn contains(&self, id: usize) -> bool {
        self.ids().contains(id)
    }

    /// Where the entity with the given id is held.
    pub closed spec fn slot(&self, id: usize) -> int {
        choose|i: int| 0 <= i < self.ids().len() && self.ids()[i] == id
    }

    /// The entity with the given id.
    pub closed spec fn entity(&self, id: usize) -> E {
        self.entity_seq()[self.slot(id)]
    }

    /// The ids each id subscribes to; removed entities keep theirs.
    pub closed spec fn subscriptions(&self) -> Map<usize, Set<usize>> {
        Map::new(
            |k: usize| self.subscriptions@.contains_key(k),
            |k: usize| self.subscriptions@[k]@,
        )
    }

    pub closed spec fn wf(&self) -> bool {
        &&& forall|i: int, j: int|
            0 <= i < j < self.ids().len() ==> self.ids()[i] < self.ids()[j]
        &&& forall|i: int| 0 <= i < self.ids().len() ==> #[trigger] self.ids()[i] < self.next_id()
        &&& forall|i: int|
            0 <= i < self.ids().len() ==> self.subscriptions().contains_key(#[trigger] self.ids()[i])
        &&& forall|k: usize| #[trigger] self.subscriptions().contains_key(k) ==> k < self.next_id()
    }

    pub fn new() -> (m: EntityManager<E>)
        ensures
            m.wf(),
            m.next_id() == 0,
            m.ids() == Seq::<usize>::empty(),
            m.subscriptions() == Map::<usize, Set<usize>>::empty(),
    {
        broadcast use vstd::std_specs::hash::group_hash_axioms;

        let m = EntityManager { id_counter: 0, entities: Vec::new(), subscriptions: HashMap::new() };
        assert(m.ids() =~= Seq::<usize>::empty());
        assert(m.subscriptions() =~= Map::<usize, Set<usize>>::empty());
        m
    }

    proof fn lemma_slot(&self, id: usize)
        requires
            self.wf(),
            self.contains(id),
        ensures
            0 <= self.slot(id) < self.ids().len(),
            self.ids()[self.slot(id)] == id,
            forall|j: int| 0 <= j < self.ids().len() && self.ids()[j] == id ==> j == self.slot(id),
    {
        let w = self.slot(id);
        assert forall|j: int| 0 <= j < self.ids().len() && self.ids()[j] == id implies j == w by {
            if j < w {
                assert(self.entities@[j].0 < self.entities@[w].0);
            } else if w < j {
                assert(self.entities@[w].0 < self.entities@[j].0);
            }
        }
    }

    fn find(&self, id: usize) -> (r: Option<usize>)
        requires
            self.wf(),
        ensures
            match r {
                Some(i) => self.contains(id) && i == self.slot(id) && i < self.entities@.len()
                    && self.entities@[i as int].0 == id,
                None => !self.contains(id),
            },
    {
        let mut i: usize = 0;
        while i < self.entities.len()
            invariant
                self.wf(),
                i <= self.entities@.len(),
                forall|j: int| 0 <= j < i ==> self.entities@[j].0 != id,
            decreases self.entities@.len() - i,
        {
            if self.entities[i].0 == id {
                proof {
                    assert(self.ids()[i as int] == id);
                    let w = self.slot(id);
                    assert(0 <= w < self.ids().len() && self.ids()[w] == id);
                    assert(self.entities@[w].0 == id);
                    if w < i {
                        assert(self.entities@[w].0 != id);
                    } else if i < w {
                        assert(self.entities@[i as int].0 < self.entities@[w].0);
                    }
                }
                return Some(i);
            }
            i = i + 1;
        }
        proof {
            if self.contains(id) {
                let k = choose|k: int| 0 <= k < self.ids().len() && self.ids()[k] == id;
                assert(self.entities@[k].0 == id);
            }
        }
        None
    }

    /// Takes the entity under a new id, with no subscriptions; ids are
    /// given in increasing order and never reused.
    pub fn add_entity(&mut self, entity: E) -> (id: usize)
        requires
            old(self).wf(),
            old(self).next_id() < usize::MAX,
        ensures
            final(self).wf(),
            id == old(self).next_id(),
            !old(self).contains(id),
            final(self).next_id() == id + 1,
            final(self).ids() == old(self).ids().push(id),
            final(self).entity_seq() == old(self).entity_seq().push(entity),
            final(self).subscriptions() == old(self).subscriptions().insert(id, Set::empty()),
            final(self).contains(id),
            final(self).entity(id) == entity,
            forall|x: usize| #[trigger] old(self).contains(x) ==> x < id,
            forall|x: usize|
                #![trigger final(self).entity(x)]
                old(self).contains(x) ==> final(self).entity(x) == old(self).entity(x),
    {
        broadcast use vstd::std_specs::hash::group_hash_axioms;

        proof {
            old(self).lemma_ids_below_next_id();
        }
        let id = self.id_counter;
        self.id_counter = self.id_counter + 1;
        proof {
            if old(self).contains(id) {
                let k = choose|k: int| 0 <= k < old(self).ids().len() && old(self).ids()[k] == id;
                assert(old(self).entities@[k].0 < old(self).id_counter);
            }
        }
        self.entities.push((id, entity));
        self.subscriptions.insert(id, HashSet::new());
        assert(self.ids() =~= old(self).ids().push(id));
        assert(self.entity_seq() =~= old(self).entity_seq().push(entity));
        assert(self.subscriptions() =~= old(self).subscriptions().insert(id, Set::empty()));
        proof {
            let last = old(self).ids().len() as int;
            assert(self.ids()[last] == id);
            self.lemma_slot(id);
            assert forall|x: usize|
                #![trigger self.entity(x)]
                old(self).contains(x) implies self.entity(x) == old(self).entity(x) by {
                old(self).lemma_slot(x);
                assert(self.ids()[old(self).slot(x)] == x);
                self.lemma_slot(x);
            }
        }
        id
    }

    pub fn get_entity(&self, id: usize) -> (r: &E)
        requires
            self.wf(),
            self.contains(id),
        ensures
            *r == self.entity(id),
    {
        match self.find(id) {
            Some(i) => &self.entities[i].1,
            None => {
                assert(false);
                &self.entities[0].1
            },
        }
    }

    /// The entities with their ids, in increasing id order.
    pub fn entities(&self) -> (r: &[(usize, E)])
        ensures
            r@.map_values(|p: (usize, E)| p.0) == self.ids(),
            r@.map_values(|p: (usize, E)| p.1) == self.entity_seq(),
    {
        self.entities.as_slice()
    }

    /// The entities with their ids, to change in place. What is left in it
    /// afterwards is what the registry holds; when the ids are left as they
    /// were, the registry is well formed again.
    pub fn entities_mut(&mut self) -> (r: &mut Vec<(usize, E)>)
        ensures
            r@.map_values(|p: (usize, E)| p.0) == old(self).ids(),
            r@.map_values(|p: (usize, E)| p.1) == old(self).entity_seq(),
            final(r)@.map_values(|p: (usize, E)| p.0) == final(self).ids(),
            final(r)@.map_values(|p: (usize, E)| p.1) == final(self).entity_seq(),
            final(self).next_id() == old(self).next_id(),
            final(self).subscriptions() == old(self).subscriptions(),
            old(self).wf() && final(self).ids() == old(self).ids() ==> final(self).wf(),
    {
        &mut self.entities
    }

    /// Every id the registry holds is below `next_id`: the id `add_entity`
    /// hands out next was never handed out before, whatever was removed since.
    pub proof fn lemma_ids_below_next_id(&self)
        requires
            self.wf(),
        ensures
            forall|x: usize| #[trigger] self.contains(x) ==> x < self.next_id(),
    {
        assert forall|x: usize| #[trigger] self.contains(x) implies x < self.next_id() by {
            let j = choose|j: int| 0 <= j < self.ids().len() && self.ids()[j] == x;
            assert(self.entities@[j].0 == x);
        }
    }

    /// Every id the registry holds has a set of subscriptions.
    pub proof fn lemma_ids_have_subscriptions(&self)
        requires
            self.wf(),
        ensures
            forall|x: usize| #[trigger] self.contains(x) ==> self.subscriptions().contains_key(x),
    {
        assert forall|x: usize| #[trigger] self.contains(x) implies self.subscriptions().contains_key(
            x,
        ) by {
            let j = choose|j: int| 0 <= j < self.ids().len() && self.ids()[j] == x;
            assert(self.entities@[j].0 == x);
        }
    }

    pub fn get_entity_mut(&mut self, id: usize) -> (r: &mut E)
        requires
            old(self).wf(),
            old(self).contains(id),
        ensures
            *r == old(self).entity(id),
            final(self).wf(),
            final(self).next_id() == old(self).next_id(),
            final(self).ids() == old(self).ids(),
            final(self).subscriptions() == old(self).subscriptions(),
            final(self).entity_seq() == old(self).entity_seq().update(old(self).slot(id), *final(r)),
    {
        let i = match self.find(id) {
            Some(i) => i,
            None => {
                assert(false);
                0
            },
        };
        entity_in_slot(&mut self.entities, i)
    }
}

/// The entity held in slot `i`, to change in place; the ids stay.
fn entity_in_slot<E>(entities: &mut Vec<(usize, E)>, i: usize) -> (r: &mut E)
    requires
        i < old(entities)@.len(),
    ensures
        *r == old(entities)@[i as int].1,
        final(entities)@ == old(entities)@.update(i as int, (old(entities)@[i as int].0, *final(r))),
        final(entities)@.map_values(|p: (usize, E)| p.0) == old(entities)@.map_values(
            |p: (usize, E)| p.0,
        ),
{
    &mut entities[i].1
}


/// `after` is what `before` becomes when the changes among what it
/// subscribes to are `common`: unchanged when it is excluded or `common` is
/// empty, else what being told of exactly the ids of `common` makes it.
pub open spec fn told_of<E: ReferentialSceneEntity>(
    before: E,
    after: E,
    excluded: bool,
    common: Set<usize>,
) -> bool {
    if excluded || common.is_empty() {
        after == before
    } else {
        exists|told: HashSet<usize>|
            told@ == common && after == before.after_modification(&told)
    }
}

impl<E: ReferentialSceneEntity> EntityManager<E> {
    /// Whether the subscriptions of `key` hold `id`.
    fn subscribes_to(&self, key: usize, id: usize) -> (b: bool)
        requires
            self.subscriptions().contains_key(key),
        ensures
            b == self.subscriptions()[key].contains(id),
    {
        broadcast use vstd::std_specs::hash::group_hash_axioms;

        match self.subscriptions.get(&key) {
            Some(set) => set.contains(&id),
            None => false,
        }
    }

    /// Subscribes `subscriber` to `subscribee`; the subscriber is told when
    /// the subscription is new.
    pub fn subscribe(&mut self, subscriber: usize, subscribee: usize)
        requires
            old(self).wf(),
            old(self).subscriptions().contains_key(subscriber),
            !old(self).subscriptions()[subscriber].contains(subscribee) ==> old(self).contains(
                subscriber,
            ),
        ensures
            final(self).wf(),
            final(self).next_id() == old(self).next_id(),
            final(self).ids() == old(self).ids(),
            final(self).subscriptions() == old(self).subscriptions().insert(
                subscriber,
                old(self).subscriptions()[subscriber].insert(subscribee),
            ),
            old(self).subscriptions()[subscriber].contains(subscribee) ==> final(self).entity_seq()
                == old(self).entity_seq(),
            !old(self).subscriptions()[subscriber].contains(subscribee) ==> final(self).entity(
                subscriber,
            ) == old(self).entity(subscriber).after_subscribe(subscribee),
            forall|x: usize|
                #![trigger final(self).entity(x)]
                old(self).contains(x) && x != subscriber ==> final(self).entity(x) == old(
                    self,
                ).entity(x),
    {
        broadcast use vstd::std_specs::hash::group_hash_axioms;

        let mut set = match self.subscriptions.remove(&subscriber) {
            Some(set) => set,
            None => HashSet::new(),
        };
        let inserted = set.insert(subscribee);
        self.subscriptions.insert(subscriber, set);
        assert(self.subscriptions() =~= old(self).subscriptions().insert(
            subscriber,
            old(self).subscriptions()[subscriber].insert(subscribee),
        ));
        if inserted {
            let entity = self.get_entity_mut(subscriber);
            entity.subscribe(subscribee);
        }
        proof {
            if inserted {
                old(self).lemma_slot(subscriber);
                self.lemma_slot(subscriber);
            }
            assert forall|x: usize|
                #![trigger self.entity(x)]
                old(self).contains(x) && x != subscriber implies self.entity(x) == old(self).entity(x) by {
                old(self).lemma_slot(x);
                if inserted {
                    old(self).lemma_slot(subscriber);
                }
            }
        }
    }

    /// Unsubscribes `subscriber` from `subscribee`; the subscriber is told
    /// when there was such a subscription.
    pub fn unsubscribe(&mut self, subscriber: usize, subscribee: usize)
        requires
            old(self).wf(),
            old(self).subscriptions().contains_key(subscriber),
            old(self).subscriptions()[subscriber].contains(subscribee) ==> old(self).contains(
                subscriber,
            ),
        ensures
            final(self).wf(),
            final(self).next_id() == old(self).next_id(),
            final(self).ids() == old(self).ids(),
            final(self).subscriptions() == old(self).subscriptions().insert(
                subscriber,
                old(self).subscriptions()[subscriber].remove(subscribee),
            ),
            !old(self).subscriptions()[subscriber].contains(subscribee) ==> final(self).entity_seq()
                == old(self).entity_seq(),
            old(self).subscriptions()[subscriber].contains(subscribee) ==> final(self).entity(
                subscriber,
            ) == old(self).entity(subscriber).after_unsubscribe(subscribee),
            forall|x: usize|
                #![trigger final(self).entity(x)]
                old(self).contains(x) && x != subscriber ==> final(self).entity(x) == old(
                    self,
                ).entity(x),
    {
        broadcast use vstd::std_specs::hash::group_hash_axioms;

        let mut set = match self.subscriptions.remove(&subscriber) {
            Some(set) => set,
            None => HashSet::new(),
        };
        let removed = set.remove(&subscribee);
        self.subscriptions.insert(subscriber, set);
        assert(self.subscriptions() =~= old(self).subscriptions().insert(
            subscriber,
            old(self).subscriptions()[subscriber].remove(subscribee),
        ));
        if removed {
            let entity = self.get_entity_mut(subscriber);
            entity.unsubscribe(subscribee);
        }
        proof {
            if removed {
                old(self).lemma_slot(subscriber);
                self.lemma_slot(subscriber);
            }
            assert forall|x: usize|
                #![trigger self.entity(x)]
                old(self).contains(x) && x != subscriber implies self.entity(x) == old(self).entity(x) by {
                old(self).lemma_slot(x);
                if removed {
                    old(self).lemma_slot(subscriber);
                }
            }
        }
    }

    /// The entity under `k` subscribes to `removed_id` and does not let
    /// `deleted` go.
    pub open spec fn refuses(&self, k: usize, removed_id: usize, deleted: HashSet<usize>) -> bool {
        &&& self.contains(k)
        &&& self.subscriptions()[k].contains(removed_id)
        &&& !self.entity(k).allows_deletion(&deleted)
    }

    /// What removing `removed_id` does, the subscribers being asked and told
    /// with `deleted`: the least refusing subscriber stops it, leaving all as
    /// it was; else the entity goes and each subscriber becomes what the
    /// deletion makes it, the others staying as they were.
    pub open spec fn removal(
        before: Self,
        after: Self,
        r: Option<usize>,
        removed_id: usize,
        deleted: HashSet<usize>,
    ) -> bool {
        match r {
            Some(k) => {
                &&& before.refuses(k, removed_id, deleted)
                &&& forall|j: usize| j < k ==> !before.refuses(j, removed_id, deleted)
                &&& after.ids() == before.ids()
                &&& after.entity_seq() == before.entity_seq()
            },
            None => {
                &&& forall|j: usize| !before.refuses(j, removed_id, deleted)
                &&& forall|x: usize|
                    #![trigger after.contains(x)]
                    after.contains(x) <==> before.contains(x) && x != removed_id
                &&& forall|x: usize|
                    #![trigger after.entity(x)]
                    after.contains(x) ==> after.entity(x) == (if before.subscriptions()[x].contains(
                        removed_id,
                    ) {
                        before.entity(x).after_deletion(&deleted)
                    } else {
                        before.entity(x)
                    })
            },
        }
    }

    /// Removes an entity unless one of the entities subscribed to it refuses
    /// (asked in id order): then nothing changes and the first refusing id is
    /// returned. After a removal the subscribers are told; subscriptions are
    /// kept as they are. Every entity is asked and told with the same set,
    /// holding `removed_id` alone.
    pub fn remove_entity(&mut self, removed_id: usize) -> (r: Option<usize>)
        requires
            old(self).wf(),
        ensures
            final(self).wf(),
            final(self).next_id() == old(self).next_id(),
            final(self).subscriptions() == old(self).subscriptions(),
            exists|deleted: HashSet<usize>|
                deleted@ == Set::<usize>::empty().insert(removed_id) && #[trigger] Self::removal(
                    *old(self),
                    *final(self),
                    r,
                    removed_id,
                    deleted,
                ),
    {
        broadcast use vstd::std_specs::hash::group_hash_axioms;

        let mut deleted: HashSet<usize> = HashSet::new();
        deleted.insert(removed_id);
        assert(deleted@ =~= Set::<usize>::empty().insert(removed_id));
        let mut i: usize = 0;
        while i < self.entities.len()
            invariant
                self.wf(),
                self == old(self),
                i <= self.entities@.len(),
                deleted@ == Set::<usize>::empty().insert(removed_id),
                forall|j: int|
                    0 <= j < i ==> !self.refuses(#[trigger] self.entities@[j].0, removed_id, deleted),
            decreases self.entities@.len() - i,
        {
            let key = self.entities[i].0;
            assert(self.ids()[i as int] == self.entities@[i as int].0);
            assert(self.subscriptions@.contains_key(self.entities@[i as int].0));
            proof {
                assert(self.ids()[i as int] == key);
                self.lemma_slot(key);
            }
            if self.subscribes_to(key, removed_id) && !self.entities[i].1.allow_deletion(&deleted) {
                proof {
                    assert(self.refuses(key, removed_id, deleted));
                    assert forall|j: usize| j < key implies !self.refuses(j, removed_id, deleted) by {
                        if self.contains(j) {
                            self.lemma_slot(j);
                            let sj = self.slot(j);
                            if sj >= i {
                                if sj > i {
                                    assert(self.entities@[i as int].0 < self.entities@[sj].0);
                                }
                            } else {
                                assert(self.entities@[sj].0 == j);
                            }
                        }
                    }
                    assert(Self::removal(*old(self), *self, Some(key), removed_id, deleted));
                }
                return Some(key);
            }
            proof {
                assert(!self.refuses(key, removed_id, deleted));
            }
            i = i + 1;
        }
        proof {
            assert forall|j: usize| !self.refuses(j, removed_id, deleted) by {
                if self.contains(j) {
                    self.lemma_slot(j);
                    assert(self.entities@[self.slot(j)].0 == j);
                }
            }
        }
        let ghost before = self.entities@;
        let ghost mut gone: int = -1;
        match self.find(removed_id) {
            Some(k) => {
                proof {
                    gone = k as int;
                    self.lemma_slot(removed_id);
                }
                self.entities.remove(k);
            },
            None => {},
        }
        let ghost after = self.entities@;
        proof {
            assert(before == old(self).entities@);
            if gone >= 0 {
                assert(after =~= before.remove(gone));
            } else {
                assert(after =~= before);
            }
            assert forall|j: int| 0 <= j < after.len() implies after[j] == before[if gone >= 0 && j >= gone {
                j + 1
            } else {
                j
            }] by {}
            assert(self.ids() =~= after.map_values(|p: (usize, E)| p.0));
            assert forall|a: int, b: int| 0 <= a < b < self.ids().len() implies self.ids()[a]
                < self.ids()[b] by {
                let aa = if gone >= 0 && a >= gone { a + 1 } else { a };
                let bb = if gone >= 0 && b >= gone { b + 1 } else { b };
                assert(self.ids()[a] == after[a].0);
                assert(self.ids()[b] == after[b].0);
                assert(old(self).ids()[aa] == before[aa].0);
                assert(old(self).ids()[bb] == before[bb].0);
                assert(old(self).ids()[aa] < old(self).ids()[bb]);
            }
            assert forall|a: int| 0 <= a < self.ids().len() implies #[trigger] self.ids()[a]
                < self.next_id() && self.subscriptions().contains_key(self.ids()[a]) by {
                let aa = if gone >= 0 && a >= gone { a + 1 } else { a };
                assert(self.ids()[a] == after[a].0);
                assert(old(self).ids()[aa] == before[aa].0);
                assert(old(self).ids()[aa] < old(self).next_id());
                assert(old(self).subscriptions().contains_key(old(self).ids()[aa]));
            }
            assert(self.wf());
        }
        let ghost after_ids = after.map_values(|p: (usize, E)| p.0);
        let mut i: usize = 0;
        while i < self.entities.len()
            invariant
                self.wf(),
                self.ids() == after_ids,
                after_ids == after.map_values(|p: (usize, E)| p.0),
                i <= self.entities@.len(),
                self.entities@.len() == after.len(),
                self.id_counter == old(self).id_counter,
                self.subscriptions == old(self).subscriptions,
                deleted@ == Set::<usize>::empty().insert(removed_id),
                forall|j: int| 0 <= j < after.len() ==> (#[trigger] self.entities@[j]).0 == after[j].0,
                forall|j: int| i <= j < self.entities@.len() ==> self.entities@[j] == after[j],
                forall|j: int|
                    0 <= j < i ==> (#[trigger] self.entities@[j]).1 == (if self.subscriptions()[after[j].0].contains(
                        removed_id,
                    ) {
                        after[j].1.after_deletion(&deleted)
                    } else {
                        after[j].1
                    }),
            decreases self.entities@.len() - i,
        {
            let ghost prev = self.entities@;
            let key = self.entities[i].0;
            assert(self.ids()[i as int] == self.entities@[i as int].0);
            assert(self.subscriptions@.contains_key(self.entities@[i as int].0));
            if self.subscribes_to(key, removed_id) {
                entity_in_slot(&mut self.entities, i).notify_about_deletion(&deleted);
            }
            proof {
                assert forall|j: int| 0 <= j < i implies self.entities@[j] == prev[j] by {}
            }
            i = i + 1;
        }
        proof {
            assert(self.ids() =~= after.map_values(|p: (usize, E)| p.0));
            assert forall|x: usize|
                #![trigger self.contains(x)]
                self.contains(x) <==> old(self).contains(x) && x != removed_id by {
                if self.contains(x) {
                    let j = choose|j: int| 0 <= j < self.ids().len() && self.ids()[j] == x;
                    let jj = if gone >= 0 && j >= gone { j + 1 } else { j };
                    assert(old(self).ids()[jj] == x);
                    if x == removed_id {
                        assert(gone >= 0);
                        assert(jj != gone);
                    }
                }
                if old(self).contains(x) && x != removed_id {
                    let jj = choose|j: int| 0 <= j < old(self).ids().len() && old(self).ids()[j] == x;
                    if gone >= 0 {
                        assert(jj != gone);
                        let j = if jj > gone { jj - 1 } else { jj };
                        assert(self.ids()[j] == x);
                    } else {
                        assert(self.ids()[jj] == x);
                    }
                }
            }
            assert forall|x: usize|
                #![trigger self.entity(x)]
                self.contains(x) implies self.entity(x) == (if old(self).subscriptions()[x].contains(
                    removed_id,
                ) {
                    old(self).entity(x).after_deletion(&deleted)
                } else {
                    old(self).entity(x)
                }) by {
                self.lemma_slot(x);
                let j = self.slot(x);
                let jj = if gone >= 0 && j >= gone { j + 1 } else { j };
                assert(old(self).ids()[jj] == x);
                old(self).lemma_slot(x);
                assert(after[j] == before[jj]);
            }
            assert(Self::removal(*old(self), *self, None, removed_id, deleted));
        }
        None
    }

    /// Tells each entity, except those in `exclude`, which of `changes` it
    /// subscribes to, when that is any.
    pub fn notify_about_modifications(&mut self, exclude: &HashSet<usize>, changes: &HashSet<usize>)
        requires
            old(self).wf(),
        ensures
            final(self).wf(),
            final(self).next_id() == old(self).next_id(),
            final(self).ids() == old(self).ids(),
            final(self).subscriptions() == old(self).subscriptions(),
            forall|x: usize|
                #![trigger final(self).entity(x)]
                old(self).contains(x) ==> told_of(
                    old(self).entity(x),
                    final(self).entity(x),
                    exclude@.contains(x),
                    changes@.intersect(old(self).subscriptions()[x]),
                ),
    {
        broadcast use vstd::std_specs::hash::group_hash_axioms;

        let ghost start = self.entities@;
        let mut i: usize = 0;
        while i < self.entities.len()
            invariant
                self.wf(),
                self.ids() == old(self).ids(),
                i <= self.entities@.len(),
                self.entities@.len() == start.len(),
                self.id_counter == old(self).id_counter,
                self.subscriptions == old(self).subscriptions,
                start == old(self).entities@,
                forall|j: int| 0 <= j < start.len() ==> (#[trigger] self.entities@[j]).0 == start[j].0,
                forall|j: int| i <= j < self.entities@.len() ==> self.entities@[j] == start[j],
                forall|j: int|
                    0 <= j < i ==> told_of(
                        start[j].1,
                        (#[trigger] self.entities@[j]).1,
                        exclude@.contains(start[j].0),
                        changes@.intersect(self.subscriptions()[start[j].0]),
                    ),
            decreases self.entities@.len() - i,
        {
            let ghost prev = self.entities@;
            let key = self.entities[i].0;
            assert(self.ids()[i as int] == self.entities@[i as int].0);
            assert(self.subscriptions@.contains_key(self.entities@[i as int].0));
            if !exclude.contains(&key) {
                let common = match self.subscriptions.get(&key) {
                    Some(set) => intersection(changes, set),
                    None => HashSet::new(),
                };
                if !common.is_empty() {
                    let ghost before = self.entities@[i as int].1;
                    entity_in_slot(&mut self.entities, i).notify_about_modification(&common);
                    proof {
                        assert(common@ == changes@.intersect(self.subscriptions()[start[i as int].0]));
                        assert(self.entities@[i as int].1 == before.after_modification(&common));
                    }
                }
            }
            proof {
                assert forall|j: int| 0 <= j < i + 1 implies told_of(
                    start[j].1,
                    (#[trigger] self.entities@[j]).1,
                    exclude@.contains(start[j].0),
                    changes@.intersect(self.subscriptions()[start[j].0]),
                ) by {
                    if j < i {
                        assert(self.entities@[j] == prev[j]);
                    }
                }
            }
            i = i + 1;
        }
        proof {
            assert(self.ids() =~= old(self).ids());
            assert forall|x: usize|
                #![trigger self.entity(x)]
                old(self).contains(x) implies told_of(
                    old(self).entity(x),
                    self.entity(x),
                    exclude@.contains(x),
                    changes@.intersect(old(self).subscriptions()[x]),
                ) by {
                old(self).lemma_slot(x);
                self.lemma_slot(x);
                assert(self.entities@[self.slot(x)].1 == self.entity(x));
            }
        }
    }
}

/// Unsubscribing undoes a subscription that was new: after `subscribe` and
/// then `unsubscribe` of the same pair the subscriptions are as before.
pub proof fn lemma_unsubscribe_undoes_subscribe(
    subscriptions: Map<usize, Set<usize>>,
    subscriber: usize,
    subscribee: usize,
)
    requires
        subscriptions.contains_key(subscriber),
        !subscriptions[subscriber].contains(subscribee),
    ensures
        ({
            let subscribed = subscriptions.insert(
                subscriber,
                subscriptions[subscriber].insert(subscribee),
            );
            subscribed.insert(subscriber, subscribed[subscriber].remove(subscribee))
                == subscriptions
        }),
{
    let subscribed = subscriptions.insert(subscriber, subscriptions[subscriber].insert(subscribee));
    assert(subscribed[subscriber].remove(subscribee) =~= subscriptions[subscriber]);
    assert(subscribed.insert(subscriber, subscribed[subscriber].remove(subscribee))
        =~= subscriptions);
}

} // verus!
