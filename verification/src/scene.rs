//! The model of the entity world that all contracts speak of, and the few
//! world operations that the views perform.
//!
//! The world itself is opaque.  Four observations describe what matters of
//! it here: the entities that are live, the names they carry, and the two
//! halves of the hierarchy (each entity's parent link and each entity's
//! ordered child list).  Entities appear in the model by their bit pattern.
//!
//! The world operations in this file call into the engine.  What they do
//! to the observations is believed, not proved; each says so and names what
//! it calls.  All of them ask for a quiet world and leave it quiet: see
//! [`world_quiet`].

use vstd::prelude::*;
use bevy::ecs::entity::Entity;
use bevy::ecs::world::World;
use bevy::hierarchy::BuildWorldChildren;
use bevy::prelude::Name;

verus! {

#[verifier::external_type_specification]
#[verifier::external_body]
pub struct ExWorld(World);

#[verifier::external_type_specification]
#[verifier::external_body]
pub struct ExEntity(Entity);

/// The 64-bit pattern of an entity handle, as `Entity::to_bits` gives it.
pub uninterp spec fn entity_bits(e: Entity) -> u64;

/// The entities that are live in a world.
pub uninterp spec fn world_entities(w: World) -> Set<u64>;

/// The text of the `Name` component of each entity that carries one.
pub uninterp spec fn world_names(w: World) -> Map<u64, Seq<char>>;

/// The value of the `Parent` component of each entity that carries one.
pub uninterp spec fn world_parents(w: World) -> Map<u64, u64>;

/// The contents of the `Children` component of each entity that carries one.
pub uninterp spec fn world_children(w: World) -> Map<u64, Seq<u64>>;

/// The world is quiet: nothing runs behind the caller's back, and the
/// hierarchy holds no handle from elsewhere.  That is: no component has a
/// hook, there is no observer, no command is queued and no entity is
/// reserved without being live; and every `Parent` and `Children` component
/// holds only handles that this world has given out.  `World::new` makes
/// such a world and the operations of this file keep it so.
pub uninterp spec fn world_quiet(w: World) -> bool;

/// Bit patterns of a sequence of entity handles, in order.
pub open spec fn bits_of(s: Seq<Entity>) -> Seq<u64> {
    s.map_values(|e: Entity| entity_bits(e))
}

/// Whether the entity with bit pattern `id` is live.
pub open spec fn alive(w: World, id: u64) -> bool {
    world_entities(w).contains(id)
}

/// The name of an entity, if it carries one.
pub open spec fn name_of(w: World, id: u64) -> Option<Seq<char>> {
    if world_names(w).dom().contains(id) {
        Some(world_names(w)[id])
    } else {
        None
    }
}

/// The parent link of an entity, if it carries one.
pub open spec fn parent_of(w: World, id: u64) -> Option<u64> {
    if world_parents(w).dom().contains(id) {
        Some(world_parents(w)[id])
    } else {
        None
    }
}

/// The ordered direct children of an entity; empty where it carries no list.
pub open spec fn kids(w: World, id: u64) -> Seq<u64> {
    if world_children(w).dom().contains(id) {
        world_children(w)[id]
    } else {
        Seq::empty()
    }
}

/// The hierarchy is consistent: whatever stands in a child list is live and
/// points back to the owner of that list, and whatever points to a live
/// parent stands in the child list of that parent.
pub open spec fn graph_ok(w: World) -> bool {
    forall|p: u64, c: u64|
        #![trigger kids(w, p).contains(c)]
        {
            &&& kids(w, p).contains(c) ==> alive(w, c) && parent_of(w, c) == Some(p)
            &&& parent_of(w, c) == Some(p) && alive(w, p) ==> kids(w, p).contains(c)
        }
}

/// The world is quiet and its hierarchy consistent.
pub open spec fn world_ok(w: World) -> bool {
    world_quiet(w) && graph_ok(w)
}

/// No entity points to `id` as its parent.
pub open spec fn unreferenced(w: World, id: u64) -> bool {
    forall|c: u64| #[trigger] parent_of(w, c) != Some(id)
}

/// Two worlds agree on liveness, names and hierarchy.
pub open spec fn same_scene(a: World, b: World) -> bool {
    &&& world_entities(a) == world_entities(b)
    &&& world_names(a) == world_names(b)
    &&& world_parents(a) == world_parents(b)
    &&& world_children(a) == world_children(b)
}

/// Every entity of `ids` is live in `w`.
pub open spec fn all_alive(w: World, ids: Seq<u64>) -> bool {
    forall|i: int| 0 <= i < ids.len() ==> alive(w, #[trigger] ids[i])
}

/// Every entity of `ids` is in `set`.
pub open spec fn covers(set: Set<u64>, ids: Seq<u64>) -> bool {
    forall|i: int| 0 <= i < ids.len() ==> set.contains(#[trigger] ids[i])
}

/// Whatever was live in `pre` is live in `post`.
pub open spec fn none_lost(pre: World, post: World) -> bool {
    world_entities(pre).subset_of(world_entities(post))
}

/// Whatever was live in `pre` and is not in `owned` is live in `post`.
pub open spec fn others_spared(pre: World, post: World, owned: Set<u64>) -> bool {
    forall|id: u64| #[trigger]
        world_entities(pre).contains(id) && !owned.contains(id) ==> world_entities(post).contains(
            id,
        )
}

/// Of the entities in `owned`, those that were live in `pre` are in `known`:
/// the others were made since.
pub open spec fn fresh_or_known(owned: Set<u64>, pre: World, known: Set<u64>) -> bool {
    forall|id: u64| #[trigger]
        owned.contains(id) && world_entities(pre).contains(id) ==> known.contains(id)
}

/// The entities that were live in `pre` carry in `post` the name they had,
/// but for those in `except`.
pub open spec fn names_kept(pre: World, post: World, except: Set<u64>) -> bool {
    forall|id: u64|
        alive(pre, id) && !except.contains(id) ==> #[trigger] name_of(post, id) == name_of(pre, id)
}

/// No entity has in `post` a child that it did not have in `pre`.
pub open spec fn no_new_edges(pre: World, post: World) -> bool {
    forall|p: u64, c: u64| #[trigger] kids(post, p).contains(c) ==> kids(pre, p).contains(c)
}

/// The parent link of `c` once the child list of `host` has been cleared.
pub open spec fn parent_after_clear(w: World, host: u64, c: u64) -> Option<u64> {
    if kids(w, host).contains(c) {
        None
    } else {
        parent_of(w, c)
    }
}

/// The test that every entity but `id` passes.
pub open spec fn is_other_than(id: u64) -> spec_fn(u64) -> bool {
    |c: u64| c != id
}

/// The test that an entity fails where it is one of `nodes` and, the child
/// list of `host` cleared, had `p` for its parent.
pub open spec fn stays_under(w: World, host: u64, nodes: Seq<u64>, p: u64) -> spec_fn(u64) -> bool {
    |c: u64| !(nodes.contains(c) && parent_after_clear(w, host, c) == Some(p))
}

/// The child list of `p != host` once `nodes` have been moved under `host`:
/// the entries that became children of `host` are gone, the rest keep their
/// order.
pub open spec fn kids_after_adoption(w: World, host: u64, nodes: Seq<u64>, p: u64) -> Seq<u64> {
    kids(w, p).filter(stays_under(w, host, nodes, p))
}

/// `post` is `pre` with the child list of `host` replaced by `nodes`: the
/// old children of `host` are cut loose, then each of `nodes` is given `host`
/// for its parent and taken out of the child list of the parent it had, and
/// `nodes` becomes the child list of `host`.
pub open spec fn children_replaced(pre: World, host: u64, nodes: Seq<u64>, post: World) -> bool {
    &&& world_entities(post) == world_entities(pre)
    &&& world_names(post) == world_names(pre)
    &&& forall|c: u64| #[trigger]
        parent_of(post, c) == if nodes.contains(c) {
            Some(host)
        } else {
            parent_after_clear(pre, host, c)
        }
    &&& forall|p: u64| #[trigger]
        kids(post, p) == if p == host {
            nodes
        } else {
            kids_after_adoption(pre, host, nodes, p)
        }
}

/// `post` is `pre` with entity `id` cut loose from its parent: its parent
/// link is gone, and so is every entry for it in the child list of the
/// parent it had.
pub open spec fn parent_removed(pre: World, id: u64, post: World) -> bool {
    &&& world_entities(post) == world_entities(pre)
    &&& world_names(post) == world_names(pre)
    &&& forall|c: u64| #[trigger]
        parent_of(post, c) == if c == id {
            None
        } else {
            parent_of(pre, c)
        }
    &&& forall|p: u64| #[trigger]
        kids(post, p) == if parent_of(pre, id) == Some(p) {
            kids(pre, p).filter(is_other_than(id))
        } else {
            kids(pre, p)
        }
}

/// `post` is `pre` without entity `id` and without anything it carried.
pub open spec fn entity_removed(pre: World, id: u64, post: World) -> bool {
    &&& world_entities(post) == world_entities(pre).remove(id)
    &&& world_names(post) == world_names(pre).remove(id)
    &&& world_parents(post) == world_parents(pre).remove(id)
    &&& world_children(post) == world_children(pre).remove(id)
}

/// `post` is `pre` with one more entity `id`, which carries nothing and to
/// which nothing points.
pub open spec fn entity_added(pre: World, id: u64, post: World) -> bool {
    &&& !alive(pre, id)
    &&& world_entities(post) == world_entities(pre).insert(id)
    &&& world_names(post) == world_names(pre)
    &&& world_parents(post) == world_parents(pre)
    &&& world_children(post) == world_children(pre)
    &&& name_of(post, id).is_none()
    &&& parent_of(post, id).is_none()
    &&& kids(post, id) == Seq::<u64>::empty()
    &&& unreferenced(pre, id)
}

/// `post` is `pre` with entity `id` carrying the name `name`.
pub open spec fn entity_named(pre: World, id: u64, name: Seq<char>, post: World) -> bool {
    &&& world_entities(post) == world_entities(pre)
    &&& world_names(post) == world_names(pre).insert(id, name)
    &&& world_parents(post) == world_parents(pre)
    &&& world_children(post) == world_children(pre)
}

/// Calls `World::new`.
///
/// Believed, not proved: the new world is quiet, and no entity is live in
/// it or carries anything.  The outside code fails only where the process
/// has used up its world identifiers, one for each world ever made.
#[verifier::external_body]
fn new_world() -> (r: World)
    ensures
        world_quiet(r),
        world_entities(r) == Set::<u64>::empty(),
        world_names(r).dom() == Set::<u64>::empty(),
        world_parents(r).dom() == Set::<u64>::empty(),
        world_children(r).dom() == Set::<u64>::empty(),
{
    World::new()
}

/// Calls `World::spawn_empty` and returns `EntityWorldMut::id`.
///
/// Believed, not proved, of a quiet world: it stays quiet; the entity
/// returned was not live before and is live now; it carries nothing, and no
/// entity points to it as its parent; liveness otherwise, names and
/// hierarchy are as before.
#[verifier::external_body]
fn spawn_empty(world: &mut World) -> (e: Entity)
    requires
        world_quiet(*old(world)),
    ensures
        world_quiet(*final(world)),
        !world_entities(*old(world)).contains(entity_bits(e)),
        world_entities(*final(world)) == world_entities(*old(world)).insert(entity_bits(e)),
        world_names(*final(world)) == world_names(*old(world)),
        world_parents(*final(world)) == world_parents(*old(world)),
        world_children(*final(world)) == world_children(*old(world)),
        !world_names(*final(world)).dom().contains(entity_bits(e)),
        !world_parents(*final(world)).dom().contains(entity_bits(e)),
        !world_children(*final(world)).dom().contains(entity_bits(e)),
        unreferenced(*old(world), entity_bits(e)),
{
    world.spawn_empty().id()
}

/// Calls `World::entity_mut` and `EntityWorldMut::insert` with a `Name`.
///
/// Believed, not proved, of a quiet world: it stays quiet; the entity then
/// carries exactly that name, and liveness, the other names and the
/// hierarchy are as before.  The entity has to be live, since `entity_mut`
/// panics otherwise.
#[verifier::external_body]
pub(crate) fn name_entity(world: &mut World, entity: Entity, name: &str)
    requires
        world_quiet(*old(world)),
        alive(*old(world), entity_bits(entity)),
    ensures
        world_quiet(*final(world)),
        world_entities(*final(world)) == world_entities(*old(world)),
        world_names(*final(world)) == world_names(*old(world)).insert(entity_bits(entity), name@),
        world_parents(*final(world)) == world_parents(*old(world)),
        world_children(*final(world)) == world_children(*old(world)),
{
    world.entity_mut(entity).insert(Name::new(name.to_string()));
}

/// Calls `World::entity_mut` and `BuildWorldChildren::replace_children`.
///
/// Believed, not proved, of a quiet world: it stays quiet; the child list
/// of `entity` is then exactly `children`; each of these points to `entity`
/// as its parent and has left the list of the parent it had before; the
/// former children that are not among them have no parent link; liveness
/// and names are as before.  The outside code panics where `entity`, a
/// former child or a new child is not live, and where `entity` is among its
/// new children.
#[verifier::external_body]
pub(crate) fn replace_children(world: &mut World, entity: Entity, children: &Vec<Entity>)
    requires
        world_quiet(*old(world)),
        alive(*old(world), entity_bits(entity)),
        all_alive(*old(world), kids(*old(world), entity_bits(entity))),
        all_alive(*old(world), bits_of(children@)),
        !bits_of(children@).contains(entity_bits(entity)),
    ensures
        world_quiet(*final(world)),
        children_replaced(*old(world), entity_bits(entity), bits_of(children@), *final(world)),
{
    world.entity_mut(entity).replace_children(children);
}

/// Calls `World::entity_mut` and `BuildWorldChildren::remove_parent`.
///
/// Believed, not proved, of a quiet world: it stays quiet; `entity` then
/// has no parent link and has left the child list of the parent it had;
/// liveness and names are as before.  The entity has to be live.
#[verifier::external_body]
pub(crate) fn remove_parent(world: &mut World, entity: Entity)
    requires
        world_quiet(*old(world)),
        alive(*old(world), entity_bits(entity)),
    ensures
        world_quiet(*final(world)),
        parent_removed(*old(world), entity_bits(entity), *final(world)),
{
    world.entity_mut(entity).remove_parent();
}

/// Calls `World::entity_mut` and `EntityWorldMut::despawn`.
///
/// Believed, not proved, of a quiet world: it stays quiet; `entity` is
/// then no longer live and carries nothing; every other entity is as
/// before, child lists that held it and parent links that point to it
/// included.  The entity has to be live.
#[verifier::external_body]
pub(crate) fn despawn(world: &mut World, entity: Entity)
    requires
        world_quiet(*old(world)),
        alive(*old(world), entity_bits(entity)),
    ensures
        world_quiet(*final(world)),
        world_entities(*final(world)) == world_entities(*old(world)).remove(entity_bits(entity)),
        world_names(*final(world)) == world_names(*old(world)).remove(entity_bits(entity)),
        world_parents(*final(world)) == world_parents(*old(world)).remove(entity_bits(entity)),
        world_children(*final(world)) == world_children(*old(world)).remove(entity_bits(entity)),
{
    world.entity_mut(entity).despawn();
}

/// A new world: quiet, consistent, and without any entity.
pub fn empty_world() -> (world: World)
    ensures
        world_ok(world),
        world_entities(world) == Set::<u64>::empty(),
        forall|id: u64| name_of(world, id).is_none() && parent_of(world, id).is_none() && kids(
            world,
            id,
        ) == Seq::<u64>::empty(),
{
    let world = new_world();
    assert forall|p: u64, c: u64| !(#[trigger] kids(world, p).contains(c)) by {
        assert(kids(world, p) =~= Seq::<u64>::empty());
    }
    world
}

/// Spawns an entity that carries nothing, such as the owner of a view.
pub fn spawn_bare(world: &mut World) -> (e: Entity)
    requires
        world_ok(*old(world)),
    ensures
        world_ok(*final(world)),
        entity_added(*old(world), entity_bits(e), *final(world)),
{
    let ghost pre = *world;
    let e = spawn_empty(world);
    proof {
        lemma_added_keeps_graph(pre, entity_bits(e), *world);
    }
    e
}

/// Two name tables that agree but for one entity agree once that entity is
/// given the same name in both.
pub proof fn lemma_renamed_alike(a: Map<u64, Seq<char>>, b: Map<u64, Seq<char>>, id: u64, name: Seq<char>)
    requires
        a.remove(id) == b.remove(id),
    ensures
        a.insert(id, name) == b.insert(id, name),
{
    assert forall|k: u64| a.insert(id, name).dom().contains(k) == b.insert(id, name).dom().contains(
        k,
    ) by {
        if k != id {
            assert(b.remove(id).dom().contains(k) == b.dom().contains(k));
        }
    }
    assert forall|k: u64| #[trigger]
        a.insert(id, name).dom().contains(k) implies a.insert(id, name)[k] == b.insert(id, name)[k] by {
        if k != id {
            assert(b.remove(id)[k] == b[k]);
        }
    }
}

/// In a consistent hierarchy the children of every entity are live.
pub proof fn lemma_kids_alive(w: World, p: u64)
    requires
        graph_ok(w),
    ensures
        all_alive(w, kids(w, p)),
{
    assert forall|i: int| 0 <= i < kids(w, p).len() implies alive(w, #[trigger] kids(w, p)[i]) by {
        assert(kids(w, p).contains(kids(w, p)[i]));
    }
}

/// Entities that a set covers and that are all live in a world.
pub proof fn lemma_covered_alive(w: World, set: Set<u64>, ids: Seq<u64>)
    requires
        covers(set, ids),
        set.subset_of(world_entities(w)),
    ensures
        all_alive(w, ids),
{
}

/// Two sequences without repetition, drawn from sets that share nothing,
/// make one sequence without repetition.
pub proof fn lemma_distinct_concat(a: Seq<u64>, b: Seq<u64>, sa: Set<u64>, sb: Set<u64>)
    requires
        a.no_duplicates(),
        b.no_duplicates(),
        covers(sa, a),
        covers(sb, b),
        sa.disjoint(sb),
    ensures
        (a + b).no_duplicates(),
        covers(sa.union(sb), a + b),
{
}

/// A filter that every member passes keeps the sequence as it is.
pub proof fn lemma_filter_all(s: Seq<u64>, pred: spec_fn(u64) -> bool)
    requires
        forall|i: int| 0 <= i < s.len() ==> pred(#[trigger] s[i]),
    ensures
        s.filter(pred) == s,
    decreases s.len(),
{
    reveal(Seq::filter);
    if s.len() > 0 {
        lemma_filter_all(s.drop_last(), pred);
    }
}

/// The test that an entity passes where it is none of `ids`.
pub open spec fn not_among(ids: Seq<u64>) -> spec_fn(u64) -> bool {
    |c: u64| !ids.contains(c)
}

/// Two tests that agree on the members of a sequence keep the same of it.
pub proof fn lemma_filter_same(s: Seq<u64>, p: spec_fn(u64) -> bool, q: spec_fn(u64) -> bool)
    requires
        forall|i: int| 0 <= i < s.len() ==> p(#[trigger] s[i]) == q(s[i]),
    ensures
        s.filter(p) == s.filter(q),
    decreases s.len(),
{
    reveal(Seq::filter);
    if s.len() > 0 {
        lemma_filter_same(s.drop_last(), p, q);
    }
}

/// Filtering by one test and then by another is filtering by both.
pub proof fn lemma_filter_twice(
    s: Seq<u64>,
    p: spec_fn(u64) -> bool,
    q: spec_fn(u64) -> bool,
    both: spec_fn(u64) -> bool,
)
    requires
        forall|x: u64| #[trigger] both(x) == (p(x) && q(x)),
    ensures
        s.filter(p).filter(q) == s.filter(both),
    decreases s.len(),
{
    reveal(Seq::filter);
    if s.len() > 0 {
        let rest = s.drop_last();
        lemma_filter_twice(rest, p, q, both);
        if p(s.last()) {
            let kept = rest.filter(p);
            assert(kept.push(s.last()).drop_last() =~= kept);
        }
    }
}

/// What a filter keeps: the members that pass.
pub proof fn lemma_filter_member(s: Seq<u64>, pred: spec_fn(u64) -> bool, x: u64)
    ensures
        s.filter(pred).contains(x) <==> s.contains(x) && pred(x),
{
    if s.filter(pred).contains(x) {
        s.lemma_filter_contains_rev(pred, x);
        let i = choose|i: int| 0 <= i < s.filter(pred).len() && s.filter(pred)[i] == x;
        s.lemma_filter_pred(pred, i);
    }
    if s.contains(x) && pred(x) {
        let i = choose|i: int| 0 <= i < s.len() && s[i] == x;
        s.lemma_filter_contains(pred, i);
    }
}

/// A consistent hierarchy stays consistent where the links are untouched,
/// no entity is lost, and nothing pointed to an entity that is new.
pub proof fn lemma_links_untouched(pre: World, post: World)
    requires
        graph_ok(pre),
        none_lost(pre, post),
        world_parents(post) == world_parents(pre),
        world_children(post) == world_children(pre),
        forall|p: u64| #[trigger] alive(post, p) && !alive(pre, p) ==> unreferenced(pre, p),
    ensures
        graph_ok(post),
        no_new_edges(pre, post),
{
    assert forall|p: u64, c: u64|
        #![trigger kids(post, p).contains(c)]
        (kids(post, p).contains(c) ==> alive(post, c) && parent_of(post, c) == Some(p)) && (
        parent_of(post, c) == Some(p) && alive(post, p) ==> kids(post, p).contains(c)) by {
        assert(kids(pre, p).contains(c) == kids(post, p).contains(c));
        if parent_of(post, c) == Some(p) && alive(post, p) && !alive(pre, p) {
            assert(parent_of(pre, c) != Some(p));
        }
    }
}

/// One more entity that carries nothing and to which nothing points keeps
/// the hierarchy consistent.
pub proof fn lemma_added_keeps_graph(pre: World, id: u64, post: World)
    requires
        graph_ok(pre),
        entity_added(pre, id, post),
    ensures
        graph_ok(post),
{
    lemma_links_untouched(pre, post);
}

/// Replacing the child list of a live entity by live entities keeps the
/// hierarchy consistent.
pub proof fn lemma_replaced_keeps_graph(pre: World, host: u64, nodes: Seq<u64>, post: World)
    requires
        graph_ok(pre),
        all_alive(pre, nodes),
        children_replaced(pre, host, nodes, post),
    ensures
        graph_ok(post),
{
    assert forall|p: u64, c: u64|
        #![trigger kids(post, p).contains(c)]
        (kids(post, p).contains(c) ==> alive(post, c) && parent_of(post, c) == Some(p)) && (
        parent_of(post, c) == Some(p) && alive(post, p) ==> kids(post, p).contains(c)) by {
        assert(parent_of(post, c) == if nodes.contains(c) {
            Some(host)
        } else {
            parent_after_clear(pre, host, c)
        });
        assert(kids(pre, p).contains(c) ==> alive(pre, c) && parent_of(pre, c) == Some(p));
        assert(kids(pre, host).contains(c) ==> parent_of(pre, c) == Some(host));
        if p == host {
            assert(kids(post, p) == nodes);
            if nodes.contains(c) {
                let i = choose|i: int| 0 <= i < nodes.len() && nodes[i] == c;
                assert(alive(pre, nodes[i]));
            }
        } else {
            assert(kids(post, p) == kids_after_adoption(pre, host, nodes, p));
            lemma_filter_member(kids(pre, p), stays_under(pre, host, nodes, p), c);
        }
    }
}

/// Cutting a live entity loose keeps the hierarchy consistent, adds no
/// edge, and leaves the entity in nobody's child list.
pub proof fn lemma_detached_keeps_graph(pre: World, id: u64, post: World)
    requires
        graph_ok(pre),
        parent_removed(pre, id, post),
    ensures
        graph_ok(post),
        no_new_edges(pre, post),
        forall|p: u64| !(#[trigger] kids(post, p)).contains(id),
{
    assert forall|p: u64, c: u64|
        #![trigger kids(post, p).contains(c)]
        (kids(post, p).contains(c) ==> alive(post, c) && parent_of(post, c) == Some(p) && kids(
            pre,
            p,
        ).contains(c) && c != id) && (parent_of(post, c) == Some(p) && alive(post, p) ==> kids(
            post,
            p,
        ).contains(c)) by {
        assert(parent_of(post, c) == if c == id {
            None
        } else {
            parent_of(pre, c)
        });
        assert(kids(pre, p).contains(c) ==> alive(pre, c) && parent_of(pre, c) == Some(p));
        if parent_of(pre, id) == Some(p) {
            assert(kids(post, p) == kids(pre, p).filter(is_other_than(id)));
            lemma_filter_member(kids(pre, p), is_other_than(id), c);
        } else {
            assert(kids(post, p) == kids(pre, p));
        }
    }
    assert forall|p: u64| !(#[trigger] kids(post, p)).contains(id) by {
        if kids(post, p).contains(id) {
        }
    }
    assert forall|p: u64, c: u64| #[trigger] kids(post, p).contains(c) implies kids(
        pre,
        p,
    ).contains(c) by {
    }
}

/// Despawning an entity that stands in nobody's child list keeps the
/// hierarchy consistent and adds no edge.
pub proof fn lemma_removed_keeps_graph(pre: World, id: u64, post: World)
    requires
        graph_ok(pre),
        entity_removed(pre, id, post),
        forall|p: u64| !(#[trigger] kids(pre, p)).contains(id),
    ensures
        graph_ok(post),
        no_new_edges(pre, post),
{
    assert forall|p: u64, c: u64|
        #![trigger kids(post, p).contains(c)]
        (kids(post, p).contains(c) ==> alive(post, c) && parent_of(post, c) == Some(p) && kids(
            pre,
            p,
        ).contains(c)) && (parent_of(post, c) == Some(p) && alive(post, p) ==> kids(
            post,
            p,
        ).contains(c)) by {
        assert(kids(pre, p).contains(c) ==> alive(pre, c) && parent_of(pre, c) == Some(p));
        if p != id {
            assert(kids(post, p) == kids(pre, p));
        }
    }
    assert forall|p: u64, c: u64| #[trigger] kids(post, p).contains(c) implies kids(
        pre,
        p,
    ).contains(c) by {
    }
}

/// Replacing the child list of `host` leaves the child list of another
/// entity as it is where none of its children moves under `host`.
pub proof fn lemma_replaced_elsewhere(pre: World, host: u64, nodes: Seq<u64>, post: World, p: u64)
    requires
        children_replaced(pre, host, nodes, post),
        p != host,
        forall|c: u64| #[trigger]
            kids(pre, p).contains(c) ==> !(nodes.contains(c) && parent_after_clear(pre, host, c)
                == Some(p)),
    ensures
        kids(post, p) == kids(pre, p),
{
    let pred = stays_under(pre, host, nodes, p);
    assert forall|i: int| 0 <= i < kids(pre, p).len() implies pred(#[trigger] kids(pre, p)[i]) by {
        assert(kids(pre, p).contains(kids(pre, p)[i]));
    }
    lemma_filter_all(kids(pre, p), pred);
}

/// Replacing the child list of `host` leaves the parent link of an entity as
/// it is where the entity is neither an old nor a new child of `host`.
pub proof fn lemma_replaced_link(pre: World, host: u64, nodes: Seq<u64>, post: World, c: u64)
    requires
        children_replaced(pre, host, nodes, post),
        !nodes.contains(c),
        !kids(pre, host).contains(c),
    ensures
        parent_of(post, c) == parent_of(pre, c),
{
}

} // verus!
