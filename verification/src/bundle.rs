//! The bundle of components that an element puts on its display entity.

use vstd::prelude::*;
use bevy::ecs::entity::Entity;
use bevy::ecs::world::World;
use crate::scene::{
    alive, entity_bits, kids, name_of, parent_of, spawn_bare, unreferenced, world_children,
    world_entities, world_names, world_ok, world_parents,
};

verus! {

/// `post` is `pre` with one more entity `id`, on which a bundle was put: the
/// other entities have the names they had, the hierarchy is as it was, and
/// the new entity stands outside it.
pub open spec fn bundle_spawned(pre: World, id: u64, post: World) -> bool {
    &&& !alive(pre, id)
    &&& world_entities(post) == world_entities(pre).insert(id)
    &&& world_names(post).remove(id) == world_names(pre).remove(id)
    &&& world_parents(post) == world_parents(pre)
    &&& world_children(post) == world_children(pre)
    &&& parent_of(post, id).is_none()
    &&& kids(post, id) == Seq::<u64>::empty()
    &&& unreferenced(pre, id)
}

/// `post` is `pre` with a bundle put on the live entity `id`: liveness and
/// hierarchy are as they were, and the other entities have the names they
/// had.
pub open spec fn bundle_put(pre: World, id: u64, post: World) -> bool {
    &&& world_entities(post) == world_entities(pre)
    &&& world_names(post).remove(id) == world_names(pre).remove(id)
    &&& world_parents(post) == world_parents(pre)
    &&& world_children(post) == world_children(pre)
}

/// A bundle of components, put in its default instance on the display
/// entity of an element.
///
/// The two operations hold the calls into the engine for one bundle type:
/// spawning an entity with the default instance, and inserting the default
/// instance into a live entity.  Who implements them promises what the
/// contracts say: the bundle holds no component twice, none of the
/// hierarchy, and none with a hook, so that a quiet world stays quiet and
/// nothing but the entity itself is touched.
pub trait DisplayBundle {
    /// What the world holds of the bundle once it is on entity `id`.  A
    /// bundle that says nothing further allows everything.
    open spec fn carried(pre: World, id: u64, post: World) -> bool {
        true
    }

    /// Spawns an entity with the default instance of the bundle.
    fn spawn_with(world: &mut World) -> (e: Entity)
        requires
            world_ok(*old(world)),
        ensures
            world_ok(*final(world)),
            bundle_spawned(*old(world), entity_bits(e), *final(world)),
            Self::carried(*old(world), entity_bits(e), *final(world)),
    ;

    /// Puts the default instance of the bundle on a live entity, in place
    /// of what the entity has of it.
    fn put_on(world: &mut World, entity: Entity)
        requires
            world_ok(*old(world)),
            alive(*old(world), entity_bits(entity)),
        ensures
            world_ok(*final(world)),
            bundle_put(*old(world), entity_bits(entity), *final(world)),
            Self::carried(*old(world), entity_bits(entity), *final(world)),
    ;
}

/// The empty bundle: an entity with it carries nothing more than without.
impl DisplayBundle for () {
    open spec fn carried(pre: World, id: u64, post: World) -> bool {
        name_of(post, id) == name_of(pre, id)
    }

    fn spawn_with(world: &mut World) -> (e: Entity) {
        spawn_bare(world)
    }

    fn put_on(world: &mut World, entity: Entity) {
    }
}

} // verus!
