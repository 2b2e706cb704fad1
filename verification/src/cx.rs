//! The context handed to views and effects while they build.

use vstd::prelude::*;
use bevy::ecs::entity::Entity;
use bevy::ecs::world::World;

verus! {

/// Exclusive access to the world, together with the entity that owns the
/// view being built in the reactive graph.
pub struct Cx<'w> {
    pub owner: Entity,
    pub world: &'w mut World,
}

impl<'w> Cx<'w> {
    /// A context for the view owned by `owner`.
    pub fn new(world: &'w mut World, owner: Entity) -> (cx: Cx<'w>)
        ensures
            cx.owner == owner,
            *cx.world == *old(world),
            *final(cx.world) == *final(world),
    {
        Cx { owner, world }
    }

    /// The world, for writing.
    pub fn world_mut(&mut self) -> (w: &mut World)
        ensures
            *w == *old(self).world,
            *final(self).world == *final(w),
            final(self).owner == old(self).owner,
    {
        &mut *self.world
    }
}

} // verus!
