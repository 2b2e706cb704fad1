//! The effect through which an element is styled.

use vstd::prelude::*;
use bevy::ecs::entity::Entity;
use bevy::ecs::world::World;
use crate::cx::Cx;
use crate::effects::EntityEffect;
use crate::scene::{alive, entity_bits, same_scene, world_quiet};

verus! {

/// A set of styles that can be written to an entity.  Writing touches
/// style components only: liveness, names and hierarchy stay as they are.
pub trait StyleSet {
    /// What writing the styles may do to the world.
    open spec fn styled(&self, pre: World, target: u64, post: World) -> bool {
        true
    }

    /// Evaluates the styles against `target` and writes the result to it.
    fn apply_styles(&self, world: &mut World, target: Entity)
        requires
            world_quiet(*old(world)),
            alive(*old(world), entity_bits(target)),
        ensures
            world_quiet(*final(world)),
            same_scene(*old(world), *final(world)),
            self.styled(*old(world), entity_bits(target), *final(world)),
    ;
}

/// The empty set of styles writes nothing.
impl StyleSet for () {
    open spec fn styled(&self, pre: World, target: u64, post: World) -> bool {
        post == pre
    }

    fn apply_styles(&self, world: &mut World, target: Entity) {
    }
}

/// Writes a set of styles when the element is built and writes them again,
/// evaluated afresh, on every rebuild.
pub struct ApplyStylesEffect<S: StyleSet> {
    pub styles: S,
}

impl<S: StyleSet> EntityEffect for ApplyStylesEffect<S> {
    type State = ();

    open spec fn applied(&self, pre: World, target: u64, post: World, state: ()) -> bool {
        self.styles.styled(pre, target, post)
    }

    open spec fn reapplied(&self, pre: World, target: u64, before: (), post: World, after: ()) -> bool {
        self.styles.styled(pre, target, post)
    }

    fn apply(&self, cx: &mut Cx, target: Entity) -> (state: ()) {
        self.styles.apply_styles(cx.world, target);
    }

    fn reapply(&self, cx: &mut Cx, target: Entity, state: &mut ()) {
        self.styles.apply_styles(cx.world, target);
    }
}

} // verus!
