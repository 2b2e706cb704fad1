//! The lifecycle that every view implements: built once, rebuilt any number
//! of times, razed at the end.

use vstd::prelude::*;
use bevy::ecs::world::World;
use crate::cx::Cx;
use crate::layout::{build_frame, leaves_in_place, links_kept, lists_hold, lists_ok, stays_in_place};
use crate::node_span::{NodeSpan, SpanTree};
use crate::scene::{
    alive, covers, entity_bits, fresh_or_known, names_kept, no_new_edges, none_lost,
    others_spared, world_entities, world_ok,
};

verus! {

/// A value that can be built into the scene graph, rebuilt against it and
/// razed from it.
///
/// Each state owns a set of entities.  The rules of the lifecycle are stated
/// over that set: a view despawns only what its state owns, what it owns is
/// live until it is razed, and what it comes to own later did not exist
/// before.  Entities that existed before the build can be owned only if the
/// view names them as adopted.  Of the hierarchy a view touches only its own
/// part: the links among the entities it owns, and the place of the entities
/// it shows in the child list of their host.
pub trait UiView {
    type State;

    /// The entities, existing before the build, that this view takes over.
    open spec fn adopted(&self) -> Set<u64> {
        Set::empty()
    }

    /// The view can be built: it takes over no entity twice.
    open spec fn wf(&self) -> bool {
        true
    }

    /// The entities that a state owns.
    open spec fn owned(&self, state: &Self::State) -> Set<u64> {
        Set::empty()
    }

    /// The state is one that this view has built or rebuilt.
    open spec fn state_wf(&self, state: &Self::State) -> bool {
        true
    }

    /// The entities that a state shows.
    open spec fn span(&self, state: &Self::State) -> SpanTree {
        SpanTree::Empty
    }

    /// The child lists that a state expects of entities that it owns.
    open spec fn lists(&self, state: &Self::State) -> Map<u64, Seq<u64>> {
        Map::empty()
    }

    /// What building may do to the world.  A view that says nothing further
    /// allows everything that the lifecycle rules allow.
    open spec fn built(&self, pre: World, owner: u64, post: World, state: Self::State) -> bool {
        true
    }

    /// What rebuilding may do to the world and to the state.
    open spec fn rebuilt(
        &self,
        pre: World,
        owner: u64,
        before: Self::State,
        post: World,
        after: Self::State,
        changed: bool,
    ) -> bool {
        true
    }

    /// What razing may do to the world and to the state.
    open spec fn razed(&self, pre: World, before: Self::State, post: World, after: Self::State) -> bool {
        true
    }

    /// The entities that this view shows at present.
    fn nodes(&self, state: &Self::State) -> (r: NodeSpan)
        ensures
            r@ == self.span(state),
    ;

    /// Builds the view into the world of `cx` and returns its state.  The
    /// world has to be quiet and its hierarchy consistent, the owner live,
    /// and the entities that the view takes over live and other than the
    /// owner.
    fn build(&self, cx: &mut Cx) -> (state: Self::State)
        requires
            self.wf(),
            world_ok(*old(cx).world),
            alive(*old(cx).world, entity_bits(old(cx).owner)),
            self.adopted().subset_of(world_entities(*old(cx).world)),
            !self.adopted().contains(entity_bits(old(cx).owner)),
        ensures
            final(cx).owner == old(cx).owner,
            // Nothing is despawned; what the state owns is live, and was
            // made by this build unless it was taken over.
            none_lost(*old(cx).world, *final(cx).world),
            self.state_wf(&state),
            self.owned(&state).subset_of(world_entities(*final(cx).world)),
            fresh_or_known(self.owned(&state), *old(cx).world, self.adopted()),
            // What is shown is owned, and no entity is shown twice.
            covers(self.owned(&state), self.span(&state).flat()),
            self.span(&state).flat().no_duplicates(),
            // The world is quiet and its hierarchy consistent, the child
            // lists that the state expects are in place, and the lists and
            // links of other entities are as they were.
            world_ok(*final(cx).world),
            lists_ok(self.lists(&state), self.owned(&state), self.span(&state).flat()),
            lists_hold(*final(cx).world, self.lists(&state)),
            build_frame(*old(cx).world, *final(cx).world, self.adopted()),
            // Only the owner and what was taken over may have a new name.
            names_kept(
                *old(cx).world,
                *final(cx).world,
                self.adopted().insert(entity_bits(old(cx).owner)),
            ),
            self.built(*old(cx).world, entity_bits(old(cx).owner), *final(cx).world, state),
    ;

    /// Brings the view up to date and says whether the entities that it
    /// shows have changed.  The state has to be this view's own and what it
    /// owns live; the owner has to be live and not owned by the state.
    fn rebuild(&self, cx: &mut Cx, state: &mut Self::State) -> (changed: bool)
        requires
            self.state_wf(old(state)),
            world_ok(*old(cx).world),
            alive(*old(cx).world, entity_bits(old(cx).owner)),
            !self.owned(old(state)).contains(entity_bits(old(cx).owner)),
            self.owned(old(state)).subset_of(world_entities(*old(cx).world)),
        ensures
            final(cx).owner == old(cx).owner,
            // Only what the state owned is despawned; what it owns now is
            // live, and was made by this rebuild unless it was owned before.
            self.state_wf(final(state)),
            others_spared(*old(cx).world, *final(cx).world, self.owned(old(state))),
            self.owned(final(state)).subset_of(world_entities(*final(cx).world)),
            fresh_or_known(self.owned(final(state)), *old(cx).world, self.owned(old(state))),
            // What is shown is owned, and no entity is shown twice; a change
            // is reported exactly where what is shown has changed.
            covers(self.owned(final(state)), self.span(final(state)).flat()),
            self.span(final(state)).flat().no_duplicates(),
            changed <==> self.span(final(state)) != self.span(old(state)),
            // The world is quiet and its hierarchy consistent, the state
            // stays in place under its host, and the rest of the hierarchy
            // is as it was.
            world_ok(*final(cx).world),
            lists_ok(
                self.lists(final(state)),
                self.owned(final(state)),
                self.span(final(state)).flat(),
            ),
            stays_in_place(
                *old(cx).world,
                self.lists(old(state)),
                self.span(old(state)).flat(),
                self.owned(old(state)),
                *final(cx).world,
                self.lists(final(state)),
                self.span(final(state)).flat(),
                self.owned(final(state)),
                changed,
            ),
            // Only the owner and what the state owned may have a new name.
            names_kept(
                *old(cx).world,
                *final(cx).world,
                self.owned(old(state)).insert(entity_bits(old(cx).owner)),
            ),
            self.rebuilt(
                *old(cx).world,
                entity_bits(old(cx).owner),
                *old(state),
                *final(cx).world,
                *final(state),
                changed,
            ),
    ;

    /// Removes from the world everything that the state owns.  The state
    /// has to be this view's own and what it owns live.
    fn raze(&self, world: &mut World, state: &mut Self::State)
        requires
            self.state_wf(old(state)),
            world_ok(*old(world)),
            self.owned(old(state)).subset_of(world_entities(*old(world))),
        ensures
            // Nothing is spawned, what the state owned is gone, and nothing
            // else is; the world is quiet, and its hierarchy is consistent
            // and has no new edge.
            world_ok(*final(world)),
            world_entities(*final(world)).subset_of(world_entities(*old(world))),
            world_entities(*final(world)).disjoint(self.owned(old(state))),
            others_spared(*old(world), *final(world), self.owned(old(state))),
            no_new_edges(*old(world), *final(world)),
            // What the state did not own keeps its name and its parent link,
            // and the child lists are as they were but for the entities
            // shown, which have left the list of their host.
            names_kept(*old(world), *final(world), self.owned(old(state))),
            links_kept(*old(world), *final(world), self.owned(old(state))),
            leaves_in_place(
                *old(world),
                self.lists(old(state)),
                self.span(old(state)).flat(),
                self.owned(old(state)),
                *final(world),
            ),
            self.razed(*old(world), *old(state), *final(world), *final(state)),
    ;
}

} // verus!
