//! Effects: hooks that write to one entity when an element is built and
//! again on every rebuild, and ordered tuples of them.

use vstd::prelude::*;
use bevy::ecs::entity::Entity;
use bevy::ecs::world::World;
use crate::cx::Cx;
use crate::scene::{alive, entity_bits, same_scene, world_quiet};

verus! {

/// A hook on one entity.  `apply` runs once, when the element that carries
/// the effect is first built; `reapply` runs on each rebuild.
///
/// An effect writes components of its target.  It neither spawns nor
/// despawns, renames nor reparents: liveness, names and hierarchy are after
/// each call what they were before it, and a quiet world stays quiet.
pub trait EntityEffect {
    type State;

    /// What a first application may do to the world.  An effect that says
    /// nothing further allows everything.
    open spec fn applied(&self, pre: World, target: u64, post: World, state: Self::State) -> bool {
        true
    }

    /// What a later application may do to the world and to the state.
    open spec fn reapplied(
        &self,
        pre: World,
        target: u64,
        before: Self::State,
        post: World,
        after: Self::State,
    ) -> bool {
        true
    }

    fn apply(&self, cx: &mut Cx, target: Entity) -> (state: Self::State)
        requires
            world_quiet(*old(cx).world),
            alive(*old(cx).world, entity_bits(target)),
        ensures
            final(cx).owner == old(cx).owner,
            world_quiet(*final(cx).world),
            same_scene(*old(cx).world, *final(cx).world),
            self.applied(*old(cx).world, entity_bits(target), *final(cx).world, state),
    ;

    fn reapply(&self, cx: &mut Cx, target: Entity, state: &mut Self::State)
        requires
            world_quiet(*old(cx).world),
            alive(*old(cx).world, entity_bits(target)),
        ensures
            final(cx).owner == old(cx).owner,
            world_quiet(*final(cx).world),
            same_scene(*old(cx).world, *final(cx).world),
            self.reapplied(
                *old(cx).world,
                entity_bits(target),
                *old(state),
                *final(cx).world,
                *final(state),
            ),
    ;
}

/// An ordered, structurally fixed list of effects with one state per member.
pub trait EffectTuple {
    type State;

    /// What applying every member, in declaration order, may do.
    spec fn applied(&self, pre: World, target: u64, post: World, state: Self::State) -> bool;

    /// What reapplying every member, in declaration order, may do.
    spec fn reapplied(
        &self,
        pre: World,
        target: u64,
        before: Self::State,
        post: World,
        after: Self::State,
    ) -> bool;

    fn apply(&self, cx: &mut Cx, target: Entity) -> (state: Self::State)
        requires
            world_quiet(*old(cx).world),
            alive(*old(cx).world, entity_bits(target)),
        ensures
            final(cx).owner == old(cx).owner,
            world_quiet(*final(cx).world),
            same_scene(*old(cx).world, *final(cx).world),
            self.applied(*old(cx).world, entity_bits(target), *final(cx).world, state),
    ;

    fn reapply(&self, cx: &mut Cx, target: Entity, state: &mut Self::State)
        requires
            world_quiet(*old(cx).world),
            alive(*old(cx).world, entity_bits(target)),
        ensures
            final(cx).owner == old(cx).owner,
            world_quiet(*final(cx).world),
            same_scene(*old(cx).world, *final(cx).world),
            self.reapplied(
                *old(cx).world,
                entity_bits(target),
                *old(state),
                *final(cx).world,
                *final(state),
            ),
    ;
}

impl EffectTuple for () {
    type State = ();

    open spec fn applied(&self, pre: World, target: u64, post: World, state: ()) -> bool {
        post == pre
    }

    open spec fn reapplied(&self, pre: World, target: u64, before: (), post: World, after: ()) -> bool {
        post == pre
    }

    fn apply(&self, cx: &mut Cx, target: Entity) -> (state: ()) {
    }

    fn reapply(&self, cx: &mut Cx, target: Entity, state: &mut ()) {
    }
}

impl<E0: EntityEffect> EffectTuple for (E0,) {
    type State = (E0::State,);

    open spec fn applied(&self, pre: World, target: u64, post: World, state: (E0::State,)) -> bool {
        self.0.applied(pre, target, post, state.0)
    }

    open spec fn reapplied(
        &self,
        pre: World,
        target: u64,
        before: (E0::State,),
        post: World,
        after: (E0::State,),
    ) -> bool {
        self.0.reapplied(pre, target, before.0, post, after.0)
    }

    fn apply(&self, cx: &mut Cx, target: Entity) -> (state: (E0::State,)) {
        (self.0.apply(cx, target),)
    }

    fn reapply(&self, cx: &mut Cx, target: Entity, state: &mut (E0::State,)) {
        self.0.reapply(cx, target, &mut state.0);
    }
}

impl<E0: EntityEffect, E1: EntityEffect> EffectTuple for (E0, E1) {
    type State = (E0::State, E1::State);

    open spec fn applied(
        &self,
        pre: World,
        target: u64,
        post: World,
        state: (E0::State, E1::State),
    ) -> bool {
        exists|mid: World| #[trigger]
            self.0.applied(pre, target, mid, state.0) && self.1.applied(mid, target, post, state.1)
    }

    open spec fn reapplied(
        &self,
        pre: World,
        target: u64,
        before: (E0::State, E1::State),
        post: World,
        after: (E0::State, E1::State),
    ) -> bool {
        exists|mid: World| #[trigger]
            self.0.reapplied(pre, target, before.0, mid, after.0) && self.1.reapplied(
                mid,
                target,
                before.1,
                post,
                after.1,
            )
    }

    fn apply(&self, cx: &mut Cx, target: Entity) -> (state: (E0::State, E1::State)) {
        let s0 = self.0.apply(cx, target);
        let ghost mid = *cx.world;
        let s1 = self.1.apply(cx, target);
        let ghost st = (s0, s1);
        assert(self.0.applied(*old(cx).world, entity_bits(target), mid, st.0) && self.1.applied(
            mid,
            entity_bits(target),
            *cx.world,
            st.1,
        ));
        (s0, s1)
    }

    fn reapply(&self, cx: &mut Cx, target: Entity, state: &mut (E0::State, E1::State)) {
        self.0.reapply(cx, target, &mut state.0);
        let ghost mid = *cx.world;
        self.1.reapply(cx, target, &mut state.1);
        let ghost before = *old(state);
        let ghost after = *state;
        assert(self.0.reapplied(*old(cx).world, entity_bits(target), before.0, mid, after.0)
            && self.1.reapplied(mid, entity_bits(target), before.1, *cx.world, after.1));
    }
}

impl<E0: EntityEffect, E1: EntityEffect, E2: EntityEffect> EffectTuple for (E0, E1, E2) {
    type State = (E0::State, E1::State, E2::State);

    open spec fn applied(
        &self,
        pre: World,
        target: u64,
        post: World,
        state: (E0::State, E1::State, E2::State),
    ) -> bool {
        exists|m1: World, m2: World| #[trigger]
            self.0.applied(pre, target, m1, state.0) && #[trigger] self.1.applied(
                m1,
                target,
                m2,
                state.1,
            ) && self.2.applied(m2, target, post, state.2)
    }

    open spec fn reapplied(
        &self,
        pre: World,
        target: u64,
        before: (E0::State, E1::State, E2::State),
        post: World,
        after: (E0::State, E1::State, E2::State),
    ) -> bool {
        exists|m1: World, m2: World| #[trigger]
            self.0.reapplied(pre, target, before.0, m1, after.0) && #[trigger] self.1.reapplied(
                m1,
                target,
                before.1,
                m2,
                after.1,
            ) && self.2.reapplied(m2, target, before.2, post, after.2)
    }

    fn apply(&self, cx: &mut Cx, target: Entity) -> (state: (E0::State, E1::State, E2::State)) {
        let s0 = self.0.apply(cx, target);
        let ghost m1 = *cx.world;
        let s1 = self.1.apply(cx, target);
        let ghost m2 = *cx.world;
        let s2 = self.2.apply(cx, target);
        let ghost st = (s0, s1, s2);
        assert(self.0.applied(*old(cx).world, entity_bits(target), m1, st.0) && self.1.applied(
            m1,
            entity_bits(target),
            m2,
            st.1,
        ) && self.2.applied(m2, entity_bits(target), *cx.world, st.2));
        (s0, s1, s2)
    }

    fn reapply(&self, cx: &mut Cx, target: Entity, state: &mut (E0::State, E1::State, E2::State)) {
        self.0.reapply(cx, target, &mut state.0);
        let ghost m1 = *cx.world;
        self.1.reapply(cx, target, &mut state.1);
        let ghost m2 = *cx.world;
        self.2.reapply(cx, target, &mut state.2);
        let ghost before = *old(state);
        let ghost after = *state;
        assert(self.0.reapplied(*old(cx).world, entity_bits(target), before.0, m1, after.0)
            && self.1.reapplied(m1, entity_bits(target), before.1, m2, after.1)
            && self.2.reapplied(m2, entity_bits(target), before.2, *cx.world, after.2));
    }
}

impl<E0: EntityEffect, E1: EntityEffect, E2: EntityEffect, E3: EntityEffect> EffectTuple for (
    E0,
    E1,
    E2,
    E3,
) {
    type State = (E0::State, E1::State, E2::State, E3::State);

    open spec fn applied(
        &self,
        pre: World,
        target: u64,
        post: World,
        state: (E0::State, E1::State, E2::State, E3::State),
    ) -> bool {
        exists|m1: World, m2: World, m3: World| #[trigger]
            self.0.applied(pre, target, m1, state.0) && #[trigger] self.1.applied(
                m1,
                target,
                m2,
                state.1,
            ) && #[trigger] self.2.applied(m2, target, m3, state.2) && self.3.applied(
                m3,
                target,
                post,
                state.3,
            )
    }

    open spec fn reapplied(
        &self,
        pre: World,
        target: u64,
        before: (E0::State, E1::State, E2::State, E3::State),
        post: World,
        after: (E0::State, E1::State, E2::State, E3::State),
    ) -> bool {
        exists|m1: World, m2: World, m3: World| #[trigger]
            self.0.reapplied(pre, target, before.0, m1, after.0) && #[trigger] self.1.reapplied(
                m1,
                target,
                before.1,
                m2,
                after.1,
            ) && #[trigger] self.2.reapplied(m2, target, before.2, m3, after.2)
                && self.3.reapplied(m3, target, before.3, post, after.3)
    }

    fn apply(&self, cx: &mut Cx, target: Entity) -> (state: (
        E0::State,
        E1::State,
        E2::State,
        E3::State,
    )) {
        let s0 = self.0.apply(cx, target);
        let ghost m1 = *cx.world;
        let s1 = self.1.apply(cx, target);
        let ghost m2 = *cx.world;
        let s2 = self.2.apply(cx, target);
        let ghost m3 = *cx.world;
        let s3 = self.3.apply(cx, target);
        let ghost st = (s0, s1, s2, s3);
        assert(self.0.applied(*old(cx).world, entity_bits(target), m1, st.0) && self.1.applied(
            m1,
            entity_bits(target),
            m2,
            st.1,
        ) && self.2.applied(m2, entity_bits(target), m3, st.2) && self.3.applied(
            m3,
            entity_bits(target),
            *cx.world,
            st.3,
        ));
        (s0, s1, s2, s3)
    }

    fn reapply(
        &self,
        cx: &mut Cx,
        target: Entity,
        state: &mut (E0::State, E1::State, E2::State, E3::State),
    ) {
        self.0.reapply(cx, target, &mut state.0);
        let ghost m1 = *cx.world;
        self.1.reapply(cx, target, &mut state.1);
        let ghost m2 = *cx.world;
        self.2.reapply(cx, target, &mut state.2);
        let ghost m3 = *cx.world;
        self.3.reapply(cx, target, &mut state.3);
        let ghost before = *old(state);
        let ghost after = *state;
        assert(self.0.reapplied(*old(cx).world, entity_bits(target), before.0, m1, after.0)
            && self.1.reapplied(m1, entity_bits(target), before.1, m2, after.1)
            && self.2.reapplied(m2, entity_bits(target), before.2, m3, after.2)
            && self.3.reapplied(m3, entity_bits(target), before.3, *cx.world, after.3));
    }
}

/// Extending an effect tuple by one more effect, at its end.
pub trait AppendEffect<E1: EntityEffect> {
    type Result: EffectTuple;

    /// The tuple with `effect` after the members of `self`.
    spec fn appended(self, effect: E1) -> Self::Result;

    fn append_effect(self, effect: E1) -> (r: Self::Result)
        ensures
            r == self.appended(effect),
    ;
}

impl<E1: EntityEffect> AppendEffect<E1> for () {
    type Result = (E1,);

    open spec fn appended(self, effect: E1) -> (E1,) {
        (effect,)
    }

    fn append_effect(self, effect: E1) -> (r: (E1,)) {
        (effect,)
    }
}

impl<E0: EntityEffect, E1: EntityEffect> AppendEffect<E1> for (E0,) {
    type Result = (E0, E1);

    open spec fn appended(self, effect: E1) -> (E0, E1) {
        (self.0, effect)
    }

    fn append_effect(self, effect: E1) -> (r: (E0, E1)) {
        (self.0, effect)
    }
}

impl<E0: EntityEffect, E1: EntityEffect, E2: EntityEffect> AppendEffect<E2> for (E0, E1) {
    type Result = (E0, E1, E2);

    open spec fn appended(self, effect: E2) -> (E0, E1, E2) {
        (self.0, self.1, effect)
    }

    fn append_effect(self, effect: E2) -> (r: (E0, E1, E2)) {
        (self.0, self.1, effect)
    }
}

impl<E0: EntityEffect, E1: EntityEffect, E2: EntityEffect, E3: EntityEffect> AppendEffect<
    E3,
> for (E0, E1, E2) {
    type Result = (E0, E1, E2, E3);

    open spec fn appended(self, effect: E3) -> (E0, E1, E2, E3) {
        (self.0, self.1, self.2, effect)
    }

    fn append_effect(self, effect: E3) -> (r: (E0, E1, E2, E3)) {
        (self.0, self.1, self.2, effect)
    }
}

/// Effects added one after the other stand in the tuple in the order in
/// which they were added.
pub proof fn lemma_appended_in_order<E0: EntityEffect, E1: EntityEffect, E2: EntityEffect>(
    first: E0,
    second: E1,
    third: E2,
)
    ensures
        ().appended(first) == (first,),
        (first,).appended(second) == (first, second),
        (first, second).appended(third) == (first, second, third),
        ().appended(first).appended(second).appended(third) == (first, second, third),
{
}

/// Applying a tuple applies its members in declaration order: each member
/// starts from the world that the member before it left.
pub proof fn lemma_applied_in_order<E0: EntityEffect, E1: EntityEffect, E2: EntityEffect>(
    effects: (E0, E1, E2),
    pre: World,
    target: u64,
    post: World,
    state: (E0::State, E1::State, E2::State),
)
    requires
        effects.applied(pre, target, post, state),
    ensures
        exists|m1: World, m2: World|
            {
                &&& #[trigger] effects.0.applied(pre, target, m1, state.0)
                &&& #[trigger] effects.1.applied(m1, target, m2, state.1)
                &&& effects.2.applied(m2, target, post, state.2)
            },
{
}

/// Reapplying a tuple reapplies its members in declaration order: each
/// member starts from the world that the member before it left, and works
/// on its own state.
pub proof fn lemma_reapplied_in_order<E0: EntityEffect, E1: EntityEffect, E2: EntityEffect>(
    effects: (E0, E1, E2),
    pre: World,
    target: u64,
    before: (E0::State, E1::State, E2::State),
    post: World,
    after: (E0::State, E1::State, E2::State),
)
    requires
        effects.reapplied(pre, target, before, post, after),
    ensures
        exists|m1: World, m2: World|
            {
                &&& #[trigger] effects.0.reapplied(pre, target, before.0, m1, after.0)
                &&& #[trigger] effects.1.reapplied(m1, target, before.1, m2, after.1)
                &&& effects.2.reapplied(m2, target, before.2, post, after.2)
            },
{
}

} // verus!
