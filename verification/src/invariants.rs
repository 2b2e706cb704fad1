//! What holds of every element through its lifecycle, proved from the
//! contracts of its steps.

use vstd::prelude::*;
use bevy::ecs::entity::Entity;
use bevy::ecs::world::World;
use crate::bundle::DisplayBundle;
use crate::effects::EffectTuple;
use crate::element::{owner_label, BuildTrace, Element, RebuildTrace};
use crate::layout::{hangs_clear, none_in, settled};
use crate::scene::{
    alive, entity_bits, graph_ok, kids, lemma_filter_all, name_of, not_among, parent_of,
    world_entities, world_names,
};
use crate::view::UiView;
use crate::view_tuple::ViewTuple;

verus! {

/// No member of `children` renames the entity `owner` while it is built.
pub open spec fn children_keep_owner_name<C: ViewTuple>(children: C, owner: u64) -> bool {
    forall|pre: World, post: World, state: C::State| #[trigger]
        children.built_spans(pre, owner, post, state) ==> name_of(post, owner) == name_of(
            pre,
            owner,
        )
}

/// Reapplying `effects` to `target` changes nothing.
pub open spec fn effects_are_idle<E: EffectTuple>(effects: E, target: u64) -> bool {
    forall|pre: World, before: E::State, post: World, after: E::State| #[trigger]
        effects.reapplied(pre, target, before, post, after) ==> post == pre
}

/// Rebuilding `children` changes nothing and reports no change.
pub open spec fn children_are_idle<C: ViewTuple>(children: C, owner: u64) -> bool {
    forall|pre: World, before: C::State, post: World, after: C::State, changed: bool| #[trigger]
        children.rebuilt_spans(pre, owner, before, post, after, changed) ==> post == pre
            && !changed
}

impl<B: DisplayBundle, C: ViewTuple, E: EffectTuple> Element<B, C, E> {
    /// The display entity's children are the entities of the child views.
    pub open spec fn in_step(&self, w: World, state: (Entity, C::State, E::State)) -> bool {
        kids(w, entity_bits(state.0)) == self.child_tuple().span_tree(&state.1).flat()
    }

    /// After a build the display entity carries the debug name and its
    /// children are the entities of the child views, in order and with
    /// nothing else among them.  The display entity is the one that the
    /// caller supplied, or one that did not exist before.
    pub proof fn lemma_built_in_step(
        &self,
        pre: World,
        owner: u64,
        post: World,
        state: (Entity, C::State, E::State),
    )
        requires
            self.built(pre, owner, post, state),
        ensures
            self.in_step(post, state),
            name_of(post, entity_bits(state.0)) == Some(self.name_text()),
            self.display_handle() matches Some(e) ==> state.0 == e,
            self.display_handle().is_none() ==> !alive(pre, entity_bits(state.0)),
    {
    }

    /// After a build the owner carries the name `Element`, or `Element::`
    /// and the debug name, unless a child view has renamed it since.
    pub proof fn lemma_owner_named(
        &self,
        pre: World,
        owner: u64,
        post: World,
        state: (Entity, C::State, E::State),
    )
        requires
            self.built(pre, owner, post, state),
            children_keep_owner_name(self.child_tuple(), owner),
        ensures
            name_of(post, owner) == Some(owner_label(self.name_text())),
    {
        let t = choose|t: BuildTrace| #[trigger] self.build_steps(pre, owner, t, post, state);
        let d = entity_bits(state.0);
        assert(world_names(t.bundled).remove(d).dom().contains(owner));
        assert(world_names(t.bundled).remove(d)[owner] == world_names(t.named)[owner]);
        assert(name_of(t.bundled, owner) == name_of(t.named, owner));
    }

    /// The element is in place under `host`: the display entity hangs under
    /// `host` or under nothing, its children are the entities that the child
    /// views show, and so on below it.
    pub open spec fn in_place(
        &self,
        w: World,
        state: (Entity, C::State, E::State),
        host: u64,
    ) -> bool {
        settled(w, self.lists(&state), self.span(&state).flat(), host)
    }

    /// After a build the element is in place under every host under which
    /// its display entity hangs: under any host where the build has spawned
    /// the display entity; under the host of the display entity that the
    /// caller supplied where that one hung under nothing, or under a live
    /// host that no child view takes over.
    pub proof fn lemma_built_in_place(
        &self,
        pre: World,
        owner: u64,
        post: World,
        state: (Entity, C::State, E::State),
        host: u64,
    )
        requires
            self.built(pre, owner, post, state),
            self.display_handle().is_some() ==> {
                &&& hangs_clear(pre, entity_bits(state.0), self.child_tuple().adopted_spans())
                &&& parent_of(pre, entity_bits(state.0)).is_none() || parent_of(
                    pre,
                    entity_bits(state.0),
                ) == Some(host)
            },
        ensures
            self.in_place(post, state, host),
            self.in_step(post, state),
    {
        self.lemma_in_place_in_step(post, state, host);
    }

    /// An element in place has its display entity's children in step with
    /// the child views: they are the entities shown, in order, and none
    /// besides.
    pub proof fn lemma_in_place_in_step(
        &self,
        w: World,
        state: (Entity, C::State, E::State),
        host: u64,
    )
        requires
            self.in_place(w, state, host),
        ensures
            self.in_step(w, state),
    {
        assert(self.lists(&state).dom().contains(entity_bits(state.0)));
    }

    /// A rebuild keeps an element in place, whatever its child views do
    /// within the rules: where the element was in place under a live host
    /// that it does not own, it is in place after, its display entity's
    /// children in step with what the child views show now; and the child
    /// lists and parent links of the entities outside the element, the
    /// host's included, are what they were.
    pub proof fn lemma_rebuilt_in_place(
        &self,
        pre: World,
        owner: u64,
        before: (Entity, C::State, E::State),
        post: World,
        after: (Entity, C::State, E::State),
        changed: bool,
        host: u64,
    )
        requires
            self.rebuilt(pre, owner, before, post, after, changed),
            alive(pre, host),
            !self.owned(&before).contains(host),
            self.in_place(pre, before, host),
        ensures
            self.in_place(post, after, host),
            self.in_step(post, after),
            after.0 == before.0,
            kids(post, host) == kids(pre, host),
            forall|p: u64|
                alive(pre, p) && !self.owned(&before).contains(p) ==> #[trigger] kids(post, p)
                    == kids(pre, p),
            forall|c: u64|
                alive(pre, c) && !self.owned(&before).contains(c) ==> #[trigger] parent_of(post, c)
                    == parent_of(pre, c),
    {
        let t = choose|t: RebuildTrace| #[trigger]
            self.rebuild_steps(pre, owner, before, t, post, after);
        self.lemma_in_place_in_step(post, after, host);
    }

    /// Only what the child views show hangs under the display entity of an
    /// element whose children are in step: an entity that has dropped out
    /// of what they show no longer has the display entity for its parent.
    pub proof fn lemma_only_shown_hang_under(&self, w: World, state: (Entity, C::State, E::State))
        requires
            graph_ok(w),
            alive(w, entity_bits(state.0)),
            self.in_step(w, state),
        ensures
            forall|c: u64|
                parent_of(w, c) == Some(entity_bits(state.0)) ==> #[trigger] self.child_tuple().span_tree(
                    &state.1,
                ).flat().contains(c),
    {
        let d = entity_bits(state.0);
        assert forall|c: u64| parent_of(w, c) == Some(d) implies #[trigger] self.child_tuple().span_tree(
            &state.1,
        ).flat().contains(c) by {
            assert(kids(w, d).contains(c));
        }
    }

    /// A raze takes an element that was in place under a host out of the
    /// world and leaves no trace of it in the hierarchy: nothing that the
    /// state owned is live; no live entity has the display entity for its
    /// parent; the host has its other children in their old order; and the
    /// child lists and parent links of all other entities are what they were.
    pub proof fn lemma_razed_in_place(
        &self,
        pre: World,
        before: (Entity, C::State, E::State),
        post: World,
        after: (Entity, C::State, E::State),
        host: u64,
    )
        requires
            graph_ok(pre),
            self.state_wf(&before),
            self.owned(&before).subset_of(world_entities(pre)),
            self.razed(pre, before, post, after),
            !self.owned(&before).contains(host),
            self.in_place(pre, before, host),
        ensures
            forall|id: u64| self.owned(&before).contains(id) ==> !alive(post, id),
            forall|c: u64| alive(post, c) ==> #[trigger] parent_of(post, c) != Some(
                entity_bits(before.0),
            ),
            forall|p: u64, c: u64| #[trigger]
                kids(post, p).contains(c) ==> !self.owned(&before).contains(c),
            kids(post, host) == kids(pre, host).filter(not_among(seq![entity_bits(before.0)])),
            alive(pre, host) ==> alive(post, host),
            forall|p: u64|
                !self.owned(&before).contains(p) && p != host ==> #[trigger] kids(post, p) == kids(
                    pre,
                    p,
                ),
            forall|c: u64|
                alive(pre, c) && !self.owned(&before).contains(c) ==> #[trigger] parent_of(post, c)
                    == parent_of(pre, c),
    {
        let d = entity_bits(before.0);
        let owned = self.owned(&before);
        assert(owned.contains(d));
        assert(self.lists(&before).dom().contains(d));
        assert forall|c: u64| alive(post, c) implies #[trigger] parent_of(post, c) != Some(d) by {
            assert(world_entities(pre).contains(c) && !owned.contains(c));
            assert(parent_of(post, c) == parent_of(pre, c));
            if parent_of(pre, c) == Some(d) {
                assert(kids(pre, d).contains(c));
                let flat = self.child_tuple().span_tree(&before.1).flat();
                let i = choose|i: int| 0 <= i < flat.len() && flat[i] == c;
                assert(self.child_tuple().owned_spans(&before.1).contains(flat[i]));
            }
        }
        assert forall|p: u64, c: u64| #[trigger] kids(post, p).contains(c) implies !owned.contains(
            c,
        ) by {
            assert(world_entities(post).contains(c));
        }
    }

    /// A rebuild in which neither an effect nor a child view changes
    /// anything leaves the world exactly as it was.
    pub proof fn lemma_idle_rebuild(
        &self,
        pre: World,
        owner: u64,
        before: (Entity, C::State, E::State),
        post: World,
        after: (Entity, C::State, E::State),
        changed: bool,
    )
        requires
            self.rebuilt(pre, owner, before, post, after, changed),
            effects_are_idle(self.effect_tuple(), entity_bits(before.0)),
            children_are_idle(self.child_tuple(), owner),
        ensures
            post == pre,
            !changed,
    {
        let t = choose|t: RebuildTrace| #[trigger]
            self.rebuild_steps(pre, owner, before, t, post, after);
    }
}

/// An element without children names its owner `Element`, or `Element::`
/// and the debug name.
pub proof fn lemma_childless_owner_named<B: DisplayBundle, E: EffectTuple>(
    element: Element<B, (), E>,
    pre: World,
    owner: u64,
    post: World,
    state: (Entity, (), E::State),
)
    requires
        element.built(pre, owner, post, state),
    ensures
        name_of(post, owner) == Some(owner_label(element.name_text())),
{
    element.lemma_owner_named(pre, owner, post, state);
}

/// Rebuilding an element without effects and without children leaves the
/// world exactly as it was.
pub proof fn lemma_bare_rebuild_is_idle<B: DisplayBundle>(
    element: Element<B, (), ()>,
    pre: World,
    owner: u64,
    before: (Entity, (), ()),
    post: World,
    after: (Entity, (), ()),
    changed: bool,
)
    requires
        element.rebuilt(pre, owner, before, post, after, changed),
    ensures
        post == pre,
        !changed,
{
    element.lemma_idle_rebuild(pre, owner, before, post, after, changed);
}

/// Once an element is razed nothing that its state owned is live, and no
/// child list holds any of it.
pub proof fn lemma_razed_leaves_nothing(post: World, owned: Set<u64>)
    requires
        graph_ok(post),
        world_entities(post).disjoint(owned),
    ensures
        forall|p: u64, c: u64| #[trigger] kids(post, p).contains(c) ==> !owned.contains(c),
{
}

/// Building an element that spawns its display entity and takes nothing
/// over, and razing it again, gives the world back where nothing was
/// spawned that the state does not own: the same entities are live, with
/// the child lists and parent links they had, and with the names they had
/// but for the owner.
pub proof fn lemma_built_then_razed<B: DisplayBundle, C: ViewTuple, E: EffectTuple>(
    element: Element<B, C, E>,
    pre: World,
    owner: u64,
    built: World,
    state: (Entity, C::State, E::State),
    post: World,
    after: (Entity, C::State, E::State),
)
    requires
        element.built(pre, owner, built, state),
        element.razed(built, state, post, after),
        element.display_handle().is_none(),
        element.adopted() == Set::<u64>::empty(),
        world_entities(built) == world_entities(pre).union(element.owned(&state)),
    ensures
        world_entities(post) == world_entities(pre),
        forall|e: u64| alive(pre, e) ==> #[trigger] kids(post, e) == kids(pre, e),
        forall|e: u64| alive(pre, e) ==> #[trigger] parent_of(post, e) == parent_of(pre, e),
        forall|e: u64| alive(pre, e) && e != owner ==> #[trigger] name_of(post, e) == name_of(pre, e),
{
    let d = entity_bits(state.0);
    let owned = element.owned(&state);
    assert forall|e: u64| alive(pre, e) implies !owned.contains(e) && alive(built, e) && alive(
        post,
        e,
    ) by {
        assert(world_entities(pre).contains(e));
        if owned.contains(e) {
            assert(element.adopted().contains(e));
        }
        assert(world_entities(built).contains(e));
    }
    assert(world_entities(post) =~= world_entities(pre)) by {
        assert forall|e: u64| world_entities(post).contains(e) implies world_entities(
            pre,
        ).contains(e) by {
            assert(world_entities(built).contains(e));
            assert(!owned.contains(e));
        }
    }
    assert forall|e: u64| alive(pre, e) implies #[trigger] kids(post, e) == kids(pre, e) by {
        assert(none_in(kids(pre, e), element.adopted()));
        assert(kids(built, e) == kids(pre, e));
        assert(seq![d][0] == d);
        assert(settled(built, element.lists(&state), element.span(&state).flat(), e)) by {
            assert forall|c: u64| #[trigger] seq![d].contains(c) implies c == d by {
                let j = choose|j: int| 0 <= j < seq![d].len() && seq![d][j] == c;
            }
        }
        assert(kids(post, e) == kids(built, e).filter(not_among(seq![d])));
        assert forall|i: int| 0 <= i < kids(built, e).len() implies not_among(seq![d])(
            #[trigger] kids(built, e)[i],
        ) by {
            let x = kids(built, e)[i];
            assert(kids(built, e).contains(x));
            if seq![d].contains(x) {
                let j = choose|j: int| 0 <= j < seq![d].len() && seq![d][j] == x;
                assert(parent_of(built, d) == Some(e));
            }
        }
        lemma_filter_all(kids(built, e), not_among(seq![d]));
    }
    assert forall|e: u64| alive(pre, e) implies #[trigger] parent_of(post, e) == parent_of(
        pre,
        e,
    ) by {
        assert(hangs_clear(pre, e, element.adopted()));
        assert(parent_of(built, e) == parent_of(pre, e));
        assert(alive(built, e) && !owned.contains(e));
    }
    assert forall|e: u64| alive(pre, e) && e != owner implies #[trigger] name_of(post, e)
        == name_of(pre, e) by {
        assert(!element.adopted().insert(owner).contains(e));
        assert(name_of(built, e) == name_of(pre, e));
        assert(alive(built, e) && !owned.contains(e));
    }
}

} // verus!
