//! The element view: one display entity with a bundle, a name, an ordered
//! tuple of effects and the entities of a tuple of child views as its
//! children.

use std::marker::PhantomData;
use vstd::prelude::*;
use bevy::ecs::entity::Entity;
use bevy::ecs::world::World;
use crate::bundle::{bundle_put, bundle_spawned, DisplayBundle};
use crate::cx::Cx;
use crate::effects::{AppendEffect, EffectTuple, EntityEffect};
use crate::layout::{
    build_frame, hangs_clear, leaves_in_place, lemma_host_lists_ok, lemma_host_placed,
    lemma_host_razed, lemma_host_stays, links_kept, lists_hold, lists_ok, stays_in_place,
};
use crate::node_span::{NodeSpan, SpanTree};
use crate::scene::{
    alive, bits_of, children_replaced, covers, despawn, entity_bits, entity_named,
    entity_removed, fresh_or_known, graph_ok, kids, lemma_covered_alive,
    lemma_detached_keeps_graph, lemma_kids_alive, lemma_links_untouched,
    lemma_removed_keeps_graph, lemma_renamed_alike, lemma_replaced_keeps_graph,
    lemma_replaced_link, name_entity, name_of, names_kept, none_lost, others_spared, parent_of,
    parent_removed, remove_parent, replace_children, same_scene, world_entities, world_names,
};
use crate::style::{ApplyStylesEffect, StyleSet};
use crate::view::UiView;
use crate::view_tuple::ViewTuple;

verus! {

/// The name that the owner of an element carries: `Element` for an element
/// without a debug name, else `Element::` followed by the debug name.
pub open spec fn owner_label(debug_name: Seq<char>) -> Seq<char> {
    if debug_name.len() == 0 {
        "Element"@
    } else {
        "Element::"@ + debug_name
    }
}

/// A view which generates an entity with the bundle `B`, put on it in its
/// default instance.
pub struct Element<B, C = (), E = ()> {
    /// Debug name for this element.
    debug_name: String,
    /// The visible node for this element, where the caller supplied it.
    display: Option<Entity>,
    /// Children of this element.
    children: C,
    /// Effects to be attached to the display entity.
    effects: E,
    marker: PhantomData<B>,
}

/// The worlds between the steps of a build.
pub struct BuildTrace {
    /// After the owner was named.
    pub named: World,
    /// After the bundle was put on the display entity.
    pub bundled: World,
    /// After the display entity was named.
    pub dressed: World,
    /// After the effects were applied.
    pub styled: World,
    /// After the children were built.
    pub populated: World,
}

/// The worlds between the steps of a raze.
pub struct RazeTrace {
    /// After the display entity was cut loose from its parent.
    pub detached: World,
    /// After the display entity was despawned.
    pub despawned: World,
}

/// The worlds between the steps of a rebuild.
pub struct RebuildTrace {
    /// After the effects were reapplied.
    pub styled: World,
    /// After the children were rebuilt.
    pub populated: World,
    /// Whether the children reported a change of their span.
    pub children_changed: bool,
}

impl<B: DisplayBundle> Element<B, (), ()> {
    /// Construct a new `Element`, which will spawn its display entity.
    pub fn new() -> (r: Self)
        ensures
            r.name_text() == Seq::<char>::empty(),
            r.display_handle().is_none(),
            r.child_tuple() == (),
            r.effect_tuple() == (),
    {
        Element {
            debug_name: String::new(),
            display: None,
            children: (),
            effects: (),
            marker: PhantomData,
        }
    }

    /// Construct a new `Element` that takes over the entity `node`.
    pub fn for_entity(node: Entity) -> (r: Self)
        ensures
            r.name_text() == Seq::<char>::empty(),
            r.display_handle() == Some(node),
            r.child_tuple() == (),
            r.effect_tuple() == (),
    {
        Element {
            debug_name: String::new(),
            display: Some(node),
            children: (),
            effects: (),
            marker: PhantomData,
        }
    }
}

impl<B: DisplayBundle, C: ViewTuple + Default, E: EffectTuple + Default> Default for Element<
    B,
    C,
    E,
> {
    /// An element without a name that will spawn its display entity, with
    /// the default children and effects.
    fn default() -> (r: Self)
        ensures
            r.name_text() == Seq::<char>::empty(),
            r.display_handle().is_none(),
    {
        Element {
            debug_name: String::new(),
            display: None,
            children: C::default(),
            effects: E::default(),
            marker: PhantomData,
        }
    }
}

impl<B: DisplayBundle, C: ViewTuple, E: EffectTuple> Element<B, C, E> {
    /// The debug name.
    pub closed spec fn name_text(&self) -> Seq<char> {
        self.debug_name@
    }

    /// The display entity that the caller supplied, if any.
    pub closed spec fn display_handle(&self) -> Option<Entity> {
        self.display
    }

    /// The child views.
    pub closed spec fn child_tuple(&self) -> C {
        self.children
    }

    /// The effects, in the order in which they were added.
    pub closed spec fn effect_tuple(&self) -> E {
        self.effects
    }

    /// The bit pattern of the display entity that the caller supplied.
    pub open spec fn display_id(&self) -> Option<u64> {
        match self.display_handle() {
            Some(e) => Some(entity_bits(e)),
            None => None,
        }
    }

    /// Set the debug name for this element.
    pub fn named(self, name: &str) -> (r: Self)
        ensures
            r.name_text() == name@,
            r.display_handle() == self.display_handle(),
            r.child_tuple() == self.child_tuple(),
            r.effect_tuple() == self.effect_tuple(),
    {
        Element {
            debug_name: name.to_owned(),
            display: self.display,
            children: self.children,
            effects: self.effects,
            marker: PhantomData,
        }
    }

    /// Set the child views for this element.
    pub fn children<C2: ViewTuple>(self, children: C2) -> (r: Element<B, C2, E>)
        ensures
            r.child_tuple() == children,
            r.name_text() == self.name_text(),
            r.display_handle() == self.display_handle(),
            r.effect_tuple() == self.effect_tuple(),
    {
        Element {
            children,
            debug_name: self.debug_name,
            display: self.display,
            effects: self.effects,
            marker: PhantomData,
        }
    }

    /// Add an effect to this element, after those it has.
    pub fn add_effect<E1: EntityEffect>(self, effect: E1) -> (r: Element<
        B,
        C,
        <E as AppendEffect<E1>>::Result,
    >) where E: AppendEffect<E1>
        ensures
            r.effect_tuple() == self.effect_tuple().appended(effect),
            r.name_text() == self.name_text(),
            r.display_handle() == self.display_handle(),
            r.child_tuple() == self.child_tuple(),
    {
        Element {
            children: self.children,
            debug_name: self.debug_name,
            display: self.display,
            effects: self.effects.append_effect(effect),
            marker: PhantomData,
        }
    }

    /// Apply a set of styles to the element: adds the effect that writes
    /// them.
    pub fn style<S: StyleSet>(self, styles: S) -> (r: Element<
        B,
        C,
        <E as AppendEffect<ApplyStylesEffect<S>>>::Result,
    >) where E: AppendEffect<ApplyStylesEffect<S>>
        ensures
            r.effect_tuple() == self.effect_tuple().appended(ApplyStylesEffect { styles }),
            r.name_text() == self.name_text(),
            r.display_handle() == self.display_handle(),
            r.child_tuple() == self.child_tuple(),
    {
        self.add_effect(ApplyStylesEffect { styles })
    }
}

impl<B: DisplayBundle, C: ViewTuple, E: EffectTuple> Element<B, C, E> {
    /// The steps of a build, in order: the owner is named; the bundle is put
    /// on the display entity, which is spawned with it where none was
    /// supplied; the display entity is named; the effects are applied to it;
    /// the children are built; their entities become the children of the
    /// display entity.
    pub open spec fn build_steps(
        &self,
        pre: World,
        owner: u64,
        t: BuildTrace,
        post: World,
        state: (Entity, C::State, E::State),
    ) -> bool {
        let d = entity_bits(state.0);
        &&& d != owner
        &&& entity_named(pre, owner, owner_label(self.name_text()), t.named)
        &&& match self.display_handle() {
            Some(e) => e == state.0 && bundle_put(t.named, d, t.bundled),
            None => bundle_spawned(t.named, d, t.bundled),
        }
        &&& B::carried(t.named, d, t.bundled)
        &&& entity_named(t.bundled, d, self.name_text(), t.dressed)
        &&& same_scene(t.dressed, t.styled)
        &&& self.effect_tuple().applied(t.dressed, d, t.styled, state.2)
        &&& self.child_tuple().built_spans(t.styled, owner, t.populated, state.1)
        &&& name_of(t.populated, d) == Some(self.name_text())
        &&& children_replaced(
            t.populated,
            d,
            self.child_tuple().span_tree(&state.1).flat(),
            post,
        )
    }

    /// A build leaves the display entity hanging where it hung: a display
    /// entity that the build has spawned hangs under nothing; one that the
    /// caller supplied hangs where it did or under nothing, provided that it
    /// did not hang under an entity that a child view takes over.
    pub open spec fn display_kept_hanging(
        &self,
        pre: World,
        post: World,
        state: (Entity, C::State, E::State),
    ) -> bool {
        let d = entity_bits(state.0);
        match self.display_handle() {
            None => parent_of(post, d).is_none(),
            Some(_) => hangs_clear(pre, d, self.child_tuple().adopted_spans()) ==> parent_of(
                post,
                d,
            ).is_none() || parent_of(post, d) == parent_of(pre, d),
        }
    }

    /// The steps of a rebuild, in order: the effects are reapplied to the
    /// display entity; the children are rebuilt; where they report a change,
    /// their entities replace the children of the display entity, and else
    /// nothing more happens.
    pub open spec fn rebuild_steps(
        &self,
        pre: World,
        owner: u64,
        before: (Entity, C::State, E::State),
        t: RebuildTrace,
        post: World,
        after: (Entity, C::State, E::State),
    ) -> bool {
        let d = entity_bits(before.0);
        &&& after.0 == before.0
        &&& same_scene(pre, t.styled)
        &&& self.effect_tuple().reapplied(pre, d, before.2, t.styled, after.2)
        &&& self.child_tuple().rebuilt_spans(
            t.styled,
            owner,
            before.1,
            t.populated,
            after.1,
            t.children_changed,
        )
        &&& t.children_changed <==> self.child_tuple().span_tree(&after.1)
            != self.child_tuple().span_tree(&before.1)
        &&& if t.children_changed {
            children_replaced(
                t.populated,
                d,
                self.child_tuple().span_tree(&after.1).flat(),
                post,
            )
        } else {
            post == t.populated
        }
    }
}

impl<B: DisplayBundle, C: ViewTuple, E: EffectTuple> Element<B, C, E> {
    /// The steps of a raze, in order: the display entity is cut loose from
    /// its parent; it is despawned; the children are razed.
    pub open spec fn raze_steps(
        &self,
        pre: World,
        before: (Entity, C::State, E::State),
        t: RazeTrace,
        post: World,
        after: (Entity, C::State, E::State),
    ) -> bool {
        let d = entity_bits(before.0);
        &&& after.0 == before.0
        &&& after.2 == before.2
        &&& parent_removed(pre, d, t.detached)
        &&& entity_removed(t.detached, d, t.despawned)
        &&& self.child_tuple().razed_spans(t.despawned, before.1, post, after.1)
    }
}

impl<B: DisplayBundle, C: ViewTuple, E: EffectTuple> UiView for Element<B, C, E> {
    type State = (Entity, C::State, E::State);

    open spec fn adopted(&self) -> Set<u64> {
        match self.display_id() {
            Some(d) => self.child_tuple().adopted_spans().insert(d),
            None => self.child_tuple().adopted_spans(),
        }
    }

    open spec fn wf(&self) -> bool {
        &&& self.child_tuple().wf_spans()
        &&& match self.display_id() {
            Some(d) => !self.child_tuple().adopted_spans().contains(d),
            None => true,
        }
    }

    open spec fn owned(&self, state: &(Entity, C::State, E::State)) -> Set<u64> {
        self.child_tuple().owned_spans(&state.1).insert(entity_bits(state.0))
    }

    open spec fn state_wf(&self, state: &(Entity, C::State, E::State)) -> bool {
        &&& self.child_tuple().state_wf_spans(&state.1)
        &&& !self.child_tuple().owned_spans(&state.1).contains(entity_bits(state.0))
        &&& lists_ok(
            self.child_tuple().lists_spans(&state.1),
            self.child_tuple().owned_spans(&state.1),
            self.child_tuple().span_tree(&state.1).flat(),
        )
        &&& covers(
            self.child_tuple().owned_spans(&state.1),
            self.child_tuple().span_tree(&state.1).flat(),
        )
    }

    open spec fn span(&self, state: &(Entity, C::State, E::State)) -> SpanTree {
        SpanTree::Node(entity_bits(state.0))
    }

    open spec fn lists(&self, state: &(Entity, C::State, E::State)) -> Map<u64, Seq<u64>> {
        self.child_tuple().lists_spans(&state.1).insert(
            entity_bits(state.0),
            self.child_tuple().span_tree(&state.1).flat(),
        )
    }

    open spec fn built(
        &self,
        pre: World,
        owner: u64,
        post: World,
        state: (Entity, C::State, E::State),
    ) -> bool {
        &&& exists|t: BuildTrace| #[trigger] self.build_steps(pre, owner, t, post, state)
        &&& lists_hold(post, self.lists(&state))
        &&& self.display_kept_hanging(pre, post, state)
        &&& graph_ok(post)
        &&& none_lost(pre, post)
        &&& self.owned(&state).subset_of(world_entities(post))
        &&& fresh_or_known(self.owned(&state), pre, self.adopted())
        &&& build_frame(pre, post, self.adopted())
        &&& names_kept(pre, post, self.adopted().insert(owner))
    }

    open spec fn rebuilt(
        &self,
        pre: World,
        owner: u64,
        before: (Entity, C::State, E::State),
        post: World,
        after: (Entity, C::State, E::State),
        changed: bool,
    ) -> bool {
        &&& !changed
        &&& exists|t: RebuildTrace| #[trigger]
            self.rebuild_steps(pre, owner, before, t, post, after)
        &&& graph_ok(post)
        &&& alive(post, entity_bits(before.0))
        &&& stays_in_place(
            pre,
            self.lists(&before),
            self.span(&before).flat(),
            self.owned(&before),
            post,
            self.lists(&after),
            self.span(&after).flat(),
            self.owned(&after),
            false,
        )
    }

    open spec fn razed(
        &self,
        pre: World,
        before: (Entity, C::State, E::State),
        post: World,
        after: (Entity, C::State, E::State),
    ) -> bool {
        &&& exists|t: RazeTrace| #[trigger] self.raze_steps(pre, before, t, post, after)
        &&& graph_ok(post)
        &&& world_entities(post).subset_of(world_entities(pre))
        &&& world_entities(post).disjoint(self.owned(&before))
        &&& others_spared(pre, post, self.owned(&before))
        &&& names_kept(pre, post, self.owned(&before))
        &&& links_kept(pre, post, self.owned(&before))
        &&& leaves_in_place(
            pre,
            self.lists(&before),
            self.span(&before).flat(),
            self.owned(&before),
            post,
        )
    }

    /// An element shows exactly one entity: its display entity.
    fn nodes(&self, state: &(Entity, C::State, E::State)) -> (r: NodeSpan)
        ensures
            r == NodeSpan::Node(state.0),
    {
        NodeSpan::Node(state.0)
    }

    fn build(&self, cx: &mut Cx) -> (state: (Entity, C::State, E::State))
        ensures
            alive(*final(cx).world, entity_bits(state.0)),
            self.display_handle() matches Some(e) ==> state.0 == e,
            self.display_handle().is_none() ==> !alive(*old(cx).world, entity_bits(state.0)),
            name_of(*final(cx).world, entity_bits(state.0)) == Some(self.name_text()),
            kids(*final(cx).world, entity_bits(state.0)) == self.child_tuple().span_tree(
                &state.1,
            ).flat(),
            kids(*final(cx).world, entity_bits(state.0)).no_duplicates(),
            self.display_kept_hanging(*old(cx).world, *final(cx).world, state),
    {
        let owner = cx.owner;
        let ghost o = entity_bits(owner);
        let ghost w0 = *cx.world;
        let ghost adopted_c = self.children.adopted_spans();
        let label = if self.debug_name.as_str().is_empty() {
            String::from_str("Element")
        } else {
            String::from_str("Element::").concat(self.debug_name.as_str())
        };
        name_entity(cx.world, owner, label.as_str());
        let ghost w1 = *cx.world;
        proof {
            lemma_links_untouched(w0, w1);
        }
        let display = match self.display {
            Some(display) => {
                B::put_on(cx.world, display);
                display
            },
            None => B::spawn_with(cx.world),
        };
        let ghost w1b = *cx.world;
        let ghost d = entity_bits(display);
        name_entity(cx.world, display, self.debug_name.as_str());
        let ghost w2 = *cx.world;
        proof {
            lemma_renamed_alike(world_names(w1b), world_names(w1), d, self.name_text());
            lemma_links_untouched(w1, w2);
        }
        let eff_state = self.effects.apply(cx, display);
        let ghost w3 = *cx.world;
        proof {
            lemma_links_untouched(w2, w3);
        }
        let children = self.children.build_spans(cx);
        let ghost w4 = *cx.world;
        let ghost owned_c = self.children.owned_spans(&children);
        let nodes = self.children.span_nodes(&children);
        let list = nodes.to_vec();
        proof {
            lemma_kids_alive(w4, d);
            lemma_covered_alive(w4, owned_c, bits_of(list@));
        }
        replace_children(cx.world, display, &list);
        let ghost w5 = *cx.world;
        proof {
            if hangs_clear(w3, d, adopted_c) && !kids(w4, d).contains(d) {
                lemma_replaced_link(w4, d, bits_of(list@), w5, d);
            }
        }
        let ghost state = (display, children, eff_state);
        proof {
            let t = BuildTrace {
                named: w1,
                bundled: w1b,
                dressed: w2,
                styled: w3,
                populated: w4,
            };
            lemma_replaced_keeps_graph(w4, d, bits_of(list@), w5);
            lemma_host_lists_ok(
                d,
                self.children.lists_spans(&children),
                bits_of(list@),
                owned_c,
            );
            if !alive(w0, d) {
                assert forall|c: u64| #[trigger] parent_of(w0, c) != Some(d) by {
                    assert(parent_of(w1, c) != Some(d));
                }
            }
            lemma_host_placed(
                w0,
                w3,
                w4,
                w5,
                d,
                self.children.lists_spans(&children),
                bits_of(list@),
                owned_c,
                adopted_c,
                self.adopted(),
            );
            assert(self.build_steps(w0, o, t, w5, state));
            assert forall|id: u64|
                alive(w0, id) && !self.adopted().insert(o).contains(id) implies #[trigger] name_of(
                w5,
                id,
            ) == name_of(w0, id) by {
                assert(name_of(w4, id) == name_of(w3, id));
            }
        }
        (display, children, eff_state)
    }

    fn rebuild(&self, cx: &mut Cx, state: &mut (Entity, C::State, E::State)) -> (changed: bool)
        ensures
            !changed,
            final(state).0 == old(state).0,
            alive(*final(cx).world, entity_bits(old(state).0)),
            name_of(*final(cx).world, entity_bits(old(state).0)) == name_of(
                *old(cx).world,
                entity_bits(old(state).0),
            ),
            self.child_tuple().span_tree(&final(state).1) != self.child_tuple().span_tree(
                &old(state).1,
            ) ==> kids(*final(cx).world, entity_bits(old(state).0))
                == self.child_tuple().span_tree(&final(state).1).flat(),
    {
        let ghost w0 = *cx.world;
        let ghost o = entity_bits(cx.owner);
        let display = state.0;
        let ghost d = entity_bits(display);
        let ghost owned_c0 = self.children.owned_spans(&state.1);
        proof {
            assert forall|id: u64| owned_c0.contains(id) implies world_entities(w0).contains(
                id,
            ) && id != o by {
            }
        }
        self.effects.reapply(cx, display, &mut state.2);
        let ghost w1 = *cx.world;
        proof {
            lemma_links_untouched(w0, w1);
        }
        let children_changed = self.children.rebuild_spans(cx, &mut state.1);
        let ghost w2 = *cx.world;
        let ghost owned_c1 = self.children.owned_spans(&state.1);
        if children_changed {
            let nodes = self.children.span_nodes(&state.1);
            let list = nodes.to_vec();
            proof {
                lemma_kids_alive(w2, d);
                lemma_covered_alive(w2, owned_c1, bits_of(list@));
            }
            replace_children(cx.world, display, &list);
            proof {
                lemma_replaced_keeps_graph(w2, d, bits_of(list@), *cx.world);
            }
        }
        let ghost w3 = *cx.world;
        proof {
            let before = *old(state);
            let after = *state;
            lemma_host_lists_ok(
                d,
                self.children.lists_spans(&after.1),
                self.children.span_tree(&after.1).flat(),
                owned_c1,
            );
            lemma_host_stays(
                w0,
                w1,
                w2,
                w3,
                d,
                self.children.lists_spans(&before.1),
                self.children.span_tree(&before.1).flat(),
                owned_c0,
                self.children.lists_spans(&after.1),
                self.children.span_tree(&after.1).flat(),
                owned_c1,
                children_changed,
            );
            let t = RebuildTrace { styled: w1, populated: w2, children_changed };
            assert(self.rebuild_steps(w0, o, *old(state), t, w3, *state));
            assert forall|id: u64|
                alive(w0, id) && !self.owned(old(state)).insert(o).contains(
                    id,
                ) implies #[trigger] name_of(w3, id) == name_of(w0, id) by {
                assert(!owned_c0.insert(o).contains(id));
            }
        }
        false
    }

    fn raze(&self, world: &mut World, state: &mut (Entity, C::State, E::State))
        ensures
            final(state).0 == old(state).0,
            !alive(*final(world), entity_bits(old(state).0)),
            forall|p: u64| !(#[trigger] kids(*final(world), p)).contains(entity_bits(old(state).0)),
    {
        let ghost w0 = *world;
        let ghost d = entity_bits(state.0);
        remove_parent(world, state.0);
        let ghost w1 = *world;
        proof {
            lemma_detached_keeps_graph(w0, d, w1);
        }
        despawn(world, state.0);
        let ghost w2 = *world;
        proof {
            lemma_removed_keeps_graph(w1, d, w2);
        }
        self.children.raze_spans(world, &mut state.1);
        proof {
            let before = *old(state);
            lemma_host_razed(
                w0,
                w1,
                w2,
                *world,
                d,
                self.children.lists_spans(&before.1),
                self.children.span_tree(&before.1).flat(),
                self.children.owned_spans(&before.1),
            );
            assert forall|c: u64|
                alive(w0, c) && !self.owned(old(state)).contains(c) implies #[trigger] parent_of(
                *world,
                c,
            ) == parent_of(w0, c) by {
                assert(parent_of(w1, c) == parent_of(w0, c));
                assert(parent_of(w2, c) == parent_of(w1, c));
                assert(alive(w2, c));
            }
            assert forall|id: u64|
                alive(w0, id) && !self.owned(old(state)).contains(id) implies #[trigger] name_of(
                *world,
                id,
            ) == name_of(w0, id) by {
                assert(name_of(w1, id) == name_of(w0, id));
                assert(name_of(w2, id) == name_of(w1, id));
                assert(alive(w2, id));
            }
            let t = RazeTrace { detached: w1, despawned: w2 };
            assert(self.raze_steps(w0, *old(state), t, *world, *state));
        }
    }
}

} // verus!
