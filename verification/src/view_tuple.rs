//! Ordered lists of child views.  A list is built, rebuilt and razed member
//! by member, in declaration order, and shows its members' spans in that
//! order.

use vstd::prelude::*;
use bevy::ecs::world::World;
use crate::cx::Cx;
use crate::layout::{
    build_frame, leaves_in_place, lemma_built_joined, lemma_lists_ok_joined, lemma_razed_joined,
    lemma_stays_joined, links_kept, lists_hold, lists_ok, stays_in_place,
};
use crate::node_span::{lemma_flat_pair, lemma_flat_triple, lemma_trees_prefix, NodeSpan, SpanTree};
use crate::scene::{
    alive, covers, entity_bits, fresh_or_known, kids, lemma_distinct_concat, lemma_filter_all,
    names_kept, no_new_edges, none_lost, not_among, others_spared, parent_of, world_entities,
    world_ok,
};
use crate::view::UiView;

verus! {

/// A heterogeneous list of views with one state per member.  The rules are
/// those of a single view, taken over all members.
pub trait ViewTuple {
    type State;

    /// The entities, existing before the build, that the members take over.
    spec fn adopted_spans(&self) -> Set<u64>;

    /// Every member can be built and no entity is taken over twice.
    spec fn wf_spans(&self) -> bool;

    /// The entities that the members' states own.
    spec fn owned_spans(&self, state: &Self::State) -> Set<u64>;

    /// Every member's state is its own, and no entity is owned twice.
    spec fn state_wf_spans(&self, state: &Self::State) -> bool;

    /// The spans of the members, in declaration order.
    spec fn span_tree(&self, state: &Self::State) -> SpanTree;

    /// The child lists that the members' states expect.
    spec fn lists_spans(&self, state: &Self::State) -> Map<u64, Seq<u64>>;

    /// What building the members, in declaration order, may do.
    spec fn built_spans(&self, pre: World, owner: u64, post: World, state: Self::State) -> bool;

    /// What rebuilding the members, in declaration order, may do.
    spec fn rebuilt_spans(
        &self,
        pre: World,
        owner: u64,
        before: Self::State,
        post: World,
        after: Self::State,
        changed: bool,
    ) -> bool;

    /// What razing the members, in declaration order, may do.
    spec fn razed_spans(
        &self,
        pre: World,
        before: Self::State,
        post: World,
        after: Self::State,
    ) -> bool;

    /// The entities that the members show at present.
    fn span_nodes(&self, state: &Self::State) -> (r: NodeSpan)
        ensures
            r@ == self.span_tree(state),
    ;

    /// Builds every member, in declaration order.  The world has to be
    /// quiet and its hierarchy consistent, the owner live, and the entities
    /// that the members take over live and other than the owner.
    fn build_spans(&self, cx: &mut Cx) -> (state: Self::State)
        requires
            self.wf_spans(),
            world_ok(*old(cx).world),
            alive(*old(cx).world, entity_bits(old(cx).owner)),
            self.adopted_spans().subset_of(world_entities(*old(cx).world)),
            !self.adopted_spans().contains(entity_bits(old(cx).owner)),
        ensures
            final(cx).owner == old(cx).owner,
            // Nothing is despawned; what the state owns is live, and was
            // made by this build unless it was taken over.
            none_lost(*old(cx).world, *final(cx).world),
            self.state_wf_spans(&state),
            self.owned_spans(&state).subset_of(world_entities(*final(cx).world)),
            fresh_or_known(self.owned_spans(&state), *old(cx).world, self.adopted_spans()),
            // What is shown is owned, and no entity is shown twice.
            covers(self.owned_spans(&state), self.span_tree(&state).flat()),
            self.span_tree(&state).flat().no_duplicates(),
            // The world is quiet and its hierarchy consistent, the child
            // lists that the state expects are in place, and the lists and
            // links of other entities are as they were.
            world_ok(*final(cx).world),
            lists_ok(self.lists_spans(&state), self.owned_spans(&state), self.span_tree(&state).flat()),
            lists_hold(*final(cx).world, self.lists_spans(&state)),
            build_frame(*old(cx).world, *final(cx).world, self.adopted_spans()),
            // Only the owner and what was taken over may have a new name.
            names_kept(
                *old(cx).world,
                *final(cx).world,
                self.adopted_spans().insert(entity_bits(old(cx).owner)),
            ),
            self.built_spans(*old(cx).world, entity_bits(old(cx).owner), *final(cx).world, state),
    ;

    /// Rebuilds every member, in declaration order, and says whether the
    /// span of any member has changed.  The state has to be this list's own
    /// and what it owns live; the owner has to be live and not owned by it.
    fn rebuild_spans(&self, cx: &mut Cx, state: &mut Self::State) -> (changed: bool)
        requires
            self.state_wf_spans(old(state)),
            world_ok(*old(cx).world),
            alive(*old(cx).world, entity_bits(old(cx).owner)),
            !self.owned_spans(old(state)).contains(entity_bits(old(cx).owner)),
            self.owned_spans(old(state)).subset_of(world_entities(*old(cx).world)),
        ensures
            final(cx).owner == old(cx).owner,
            // Only what the state owned is despawned; what it owns now is
            // live, and was made by this rebuild unless it was owned before.
            self.state_wf_spans(final(state)),
            others_spared(*old(cx).world, *final(cx).world, self.owned_spans(old(state))),
            self.owned_spans(final(state)).subset_of(world_entities(*final(cx).world)),
            fresh_or_known(
                self.owned_spans(final(state)),
                *old(cx).world,
                self.owned_spans(old(state)),
            ),
            // What is shown is owned, and no entity is shown twice; a change
            // is reported exactly where what is shown has changed.
            covers(self.owned_spans(final(state)), self.span_tree(final(state)).flat()),
            self.span_tree(final(state)).flat().no_duplicates(),
            changed <==> self.span_tree(final(state)) != self.span_tree(old(state)),
            // The world is quiet and its hierarchy consistent, the state
            // stays in place under its host, and the rest of the hierarchy
            // is as it was.
            world_ok(*final(cx).world),
            lists_ok(
                self.lists_spans(final(state)),
                self.owned_spans(final(state)),
                self.span_tree(final(state)).flat(),
            ),
            stays_in_place(
                *old(cx).world,
                self.lists_spans(old(state)),
                self.span_tree(old(state)).flat(),
                self.owned_spans(old(state)),
                *final(cx).world,
                self.lists_spans(final(state)),
                self.span_tree(final(state)).flat(),
                self.owned_spans(final(state)),
                changed,
            ),
            // Only the owner and what the state owned may have a new name.
            names_kept(
                *old(cx).world,
                *final(cx).world,
                self.owned_spans(old(state)).insert(entity_bits(old(cx).owner)),
            ),
            self.rebuilt_spans(
                *old(cx).world,
                entity_bits(old(cx).owner),
                *old(state),
                *final(cx).world,
                *final(state),
                changed,
            ),
    ;

    /// Razes every member, in declaration order.  The state has to be this
    /// list's own and what it owns live.
    fn raze_spans(&self, world: &mut World, state: &mut Self::State)
        requires
            self.state_wf_spans(old(state)),
            world_ok(*old(world)),
            self.owned_spans(old(state)).subset_of(world_entities(*old(world))),
        ensures
            // Nothing is spawned, what the state owned is gone, and nothing
            // else is; the world is quiet, and its hierarchy is consistent
            // and has no new edge.
            world_ok(*final(world)),
            world_entities(*final(world)).subset_of(world_entities(*old(world))),
            world_entities(*final(world)).disjoint(self.owned_spans(old(state))),
            others_spared(*old(world), *final(world), self.owned_spans(old(state))),
            no_new_edges(*old(world), *final(world)),
            // What the state did not own keeps its name and its parent link,
            // and the child lists are as they were but for the entities
            // shown, which have left the list of their host.
            names_kept(*old(world), *final(world), self.owned_spans(old(state))),
            links_kept(*old(world), *final(world), self.owned_spans(old(state))),
            leaves_in_place(
                *old(world),
                self.lists_spans(old(state)),
                self.span_tree(old(state)).flat(),
                self.owned_spans(old(state)),
                *final(world),
            ),
            self.razed_spans(*old(world), *old(state), *final(world), *final(state)),
    ;
}

impl ViewTuple for () {
    type State = ();

    open spec fn adopted_spans(&self) -> Set<u64> {
        Set::empty()
    }

    open spec fn wf_spans(&self) -> bool {
        true
    }

    open spec fn owned_spans(&self, state: &()) -> Set<u64> {
        Set::empty()
    }

    open spec fn state_wf_spans(&self, state: &()) -> bool {
        true
    }

    open spec fn span_tree(&self, state: &()) -> SpanTree {
        SpanTree::Empty
    }

    open spec fn lists_spans(&self, state: &()) -> Map<u64, Seq<u64>> {
        Map::empty()
    }

    open spec fn built_spans(&self, pre: World, owner: u64, post: World, state: ()) -> bool {
        post == pre
    }

    open spec fn rebuilt_spans(
        &self,
        pre: World,
        owner: u64,
        before: (),
        post: World,
        after: (),
        changed: bool,
    ) -> bool {
        post == pre && !changed
    }

    open spec fn razed_spans(&self, pre: World, before: (), post: World, after: ()) -> bool {
        post == pre
    }

    fn span_nodes(&self, state: &()) -> (r: NodeSpan) {
        NodeSpan::Empty
    }

    fn build_spans(&self, cx: &mut Cx) -> (state: ()) {
    }

    fn rebuild_spans(&self, cx: &mut Cx, state: &mut ()) -> (changed: bool) {
        false
    }

    fn raze_spans(&self, world: &mut World, state: &mut ()) {
        proof {
            assert forall|host: u64| kids(*world, host).filter(not_among(Seq::<u64>::empty()))
                == #[trigger] kids(*world, host) by {
                lemma_filter_all(kids(*world, host), not_among(Seq::<u64>::empty()));
            }
        }
    }
}

impl<V: UiView> ViewTuple for V {
    type State = V::State;

    open spec fn adopted_spans(&self) -> Set<u64> {
        self.adopted()
    }

    open spec fn wf_spans(&self) -> bool {
        self.wf()
    }

    open spec fn owned_spans(&self, state: &V::State) -> Set<u64> {
        self.owned(state)
    }

    open spec fn state_wf_spans(&self, state: &V::State) -> bool {
        self.state_wf(state)
    }

    open spec fn span_tree(&self, state: &V::State) -> SpanTree {
        self.span(state)
    }

    open spec fn lists_spans(&self, state: &V::State) -> Map<u64, Seq<u64>> {
        self.lists(state)
    }

    open spec fn built_spans(&self, pre: World, owner: u64, post: World, state: V::State) -> bool {
        self.built(pre, owner, post, state)
    }

    open spec fn rebuilt_spans(
        &self,
        pre: World,
        owner: u64,
        before: V::State,
        post: World,
        after: V::State,
        changed: bool,
    ) -> bool {
        self.rebuilt(pre, owner, before, post, after, changed)
    }

    open spec fn razed_spans(
        &self,
        pre: World,
        before: V::State,
        post: World,
        after: V::State,
    ) -> bool {
        self.razed(pre, before, post, after)
    }

    fn span_nodes(&self, state: &V::State) -> (r: NodeSpan) {
        self.nodes(state)
    }

    fn build_spans(&self, cx: &mut Cx) -> (state: V::State) {
        self.build(cx)
    }

    fn rebuild_spans(&self, cx: &mut Cx, state: &mut V::State) -> (changed: bool) {
        self.rebuild(cx, state)
    }

    fn raze_spans(&self, world: &mut World, state: &mut V::State) {
        self.raze(world, state)
    }
}

impl<A: ViewTuple, B: ViewTuple> ViewTuple for (A, B) {
    type State = (A::State, B::State);

    open spec fn adopted_spans(&self) -> Set<u64> {
        self.0.adopted_spans().union(self.1.adopted_spans())
    }

    open spec fn wf_spans(&self) -> bool {
        &&& self.0.wf_spans()
        &&& self.1.wf_spans()
        &&& self.0.adopted_spans().disjoint(self.1.adopted_spans())
    }

    open spec fn owned_spans(&self, state: &(A::State, B::State)) -> Set<u64> {
        self.0.owned_spans(&state.0).union(self.1.owned_spans(&state.1))
    }

    open spec fn state_wf_spans(&self, state: &(A::State, B::State)) -> bool {
        &&& self.0.state_wf_spans(&state.0)
        &&& self.1.state_wf_spans(&state.1)
        &&& self.0.owned_spans(&state.0).disjoint(self.1.owned_spans(&state.1))
        &&& lists_ok(
            self.0.lists_spans(&state.0),
            self.0.owned_spans(&state.0),
            self.0.span_tree(&state.0).flat(),
        )
        &&& lists_ok(
            self.1.lists_spans(&state.1),
            self.1.owned_spans(&state.1),
            self.1.span_tree(&state.1).flat(),
        )
        &&& covers(self.0.owned_spans(&state.0), self.0.span_tree(&state.0).flat())
        &&& covers(self.1.owned_spans(&state.1), self.1.span_tree(&state.1).flat())
    }

    open spec fn span_tree(&self, state: &(A::State, B::State)) -> SpanTree {
        SpanTree::List(seq![self.0.span_tree(&state.0), self.1.span_tree(&state.1)])
    }

    open spec fn lists_spans(&self, state: &(A::State, B::State)) -> Map<u64, Seq<u64>> {
        self.0.lists_spans(&state.0).union_prefer_right(self.1.lists_spans(&state.1))
    }

    open spec fn built_spans(
        &self,
        pre: World,
        owner: u64,
        post: World,
        state: (A::State, B::State),
    ) -> bool {
        exists|mid: World| #[trigger]
            self.0.built_spans(pre, owner, mid, state.0) && self.1.built_spans(
                mid,
                owner,
                post,
                state.1,
            )
    }

    open spec fn rebuilt_spans(
        &self,
        pre: World,
        owner: u64,
        before: (A::State, B::State),
        post: World,
        after: (A::State, B::State),
        changed: bool,
    ) -> bool {
        exists|mid: World, first: bool, second: bool| #[trigger]
            self.0.rebuilt_spans(pre, owner, before.0, mid, after.0, first)
                && #[trigger] self.1.rebuilt_spans(mid, owner, before.1, post, after.1, second)
                && changed == (first || second)
    }

    open spec fn razed_spans(
        &self,
        pre: World,
        before: (A::State, B::State),
        post: World,
        after: (A::State, B::State),
    ) -> bool {
        exists|mid: World| #[trigger]
            self.0.razed_spans(pre, before.0, mid, after.0) && self.1.razed_spans(
                mid,
                before.1,
                post,
                after.1,
            )
    }

    fn span_nodes(&self, state: &(A::State, B::State)) -> (r: NodeSpan) {
        let mut items: Vec<NodeSpan> = Vec::new();
        items.push(self.0.span_nodes(&state.0));
        items.push(self.1.span_nodes(&state.1));
        proof {
            lemma_trees_prefix(items@, 2);
            assert(crate::node_span::trees_prefix(items@, 2) =~= seq![
                self.0.span_tree(&state.0),
                self.1.span_tree(&state.1),
            ]);
        }
        NodeSpan::List(items)
    }

    fn build_spans(&self, cx: &mut Cx) -> (state: (A::State, B::State)) {
        let ghost pre = *cx.world;
        let a = self.0.build_spans(cx);
        let ghost mid = *cx.world;
        let b = self.1.build_spans(cx);
        let ghost state = (a, b);
        proof {
            let owner = entity_bits(cx.owner);
            lemma_lists_ok_joined(
                self.0.lists_spans(&a),
                self.0.span_tree(&a).flat(),
                self.0.owned_spans(&a),
                self.1.lists_spans(&b),
                self.1.span_tree(&b).flat(),
                self.1.owned_spans(&b),
            );
            lemma_built_joined(
                pre,
                mid,
                *cx.world,
                self.0.lists_spans(&a),
                self.0.span_tree(&a).flat(),
                self.0.owned_spans(&a),
                self.0.adopted_spans(),
                self.1.lists_spans(&b),
                self.1.owned_spans(&b),
                self.1.adopted_spans(),
            );
            lemma_flat_pair(self.0.span_tree(&a), self.1.span_tree(&b));
            lemma_distinct_concat(
                self.0.span_tree(&a).flat(),
                self.1.span_tree(&b).flat(),
                self.0.owned_spans(&a),
                self.1.owned_spans(&b),
            );
            assert(self.0.built_spans(pre, owner, mid, state.0) && self.1.built_spans(
                mid,
                owner,
                *cx.world,
                state.1,
            ));
        }
        (a, b)
    }

    fn rebuild_spans(&self, cx: &mut Cx, state: &mut (A::State, B::State)) -> (changed: bool) {
        let ghost pre = *cx.world;
        let ghost own_a = self.0.owned_spans(&state.0);
        let ghost own_b = self.1.owned_spans(&state.1);
        proof {
            assert forall|id: u64| own_a.contains(id) || own_b.contains(id) implies world_entities(
                pre,
            ).contains(id) by {
                assert(own_a.union(own_b).contains(id));
            }
        }
        let first = self.0.rebuild_spans(cx, &mut state.0);
        let ghost mid = *cx.world;
        let second = self.1.rebuild_spans(cx, &mut state.1);
        proof {
            let owner = entity_bits(cx.owner);
            let before = *old(state);
            let after = *state;
            lemma_flat_pair(self.0.span_tree(&before.0), self.1.span_tree(&before.1));
            lemma_flat_pair(self.0.span_tree(&after.0), self.1.span_tree(&after.1));
            lemma_lists_ok_joined(
                self.0.lists_spans(&after.0),
                self.0.span_tree(&after.0).flat(),
                self.0.owned_spans(&after.0),
                self.1.lists_spans(&after.1),
                self.1.span_tree(&after.1).flat(),
                self.1.owned_spans(&after.1),
            );
            lemma_stays_joined(
                pre,
                mid,
                *cx.world,
                self.0.lists_spans(&before.0),
                self.0.span_tree(&before.0).flat(),
                own_a,
                self.0.lists_spans(&after.0),
                self.0.span_tree(&after.0).flat(),
                self.0.owned_spans(&after.0),
                first,
                self.1.lists_spans(&before.1),
                self.1.span_tree(&before.1).flat(),
                own_b,
                self.1.lists_spans(&after.1),
                self.1.span_tree(&after.1).flat(),
                self.1.owned_spans(&after.1),
                second,
            );
            lemma_distinct_concat(
                self.0.span_tree(&after.0).flat(),
                self.1.span_tree(&after.1).flat(),
                self.0.owned_spans(&after.0),
                self.1.owned_spans(&after.1),
            );
            assert(self.0.rebuilt_spans(pre, owner, before.0, mid, after.0, first)
                && self.1.rebuilt_spans(mid, owner, before.1, *cx.world, after.1, second));
            let s0 = seq![self.0.span_tree(&before.0), self.1.span_tree(&before.1)];
            let s1 = seq![self.0.span_tree(&after.0), self.1.span_tree(&after.1)];
            assert(s0[0] == self.0.span_tree(&before.0) && s0[1] == self.1.span_tree(&before.1));
            assert(s1[0] == self.0.span_tree(&after.0) && s1[1] == self.1.span_tree(&after.1));
        }
        first || second
    }

    fn raze_spans(&self, world: &mut World, state: &mut (A::State, B::State)) {
        let ghost pre = *world;
        let ghost own_a = self.0.owned_spans(&state.0);
        let ghost own_b = self.1.owned_spans(&state.1);
        proof {
            assert forall|id: u64| own_a.contains(id) || own_b.contains(id) implies world_entities(
                pre,
            ).contains(id) by {
                assert(own_a.union(own_b).contains(id));
            }
        }
        self.0.raze_spans(world, &mut state.0);
        let ghost mid = *world;
        self.1.raze_spans(world, &mut state.1);
        proof {
            let before = *old(state);
            let after = *state;
            assert(self.0.razed_spans(pre, before.0, mid, after.0) && self.1.razed_spans(
                mid,
                before.1,
                *world,
                after.1,
            ));
            lemma_flat_pair(self.0.span_tree(&before.0), self.1.span_tree(&before.1));
            lemma_razed_joined(
                pre,
                mid,
                *world,
                self.0.lists_spans(&before.0),
                self.0.span_tree(&before.0).flat(),
                own_a,
                self.1.lists_spans(&before.1),
                self.1.span_tree(&before.1).flat(),
                own_b,
            );
        }
    }
}

impl<A: ViewTuple, B: ViewTuple, C: ViewTuple> ViewTuple for (A, B, C) {
    type State = (A::State, B::State, C::State);

    open spec fn adopted_spans(&self) -> Set<u64> {
        self.0.adopted_spans().union(self.1.adopted_spans()).union(self.2.adopted_spans())
    }

    open spec fn wf_spans(&self) -> bool {
        &&& self.0.wf_spans()
        &&& self.1.wf_spans()
        &&& self.2.wf_spans()
        &&& self.0.adopted_spans().disjoint(self.1.adopted_spans())
        &&& self.0.adopted_spans().disjoint(self.2.adopted_spans())
        &&& self.1.adopted_spans().disjoint(self.2.adopted_spans())
    }

    open spec fn owned_spans(&self, state: &(A::State, B::State, C::State)) -> Set<u64> {
        self.0.owned_spans(&state.0).union(self.1.owned_spans(&state.1)).union(
            self.2.owned_spans(&state.2),
        )
    }

    open spec fn state_wf_spans(&self, state: &(A::State, B::State, C::State)) -> bool {
        &&& self.0.state_wf_spans(&state.0)
        &&& self.1.state_wf_spans(&state.1)
        &&& self.2.state_wf_spans(&state.2)
        &&& self.0.owned_spans(&state.0).disjoint(self.1.owned_spans(&state.1))
        &&& self.0.owned_spans(&state.0).disjoint(self.2.owned_spans(&state.2))
        &&& self.1.owned_spans(&state.1).disjoint(self.2.owned_spans(&state.2))
        &&& lists_ok(
            self.0.lists_spans(&state.0),
            self.0.owned_spans(&state.0),
            self.0.span_tree(&state.0).flat(),
        )
        &&& lists_ok(
            self.1.lists_spans(&state.1),
            self.1.owned_spans(&state.1),
            self.1.span_tree(&state.1).flat(),
        )
        &&& lists_ok(
            self.2.lists_spans(&state.2),
            self.2.owned_spans(&state.2),
            self.2.span_tree(&state.2).flat(),
        )
        &&& covers(self.0.owned_spans(&state.0), self.0.span_tree(&state.0).flat())
        &&& covers(self.1.owned_spans(&state.1), self.1.span_tree(&state.1).flat())
        &&& covers(self.2.owned_spans(&state.2), self.2.span_tree(&state.2).flat())
    }

    open spec fn lists_spans(&self, state: &(A::State, B::State, C::State)) -> Map<
        u64,
        Seq<u64>,
    > {
        self.0.lists_spans(&state.0).union_prefer_right(
            self.1.lists_spans(&state.1),
        ).union_prefer_right(self.2.lists_spans(&state.2))
    }

    open spec fn span_tree(&self, state: &(A::State, B::State, C::State)) -> SpanTree {
        SpanTree::List(
            seq![
                self.0.span_tree(&state.0),
                self.1.span_tree(&state.1),
                self.2.span_tree(&state.2),
            ],
        )
    }

    open spec fn built_spans(
        &self,
        pre: World,
        owner: u64,
        post: World,
        state: (A::State, B::State, C::State),
    ) -> bool {
        exists|m1: World, m2: World| #[trigger]
            self.0.built_spans(pre, owner, m1, state.0) && #[trigger] self.1.built_spans(
                m1,
                owner,
                m2,
                state.1,
            ) && self.2.built_spans(m2, owner, post, state.2)
    }

    open spec fn rebuilt_spans(
        &self,
        pre: World,
        owner: u64,
        before: (A::State, B::State, C::State),
        post: World,
        after: (A::State, B::State, C::State),
        changed: bool,
    ) -> bool {
        exists|m1: World, m2: World, first: bool, second: bool, third: bool| #[trigger]
            self.0.rebuilt_spans(pre, owner, before.0, m1, after.0, first)
                && #[trigger] self.1.rebuilt_spans(m1, owner, before.1, m2, after.1, second)
                && #[trigger] self.2.rebuilt_spans(m2, owner, before.2, post, after.2, third)
                && changed == (first || second || third)
    }

    open spec fn razed_spans(
        &self,
        pre: World,
        before: (A::State, B::State, C::State),
        post: World,
        after: (A::State, B::State, C::State),
    ) -> bool {
        exists|m1: World, m2: World| #[trigger]
            self.0.razed_spans(pre, before.0, m1, after.0) && #[trigger] self.1.razed_spans(
                m1,
                before.1,
                m2,
                after.1,
            ) && self.2.razed_spans(m2, before.2, post, after.2)
    }

    fn span_nodes(&self, state: &(A::State, B::State, C::State)) -> (r: NodeSpan) {
        let mut items: Vec<NodeSpan> = Vec::new();
        items.push(self.0.span_nodes(&state.0));
        items.push(self.1.span_nodes(&state.1));
        items.push(self.2.span_nodes(&state.2));
        proof {
            lemma_trees_prefix(items@, 3);
            assert(crate::node_span::trees_prefix(items@, 3) =~= seq![
                self.0.span_tree(&state.0),
                self.1.span_tree(&state.1),
                self.2.span_tree(&state.2),
            ]);
        }
        NodeSpan::List(items)
    }

    fn build_spans(&self, cx: &mut Cx) -> (state: (A::State, B::State, C::State)) {
        let ghost pre = *cx.world;
        let a = self.0.build_spans(cx);
        let ghost m1 = *cx.world;
        let b = self.1.build_spans(cx);
        let ghost m2 = *cx.world;
        let c = self.2.build_spans(cx);
        let ghost state = (a, b, c);
        proof {
            let owner = entity_bits(cx.owner);
            lemma_flat_triple(self.0.span_tree(&a), self.1.span_tree(&b), self.2.span_tree(&c));
            lemma_distinct_concat(
                self.0.span_tree(&a).flat(),
                self.1.span_tree(&b).flat(),
                self.0.owned_spans(&a),
                self.1.owned_spans(&b),
            );
            lemma_distinct_concat(
                self.0.span_tree(&a).flat() + self.1.span_tree(&b).flat(),
                self.2.span_tree(&c).flat(),
                self.0.owned_spans(&a).union(self.1.owned_spans(&b)),
                self.2.owned_spans(&c),
            );
            assert(self.0.built_spans(pre, owner, m1, state.0) && self.1.built_spans(
                m1,
                owner,
                m2,
                state.1,
            ) && self.2.built_spans(m2, owner, *cx.world, state.2));
            let (la, lb, lc) = (
                self.0.lists_spans(&a),
                self.1.lists_spans(&b),
                self.2.lists_spans(&c),
            );
            let (fa, fb, fc) = (
                self.0.span_tree(&a).flat(),
                self.1.span_tree(&b).flat(),
                self.2.span_tree(&c).flat(),
            );
            let (oa, ob, oc) = (
                self.0.owned_spans(&a),
                self.1.owned_spans(&b),
                self.2.owned_spans(&c),
            );
            let (ta, tb, tc) = (
                self.0.adopted_spans(),
                self.1.adopted_spans(),
                self.2.adopted_spans(),
            );
            lemma_lists_ok_joined(la, fa, oa, lb, fb, ob);
            lemma_lists_ok_joined(la.union_prefer_right(lb), fa + fb, oa.union(ob), lc, fc, oc);
            lemma_built_joined(pre, m1, m2, la, fa, oa, ta, lb, ob, tb);
            assert forall|id: u64| #[trigger]
                oa.union(ob).contains(id) && world_entities(pre).contains(id) implies ta.union(
                tb,
            ).contains(id) by {
                if ob.contains(id) {
                    assert(world_entities(m1).contains(id));
                }
            }
            lemma_built_joined(
                pre,
                m2,
                *cx.world,
                la.union_prefer_right(lb),
                fa + fb,
                oa.union(ob),
                ta.union(tb),
                lc,
                oc,
                tc,
            );
        }
        (a, b, c)
    }

    fn rebuild_spans(&self, cx: &mut Cx, state: &mut (A::State, B::State, C::State)) -> (changed:
        bool) {
        let ghost pre = *cx.world;
        let ghost own_a = self.0.owned_spans(&state.0);
        let ghost own_b = self.1.owned_spans(&state.1);
        let ghost own_c = self.2.owned_spans(&state.2);
        proof {
            assert forall|id: u64|
                own_a.contains(id) || own_b.contains(id) || own_c.contains(
                    id,
                ) implies world_entities(pre).contains(id) by {
                assert(own_a.union(own_b).union(own_c).contains(id));
            }
        }
        let first = self.0.rebuild_spans(cx, &mut state.0);
        let ghost m1 = *cx.world;
        let second = self.1.rebuild_spans(cx, &mut state.1);
        let ghost m2 = *cx.world;
        let third = self.2.rebuild_spans(cx, &mut state.2);
        proof {
            let owner = entity_bits(cx.owner);
            let before = *old(state);
            let after = *state;
            lemma_flat_triple(
                self.0.span_tree(&after.0),
                self.1.span_tree(&after.1),
                self.2.span_tree(&after.2),
            );
            lemma_distinct_concat(
                self.0.span_tree(&after.0).flat(),
                self.1.span_tree(&after.1).flat(),
                self.0.owned_spans(&after.0),
                self.1.owned_spans(&after.1),
            );
            lemma_distinct_concat(
                self.0.span_tree(&after.0).flat() + self.1.span_tree(&after.1).flat(),
                self.2.span_tree(&after.2).flat(),
                self.0.owned_spans(&after.0).union(self.1.owned_spans(&after.1)),
                self.2.owned_spans(&after.2),
            );
            assert(self.0.rebuilt_spans(pre, owner, before.0, m1, after.0, first)
                && self.1.rebuilt_spans(m1, owner, before.1, m2, after.1, second)
                && self.2.rebuilt_spans(m2, owner, before.2, *cx.world, after.2, third));
            lemma_flat_triple(
                self.0.span_tree(&before.0),
                self.1.span_tree(&before.1),
                self.2.span_tree(&before.2),
            );
            let (la0, lb0, lc0) = (
                self.0.lists_spans(&before.0),
                self.1.lists_spans(&before.1),
                self.2.lists_spans(&before.2),
            );
            let (fa0, fb0, fc0) = (
                self.0.span_tree(&before.0).flat(),
                self.1.span_tree(&before.1).flat(),
                self.2.span_tree(&before.2).flat(),
            );
            let (la1, lb1, lc1) = (
                self.0.lists_spans(&after.0),
                self.1.lists_spans(&after.1),
                self.2.lists_spans(&after.2),
            );
            let (fa1, fb1, fc1) = (
                self.0.span_tree(&after.0).flat(),
                self.1.span_tree(&after.1).flat(),
                self.2.span_tree(&after.2).flat(),
            );
            let (oa1, ob1, oc1) = (
                self.0.owned_spans(&after.0),
                self.1.owned_spans(&after.1),
                self.2.owned_spans(&after.2),
            );
            lemma_lists_ok_joined(la0, fa0, own_a, lb0, fb0, own_b);
            lemma_lists_ok_joined(la1, fa1, oa1, lb1, fb1, ob1);
            lemma_lists_ok_joined(
                la1.union_prefer_right(lb1),
                fa1 + fb1,
                oa1.union(ob1),
                lc1,
                fc1,
                oc1,
            );
            lemma_stays_joined(
                pre,
                m1,
                m2,
                la0,
                fa0,
                own_a,
                la1,
                fa1,
                oa1,
                first,
                lb0,
                fb0,
                own_b,
                lb1,
                fb1,
                ob1,
                second,
            );
            assert(covers(own_a.union(own_b), fa0 + fb0)) by {
                assert forall|i: int| 0 <= i < (fa0 + fb0).len() implies own_a.union(
                    own_b,
                ).contains(#[trigger] (fa0 + fb0)[i]) by {
                    if i < fa0.len() {
                        assert(own_a.contains(fa0[i]));
                    } else {
                        assert(own_b.contains(fb0[i - fa0.len()]));
                    }
                }
            }
            assert forall|id: u64| #[trigger]
                world_entities(pre).contains(id) && !own_a.union(own_b).contains(
                    id,
                ) implies world_entities(m2).contains(id) by {
                assert(world_entities(m1).contains(id));
            }
            assert forall|id: u64| #[trigger]
                oa1.union(ob1).contains(id) && world_entities(pre).contains(
                    id,
                ) implies own_a.union(own_b).contains(id) by {
                if ob1.contains(id) && !own_a.contains(id) {
                    assert(world_entities(m1).contains(id));
                }
            }
            assert forall|id: u64| oa1.union(ob1).contains(id) implies world_entities(
                m2,
            ).contains(id) by {
                if !ob1.contains(id) {
                    assert(oa1.contains(id));
                    assert(world_entities(m1).contains(id));
                    if own_b.contains(id) {
                        assert(world_entities(pre).contains(id));
                    }
                }
            }
            lemma_stays_joined(
                pre,
                m2,
                *cx.world,
                la0.union_prefer_right(lb0),
                fa0 + fb0,
                own_a.union(own_b),
                la1.union_prefer_right(lb1),
                fa1 + fb1,
                oa1.union(ob1),
                first || second,
                lc0,
                fc0,
                own_c,
                lc1,
                fc1,
                oc1,
                third,
            );
            let s0 = seq![
                self.0.span_tree(&before.0),
                self.1.span_tree(&before.1),
                self.2.span_tree(&before.2),
            ];
            let s1 = seq![
                self.0.span_tree(&after.0),
                self.1.span_tree(&after.1),
                self.2.span_tree(&after.2),
            ];
            assert(s0[0] == self.0.span_tree(&before.0) && s0[1] == self.1.span_tree(&before.1)
                && s0[2] == self.2.span_tree(&before.2));
            assert(s1[0] == self.0.span_tree(&after.0) && s1[1] == self.1.span_tree(&after.1)
                && s1[2] == self.2.span_tree(&after.2));
        }
        first || second || third
    }

    fn raze_spans(&self, world: &mut World, state: &mut (A::State, B::State, C::State)) {
        let ghost pre = *world;
        let ghost own_a = self.0.owned_spans(&state.0);
        let ghost own_b = self.1.owned_spans(&state.1);
        let ghost own_c = self.2.owned_spans(&state.2);
        proof {
            assert forall|id: u64|
                own_a.contains(id) || own_b.contains(id) || own_c.contains(
                    id,
                ) implies world_entities(pre).contains(id) by {
                assert(own_a.union(own_b).union(own_c).contains(id));
            }
        }
        self.0.raze_spans(world, &mut state.0);
        let ghost m1 = *world;
        self.1.raze_spans(world, &mut state.1);
        let ghost m2 = *world;
        self.2.raze_spans(world, &mut state.2);
        proof {
            let before = *old(state);
            let after = *state;
            assert(self.0.razed_spans(pre, before.0, m1, after.0) && self.1.razed_spans(
                m1,
                before.1,
                m2,
                after.1,
            ) && self.2.razed_spans(m2, before.2, *world, after.2));
            let (la, lb, lc) = (
                self.0.lists_spans(&before.0),
                self.1.lists_spans(&before.1),
                self.2.lists_spans(&before.2),
            );
            let (fa, fb, fc) = (
                self.0.span_tree(&before.0).flat(),
                self.1.span_tree(&before.1).flat(),
                self.2.span_tree(&before.2).flat(),
            );
            lemma_flat_triple(
                self.0.span_tree(&before.0),
                self.1.span_tree(&before.1),
                self.2.span_tree(&before.2),
            );
            lemma_razed_joined(pre, m1, m2, la, fa, own_a, lb, fb, own_b);
            lemma_lists_ok_joined(la, fa, own_a, lb, fb, own_b);
            assert forall|i: int| 0 <= i < (fa + fb).len() implies own_a.union(own_b).contains(
                #[trigger] (fa + fb)[i],
            ) by {
                if i < fa.len() {
                    assert(own_a.contains(fa[i]));
                } else {
                    assert(own_b.contains(fb[i - fa.len()]));
                }
            }
            assert forall|id: u64| #[trigger]
                world_entities(pre).contains(id) && !own_a.union(own_b).contains(
                    id,
                ) implies world_entities(m2).contains(id) by {
                assert(world_entities(m1).contains(id));
            }
            assert forall|c: u64|
                alive(pre, c) && !own_a.union(own_b).contains(c) implies #[trigger] parent_of(
                m2,
                c,
            ) == parent_of(pre, c) by {
                assert(alive(m1, c));
                assert(parent_of(m1, c) == parent_of(pre, c));
            }
            lemma_razed_joined(
                pre,
                m2,
                *world,
                la.union_prefer_right(lb),
                fa + fb,
                own_a.union(own_b),
                lc,
                fc,
                own_c,
            );
        }
    }
}

} // verus!
