//! The entities that a view shows, as a tree, and its flattening.

use vstd::prelude::*;
use bevy::ecs::entity::Entity;
use crate::scene::{bits_of, entity_bits};

verus! {

/// The mathematical value of a [`NodeSpan`]: entities by their bit pattern.
pub enum SpanTree {
    Empty,
    Node(u64),
    List(Seq<SpanTree>),
}

/// The flattening of the first `n` trees of `items`, one after the other.
pub open spec fn flat_prefix(items: Seq<SpanTree>, n: nat) -> Seq<u64>
    decreases items, n,
{
    if n == 0 || n > items.len() {
        Seq::empty()
    } else {
        flat_prefix(items, (n - 1) as nat) + items[n - 1].flat()
    }
}

impl SpanTree {
    /// The entities of the tree in depth-first order.  An empty span
    /// contributes nothing; a list contributes its members' entities in the
    /// order of the members.
    pub open spec fn flat(self) -> Seq<u64>
        decreases self,
    {
        match self {
            SpanTree::Empty => Seq::empty(),
            SpanTree::Node(id) => seq![id],
            SpanTree::List(items) => flat_prefix(items, items.len()),
        }
    }
}

/// The trees of the first `n` spans of `items`.
pub open spec fn trees_prefix(items: Seq<NodeSpan>, n: nat) -> Seq<SpanTree>
    decreases items, n,
{
    if n == 0 || n > items.len() {
        Seq::empty()
    } else {
        trees_prefix(items, (n - 1) as nat).push(items[n - 1].view())
    }
}

/// The entities that a view produced: none, one, or the spans of several
/// views in order.
#[derive(Debug, PartialEq, Eq)]
pub enum NodeSpan {
    Empty,
    Node(Entity),
    List(Vec<NodeSpan>),
}

impl View for NodeSpan {
    type V = SpanTree;

    open spec fn view(&self) -> SpanTree
        decreases self,
    {
        match self {
            NodeSpan::Empty => SpanTree::Empty,
            NodeSpan::Node(e) => SpanTree::Node(entity_bits(*e)),
            NodeSpan::List(items) => SpanTree::List(trees_prefix(items@, items@.len())),
        }
    }
}

/// The first `n` trees of a list are the trees of its first `n` spans.
pub proof fn lemma_trees_prefix(items: Seq<NodeSpan>, n: nat)
    requires
        n <= items.len(),
    ensures
        trees_prefix(items, n).len() == n,
        forall|k: int| 0 <= k < n ==> #[trigger] trees_prefix(items, n)[k] == items[k].view(),
    decreases n,
{
    if n > 0 {
        lemma_trees_prefix(items, (n - 1) as nat);
        assert(trees_prefix(items, n) == trees_prefix(items, (n - 1) as nat).push(
            items[n - 1].view(),
        ));
    }
}

/// Flattening a prefix looks only at the trees of that prefix.
pub proof fn lemma_flat_prefix_agrees(a: Seq<SpanTree>, b: Seq<SpanTree>, n: nat)
    requires
        n <= a.len(),
        n <= b.len(),
        forall|k: int| 0 <= k < n ==> a[k] == b[k],
    ensures
        flat_prefix(a, n) == flat_prefix(b, n),
    decreases n,
{
    if n > 0 {
        lemma_flat_prefix_agrees(a, b, (n - 1) as nat);
    }
}

/// A list of two lists put end to end flattens to the two flattenings put
/// end to end.
pub proof fn lemma_flat_concat(a: Seq<SpanTree>, b: Seq<SpanTree>)
    ensures
        SpanTree::List(a + b).flat() == SpanTree::List(a).flat() + SpanTree::List(b).flat(),
    decreases b.len(),
{
    let ab = a + b;
    if b.len() > 0 {
        let b0 = b.drop_last();
        lemma_flat_concat(a, b0);
        lemma_flat_prefix_agrees(ab, a + b0, (ab.len() - 1) as nat);
        lemma_flat_prefix_agrees(b, b0, b0.len());
    }
}

/// A list of two spans flattens to the entities of the first, then those of
/// the second.
pub proof fn lemma_flat_pair(a: SpanTree, b: SpanTree)
    ensures
        SpanTree::List(seq![a, b]).flat() == a.flat() + b.flat(),
{
    let items = seq![a, b];
    assert(flat_prefix(items, 1) =~= flat_prefix(items, 0) + items[0].flat());
}

/// A list of three spans flattens to their entities, one span after the
/// other.
pub proof fn lemma_flat_triple(a: SpanTree, b: SpanTree, c: SpanTree)
    ensures
        SpanTree::List(seq![a, b, c]).flat() == a.flat() + b.flat() + c.flat(),
{
    let items = seq![a, b, c];
    assert(flat_prefix(items, 1) =~= flat_prefix(items, 0) + items[0].flat());
    assert(flat_prefix(items, 3) =~= flat_prefix(items, 2) + items[2].flat());
}

/// An empty span inside a list contributes nothing and leaves the entities
/// of its neighbours in place.
pub proof fn lemma_empty_is_dropped(a: Seq<SpanTree>, b: Seq<SpanTree>)
    ensures
        SpanTree::List(a + seq![SpanTree::Empty] + b).flat() == SpanTree::List(a + b).flat(),
{
    let e = seq![SpanTree::Empty];
    lemma_flat_concat(a + e, b);
    lemma_flat_concat(a, e);
    lemma_flat_concat(a, b);
    assert(flat_prefix(e, 1) =~= flat_prefix(e, 0) + e[0].flat());
}

/// The entity handles of the first `n` spans of `items`, one span after the
/// other.
pub open spec fn handles_prefix(items: Seq<NodeSpan>, n: nat) -> Seq<Entity>
    decreases items, n,
{
    if n == 0 || n > items.len() {
        Seq::empty()
    } else {
        handles_prefix(items, (n - 1) as nat) + items[n - 1].handles()
    }
}

impl NodeSpan {
    /// The entity handles of the span in depth-first order.
    pub open spec fn handles(&self) -> Seq<Entity>
        decreases self,
    {
        match self {
            NodeSpan::Empty => Seq::empty(),
            NodeSpan::Node(e) => seq![*e],
            NodeSpan::List(items) => handles_prefix(items@, items@.len()),
        }
    }

    /// The handles of a span are the entities of its tree.
    pub proof fn lemma_handles_bits(&self)
        ensures
            bits_of(self.handles()) == self@.flat(),
        decreases self,
    {
        if let NodeSpan::List(items) = self {
            lemma_trees_prefix(items@, items@.len());
            lemma_handles_prefix_bits(items@, items@.len());
        }
    }

    /// Appends the entities of this span to `out`, in depth-first order.
    pub fn flatten(&self, out: &mut Vec<Entity>)
        ensures
            final(out)@ == old(out)@ + self.handles(),
        decreases self,
    {
        let ghost start = out@;
        match self {
            NodeSpan::Empty => {
            },
            NodeSpan::Node(e) => {
                out.push(*e);
            },
            NodeSpan::List(items) => {
                proof {
                    assert(decreases_to!(*self => *items));
                }
                let mut i: usize = 0;
                while i < items.len()
                    invariant
                        i <= items.len(),
                        out@ == start + handles_prefix(items@, i as nat),
                        decreases_to!(*self => *items),
                    decreases items.len() - i,
                {
                    proof {
                        broadcast use vstd::std_specs::vec::axiom_vec_index_decreases;

                        assert(decreases_to!(*items => items[i as int]));
                    }
                    items[i].flatten(out);
                    i += 1;
                }
            },
        }
    }

    /// The entities of this span, in depth-first order: those of the tree of
    /// the span, flattened.
    pub fn to_vec(&self) -> (r: Vec<Entity>)
        ensures
            r@ == self.handles(),
            bits_of(r@) == self@.flat(),
    {
        let mut out: Vec<Entity> = Vec::new();
        self.flatten(&mut out);
        proof {
            self.lemma_handles_bits();
        }
        out
    }
}

/// The handles of the first `n` spans of a list are the entities of the
/// first `n` trees.
pub proof fn lemma_handles_prefix_bits(items: Seq<NodeSpan>, n: nat)
    requires
        n <= items.len(),
    ensures
        bits_of(handles_prefix(items, n)) == flat_prefix(trees_prefix(items, items.len()), n),
    decreases items, n,
{
    lemma_trees_prefix(items, items.len());
    if n > 0 {
        lemma_handles_prefix_bits(items, (n - 1) as nat);
        items[n - 1].lemma_handles_bits();
    }
}

} // verus!
