//! What a view's state expects of the hierarchy, and what a view may touch
//! of it.
//!
//! A state expects certain entities that it owns to have certain child
//! lists.  It is settled under a host when these lists are as expected and
//! the entities that it shows hang under the host or under nothing.  A view
//! keeps its hands off the rest: the parent links of entities that are not
//! its own, and the child lists of entities that are neither its own nor its
//! host.

use vstd::prelude::*;
use bevy::ecs::world::World;
use crate::scene::{
    alive, children_replaced, covers, entity_removed, fresh_or_known, graph_ok, is_other_than,
    kids, lemma_filter_all, lemma_filter_same, lemma_filter_twice, lemma_replaced_elsewhere,
    lemma_replaced_link, not_among, others_spared, parent_after_clear, parent_of,
    parent_removed, same_scene, unreferenced, world_children, world_entities, world_parents,
};

verus! {

/// The expected child lists are lists of owned entities under owned
/// entities, and none of the entities shown stands in one.
pub open spec fn lists_ok(lists: Map<u64, Seq<u64>>, owned: Set<u64>, shown: Seq<u64>) -> bool {
    &&& forall|p: u64| #[trigger] lists.dom().contains(p) ==> owned.contains(p)
    &&& forall|p: u64, c: u64|
        lists.dom().contains(p) && #[trigger] lists[p].contains(c) ==> owned.contains(c)
            && !shown.contains(c)
}

/// Every expected child list is the child list that the world has.
pub open spec fn lists_hold(w: World, lists: Map<u64, Seq<u64>>) -> bool {
    forall|p: u64| #[trigger] lists.dom().contains(p) ==> kids(w, p) == lists[p]
}

/// Every entity shown hangs under `host` or under nothing.
pub open spec fn shown_under(w: World, shown: Seq<u64>, host: u64) -> bool {
    forall|c: u64| #[trigger]
        shown.contains(c) ==> parent_of(w, c).is_none() || parent_of(w, c) == Some(host)
}

/// A state with these expected lists and these entities shown is settled
/// under `host`.
pub open spec fn settled(w: World, lists: Map<u64, Seq<u64>>, shown: Seq<u64>, host: u64) -> bool {
    lists_hold(w, lists) && shown_under(w, shown, host)
}

/// No entity of `ids` is in `set`.
pub open spec fn none_in(ids: Seq<u64>, set: Set<u64>) -> bool {
    forall|i: int| 0 <= i < ids.len() ==> !set.contains(#[trigger] ids[i])
}

/// The parent links of the entities that were live and are not in `owned`
/// are as before.
pub open spec fn links_kept(pre: World, post: World, owned: Set<u64>) -> bool {
    forall|c: u64|
        alive(pre, c) && !owned.contains(c) ==> #[trigger] parent_of(post, c) == parent_of(pre, c)
}

/// The child lists of the entities that were live, are not in `owned` and
/// are not `host` are as before.
pub open spec fn lists_kept(pre: World, post: World, owned: Set<u64>, host: u64) -> bool {
    forall|p: u64|
        alive(pre, p) && !owned.contains(p) && p != host ==> #[trigger] kids(post, p) == kids(
            pre,
            p,
        )
}

/// What the child list of `host` has gained is in `owned`.
pub open spec fn host_gains(pre: World, post: World, owned: Set<u64>, host: u64) -> bool {
    forall|c: u64| #[trigger]
        kids(post, host).contains(c) ==> kids(pre, host).contains(c) || owned.contains(c)
}

/// Entity `c` hangs under nothing, or under an entity that is not in
/// `adopted`.
pub open spec fn hangs_clear(w: World, c: u64, adopted: Set<u64>) -> bool {
    match parent_of(w, c) {
        Some(q) => !adopted.contains(q),
        None => true,
    }
}

/// What a build leaves alone: the child list of every entity that was live,
/// is not taken over and had no child that is taken over; and the parent
/// link of every entity that was live, is not taken over and did not hang
/// under one that is.  Where nothing is taken over, that is the whole
/// hierarchy as it was.
pub open spec fn build_frame(pre: World, post: World, adopted: Set<u64>) -> bool {
    &&& forall|p: u64|
        alive(pre, p) && !adopted.contains(p) && none_in(kids(pre, p), adopted) ==> #[trigger] kids(
            post,
            p,
        ) == kids(pre, p)
    &&& forall|c: u64|
        alive(pre, c) && !adopted.contains(c) && hangs_clear(pre, c, adopted)
            ==> #[trigger] parent_of(post, c) == parent_of(pre, c)
}

/// What a rebuild leaves alone, seen from `host`: the parent links of
/// entities that are not the view's own; the child lists of entities that
/// are neither its own nor the host; and the child list of the host itself,
/// which gains at most entities of the view, and nothing at all where the
/// view reports no change.
pub open spec fn rebuild_frame(
    pre: World,
    post: World,
    owned_before: Set<u64>,
    owned_after: Set<u64>,
    host: u64,
    changed: bool,
) -> bool {
    &&& links_kept(pre, post, owned_before)
    &&& lists_kept(pre, post, owned_before, host)
    &&& host_gains(pre, post, owned_after, host)
    &&& !changed ==> kids(post, host) == kids(pre, host)
}

/// The child lists of the entities that are not in `owned` and are not
/// `host` are as before.
pub open spec fn lists_left(pre: World, post: World, owned: Set<u64>, host: u64) -> bool {
    forall|p: u64| !owned.contains(p) && p != host ==> #[trigger] kids(post, p) == kids(pre, p)
}

/// What a raze leaves alone, seen from `host`: the child lists of entities
/// that are neither the view's own nor the host; and of the child list of
/// the host all but the entities that the view showed, in their order.
pub open spec fn raze_frame(
    pre: World,
    post: World,
    owned: Set<u64>,
    shown: Seq<u64>,
    host: u64,
) -> bool {
    &&& lists_left(pre, post, owned, host)
    &&& kids(post, host) == kids(pre, host).filter(not_among(shown))
}

/// A raze takes a state out of its place and leaves the rest: under
/// whatever host the state was settled, the raze has left alone what it
/// must.
pub open spec fn leaves_in_place(
    pre: World,
    lists: Map<u64, Seq<u64>>,
    shown: Seq<u64>,
    owned: Set<u64>,
    post: World,
) -> bool {
    forall|host: u64|
        !owned.contains(host) && #[trigger] settled(pre, lists, shown, host) ==> raze_frame(
            pre,
            post,
            owned,
            shown,
            host,
        )
}

/// A rebuild keeps a state in place: under whatever host the state was
/// settled before, it is settled after, and the rebuild has left alone what
/// it must.
pub open spec fn stays_in_place(
    pre: World,
    lists_before: Map<u64, Seq<u64>>,
    shown_before: Seq<u64>,
    owned_before: Set<u64>,
    post: World,
    lists_after: Map<u64, Seq<u64>>,
    shown_after: Seq<u64>,
    owned_after: Set<u64>,
    changed: bool,
) -> bool {
    forall|host: u64|
        alive(pre, host) && !owned_before.contains(host) && #[trigger] settled(
            pre,
            lists_before,
            shown_before,
            host,
        ) ==> settled(post, lists_after, shown_after, host) && rebuild_frame(
            pre,
            post,
            owned_before,
            owned_after,
            host,
            changed,
        )
}

/// What two sequences put end to end hold: what the first or the second
/// holds.
pub proof fn lemma_concat_holds(a: Seq<u64>, b: Seq<u64>, c: u64)
    ensures
        (a + b).contains(c) <==> a.contains(c) || b.contains(c),
{
    if a.contains(c) {
        let i = choose|i: int| 0 <= i < a.len() && a[i] == c;
        assert((a + b)[i] == c);
    }
    if b.contains(c) {
        let i = choose|i: int| 0 <= i < b.len() && b[i] == c;
        assert((a + b)[i + a.len()] == c);
    }
}

/// The expected lists of two states that own nothing in common, taken
/// together, are in order where each of them is.
pub proof fn lemma_lists_ok_joined(
    la: Map<u64, Seq<u64>>,
    sa: Seq<u64>,
    oa: Set<u64>,
    lb: Map<u64, Seq<u64>>,
    sb: Seq<u64>,
    ob: Set<u64>,
)
    requires
        lists_ok(la, oa, sa),
        lists_ok(lb, ob, sb),
        covers(oa, sa),
        covers(ob, sb),
        oa.disjoint(ob),
    ensures
        lists_ok(la.union_prefer_right(lb), oa.union(ob), sa + sb),
{
}

/// Two builds, one after the other, of views that take over nothing in
/// common leave the expected lists of both in place and leave alone what a
/// build must.
pub proof fn lemma_built_joined(
    pre: World,
    mid: World,
    post: World,
    la: Map<u64, Seq<u64>>,
    sa: Seq<u64>,
    oa: Set<u64>,
    ta: Set<u64>,
    lb: Map<u64, Seq<u64>>,
    ob: Set<u64>,
    tb: Set<u64>,
)
    requires
        lists_ok(la, oa, sa),
        lists_hold(mid, la),
        lists_hold(post, lb),
        build_frame(pre, mid, ta),
        build_frame(mid, post, tb),
        oa.subset_of(world_entities(mid)),
        world_entities(pre).subset_of(world_entities(mid)),
        fresh_or_known(oa, pre, ta),
        tb.subset_of(world_entities(pre)),
        ta.disjoint(tb),
    ensures
        lists_hold(post, la.union_prefer_right(lb)),
        build_frame(pre, post, ta.union(tb)),
{
    let l = la.union_prefer_right(lb);
    assert forall|p: u64| #[trigger] l.dom().contains(p) implies kids(post, p) == l[p] by {
        if !lb.dom().contains(p) {
            assert forall|i: int| 0 <= i < kids(mid, p).len() implies !tb.contains(
                #[trigger] kids(mid, p)[i],
            ) by {
                let c = kids(mid, p)[i];
                assert(la[p].contains(c));
            }
        }
    }
    assert forall|p: u64|
        alive(pre, p) && !ta.union(tb).contains(p) && none_in(
            kids(pre, p),
            ta.union(tb),
        ) implies #[trigger] kids(post, p) == kids(pre, p) by {
        assert forall|i: int| 0 <= i < kids(pre, p).len() implies !ta.contains(
            #[trigger] kids(pre, p)[i],
        ) by {
        }
    }
}

/// Two rebuilds, one after the other, of states that own nothing in common
/// keep both states in place.
pub proof fn lemma_stays_joined(
    pre: World,
    mid: World,
    post: World,
    la0: Map<u64, Seq<u64>>,
    sa0: Seq<u64>,
    oa0: Set<u64>,
    la1: Map<u64, Seq<u64>>,
    sa1: Seq<u64>,
    oa1: Set<u64>,
    first: bool,
    lb0: Map<u64, Seq<u64>>,
    sb0: Seq<u64>,
    ob0: Set<u64>,
    lb1: Map<u64, Seq<u64>>,
    sb1: Seq<u64>,
    ob1: Set<u64>,
    second: bool,
)
    requires
        stays_in_place(pre, la0, sa0, oa0, mid, la1, sa1, oa1, first),
        stays_in_place(mid, lb0, sb0, ob0, post, lb1, sb1, ob1, second),
        lists_ok(la0, oa0, sa0),
        lists_ok(lb0, ob0, sb0),
        lists_ok(la1, oa1, sa1),
        lists_ok(lb1, ob1, sb1),
        covers(oa0, sa0),
        covers(ob0, sb0),
        covers(oa1, sa1),
        covers(ob1, sb1),
        oa0.disjoint(ob0),
        oa0.subset_of(world_entities(pre)),
        ob0.subset_of(world_entities(pre)),
        oa1.subset_of(world_entities(mid)),
        others_spared(pre, mid, oa0),
        fresh_or_known(oa1, pre, oa0),
    ensures
        stays_in_place(
            pre,
            la0.union_prefer_right(lb0),
            sa0 + sb0,
            oa0.union(ob0),
            post,
            la1.union_prefer_right(lb1),
            sa1 + sb1,
            oa1.union(ob1),
            first || second,
        ),
{
    let l0 = la0.union_prefer_right(lb0);
    let l1 = la1.union_prefer_right(lb1);
    let o0 = oa0.union(ob0);
    let o1 = oa1.union(ob1);
    assert forall|host: u64|
        alive(pre, host) && !o0.contains(host) && #[trigger] settled(
            pre,
            l0,
            sa0 + sb0,
            host,
        ) implies settled(post, l1, sa1 + sb1, host) && rebuild_frame(
        pre,
        post,
        o0,
        o1,
        host,
        first || second,
    ) by {
        // The first state was settled before.
        assert forall|p: u64| #[trigger] la0.dom().contains(p) implies kids(pre, p) == la0[p] by {
            assert(l0.dom().contains(p));
        }
        assert forall|c: u64| #[trigger] sa0.contains(c) implies parent_of(pre, c).is_none()
            || parent_of(pre, c) == Some(host) by {
            lemma_concat_holds(sa0, sb0, c);
        }
        assert(settled(pre, la0, sa0, host));
        // The second state is still settled between the two.
        assert forall|p: u64| #[trigger] lb0.dom().contains(p) implies kids(mid, p) == lb0[p] by {
            assert(l0.dom().contains(p));
        }
        assert forall|c: u64| #[trigger] sb0.contains(c) implies parent_of(mid, c).is_none()
            || parent_of(mid, c) == Some(host) by {
            lemma_concat_holds(sa0, sb0, c);
        }
        assert(settled(mid, lb0, sb0, host));
        // The first state is still settled after the second rebuild.
        assert forall|c: u64| #[trigger] (sa1 + sb1).contains(c) implies parent_of(
            post,
            c,
        ).is_none() || parent_of(post, c) == Some(host) by {
            lemma_concat_holds(sa1, sb1, c);
        }
    }
}

/// The expected lists of an element: those of its children, and under the
/// display entity the entities that the children show.
pub proof fn lemma_host_lists_ok(
    d: u64,
    lists: Map<u64, Seq<u64>>,
    shown: Seq<u64>,
    owned: Set<u64>,
)
    requires
        lists_ok(lists, owned, shown),
        covers(owned, shown),
        !owned.contains(d),
    ensures
        lists_ok(lists.insert(d, shown), owned.insert(d), seq![d]),
{
}

/// The last step of a build, the children of the display entity replaced by
/// what the child views show, puts the expected lists of the element in
/// place and touches no list that a build must leave alone.
pub proof fn lemma_host_placed(
    w0: World,
    w3: World,
    w4: World,
    w5: World,
    d: u64,
    lists: Map<u64, Seq<u64>>,
    shown: Seq<u64>,
    owned: Set<u64>,
    adopted: Set<u64>,
    all_adopted: Set<u64>,
)
    requires
        graph_ok(w0),
        graph_ok(w4),
        world_entities(w0).subset_of(world_entities(w3)),
        world_children(w3) == world_children(w0),
        world_parents(w3) == world_parents(w0),
        lists_ok(lists, owned, shown),
        lists_hold(w4, lists),
        covers(owned, shown),
        !owned.contains(d),
        fresh_or_known(owned, w3, adopted),
        build_frame(w3, w4, adopted),
        children_replaced(w4, d, shown, w5),
        adopted.subset_of(all_adopted),
        alive(w0, d) ==> all_adopted.contains(d),
        !alive(w0, d) ==> unreferenced(w0, d),
    ensures
        lists_hold(w5, lists.insert(d, shown)),
        build_frame(w0, w5, all_adopted),
{
    let l = lists.insert(d, shown);
    assert forall|p: u64| #[trigger] l.dom().contains(p) implies kids(w5, p) == l[p] by {
        if p != d {
            assert forall|c: u64| #[trigger] kids(w4, p).contains(c) implies !(shown.contains(c)
                && parent_after_clear(w4, d, c) == Some(p)) by {
            }
            lemma_replaced_elsewhere(w4, d, shown, w5, p);
        }
    }
    assert forall|p: u64|
        alive(w0, p) && !all_adopted.contains(p) && none_in(
            kids(w0, p),
            all_adopted,
        ) implies #[trigger] kids(w5, p) == kids(w0, p) by {
        assert forall|i: int| 0 <= i < kids(w3, p).len() implies !adopted.contains(
            #[trigger] kids(w3, p)[i],
        ) by {
        }
        lemma_replaced_elsewhere(w4, d, shown, w5, p);
    }
    assert forall|c: u64|
        alive(w0, c) && !all_adopted.contains(c) && hangs_clear(
            w0,
            c,
            all_adopted,
        ) implies #[trigger] parent_of(w5, c) == parent_of(w0, c) by {
        assert(parent_of(w3, c) == parent_of(w0, c));
        assert(hangs_clear(w3, c, adopted));
        assert(parent_of(w4, c) == parent_of(w3, c));
        if shown.contains(c) {
            let i = choose|i: int| 0 <= i < shown.len() && shown[i] == c;
            assert(owned.contains(shown[i]));
            assert(world_entities(w3).contains(c));
        }
        if kids(w4, d).contains(c) {
            assert(parent_of(w4, c) == Some(d));
            assert(parent_of(w0, c) == Some(d));
        }
        lemma_replaced_link(w4, d, shown, w5, c);
    }
}

/// A rebuild keeps an element in place: its effects leave the hierarchy
/// alone, its children stay in place under the display entity, and where
/// they show other entities than before, these become the children of the
/// display entity and nothing else moves.
pub proof fn lemma_host_stays(
    w0: World,
    w1: World,
    w2: World,
    w3: World,
    d: u64,
    l0: Map<u64, Seq<u64>>,
    s0: Seq<u64>,
    o0: Set<u64>,
    l1: Map<u64, Seq<u64>>,
    s1: Seq<u64>,
    o1: Set<u64>,
    children_changed: bool,
)
    requires
        graph_ok(w0),
        graph_ok(w2),
        same_scene(w0, w1),
        stays_in_place(w1, l0, s0, o0, w2, l1, s1, o1, children_changed),
        if children_changed {
            children_replaced(w2, d, s1, w3)
        } else {
            w3 == w2 && s1 == s0
        },
        lists_ok(l0, o0, s0),
        lists_ok(l1, o1, s1),
        covers(o0, s0),
        covers(o1, s1),
        alive(w0, d),
        !o0.contains(d),
        !o1.contains(d),
        o0.subset_of(world_entities(w0)),
        o1.subset_of(world_entities(w2)),
        others_spared(w1, w2, o0),
        fresh_or_known(o1, w1, o0),
    ensures
        stays_in_place(
            w0,
            l0.insert(d, s0),
            seq![d],
            o0.insert(d),
            w3,
            l1.insert(d, s1),
            seq![d],
            o1.insert(d),
            false,
        ),
{
    let le0 = l0.insert(d, s0);
    let le1 = l1.insert(d, s1);
    assert forall|host: u64|
        alive(w0, host) && !o0.insert(d).contains(host) && #[trigger] settled(
            w0,
            le0,
            seq![d],
            host,
        ) implies settled(w3, le1, seq![d], host) && rebuild_frame(
        w0,
        w3,
        o0.insert(d),
        o1.insert(d),
        host,
        false,
    ) by {
        assert(seq![d][0] == d);
        assert(seq![d].contains(d));
        assert(le0.dom().contains(d));
        // The children were settled under the display entity.
        assert forall|p: u64| #[trigger] l0.dom().contains(p) implies kids(w1, p) == l0[p] by {
            assert(le0.dom().contains(p));
        }
        assert(settled(w1, l0, s0, d));
        // Where they show other entities now, making these the children of
        // the display entity moves nothing else.
        if children_changed {
            assert forall|p: u64| p != d && (l1.dom().contains(p) || (alive(w0, p)
                && !o0.insert(d).contains(p))) implies #[trigger] kids(w3, p) == kids(w2, p) by {
                assert forall|c: u64| #[trigger] kids(w2, p).contains(c) implies !(s1.contains(c)
                    && parent_after_clear(w2, d, c) == Some(p)) by {
                }
                lemma_replaced_elsewhere(w2, d, s1, w3, p);
            }
            assert forall|c: u64|
                c == d || (alive(w0, c) && !o0.insert(d).contains(c)) implies #[trigger] parent_of(
                w3,
                c,
            ) == parent_of(w2, c) || (c == d && parent_of(w3, c).is_none()) by {
            }
        }
    }
}

/// Two razes, one after the other, of states that own nothing in common
/// take both out of their place and leave the rest.
pub proof fn lemma_razed_joined(
    pre: World,
    mid: World,
    post: World,
    la: Map<u64, Seq<u64>>,
    sa: Seq<u64>,
    oa: Set<u64>,
    lb: Map<u64, Seq<u64>>,
    sb: Seq<u64>,
    ob: Set<u64>,
)
    requires
        leaves_in_place(pre, la, sa, oa, mid),
        leaves_in_place(mid, lb, sb, ob, post),
        links_kept(pre, mid, oa),
        others_spared(pre, mid, oa),
        lists_ok(la, oa, sa),
        lists_ok(lb, ob, sb),
        covers(oa, sa),
        covers(ob, sb),
        oa.disjoint(ob),
        oa.subset_of(world_entities(pre)),
        ob.subset_of(world_entities(pre)),
    ensures
        leaves_in_place(pre, la.union_prefer_right(lb), sa + sb, oa.union(ob), post),
{
    let l = la.union_prefer_right(lb);
    let o = oa.union(ob);
    assert forall|host: u64| !o.contains(host) && #[trigger] settled(
        pre,
        l,
        sa + sb,
        host,
    ) implies raze_frame(pre, post, o, sa + sb, host) by {
        assert forall|p: u64| #[trigger] la.dom().contains(p) implies kids(pre, p) == la[p] by {
            assert(oa.contains(p));
            assert(l.dom().contains(p));
        }
        assert forall|c: u64| #[trigger] sa.contains(c) implies parent_of(pre, c).is_none()
            || parent_of(pre, c) == Some(host) by {
            lemma_concat_holds(sa, sb, c);
        }
        assert(settled(pre, la, sa, host));
        assert(raze_frame(pre, mid, oa, sa, host));
        assert forall|p: u64| #[trigger] lb.dom().contains(p) implies kids(mid, p) == lb[p] by {
            assert(ob.contains(p));
            assert(l.dom().contains(p));
            assert(!oa.contains(p) && p != host);
            assert(kids(mid, p) == kids(pre, p));
        }
        assert forall|c: u64| #[trigger] sb.contains(c) implies parent_of(mid, c).is_none()
            || parent_of(mid, c) == Some(host) by {
            lemma_concat_holds(sa, sb, c);
            let i = choose|i: int| 0 <= i < sb.len() && sb[i] == c;
            assert(ob.contains(sb[i]));
            assert(alive(pre, c) && !oa.contains(c));
            assert(parent_of(mid, c) == parent_of(pre, c));
        }
        assert(settled(mid, lb, sb, host));
        assert(raze_frame(mid, post, ob, sb, host));
        assert forall|p: u64| !o.contains(p) && p != host implies #[trigger] kids(post, p)
            == kids(pre, p) by {
            assert(!oa.contains(p) && !ob.contains(p));
            assert(kids(mid, p) == kids(pre, p));
        }
        assert forall|x: u64| #[trigger]
            not_among(sa + sb)(x) == (not_among(sa)(x) && not_among(sb)(x)) by {
            lemma_concat_holds(sa, sb, x);
        }
        lemma_filter_twice(kids(pre, host), not_among(sa), not_among(sb), not_among(sa + sb));
    }
}

/// Razing an element takes it out of its place and leaves the rest: the
/// display entity leaves the child list of its host, and the children are
/// razed from under a display entity that is gone.
pub proof fn lemma_host_razed(
    w0: World,
    w1: World,
    w2: World,
    w3: World,
    d: u64,
    lists: Map<u64, Seq<u64>>,
    shown: Seq<u64>,
    owned: Set<u64>,
)
    requires
        graph_ok(w0),
        parent_removed(w0, d, w1),
        entity_removed(w1, d, w2),
        leaves_in_place(w2, lists, shown, owned, w3),
        lists_ok(lists, owned, shown),
        covers(owned, shown),
        alive(w0, d),
        !owned.contains(d),
        owned.subset_of(world_entities(w0)),
    ensures
        leaves_in_place(w0, lists.insert(d, shown), seq![d], owned.insert(d), w3),
{
    let le = lists.insert(d, shown);
    assert forall|host: u64| !owned.insert(d).contains(host) && #[trigger] settled(
        w0,
        le,
        seq![d],
        host,
    ) implies raze_frame(w0, w3, owned.insert(d), seq![d], host) by {
        assert(seq![d][0] == d);
        assert(seq![d].contains(d));
        assert(parent_of(w0, d).is_none() || parent_of(w0, d) == Some(host));
        assert(le.dom().contains(d));
        assert(kids(w0, d) == shown);
        // The children are settled under the display entity that is gone.
        assert forall|p: u64| #[trigger] lists.dom().contains(p) implies kids(w2, p) == lists[p] by {
            assert(owned.contains(p));
            assert(le.dom().contains(p));
            assert(kids(w0, p) == le[p]);
            assert(p != host && p != d);
            assert(kids(w1, p) == kids(w0, p));
            assert(kids(w2, p) == kids(w1, p));
        }
        assert forall|c: u64| #[trigger] shown.contains(c) implies parent_of(w2, c).is_none()
            || parent_of(w2, c) == Some(d) by {
            assert(kids(w0, d).contains(c));
            assert(parent_of(w0, c) == Some(d));
            let i = choose|i: int| 0 <= i < shown.len() && shown[i] == c;
            assert(owned.contains(shown[i]));
            assert(parent_of(w1, c) == parent_of(w0, c));
            assert(parent_of(w2, c) == parent_of(w1, c));
        }
        assert(settled(w2, lists, shown, d));
        assert(raze_frame(w2, w3, owned, shown, d));
        assert forall|p: u64| !owned.insert(d).contains(p) implies #[trigger] kids(w3, p) == kids(
            w1,
            p,
        ) by {
            assert(kids(w2, p) == kids(w1, p));
            assert(!owned.contains(p) && p != d);
            assert(kids(w3, p) == kids(w2, p));
        }
        assert forall|i: int| 0 <= i < kids(w0, host).len() implies is_other_than(d)(
            #[trigger] kids(w0, host)[i],
        ) == not_among(seq![d])(kids(w0, host)[i]) by {
            let x = kids(w0, host)[i];
            if seq![d].contains(x) {
                let j = choose|j: int| 0 <= j < seq![d].len() && seq![d][j] == x;
            }
        }
        lemma_filter_same(kids(w0, host), is_other_than(d), not_among(seq![d]));
        if parent_of(w0, d) != Some(host) {
            assert forall|i: int| 0 <= i < kids(w0, host).len() implies is_other_than(d)(
                #[trigger] kids(w0, host)[i],
            ) by {
                assert(kids(w0, host).contains(kids(w0, host)[i]));
            }
            lemma_filter_all(kids(w0, host), is_other_than(d));
        }
        assert(kids(w3, host) == kids(w1, host));
    }
}

} // verus!
