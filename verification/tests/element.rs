use std::sync::{Arc, Mutex};

use bevy::hierarchy::{BuildWorldChildren, Children, Parent};
use bevy::prelude::{Entity, Name, Transform, TransformBundle, World};
use quill_element::bundle::DisplayBundle;
use quill_element::cx::Cx;
use quill_element::effects::{AppendEffect, EffectTuple, EntityEffect};
use quill_element::element::Element;
use quill_element::node_span::NodeSpan;
use quill_element::scene::{empty_world, spawn_bare};
use quill_element::style::{ApplyStylesEffect, StyleSet};
use quill_element::view::UiView;
use quill_element::view_tuple::ViewTuple;

/// The transform bundle as the bundle of an element.
struct Moved;

impl DisplayBundle for Moved {
    fn spawn_with(world: &mut World) -> Entity {
        world.spawn(TransformBundle::default()).id()
    }

    fn put_on(world: &mut World, entity: Entity) {
        world.entity_mut(entity).insert(TransformBundle::default());
    }
}

/// A view that shows one entity of its own.
struct LeafView {
    label: &'static str,
}

impl UiView for LeafView {
    type State = Entity;

    fn nodes(&self, state: &Entity) -> NodeSpan {
        NodeSpan::Node(*state)
    }

    fn build(&self, cx: &mut Cx) -> Entity {
        cx.world_mut().spawn(Name::new(self.label)).id()
    }

    fn rebuild(&self, _cx: &mut Cx, _state: &mut Entity) -> bool {
        false
    }

    fn raze(&self, world: &mut World, state: &mut Entity) {
        world.entity_mut(*state).remove_parent();
        world.entity_mut(*state).despawn();
    }
}

/// A view that shows two entities and turns them round when told to.
struct PairView {
    swapped: Arc<Mutex<bool>>,
}

impl UiView for PairView {
    type State = (Entity, Entity, bool);

    fn nodes(&self, state: &(Entity, Entity, bool)) -> NodeSpan {
        if state.2 {
            NodeSpan::List(vec![NodeSpan::Node(state.1), NodeSpan::Node(state.0)])
        } else {
            NodeSpan::List(vec![NodeSpan::Node(state.0), NodeSpan::Node(state.1)])
        }
    }

    fn build(&self, cx: &mut Cx) -> (Entity, Entity, bool) {
        let a = cx.world_mut().spawn(Name::new("a")).id();
        let b = cx.world_mut().spawn(Name::new("b")).id();
        (a, b, *self.swapped.lock().unwrap())
    }

    fn rebuild(&self, _cx: &mut Cx, state: &mut (Entity, Entity, bool)) -> bool {
        let now = *self.swapped.lock().unwrap();
        let changed = now != state.2;
        state.2 = now;
        changed
    }

    fn raze(&self, world: &mut World, state: &mut (Entity, Entity, bool)) {
        world.entity_mut(state.0).remove_parent();
        world.entity_mut(state.0).despawn();
        world.entity_mut(state.1).remove_parent();
        world.entity_mut(state.1).despawn();
    }
}

/// An effect that writes down each call.
struct LogEffect {
    tag: &'static str,
    log: Arc<Mutex<Vec<String>>>,
}

impl EntityEffect for LogEffect {
    type State = u32;

    fn apply(&self, _cx: &mut Cx, _target: Entity) -> u32 {
        self.log.lock().unwrap().push(format!("apply {}", self.tag));
        0
    }

    fn reapply(&self, _cx: &mut Cx, _target: Entity, state: &mut u32) {
        *state += 1;
        self.log.lock().unwrap().push(format!("reapply {} #{}", self.tag, *state));
    }
}

/// A style that moves the target along x by a value that can change.
struct Shift {
    x: Arc<Mutex<f32>>,
    log: Arc<Mutex<Vec<String>>>,
}

impl StyleSet for Shift {
    fn apply_styles(&self, world: &mut World, target: Entity) {
        let x = *self.x.lock().unwrap();
        self.log.lock().unwrap().push(String::from("styles"));
        world.entity_mut(target).insert(Transform::from_xyz(x, 0.0, 0.0));
    }
}

fn name_of(world: &World, entity: Entity) -> Option<String> {
    world.get::<Name>(entity).map(|n| n.as_str().to_string())
}

fn children_of(world: &World, entity: Entity) -> Vec<Entity> {
    match world.get::<Children>(entity) {
        Some(children) => children.iter().copied().collect(),
        None => Vec::new(),
    }
}

fn parent_of(world: &World, entity: Entity) -> Option<Entity> {
    world.get::<Parent>(entity).map(|p| p.get())
}

fn is_live(world: &World, entity: Entity) -> bool {
    world.get_entity(entity).is_some()
}

fn live_count(world: &World) -> usize {
    world.iter_entities().count()
}

fn new_log() -> Arc<Mutex<Vec<String>>> {
    Arc::new(Mutex::new(Vec::new()))
}

fn entries(log: &Arc<Mutex<Vec<String>>>) -> Vec<String> {
    log.lock().unwrap().clone()
}

#[test]
fn empty_element_default_bundle() {
    let mut world = World::new();
    let owner = world.spawn_empty().id();
    let before = live_count(&world);
    let element = Element::<Moved>::new();
    let mut state = {
        let mut cx = Cx::new(&mut world, owner);
        element.build(&mut cx)
    };
    let display = state.0;
    assert_ne!(display, owner);
    assert_eq!(live_count(&world), before + 1);
    assert!(is_live(&world, display));
    assert_eq!(world.get::<Transform>(display), Some(&Transform::default()));
    assert_eq!(name_of(&world, display), Some(String::new()));
    assert_eq!(name_of(&world, owner), Some(String::from("Element")));
    assert_eq!(children_of(&world, display), Vec::<Entity>::new());
    assert_eq!(element.nodes(&state), NodeSpan::Node(display));

    element.raze(&mut world, &mut state);
    assert!(!is_live(&world, display));
    assert!(is_live(&world, owner));
    assert_eq!(live_count(&world), before);
}

#[test]
fn named_element_with_one_leaf_child() {
    let mut world = World::new();
    let owner = world.spawn_empty().id();
    let element = Element::<()>::new().named("panel").children(LeafView { label: "leaf" });
    let mut state = {
        let mut cx = Cx::new(&mut world, owner);
        element.build(&mut cx)
    };
    let display = state.0;
    let leaf = state.1;
    assert_eq!(name_of(&world, display), Some(String::from("panel")));
    assert_eq!(name_of(&world, owner), Some(String::from("Element::panel")));
    assert_eq!(children_of(&world, display), vec![leaf]);
    assert_eq!(parent_of(&world, leaf), Some(display));
    assert_eq!(name_of(&world, leaf), Some(String::from("leaf")));

    let changed = {
        let mut cx = Cx::new(&mut world, owner);
        element.rebuild(&mut cx, &mut state)
    };
    assert!(!changed);
    assert_eq!(state.0, display);
    assert_eq!(children_of(&world, display), vec![leaf]);
    assert_eq!(name_of(&world, display), Some(String::from("panel")));
    assert_eq!(name_of(&world, owner), Some(String::from("Element::panel")));

    element.raze(&mut world, &mut state);
    assert!(!is_live(&world, display));
    assert!(!is_live(&world, leaf));
    assert!(is_live(&world, owner));
}

#[test]
fn adopted_display_entity() {
    let mut world = World::new();
    let owner = world.spawn_empty().id();
    let ex = world.spawn_empty().id();
    let before = live_count(&world);
    let element = Element::<Moved>::for_entity(ex).named("hud");
    let mut state = {
        let mut cx = Cx::new(&mut world, owner);
        element.build(&mut cx)
    };
    assert_eq!(state.0, ex);
    assert_eq!(live_count(&world), before);
    assert_eq!(world.get::<Transform>(ex), Some(&Transform::default()));
    assert_eq!(name_of(&world, ex), Some(String::from("hud")));
    assert_eq!(name_of(&world, owner), Some(String::from("Element::hud")));
    assert_eq!(element.nodes(&state), NodeSpan::Node(ex));

    element.raze(&mut world, &mut state);
    assert!(!is_live(&world, ex));
    assert_eq!(live_count(&world), before - 1);
}

#[test]
fn adopted_display_entity_loses_its_former_children() {
    let mut world = World::new();
    let owner = world.spawn_empty().id();
    let ex = world.spawn_empty().id();
    let stray = world.spawn_empty().id();
    world.entity_mut(ex).add_child(stray);
    let element = Element::<()>::for_entity(ex).children(LeafView { label: "leaf" });
    let state = {
        let mut cx = Cx::new(&mut world, owner);
        element.build(&mut cx)
    };
    assert_eq!(children_of(&world, ex), vec![state.1]);
    assert_eq!(parent_of(&world, stray), None);
    assert!(is_live(&world, stray));
}

#[test]
fn style_effect_application() {
    let mut world = World::new();
    let owner = world.spawn_empty().id();
    let x = Arc::new(Mutex::new(3.0));
    let log = new_log();
    let element = Element::<()>::new().named("styled").style(Shift { x: x.clone(), log: log.clone() });
    let mut state = {
        let mut cx = Cx::new(&mut world, owner);
        element.build(&mut cx)
    };
    let display = state.0;
    assert_eq!(world.get::<Transform>(display), Some(&Transform::from_xyz(3.0, 0.0, 0.0)));

    *x.lock().unwrap() = 8.0;
    let changed = {
        let mut cx = Cx::new(&mut world, owner);
        element.rebuild(&mut cx, &mut state)
    };
    assert!(!changed);
    assert_eq!(world.get::<Transform>(display), Some(&Transform::from_xyz(8.0, 0.0, 0.0)));
    assert_eq!(name_of(&world, display), Some(String::from("styled")));
    assert_eq!(children_of(&world, display), Vec::<Entity>::new());
    assert_eq!(world.entity(display).archetype().components().count(), 2);
    assert_eq!(entries(&log), vec![String::from("styles"), String::from("styles")]);
}

#[test]
fn child_reordering_on_rebuild() {
    let mut world = World::new();
    let owner = world.spawn_empty().id();
    let swapped = Arc::new(Mutex::new(false));
    let element = Element::<()>::new().children(PairView { swapped: swapped.clone() });
    let mut state = {
        let mut cx = Cx::new(&mut world, owner);
        element.build(&mut cx)
    };
    let display = state.0;
    let (ea, eb) = (state.1 .0, state.1 .1);
    assert_eq!(children_of(&world, display), vec![ea, eb]);

    *swapped.lock().unwrap() = true;
    let changed = {
        let mut cx = Cx::new(&mut world, owner);
        element.rebuild(&mut cx, &mut state)
    };
    assert!(!changed);
    assert_eq!(children_of(&world, display), vec![eb, ea]);
    assert_eq!(parent_of(&world, ea), Some(display));
    assert_eq!(parent_of(&world, eb), Some(display));
    assert_eq!(element.nodes(&state), NodeSpan::Node(display));
}

#[test]
fn mixed_effect_order() {
    let mut world = World::new();
    let owner = world.spawn_empty().id();
    let log = new_log();
    let x = Arc::new(Mutex::new(1.0));
    let element = Element::<()>::new()
        .add_effect(LogEffect { tag: "F1", log: log.clone() })
        .style(Shift { x: x.clone(), log: log.clone() })
        .add_effect(LogEffect { tag: "F2", log: log.clone() });
    let mut state = {
        let mut cx = Cx::new(&mut world, owner);
        element.build(&mut cx)
    };
    assert_eq!(entries(&log), vec!["apply F1", "styles", "apply F2"]);

    log.lock().unwrap().clear();
    {
        let mut cx = Cx::new(&mut world, owner);
        element.rebuild(&mut cx, &mut state);
    }
    assert_eq!(entries(&log), vec!["reapply F1 #1", "styles", "reapply F2 #1"]);

    log.lock().unwrap().clear();
    {
        let mut cx = Cx::new(&mut world, owner);
        element.rebuild(&mut cx, &mut state);
    }
    assert_eq!(entries(&log), vec!["reapply F1 #2", "styles", "reapply F2 #2"]);
}

#[test]
fn swapped_declaration_swaps_the_order() {
    let mut world = World::new();
    let owner = world.spawn_empty().id();
    let log = new_log();
    let x = Arc::new(Mutex::new(1.0));
    let element = Element::<()>::new()
        .add_effect(LogEffect { tag: "F1", log: log.clone() })
        .add_effect(LogEffect { tag: "F2", log: log.clone() })
        .style(Shift { x: x.clone(), log: log.clone() });
    let mut state = {
        let mut cx = Cx::new(&mut world, owner);
        element.build(&mut cx)
    };
    assert_eq!(entries(&log), vec!["apply F1", "apply F2", "styles"]);
    log.lock().unwrap().clear();
    {
        let mut cx = Cx::new(&mut world, owner);
        element.rebuild(&mut cx, &mut state);
    }
    assert_eq!(entries(&log), vec!["reapply F1 #1", "reapply F2 #1", "styles"]);
}

#[test]
fn effects_run_before_children_are_built() {
    struct LoggingLeaf {
        log: Arc<Mutex<Vec<String>>>,
    }
    impl UiView for LoggingLeaf {
        type State = Entity;

        fn nodes(&self, state: &Entity) -> NodeSpan {
            NodeSpan::Node(*state)
        }

        fn build(&self, cx: &mut Cx) -> Entity {
            self.log.lock().unwrap().push(String::from("build child"));
            cx.world_mut().spawn_empty().id()
        }

        fn rebuild(&self, _cx: &mut Cx, _state: &mut Entity) -> bool {
            self.log.lock().unwrap().push(String::from("rebuild child"));
            false
        }

        fn raze(&self, world: &mut World, state: &mut Entity) {
            self.log.lock().unwrap().push(String::from("raze child"));
            world.entity_mut(*state).despawn();
        }
    }
    let mut world = World::new();
    let owner = world.spawn_empty().id();
    let log = new_log();
    let element = Element::<()>::new()
        .children(LoggingLeaf { log: log.clone() })
        .add_effect(LogEffect { tag: "F", log: log.clone() });
    let mut state = {
        let mut cx = Cx::new(&mut world, owner);
        element.build(&mut cx)
    };
    {
        let mut cx = Cx::new(&mut world, owner);
        element.rebuild(&mut cx, &mut state);
    }
    element.raze(&mut world, &mut state);
    assert_eq!(
        entries(&log),
        vec!["apply F", "build child", "reapply F #1", "rebuild child", "raze child"]
    );
}

#[test]
fn nodes_is_the_display_entity_and_it_is_live() {
    let mut world = World::new();
    let owner = world.spawn_empty().id();
    let element = Element::<()>::new().children((LeafView { label: "a" }, LeafView { label: "b" }));
    let state = {
        let mut cx = Cx::new(&mut world, owner);
        element.build(&mut cx)
    };
    assert_eq!(element.nodes(&state), NodeSpan::Node(state.0));
    assert_eq!(element.nodes(&state).to_vec(), vec![state.0]);
    assert!(is_live(&world, state.0));
}

#[test]
fn children_follow_the_flattened_span_in_order() {
    let mut world = World::new();
    let owner = world.spawn_empty().id();
    let swapped = Arc::new(Mutex::new(true));
    let element = Element::<()>::new().children((
        LeafView { label: "first" },
        (PairView { swapped: swapped.clone() }, LeafView { label: "last" }),
    ));
    let mut state = {
        let mut cx = Cx::new(&mut world, owner);
        element.build(&mut cx)
    };
    let display = state.0;
    let first = state.1 .0;
    let (a, b) = (state.1 .1 .0 .0, state.1 .1 .0 .1);
    let last = state.1 .1 .1;
    assert_eq!(children_of(&world, display), vec![first, b, a, last]);

    *swapped.lock().unwrap() = false;
    {
        let mut cx = Cx::new(&mut world, owner);
        element.rebuild(&mut cx, &mut state);
    }
    assert_eq!(children_of(&world, display), vec![first, a, b, last]);
    let mut seen = children_of(&world, display);
    seen.sort();
    seen.dedup();
    assert_eq!(seen.len(), 4);
}

#[test]
fn idle_rebuild_changes_nothing() {
    let mut world = World::new();
    let owner = world.spawn_empty().id();
    let element = Element::<Moved>::new()
        .named("still")
        .children((LeafView { label: "a" }, LeafView { label: "b" }));
    let mut state = {
        let mut cx = Cx::new(&mut world, owner);
        element.build(&mut cx)
    };
    let display = state.0;
    let kids = children_of(&world, display);
    let count = live_count(&world);
    let components = world.entity(display).archetype().components().count();
    for _ in 0..3 {
        let changed = {
            let mut cx = Cx::new(&mut world, owner);
            element.rebuild(&mut cx, &mut state)
        };
        assert!(!changed);
        assert_eq!(state.0, display);
        assert_eq!(children_of(&world, display), kids);
        assert_eq!(live_count(&world), count);
        assert_eq!(name_of(&world, display), Some(String::from("still")));
        assert_eq!(world.get::<Transform>(display), Some(&Transform::default()));
        assert_eq!(world.entity(display).archetype().components().count(), components);
        assert_eq!(parent_of(&world, kids[0]), Some(display));
        assert_eq!(parent_of(&world, kids[1]), Some(display));
    }
}

#[test]
fn raze_detaches_and_despawns() {
    let mut world = World::new();
    let owner = world.spawn_empty().id();
    let host = world.spawn_empty().id();
    let sibling = world.spawn_empty().id();
    let element =
        Element::<()>::new().children((LeafView { label: "a" }, LeafView { label: "b" }));
    let mut state = {
        let mut cx = Cx::new(&mut world, owner);
        element.build(&mut cx)
    };
    let display = state.0;
    let (a, b) = (state.1 .0, state.1 .1);
    world.entity_mut(host).push_children(&[sibling, display]);
    assert_eq!(children_of(&world, host), vec![sibling, display]);

    element.raze(&mut world, &mut state);
    assert!(!is_live(&world, display));
    assert!(!is_live(&world, a));
    assert!(!is_live(&world, b));
    assert!(is_live(&world, host));
    assert!(is_live(&world, sibling));
    assert!(is_live(&world, owner));
    assert_eq!(children_of(&world, host), vec![sibling]);
    assert_eq!(parent_of(&world, sibling), Some(host));
}

#[test]
fn nested_elements() {
    let mut world = World::new();
    let owner = world.spawn_empty().id();
    let element = Element::<()>::new().named("outer").children((
        Element::<()>::new().named("inner").children(LeafView { label: "leaf" }),
        LeafView { label: "side" },
    ));
    let mut state = {
        let mut cx = Cx::new(&mut world, owner);
        element.build(&mut cx)
    };
    let outer = state.0;
    let inner = state.1 .0 .0;
    let leaf = state.1 .0 .1;
    let side = state.1 .1;
    assert_eq!(children_of(&world, outer), vec![inner, side]);
    assert_eq!(children_of(&world, inner), vec![leaf]);
    assert_eq!(name_of(&world, outer), Some(String::from("outer")));
    assert_eq!(name_of(&world, inner), Some(String::from("inner")));
    // The inner element shares the owner and names it last.
    assert_eq!(name_of(&world, owner), Some(String::from("Element::inner")));

    {
        let mut cx = Cx::new(&mut world, owner);
        assert!(!element.rebuild(&mut cx, &mut state));
    }
    assert_eq!(children_of(&world, outer), vec![inner, side]);
    assert_eq!(children_of(&world, inner), vec![leaf]);

    element.raze(&mut world, &mut state);
    for gone in [outer, inner, leaf, side] {
        assert!(!is_live(&world, gone));
    }
    assert!(is_live(&world, owner));
}

#[test]
fn builders_leave_the_world_alone() {
    let mut world = World::new();
    let owner = world.spawn_empty().id();
    let ex = world.spawn(Name::new("kept")).id();
    let count = live_count(&world);
    let log = new_log();
    let x = Arc::new(Mutex::new(0.0));
    let _element = Element::<()>::for_entity(ex)
        .named("n")
        .children(LeafView { label: "leaf" })
        .add_effect(LogEffect { tag: "F", log: log.clone() })
        .style(Shift { x, log: log.clone() });
    assert_eq!(live_count(&world), count);
    assert_eq!(name_of(&world, ex), Some(String::from("kept")));
    assert_eq!(name_of(&world, owner), None);
    assert!(entries(&log).is_empty());
}

#[test]
fn the_last_name_given_counts() {
    let mut world = World::new();
    let owner = world.spawn_empty().id();
    let element = Element::<()>::new().named("one").named("two");
    let state = {
        let mut cx = Cx::new(&mut world, owner);
        element.build(&mut cx)
    };
    assert_eq!(name_of(&world, state.0), Some(String::from("two")));
    assert_eq!(name_of(&world, owner), Some(String::from("Element::two")));
}

#[test]
fn empty_name_after_a_name_is_no_name() {
    let mut world = World::new();
    let owner = world.spawn_empty().id();
    let element = Element::<()>::new().named("one").named("");
    let state = {
        let mut cx = Cx::new(&mut world, owner);
        element.build(&mut cx)
    };
    assert_eq!(name_of(&world, state.0), Some(String::new()));
    assert_eq!(name_of(&world, owner), Some(String::from("Element")));
}

#[test]
fn effect_tuples_apply_in_order() {
    let mut world = World::new();
    let owner = world.spawn_empty().id();
    let target = world.spawn_empty().id();
    let log = new_log();
    let pair = (LogEffect { tag: "a", log: log.clone() }, LogEffect { tag: "b", log: log.clone() });
    let mut cx = Cx::new(&mut world, owner);
    let mut state = pair.apply(&mut cx, target);
    assert_eq!(state, (0, 0));
    pair.reapply(&mut cx, target, &mut state);
    assert_eq!(state, (1, 1));
    assert_eq!(entries(&log), vec!["apply a", "apply b", "reapply a #1", "reapply b #1"]);
}

#[test]
fn append_extends_at_the_end() {
    let mut world = World::new();
    let owner = world.spawn_empty().id();
    let target = world.spawn_empty().id();
    let log = new_log();
    let triple = ()
        .append_effect(LogEffect { tag: "a", log: log.clone() })
        .append_effect(LogEffect { tag: "b", log: log.clone() })
        .append_effect(LogEffect { tag: "c", log: log.clone() });
    assert_eq!(triple.0.tag, "a");
    assert_eq!(triple.1.tag, "b");
    assert_eq!(triple.2.tag, "c");
    let mut cx = Cx::new(&mut world, owner);
    let mut state = triple.apply(&mut cx, target);
    triple.reapply(&mut cx, target, &mut state);
    assert_eq!(state, (1, 1, 1));
    assert_eq!(
        entries(&log),
        vec!["apply a", "apply b", "apply c", "reapply a #1", "reapply b #1", "reapply c #1"]
    );
}

#[test]
fn empty_tuples_do_nothing() {
    let mut world = World::new();
    let owner = world.spawn_empty().id();
    let target = world.spawn_empty().id();
    let count = live_count(&world);
    let mut cx = Cx::new(&mut world, owner);
    let mut none = EffectTuple::apply(&(), &mut cx, target);
    EffectTuple::reapply(&(), &mut cx, target, &mut none);
    let mut state = ().build_spans(&mut cx);
    assert_eq!(().span_nodes(&state), NodeSpan::Empty);
    assert!(!().rebuild_spans(&mut cx, &mut state));
    ().raze_spans(cx.world_mut(), &mut state);
    assert_eq!(cx.owner, owner);
    assert_eq!(live_count(&world), count);
}

#[test]
fn view_pairs_show_their_members_in_order() {
    let mut world = World::new();
    let owner = world.spawn_empty().id();
    let views = (LeafView { label: "a" }, LeafView { label: "b" });
    let mut cx = Cx::new(&mut world, owner);
    let mut state = views.build_spans(&mut cx);
    let (a, b) = state;
    assert_eq!(
        views.span_nodes(&state),
        NodeSpan::List(vec![NodeSpan::Node(a), NodeSpan::Node(b)])
    );
    assert!(!views.rebuild_spans(&mut cx, &mut state));
    views.raze_spans(cx.world_mut(), &mut state);
    assert!(!is_live(&world, a));
    assert!(!is_live(&world, b));
}

#[test]
fn empty_style_set_writes_nothing() {
    let mut world = World::new();
    let owner = world.spawn_empty().id();
    let target = world.spawn(Name::new("t")).id();
    let effect = ApplyStylesEffect { styles: () };
    let mut cx = Cx::new(&mut world, owner);
    let mut state = effect.apply(&mut cx, target);
    effect.reapply(&mut cx, target, &mut state);
    assert_eq!(world.entity(target).archetype().components().count(), 1);
    assert_eq!(name_of(&world, target), Some(String::from("t")));
}

#[test]
fn rebuild_leaves_the_outside_alone() {
    let mut world = World::new();
    let owner = world.spawn_empty().id();
    let host = world.spawn(Name::new("host")).id();
    let sibling = world.spawn(Name::new("sibling")).id();
    let nephew = world.spawn(Name::new("nephew")).id();
    world.entity_mut(sibling).add_child(nephew);
    let swapped = Arc::new(Mutex::new(false));
    let element = Element::<()>::new().named("inner").children((
        PairView { swapped: swapped.clone() },
        Element::<()>::new().children(LeafView { label: "deep" }),
    ));
    let mut state = {
        let mut cx = Cx::new(&mut world, owner);
        element.build(&mut cx)
    };
    let display = state.0;
    world.entity_mut(host).push_children(&[sibling, display]);
    let (a, b) = (state.1 .0 .0, state.1 .0 .1);
    let inner = state.1 .1 .0;
    let deep = state.1 .1 .1;
    assert_eq!(children_of(&world, display), vec![a, b, inner]);

    *swapped.lock().unwrap() = true;
    {
        let mut cx = Cx::new(&mut world, owner);
        assert!(!element.rebuild(&mut cx, &mut state));
    }
    assert_eq!(children_of(&world, display), vec![b, a, inner]);
    assert_eq!(children_of(&world, inner), vec![deep]);
    assert_eq!(children_of(&world, host), vec![sibling, display]);
    assert_eq!(children_of(&world, sibling), vec![nephew]);
    assert_eq!(parent_of(&world, display), Some(host));
    assert_eq!(parent_of(&world, sibling), Some(host));
    assert_eq!(parent_of(&world, nephew), Some(sibling));
    assert_eq!(parent_of(&world, host), None);
    assert_eq!(name_of(&world, host), Some(String::from("host")));
    assert_eq!(name_of(&world, sibling), Some(String::from("sibling")));
    assert_eq!(name_of(&world, display), Some(String::from("inner")));
}

#[test]
fn build_leaves_the_outside_alone() {
    let mut world = World::new();
    let owner = world.spawn_empty().id();
    let host = world.spawn(Name::new("host")).id();
    let sibling = world.spawn(Name::new("sibling")).id();
    world.entity_mut(host).add_child(sibling);
    let count = live_count(&world);
    let element = Element::<()>::new().children((LeafView { label: "a" }, LeafView { label: "b" }));
    let state = {
        let mut cx = Cx::new(&mut world, owner);
        element.build(&mut cx)
    };
    assert_eq!(live_count(&world), count + 3);
    assert_eq!(children_of(&world, host), vec![sibling]);
    assert_eq!(parent_of(&world, sibling), Some(host));
    assert_eq!(name_of(&world, host), Some(String::from("host")));
    assert_eq!(name_of(&world, sibling), Some(String::from("sibling")));
    assert_eq!(parent_of(&world, state.0), None);
}

#[test]
fn three_children_in_declaration_order() {
    let mut world = World::new();
    let owner = world.spawn_empty().id();
    let element = Element::<()>::new().children((
        LeafView { label: "a" },
        LeafView { label: "b" },
        LeafView { label: "c" },
    ));
    let mut state = {
        let mut cx = Cx::new(&mut world, owner);
        element.build(&mut cx)
    };
    let (a, b, c) = state.1;
    assert_eq!(children_of(&world, state.0), vec![a, b, c]);
    assert_eq!(name_of(&world, a), Some(String::from("a")));
    assert_eq!(name_of(&world, b), Some(String::from("b")));
    assert_eq!(name_of(&world, c), Some(String::from("c")));
    {
        let mut cx = Cx::new(&mut world, owner);
        assert!(!element.rebuild(&mut cx, &mut state));
    }
    assert_eq!(children_of(&world, state.0), vec![a, b, c]);
    element.raze(&mut world, &mut state);
    for gone in [state.0, a, b, c] {
        assert!(!is_live(&world, gone));
    }
}

#[test]
fn view_triples_show_their_members_in_order() {
    let mut world = World::new();
    let owner = world.spawn_empty().id();
    let views = (LeafView { label: "a" }, (), LeafView { label: "c" });
    let mut cx = Cx::new(&mut world, owner);
    let mut state = views.build_spans(&mut cx);
    let (a, _, c) = state;
    assert_eq!(
        views.span_nodes(&state),
        NodeSpan::List(vec![NodeSpan::Node(a), NodeSpan::Empty, NodeSpan::Node(c)])
    );
    assert_eq!(views.span_nodes(&state).to_vec(), vec![a, c]);
    assert!(!views.rebuild_spans(&mut cx, &mut state));
    views.raze_spans(cx.world_mut(), &mut state);
    assert!(!is_live(&world, a));
    assert!(!is_live(&world, c));
}

#[test]
fn a_change_in_one_member_is_a_change_of_the_tuple() {
    let mut world = World::new();
    let owner = world.spawn_empty().id();
    let swapped = Arc::new(Mutex::new(false));
    let views = (LeafView { label: "a" }, PairView { swapped: swapped.clone() });
    let mut cx = Cx::new(&mut world, owner);
    let mut state = views.build_spans(&mut cx);
    assert!(!views.rebuild_spans(&mut cx, &mut state));
    *swapped.lock().unwrap() = true;
    assert!(views.rebuild_spans(&mut cx, &mut state));
    assert!(!views.rebuild_spans(&mut cx, &mut state));
    let a = state.0;
    let (x, y, _) = state.1;
    assert_eq!(views.span_nodes(&state).to_vec(), vec![a, y, x]);
}

#[test]
fn context_keeps_its_owner_and_hands_out_the_world() {
    let mut world = World::new();
    let owner = world.spawn_empty().id();
    let mut cx = Cx::new(&mut world, owner);
    assert_eq!(cx.owner, owner);
    let made = cx.world_mut().spawn(Name::new("made")).id();
    assert_eq!(cx.owner, owner);
    assert_eq!(name_of(cx.world, made), Some(String::from("made")));
    assert!(is_live(&world, made));
}

#[test]
fn raze_leaves_no_entity_in_any_child_list() {
    let mut world = World::new();
    let owner = world.spawn_empty().id();
    let host = world.spawn_empty().id();
    let element = Element::<()>::new().children((
        Element::<()>::new().children(LeafView { label: "x" }),
        LeafView { label: "y" },
    ));
    let mut state = {
        let mut cx = Cx::new(&mut world, owner);
        element.build(&mut cx)
    };
    world.entity_mut(host).add_child(state.0);
    element.raze(&mut world, &mut state);
    assert_eq!(live_count(&world), 2);
    assert_eq!(children_of(&world, host), Vec::<Entity>::new());
    assert_eq!(children_of(&world, owner), Vec::<Entity>::new());
    let mut survivors = 0;
    for entity in world.iter_entities() {
        assert!(entity.get::<Children>().is_none());
        assert!(entity.get::<Parent>().is_none());
        survivors += 1;
    }
    assert_eq!(survivors, 2);
}

/// A view whose entity hangs under another entity when it is built.
struct AttachedLeaf {
    under: Entity,
}

impl UiView for AttachedLeaf {
    type State = Entity;

    fn nodes(&self, state: &Entity) -> NodeSpan {
        NodeSpan::Node(*state)
    }

    fn build(&self, cx: &mut Cx) -> Entity {
        let made = cx.world_mut().spawn_empty().id();
        cx.world_mut().entity_mut(self.under).add_child(made);
        made
    }

    fn rebuild(&self, _cx: &mut Cx, _state: &mut Entity) -> bool {
        false
    }

    fn raze(&self, world: &mut World, state: &mut Entity) {
        world.entity_mut(*state).remove_parent();
        world.entity_mut(*state).despawn();
    }
}

#[test]
fn shown_entities_leave_the_parent_they_had() {
    let mut world = World::new();
    let owner = world.spawn_empty().id();
    let elsewhere = world.spawn_empty().id();
    let stay = world.spawn_empty().id();
    world.entity_mut(elsewhere).add_child(stay);
    let element = Element::<()>::new()
        .children((AttachedLeaf { under: elsewhere }, AttachedLeaf { under: elsewhere }));
    let mut state = {
        let mut cx = Cx::new(&mut world, owner);
        element.build(&mut cx)
    };
    let (x, y) = state.1;
    assert_eq!(children_of(&world, state.0), vec![x, y]);
    assert_eq!(children_of(&world, elsewhere), vec![stay]);
    assert_eq!(parent_of(&world, x), Some(state.0));
    assert_eq!(parent_of(&world, y), Some(state.0));
    assert_eq!(parent_of(&world, stay), Some(elsewhere));
    element.raze(&mut world, &mut state);
    assert_eq!(children_of(&world, elsewhere), vec![stay]);
    assert!(is_live(&world, stay));
}

#[test]
fn an_adopted_display_entity_stays_where_it_hangs() {
    let mut world = World::new();
    let owner = world.spawn_empty().id();
    let host = world.spawn_empty().id();
    let before = world.spawn_empty().id();
    let ex = world.spawn_empty().id();
    let after = world.spawn_empty().id();
    world.entity_mut(host).push_children(&[before, ex, after]);
    let element = Element::<()>::for_entity(ex).children(LeafView { label: "leaf" });
    let mut state = {
        let mut cx = Cx::new(&mut world, owner);
        element.build(&mut cx)
    };
    assert_eq!(children_of(&world, host), vec![before, ex, after]);
    assert_eq!(parent_of(&world, ex), Some(host));
    {
        let mut cx = Cx::new(&mut world, owner);
        assert!(!element.rebuild(&mut cx, &mut state));
    }
    assert_eq!(children_of(&world, host), vec![before, ex, after]);
    element.raze(&mut world, &mut state);
    assert_eq!(children_of(&world, host), vec![before, after]);
    assert_eq!(parent_of(&world, before), Some(host));
    assert_eq!(parent_of(&world, after), Some(host));
}

#[test]
fn four_effects_in_declaration_order() {
    let mut world = World::new();
    let owner = world.spawn_empty().id();
    let log = new_log();
    let element = Element::<()>::new()
        .add_effect(LogEffect { tag: "a", log: log.clone() })
        .add_effect(LogEffect { tag: "b", log: log.clone() })
        .add_effect(LogEffect { tag: "c", log: log.clone() })
        .add_effect(LogEffect { tag: "d", log: log.clone() });
    let mut state = {
        let mut cx = Cx::new(&mut world, owner);
        element.build(&mut cx)
    };
    {
        let mut cx = Cx::new(&mut world, owner);
        element.rebuild(&mut cx, &mut state);
    }
    assert_eq!(state.2, (1, 1, 1, 1));
    assert_eq!(
        entries(&log),
        vec![
            "apply a",
            "apply b",
            "apply c",
            "apply d",
            "reapply a #1",
            "reapply b #1",
            "reapply c #1",
            "reapply d #1"
        ]
    );
}

#[test]
fn an_empty_world_has_no_entity() {
    let world = empty_world();
    assert_eq!(live_count(&world), 0);
}

#[test]
fn a_bare_entity_carries_nothing() {
    let mut world = empty_world();
    let first = spawn_bare(&mut world);
    let second = spawn_bare(&mut world);
    assert_ne!(first, second);
    assert_eq!(live_count(&world), 2);
    for entity in [first, second] {
        assert!(is_live(&world, entity));
        assert_eq!(world.entity(entity).archetype().components().count(), 0);
        assert_eq!(name_of(&world, entity), None);
        assert_eq!(parent_of(&world, entity), None);
        assert_eq!(children_of(&world, entity), Vec::<Entity>::new());
    }
}

#[test]
fn an_element_in_a_world_made_here() {
    let mut world = empty_world();
    let owner = spawn_bare(&mut world);
    let element = Element::<()>::new().named("made").children(LeafView { label: "leaf" });
    let mut state = {
        let mut cx = Cx::new(&mut world, owner);
        element.build(&mut cx)
    };
    assert_eq!(live_count(&world), 3);
    assert_eq!(name_of(&world, state.0), Some(String::from("made")));
    assert_eq!(world.entity(state.0).archetype().components().count(), 2);
    assert_eq!(children_of(&world, state.0), vec![state.1]);
    element.raze(&mut world, &mut state);
    assert_eq!(live_count(&world), 1);
    assert!(is_live(&world, owner));
}

#[test]
fn the_empty_bundle_puts_nothing_on_a_supplied_entity() {
    let mut world = empty_world();
    let owner = spawn_bare(&mut world);
    let ex = world.spawn(Transform::from_xyz(1.0, 2.0, 3.0)).id();
    let element = Element::<()>::for_entity(ex);
    let state = {
        let mut cx = Cx::new(&mut world, owner);
        element.build(&mut cx)
    };
    assert_eq!(state.0, ex);
    assert_eq!(world.get::<Transform>(ex), Some(&Transform::from_xyz(1.0, 2.0, 3.0)));
    assert_eq!(name_of(&world, ex), Some(String::new()));
    assert_eq!(world.entity(ex).archetype().components().count(), 2);
}

#[test]
fn a_bundle_replaces_what_a_supplied_entity_has_of_it() {
    let mut world = empty_world();
    let owner = spawn_bare(&mut world);
    let ex = world.spawn(Transform::from_xyz(1.0, 2.0, 3.0)).id();
    let element = Element::<Moved>::for_entity(ex);
    let state = {
        let mut cx = Cx::new(&mut world, owner);
        element.build(&mut cx)
    };
    assert_eq!(state.0, ex);
    assert_eq!(world.get::<Transform>(ex), Some(&Transform::default()));
}

#[test]
fn the_default_element_is_the_new_element() {
    let mut world = empty_world();
    let owner = spawn_bare(&mut world);
    let element: Element<Moved> = Element::default();
    let state = {
        let mut cx = Cx::new(&mut world, owner);
        element.build(&mut cx)
    };
    assert_ne!(state.0, owner);
    assert_eq!(name_of(&world, state.0), Some(String::new()));
    assert_eq!(name_of(&world, owner), Some(String::from("Element")));
    assert_eq!(world.get::<Transform>(state.0), Some(&Transform::default()));
    assert_eq!(children_of(&world, state.0), Vec::<Entity>::new());
}

#[test]
fn build_then_raze_gives_the_world_back() {
    let mut world = empty_world();
    let owner = spawn_bare(&mut world);
    let host = world.spawn(Name::new("host")).id();
    let first = world.spawn(Name::new("first")).id();
    let second = world.spawn(Name::new("second")).id();
    world.entity_mut(host).push_children(&[first, second]);
    let before: Vec<Entity> = world.iter_entities().map(|e| e.id()).collect();
    let element = Element::<Moved>::new().named("passing").children((
        LeafView { label: "a" },
        Element::<()>::new().children(LeafView { label: "b" }),
    ));
    let mut state = {
        let mut cx = Cx::new(&mut world, owner);
        element.build(&mut cx)
    };
    assert_eq!(live_count(&world), before.len() + 4);
    element.raze(&mut world, &mut state);
    let after: Vec<Entity> = world.iter_entities().map(|e| e.id()).collect();
    assert_eq!(after.len(), before.len());
    for entity in &before {
        assert!(is_live(&world, *entity));
    }
    assert_eq!(children_of(&world, host), vec![first, second]);
    assert_eq!(parent_of(&world, first), Some(host));
    assert_eq!(parent_of(&world, second), Some(host));
    assert_eq!(parent_of(&world, host), None);
    assert_eq!(children_of(&world, owner), Vec::<Entity>::new());
    assert_eq!(name_of(&world, host), Some(String::from("host")));
    assert_eq!(name_of(&world, first), Some(String::from("first")));
    assert_eq!(name_of(&world, owner), Some(String::from("Element")));
}

#[test]
fn a_dropped_entity_no_longer_hangs_under_the_display_entity() {
    struct Fading {
        shown: Arc<Mutex<bool>>,
    }
    impl UiView for Fading {
        type State = (Entity, bool);

        fn nodes(&self, state: &(Entity, bool)) -> NodeSpan {
            if state.1 {
                NodeSpan::Node(state.0)
            } else {
                NodeSpan::Empty
            }
        }

        fn build(&self, cx: &mut Cx) -> (Entity, bool) {
            (cx.world_mut().spawn_empty().id(), *self.shown.lock().unwrap())
        }

        fn rebuild(&self, _cx: &mut Cx, state: &mut (Entity, bool)) -> bool {
            let now = *self.shown.lock().unwrap();
            let changed = now != state.1;
            state.1 = now;
            changed
        }

        fn raze(&self, world: &mut World, state: &mut (Entity, bool)) {
            world.entity_mut(state.0).remove_parent();
            world.entity_mut(state.0).despawn();
        }
    }
    let mut world = empty_world();
    let owner = spawn_bare(&mut world);
    let shown = Arc::new(Mutex::new(true));
    let element =
        Element::<()>::new().children((Fading { shown: shown.clone() }, LeafView { label: "x" }));
    let mut state = {
        let mut cx = Cx::new(&mut world, owner);
        element.build(&mut cx)
    };
    let fading = state.1 .0 .0;
    let leaf = state.1 .1;
    assert_eq!(children_of(&world, state.0), vec![fading, leaf]);
    *shown.lock().unwrap() = false;
    {
        let mut cx = Cx::new(&mut world, owner);
        assert!(!element.rebuild(&mut cx, &mut state));
    }
    assert_eq!(children_of(&world, state.0), vec![leaf]);
    assert_eq!(parent_of(&world, fading), None);
    assert!(is_live(&world, fading));
    element.raze(&mut world, &mut state);
    assert!(!is_live(&world, fading));
    assert!(!is_live(&world, leaf));
}
