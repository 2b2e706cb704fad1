//! A declarative element view for a reactive UI layer on top of an
//! entity-component scene graph.
//!
//! An [`Element`](element::Element) is a builder value that materialises a
//! display entity, attaches an ordered tuple of effects to it, and hosts the
//! entities produced by a tuple of child views.  Every lifecycle step is
//! stated over a mathematical model of the world: which entities are live,
//! what they are called, and how they are linked as parents and children.
//!
//! - [`scene`]: the model of the world and the world operations used.
//! - [`node_span`]: the entities that a view shows, and their flattening.
//! - [`bundle`]: the bundle that an element puts on its display entity.
//! - [`cx`]: the context in which views build.
//! - [`effects`]: effects on one entity and ordered tuples of them.
//! - [`view`], [`view_tuple`]: the lifecycle of a view and of a list of views.
//! - [`layout`]: what a view's state expects of the hierarchy and what a view
//!   leaves alone.
//! - [`style`]: the effect that writes styles.
//! - [`element`]: the element itself.
//! - [`invariants`]: what holds of every element through its lifecycle.

pub mod bundle;
pub mod cx;
pub mod effects;
pub mod element;
pub mod invariants;
pub mod layout;
pub mod node_span;
pub mod scene;
pub mod style;
pub mod view;
pub mod view_tuple;

pub use bundle::DisplayBundle;
pub use cx::Cx;
pub use effects::{AppendEffect, EffectTuple, EntityEffect};
pub use element::Element;
pub use node_span::NodeSpan;
pub use style::{ApplyStylesEffect, StyleSet};
pub use view::UiView;
pub use view_tuple::ViewTuple;
