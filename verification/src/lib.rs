//! A named-panel registry for an immediate-mode GUI overlay.
//!
//! The library tracks a collection of user-supplied panels, each identified
//! by a stable name and owning its own hidden/visible state.  A host
//! constructs a [`ui::UiManager`], registers panels, runs a one-time setup
//! pass, and then drives a draw pass once per frame; panels render against a
//! recording drawing surface and a shared application state.

pub mod panels;
pub mod surface;
pub mod text;
pub mod ui;
pub mod world;
