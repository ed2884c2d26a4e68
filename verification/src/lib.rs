//! Document-rendering and scripting core of a minimal alternative-web client.
//!
//! Given a parsed markup node tree, a companion stylesheet and an optional
//! script, the library builds a live element tree (an arena of UI primitives
//! plus a flat, insertion-ordered element registry), resolves a small CSS-like
//! rule language into concrete property sets, and exposes the registry to a
//! scripting bridge offering lookup, events, timers and dynamic subtree
//! mutation.  Fetching, the markup tokenizer and the UI toolkit are external
//! collaborators; they live outside this crate and hand it plain values.

pub mod config;
pub mod dom;
pub mod domain;
pub mod history;
pub mod page;
pub mod page_source;
pub mod parser;
pub mod render;
pub mod resource;
pub mod script;
pub mod style;
pub mod text;
