//! A policy engine: declarative pattern types are linked into a world and
//! JSON-shaped values are evaluated against the patterns of that world.
//!
//! The linker ([`linker`]) takes compilation units ([`lang`]) and packages of
//! native functions ([`function`]) and makes a world ([`runtime`]) of types
//! ([`types`]) under their names ([`names`]). The evaluator ([`eval`]) says
//! what a pattern of the world makes of a value ([`value`], [`json`]). What
//! holds of every linked world is proved in [`closure`].
//!
//! Around this core stand a renderer of types ([`html`]), the test harness
//! ([`plan`]) and the answers of the HTTP server ([`policy`]).

pub mod closure;
pub mod eval;
pub mod expr;
pub mod function;
pub mod html;
pub mod json;
pub mod lang;
pub mod linker;
pub mod names;
pub mod plan;
pub mod policy;
pub mod runtime;
pub mod table;
pub mod text;
pub mod types;
pub mod value;
