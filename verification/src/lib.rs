//! Kotlin source emitter: renders a reflected Rust type model as Kotlin
//! data classes, enum classes and sealed interfaces, with or without
//! serialization code.
use vstd::prelude::*;

pub mod casing;
pub mod classes;
pub mod containers;
pub mod deserialize;
pub mod header;
pub mod kotlin_type;
pub mod laws;
pub mod layout;
pub mod model;
pub mod order;
pub mod serialize;
pub mod text;
pub mod text_laws;
pub mod variants;

verus! {

/// The Kotlin language, whose emitters this crate holds.
pub struct Kotlin;

} // verus!
