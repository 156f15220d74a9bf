# kotlin_emitter

Renders a reflected model of Rust types as Kotlin source: data objects and
data classes for structs, enum classes for enums of unit variants, sealed
interfaces for other enums, with JSON annotations or bincode
serialization code, and the head of the Kotlin module (package, imports,
feature sources).

Every emitter is specified, and verified with Verus, as a document: a
sequence of text and indentation changes run on the state of an indenting
writer (`src/text.rs`).

- `src/model.rs` – the type model: formats, variants, containers.
- `src/text.rs` – the indenting writer and its model.
- `src/kotlin_type.rs`, `src/serialize.rs`, `src/deserialize.rs` – the Kotlin
  type of a format and the code that (de)serializes a value of it.
- `src/classes.rs`, `src/containers.rs`, `src/variants.rs` – declarations.
- `src/header.rs`, `src/order.rs` – the module head, imports sorted once each.
- `src/casing.rs` – case conversions done by `heck` and `str`.
- `src/laws.rs` – properties of every emitted document: balance, line ends,
  composition, imports.
- `src/layout.rs`, `src/text_laws.rs` – the text an emitter gives on a fresh
  writer, at a deeper indentation, and how the texts of related emitters relate.
- `app/` – reading feature sources from disk and writing to `std::io::Write`.
