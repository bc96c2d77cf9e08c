//! Save-file analysis for Sons of the Forest: the JSON model, the store tree
//! built from a save's `Data` object, the text lines shown for it, and the
//! window bookkeeping of the viewer.

pub mod json;
pub mod text;
pub mod deserializer;
pub mod walker;
pub mod app;
