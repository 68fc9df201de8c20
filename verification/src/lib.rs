//! Row compaction and binary export for a character-grid terminal display.
//!
//! Given one row of terminal cells (character, display width, style), the
//! library classifies characters that must stay visually isolated, compacts
//! runs of cells into minimal background spans, text spans and symbol
//! records, applies cursor-inversion semantics, and lays the result out in a
//! fixed binary record format for a host renderer.

pub mod classify;
pub mod color;
pub mod compact;
pub mod engine;
pub mod export;
pub mod props;

pub use engine::create;
pub use engine::Vt;
