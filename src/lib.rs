//! The verified core of an embroidery design engine: the scene tree and its
//! reversible structural commands, the undo/redo journal, sequencer order and
//! color buckets for routing, and byte-exact DST, PEC and PES encoders over
//! designs held in 0.1 mm units.

pub mod design;
pub mod dst;
pub mod text;
pub mod pec;
pub mod pes;
pub mod history;
pub mod sequencer;
pub mod buckets;
pub mod scene_tree;
