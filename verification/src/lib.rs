//! Verified core of a 16x16 grid level editor: the plain-text codec for the
//! level format, the in-memory grid model, the reversible edit engine with its
//! bounded undo history, and the rectangular box-selection engine.

pub mod codec;
pub mod history;
pub mod laws;
pub mod model;
pub mod roundtrip;
pub mod selection;
pub mod util;
