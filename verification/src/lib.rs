//! Event-driven trip bookkeeping for a microscopic traffic simulation:
//! a typed event stream, a boundary-region traffic recorder, an ordered
//! scenario-modifier pipeline, a per-mode departure index, and a sliding
//! window aggregator for departure-rate curves.

pub mod codec;
pub mod counting;
pub mod events;
pub mod helpers;
pub mod index;
pub mod ids;
pub mod modifier;
pub mod network;
pub mod recorder;
pub mod scenario;
pub mod series;
pub mod strutil;
pub mod text;
pub mod time;
pub mod window;

pub use time::{Duration, Time};
