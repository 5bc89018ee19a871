//! Runtime state of a conversational companion: a store of scored memories
//! with similarity retrieval and capacity-based eviction, and an emotional
//! state engine driven by rule-based triggers and passive decay.
//!
//! Scores and affect values are fixed-point levels in thousandths (1000
//! stands for 1.0); times are milliseconds since the Unix epoch; ids are
//! 128-bit values; embeddings are quantised to `i16` components.
pub mod level;
pub mod types;
pub mod emotion;
pub mod vector_store;
pub mod cache;
pub mod memory;
pub mod bridge;
pub mod personality;
mod external;

pub use types::{EmotionalState, MemoryConfig, MemoryEntry, MemoryError, MemoryType};
pub use memory::MemorySystem;
