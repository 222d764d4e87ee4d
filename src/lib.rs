//! State-based replicated counters (grow-only and positive-negative) whose
//! merge is the pointwise maximum of per-replica slots.
pub mod count;
pub mod counter;
pub mod error;
pub mod g_counter;
pub mod pn_counter;
pub mod slots;

pub use count::Count;
pub use counter::Counter;
pub use error::CounterError;
pub use g_counter::GCounter;
pub use pn_counter::PNCounter;
