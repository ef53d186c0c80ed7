//! Fixed-layout decoding of best bid/ask quote messages, and the bookkeeping that measures
//! how many counter cycles each decode takes.

pub mod config;
pub mod schema;
pub mod scan;
pub mod extract;
pub mod anchor;
pub mod latency;
pub mod wellformed;
