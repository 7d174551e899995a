//! Continuously paints a remote shared canvas by encoding pixel coordinates
//! and colors into IPv6 addresses and probing them.
//!
//! The crate holds the verified core: the pixel/color data model and the
//! canvas state (`utils`), the address codec, probe packet layout and retry
//! policy (`network`), and the resynchronization pipeline that turns decoded
//! image samples into a fresh canvas and schedules the next refresh
//! (`synchronize`).

pub mod network;
pub mod synchronize;
pub mod utils;

pub use utils::Color;
pub use utils::Pixel;
pub use utils::Task;
