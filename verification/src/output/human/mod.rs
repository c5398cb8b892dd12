//! The human reports, as lines: the live view, the capture table, the raw
//! byte dump and the single quiet value.

pub mod cells;
pub mod raw;
pub mod quiet;
pub mod live;
pub mod pcap;

pub use live::render_live;
pub use pcap::render_pcap;
pub use quiet::render_quiet;
pub use raw::render_raw;
