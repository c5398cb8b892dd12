//! Capture analysis: pcap records, TCP packets, stream reassembly and
//! `ClientHello` extraction.

pub mod extractor;
pub mod reader;
pub mod reassembly;
pub mod segment_order;
pub mod tcp;

pub use extractor::extract_client_hellos;
pub use reader::{PcapHeader, PcapReader, PcapRecord};
pub use reassembly::Reassembler;
pub use tcp::{parse_ipv4_tcp, FlowKey, Ipv4};
