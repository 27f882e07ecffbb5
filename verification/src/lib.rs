//! Incremental decoders for two media byte streams: an MPEG-2 transport
//! stream of fixed-size packets carrying PSI tables and PES packets, and a raw
//! H.264 Annex-B stream of NAL units.
//!
//! Every decoder is a pure function of a byte window and a flag that says
//! whether the window is known to be complete; its contract gives the record
//! and the number of bytes taken as a function of the window. The drivers
//! keep their pending bytes in a ring buffer and are advanced step by step by
//! whoever owns the byte source.
//!
//! - [`stream`]: the window, the verdicts, and the field readers
//! - [`crc`]: the checksum of PSI sections
//! - [`packets`]: transport packets and their adaptation field
//! - [`stream_packet`]: PSI sections, the two tables, the record type
//! - [`pes`]: PES packets and their header
//! - [`nalunits`]: NAL units
//! - [`buffer`]: what is taken on trust of the ring buffer
//! - [`driver`], [`iterators`]: the drivers for NAL units and packets
//! - [`elements`]: the reassembly engine
//! - [`chunking`]: why the size of reads does not matter to a driver

pub mod buffer;
pub mod chunking;
pub mod crc;
pub mod driver;
pub mod elements;
pub mod iterators;
pub mod nalunits;
pub mod packets;
pub mod pes;
pub mod stream;
pub mod stream_packet;
