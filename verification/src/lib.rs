//! The verified core of a UDP log collector that writes into a memory-mapped
//! log file: the on-disk log frame format, the append-only log region that
//! frames are written into, the reader that walks a region back into records,
//! and the decisions that the collector and its benchmark make around their
//! I/O.

pub mod byte_order;
pub mod frame;
pub mod region;
pub mod entry;
pub mod storage;
pub mod recvmsg;
pub mod agent;
pub mod bench;
