//! A verified engine for exhaustively scanning a bounded keyspace of
//! fixed-width scalars for one whose derived public address matches a target.
//!
//! The engine covers range partitioning across workers, bidirectional batch
//! traversal, first-match coordination, progress accounting, throughput and
//! ETA reporting, and the rendering and flush discipline of a resilient log.
//! The address derivation itself is an outside collaborator reached through a
//! narrow trusted boundary.

pub mod derivation;
pub mod hexfmt;
pub mod logging;
pub mod rangepart;
pub mod report;
pub mod scan;
pub mod shared;
pub mod worker;
