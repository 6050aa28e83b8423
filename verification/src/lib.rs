//! Disk-usage inspection: sizing of files and directory trees under traversal
//! limits, size- and name-ordered listings of a directory's children, and the
//! bookkeeping of batch removals.
//!
//! The library works on plain values. Whoever drives it reads the filesystem
//! and hands over what was found; every decision about what counts, what is
//! listed, in which order, and when a batch stops is taken here.

pub mod model;
pub mod order;
pub mod remove;
pub mod scan;
pub mod size;
pub mod stamp;
