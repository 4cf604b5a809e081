//! Core of a quick-capture notes utility: a durable note store persisted as a
//! single JSON document, and the window-placement and visibility logic that a
//! desktop shell drives.
//!
//! The store works on plain values: the shell reads and writes the backing
//! file under its write lock and hands the content here; every rule about
//! that content (validation, the on-disk format, ordering, error
//! classification) is verified. The shell likewise feeds window events to the
//! coordinator and carries out the directives it returns.

pub mod codec;
pub mod coordinator;
pub mod errors;
pub mod note;
pub mod placement;
pub mod store;
