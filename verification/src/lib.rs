//! Velos: the decisions of a small container control plane.
//!
//! [`scheduler`] binds containers to workers. [`reconcile`] and [`worker`] decide what a
//! worker does about the containers assigned to it, [`runtime`] is the seam to the
//! container runtime, [`heartbeat`] guards the worker's lease, and [`proxy`] routes node
//! ports to local containers. [`daemon`],
//! [`config`] and [`host`] cover the worker's identity, settings and machine. [`doctor`]
//! and [`status`] turn what was observed into a [`report`].
//!
//! Nothing here touches a file, a socket or another process: each function takes what was
//! read and returns what to do.
pub mod config;
pub mod daemon;
pub mod doctor;
pub mod heartbeat;
pub mod host;
pub mod json;
pub mod labels;
pub mod memory;
pub mod proxy;
pub mod reconcile;
pub mod report;
pub mod runtime;
pub mod scheduler;
pub mod status;
pub mod text;
pub mod worker;
