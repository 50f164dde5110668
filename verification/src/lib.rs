//! Leader election for a supervised service cluster.
//!
//! Every member of a cluster runs the same state machine against its view of
//! the cluster, the census, until exactly one of them has initialized as
//! leader and the others follow it. The library decides; the host performs
//! what a decision asks for (running the package's initialization, starting
//! the service, sleeping between ticks) and hands the library what came of it.

pub mod census;
pub mod error;
pub mod eventsrv;
pub mod state_machine;
pub mod topology;
