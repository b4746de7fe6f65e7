//! Resolving a loose service name to one running container, and the small
//! pieces of logic around it: reading the runtime's listing and building the
//! command lines handed to the runtime.

pub mod resolver;
pub mod listing;
pub mod invocation;
