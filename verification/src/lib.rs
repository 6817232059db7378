//! WildFly container versions, as deployed at
//! https://hub.docker.com/r/jboss/wildfly and https://quay.io/repository/wildfly/wildfly.
//!
//! The library describes the known releases and resolves expressions like
//! `3x10,23..26,5x28,34,dev` into them: single versions, ranges of versions
//! and enumerations of both, each with an optional repeat count.

pub mod catalog;
pub mod container;
pub mod decimal;
pub mod enumeration;
pub mod error;
pub mod laws;
pub mod range;
pub mod standard;
pub mod text;
pub mod token;

pub use crate::catalog::Catalog;
pub use crate::container::{identifier, Version, WildFlyContainer};
pub use crate::error::{Endpoint, EndpointCause, EnumerationError, ResolveError};
pub use crate::token::{DEVELOPMENT_TAG, DEVELOPMENT_VERSION};
