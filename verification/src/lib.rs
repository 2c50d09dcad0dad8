//! Certificate chain resolution by distinguished-name matching.
//!
//! Given an unordered collection of X.509 certificates, the library finds a
//! leaf certificate by a subject attribute value and rebuilds its trust chain
//! up to a self-signed root by repeatedly matching issuer and subject names.
//! Loading raw certificate bytes from a credential store, and any file access,
//! live with the caller; the library decodes, aggregates and resolves.

pub mod cert;
pub mod codec;
pub mod domain;
pub mod level;
pub mod location;
pub mod resolver;
pub mod util;
