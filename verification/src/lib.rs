//! Analytical core of a dependency-auditing tool.
//!
//! Two subsystems: a symbol-identity and pattern-matching algebra
//! (identifiers, colon-joined paths, prefix patterns, canonical symbols,
//! type descriptors), and the pure computations behind an audit-trail
//! diagnostic renderer (source line byte ranges, context windows,
//! annotation layout, labels, and call-stack reconstruction).

pub mod auditing;
pub mod canonical;
pub mod effect;
pub mod fresh;
pub mod ident;
pub mod text;
pub mod warn;
