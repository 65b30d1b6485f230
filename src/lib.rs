//! Pinning policy for `uses:` references in CI workflow steps.
//!
//! A reference is classified by origin and pin strength, checked against a
//! trust allowlist of owners, and resolved against the most specific
//! configured pattern to decide whether it yields a finding.

pub mod allowlist;
pub mod audit;
pub mod pattern;
pub mod policy;
pub mod text;
pub mod tpa_list;
pub mod uses;
