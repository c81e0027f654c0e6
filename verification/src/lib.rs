//! Function multiversioning: several implementations of one operation, each
//! tagged with the architectures and CPU features it needs, and the rules by
//! which the best one for the running processor is chosen at a call site.
//!
//! A target is written as `"x86"`, `"x86_64+avx+avx2"` or
//! `"[arm|aarch64]+neon"`: one architecture or a bracketed list of them, and
//! then the required features. [`target`] reads such texts and writes them
//! back in canonical form. [`detect`] holds the answers of the processor,
//! [`table`] the implementations of a call site and the choice among them,
//! and [`dispatch`] and [`shared`] the call sites themselves: one that
//! resolves once and caches its choice, and one that matches on every call.
//! [`emit`] and [`plan`] serve generators of code: they write the attributes,
//! the names and the guards of a dispatcher as source text.
//!
//! Everything here is total once a table is set up. Only setting up can
//! fail, and [`error`] lists how.

pub mod arch;
pub mod detect;
pub mod dispatch;
pub mod emit;
pub mod error;
pub mod order;
pub mod plan;
pub mod shared;
pub mod table;
pub mod target;
pub mod text;
