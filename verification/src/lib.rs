//! Configuration compiler for a declarative live-image build tool.
//!
//! The crate turns a declarative build specification into the configuration
//! tree consumed by an external image builder: it merges reusable
//! specification modules, patches line-oriented `KEY="value"` files
//! idempotently, and synthesizes the shell hooks that run inside the build
//! chroot or at first boot.

pub mod cfg;
pub mod deboot;
pub mod hooks;
pub mod kv;
pub mod kv_laws;
pub mod pipeline;
pub mod resolve;
pub mod ringer;
pub mod snap;
mod text;
