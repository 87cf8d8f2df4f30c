//! truetop - eBPF-backed per-process CPU, memory and I/O-wait accounting: the logic
//! of it, verified. Kernel maps, files and drawing are the binary's; it hands this
//! library what it read, and does what the library decides.
//!
//! The programs and their loading:
//! - [`kernel`]    - what the kernel-space programs decide on each scheduler event,
//! - [`btf`]       - resolves a kernel struct field's byte offset from BTF,
//! - [`encoding`]  - how BTF is written, and that it reads back,
//! - [`load`]      - the offsets and map sizes the programs are loaded with,
//! - [`setup`]     - attaching the programs and taking the maps, step by step,
//! - [`privilege`] - tells a missing privilege from other failures,
//! - [`common`]    - what both sides of the kernel boundary share.
//!
//! The collector:
//! - [`batch`]     - draining a per-CPU map in batches,
//! - [`cpu_maps`]  - the correction for threads still running when a tick reads,
//! - [`metrics`]   - one module per metric (`cpu`, `iowait`, `mem`, `identity`),
//! - [`backend`]   - each tick's snapshot, and which rows are worth looking up,
//! - [`reaper`]    - which departed processes' entries go, budgeted per tick,
//! - [`system`]    - host facts (`Machine`) and the CPU topology (`CpuCounts`).
//!
//! The surface:
//! - [`cli`]       - argument parsing, before anything privileged happens,
//! - [`ui`]        - the renderer: what each key does and what each frame shows,
//! - [`bench`]     - the collection-cost models of the benchmark.
//!
//! Underneath:
//! - [`double`], [`percent`] - double-precision arithmetic, and shares in it,
//! - [`accuracy`]  - how near what is computed comes to what is exact,
//! - [`ranking`], [`counters`] - the order of values, and what a map holds,
//! - [`text`], [`bytes`] - splitting, parsing and printing.

use vstd::prelude::*;

pub mod accuracy;
pub mod backend;
pub mod batch;
pub mod bench;
pub mod btf;
pub mod bytes;
pub mod cli;
pub mod common;
pub mod counters;
pub mod cpu_maps;
pub mod double;
pub mod encoding;
pub mod kernel;
pub mod load;
pub mod metrics;
pub mod percent;
pub mod privilege;
pub mod ranking;
pub mod reaper;
pub mod setup;
pub mod system;
pub mod text;
pub mod ui;

pub use backend::{Collector, SystemState};
pub use batch::BatchReader;

verus! {

} // verus!
