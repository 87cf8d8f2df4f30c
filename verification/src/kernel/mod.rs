//! The kernel-space programs' logic, split by concern as the programs are:
//!
//! - [`task`]      - task introspection through injected field offsets,
//! - [`cpu`]       - on-CPU time accounting,
//! - [`iowait`]    - uninterruptible (D-state) sleep accounting,
//! - [`sched`]     - the `sched_switch` hotpath, fanned out to each metric,
//! - [`lifecycle`] - `exec`, `fork`, `exit` and credential changes.
//!
//! Each step comes in two forms. The free functions decide from the values a
//! program looked up what it is to write, and are what the programs call. The
//! methods carry those decisions out on hash maps standing for the kernel's own -
//! unbounded, where the kernel's evict their coldest entry - and are what the laws
//! speak of.

pub mod cpu;
pub mod iowait;
pub mod lifecycle;
pub mod sched;
pub mod task;
