//! CPU topology discovery and thread affinity control.
//!
//! The library holds the decisions: it reads the kernel's CPU list texts,
//! validates affinity requests and builds the scheduling mask. The caller
//! performs the system calls and file reads and hands their results in.

pub mod affinity;
pub mod error;
pub mod range_list;
pub mod topology;

pub use affinity::{
    cpu_affinity, cpu_count, isolated_cpus, max_cpu_id, set_cpu_affinity, Platform, CPU_SETSIZE,
};
pub use error::CpuAffinityError;
pub use range_list::{format_cpu_range_list, parse_cpu_range_list};
pub use topology::{
    core_to_cpus_mapping, physical_core_count, set_affinity_physical_cores_only, CoreCpus,
};
