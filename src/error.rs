//! Error values of the CPU affinity operations.
use vstd::prelude::*;
use vstd::string::*;

use crate::range_list::{append_decimal, decimal};

verus! {

/// Errors that can occur during CPU affinity operations.
#[derive(Debug)]
#[non_exhaustive]
pub enum CpuAffinityError {
    /// The operating system call, or the fallback query, failed; holds its description.
    SystemCall(String),
    /// The platform lacks the scheduling-affinity facility.
    NotSupported,
    /// A CPU ID above the system maximum or the mask capacity.
    InvalidCpu { cpu: usize, max: usize },
    /// A physical core ID that the topology does not know.
    InvalidPhysicalCore { core: usize, max: usize },
    /// An affinity request that names no CPU.
    EmptyCpuList,
    /// Malformed CPU range text; holds the offending token.
    ParseError(String),
}

/// Equality of two errors: same variant and same contents.
pub open spec fn errors_equal(a: &CpuAffinityError, b: &CpuAffinityError) -> bool {
    match (a, b) {
        (CpuAffinityError::SystemCall(x), CpuAffinityError::SystemCall(y)) => x@ == y@,
        (CpuAffinityError::NotSupported, CpuAffinityError::NotSupported) => true,
        (
            CpuAffinityError::InvalidCpu { cpu: c1, max: m1 },
            CpuAffinityError::InvalidCpu { cpu: c2, max: m2 },
        ) => c1 == c2 && m1 == m2,
        (
            CpuAffinityError::InvalidPhysicalCore { core: c1, max: m1 },
            CpuAffinityError::InvalidPhysicalCore { core: c2, max: m2 },
        ) => c1 == c2 && m1 == m2,
        (CpuAffinityError::EmptyCpuList, CpuAffinityError::EmptyCpuList) => true,
        (CpuAffinityError::ParseError(x), CpuAffinityError::ParseError(y)) => x@ == y@,
        _ => false,
    }
}

impl PartialEq for CpuAffinityError {
    fn eq(&self, other: &Self) -> (r: bool)
        ensures
            r == errors_equal(self, other),
    {
        match (self, other) {
            (CpuAffinityError::SystemCall(x), CpuAffinityError::SystemCall(y)) => *x == *y,
            (CpuAffinityError::NotSupported, CpuAffinityError::NotSupported) => true,
            (
                CpuAffinityError::InvalidCpu { cpu: c1, max: m1 },
                CpuAffinityError::InvalidCpu { cpu: c2, max: m2 },
            ) => *c1 == *c2 && *m1 == *m2,
            (
                CpuAffinityError::InvalidPhysicalCore { core: c1, max: m1 },
                CpuAffinityError::InvalidPhysicalCore { core: c2, max: m2 },
            ) => *c1 == *c2 && *m1 == *m2,
            (CpuAffinityError::EmptyCpuList, CpuAffinityError::EmptyCpuList) => true,
            (CpuAffinityError::ParseError(x), CpuAffinityError::ParseError(y)) => *x == *y,
            _ => false,
        }
    }
}

impl vstd::std_specs::cmp::PartialEqSpecImpl for CpuAffinityError {
    open spec fn obeys_eq_spec() -> bool {
        true
    }

    open spec fn eq_spec(&self, other: &CpuAffinityError) -> bool {
        errors_equal(self, other)
    }
}

impl Eq for CpuAffinityError {

}

/// The text that describes an error.
pub open spec fn error_message(e: &CpuAffinityError) -> Seq<char> {
    match e {
        CpuAffinityError::SystemCall(m) => "System call failed: "@ + m@,
        CpuAffinityError::NotSupported => "CPU affinity operations are not supported on this platform"@,
        CpuAffinityError::InvalidCpu { cpu, max } => "CPU "@ + decimal(*cpu as nat)
            + " is invalid (max CPU is "@ + decimal(*max as nat) + ")"@,
        CpuAffinityError::InvalidPhysicalCore { core, max } => "Physical core "@ + decimal(
            *core as nat,
        ) + " is invalid (max core is "@ + decimal(*max as nat) + ")"@,
        CpuAffinityError::EmptyCpuList => "CPU list cannot be empty"@,
        CpuAffinityError::ParseError(m) => "Failed to parse CPU specification: "@ + m@,
    }
}

impl CpuAffinityError {
    /// The text that describes this error.
    pub fn to_string(&self) -> (r: String)
        ensures
            r@ == error_message(self),
    {
        match self {
            CpuAffinityError::SystemCall(m) => {
                let mut r = String::from_str("System call failed: ");
                r.append(m.as_str());
                r
            },
            CpuAffinityError::NotSupported => String::from_str(
                "CPU affinity operations are not supported on this platform",
            ),
            CpuAffinityError::InvalidCpu { cpu, max } => {
                let mut r = String::from_str("CPU ");
                append_decimal(&mut r, *cpu);
                r.append(" is invalid (max CPU is ");
                append_decimal(&mut r, *max);
                r.append(")");
                r
            },
            CpuAffinityError::InvalidPhysicalCore { core, max } => {
                let mut r = String::from_str("Physical core ");
                append_decimal(&mut r, *core);
                r.append(" is invalid (max core is ");
                append_decimal(&mut r, *max);
                r.append(")");
                r
            },
            CpuAffinityError::EmptyCpuList => String::from_str("CPU list cannot be empty"),
            CpuAffinityError::ParseError(m) => {
                let mut r = String::from_str("Failed to parse CPU specification: ");
                r.append(m.as_str());
                r
            },
        }
    }
}

} // verus!
