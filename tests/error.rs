use agave_cpu_utils::CpuAffinityError;

#[test]
fn test_error_display() {
    let err = CpuAffinityError::InvalidCpu { cpu: 10, max: 7 };
    assert_eq!(err.to_string(), "CPU 10 is invalid (max CPU is 7)");

    let err = CpuAffinityError::InvalidPhysicalCore { core: 5, max: 3 };
    assert_eq!(err.to_string(), "Physical core 5 is invalid (max core is 3)");

    let err = CpuAffinityError::EmptyCpuList;
    assert_eq!(err.to_string(), "CPU list cannot be empty");

    let err = CpuAffinityError::NotSupported;
    assert_eq!(
        err.to_string(),
        "CPU affinity operations are not supported on this platform"
    );

    let err = CpuAffinityError::ParseError("bad input".to_string());
    assert_eq!(err.to_string(), "Failed to parse CPU specification: bad input");
}

#[test]
fn test_error_equality() {
    let err1 = CpuAffinityError::InvalidCpu { cpu: 10, max: 7 };
    let err2 = CpuAffinityError::InvalidCpu { cpu: 10, max: 7 };
    assert_eq!(err1, err2);

    let err3 = CpuAffinityError::InvalidCpu { cpu: 5, max: 7 };
    assert_ne!(err1, err3);
}

#[test]
fn error_text_of_large_values_and_system_calls() {
    let err = CpuAffinityError::InvalidCpu { cpu: 1024, max: 1023 };
    assert_eq!(err.to_string(), "CPU 1024 is invalid (max CPU is 1023)");
    let err = CpuAffinityError::SystemCall("Operation not permitted".to_string());
    assert_eq!(err.to_string(), "System call failed: Operation not permitted");
}

#[test]
fn errors_differ_across_variants() {
    assert_ne!(CpuAffinityError::EmptyCpuList, CpuAffinityError::NotSupported);
    assert_ne!(
        CpuAffinityError::ParseError("x".to_string()),
        CpuAffinityError::SystemCall("x".to_string())
    );
    assert_eq!(
        CpuAffinityError::ParseError("x".to_string()),
        CpuAffinityError::ParseError("x".to_string())
    );
}
