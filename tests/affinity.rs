use agave_cpu_utils::{
    core_to_cpus_mapping, cpu_affinity, cpu_count, format_cpu_range_list, isolated_cpus,
    max_cpu_id, parse_cpu_range_list, physical_core_count, set_affinity_physical_cores_only,
    set_cpu_affinity, CpuAffinityError, Platform, CPU_SETSIZE,
};

const PRESENT: Option<&str> = Some("0-7\n");
const CONFIGURED: i64 = 8;

fn mask_with(ids: &[usize]) -> Vec<bool> {
    let mut m = vec![false; CPU_SETSIZE];
    for &i in ids {
        m[i] = true;
    }
    m
}

#[test]
fn test_parse_cpu_range_list() {
    // Test single CPU
    assert_eq!(parse_cpu_range_list("0").unwrap(), vec![0]);
    assert_eq!(parse_cpu_range_list("5").unwrap(), vec![5]);

    // Test ranges
    assert_eq!(parse_cpu_range_list("0-3").unwrap(), vec![0, 1, 2, 3]);
    assert_eq!(parse_cpu_range_list("5-7").unwrap(), vec![5, 6, 7]);

    // Test mixed single and ranges
    assert_eq!(
        parse_cpu_range_list("0-2,5,7-9").unwrap(),
        vec![0, 1, 2, 5, 7, 8, 9]
    );

    // Test with spaces
    assert_eq!(
        parse_cpu_range_list(" 0 - 2 , 5 , 7 - 9 ").unwrap(),
        vec![0, 1, 2, 5, 7, 8, 9]
    );

    // Test duplicates are removed
    assert_eq!(parse_cpu_range_list("0,1,0,2,1").unwrap(), vec![0, 1, 2]);

    // Test empty string
    assert_eq!(parse_cpu_range_list("").unwrap(), Vec::<usize>::new());

    // Test empty parts
    assert_eq!(parse_cpu_range_list("0,,2").unwrap(), vec![0, 2]);

    // Test single value range
    assert_eq!(parse_cpu_range_list("3-3").unwrap(), vec![3]);
}

#[test]
fn test_parse_cpu_range_list_errors() {
    // Test invalid numbers
    assert!(parse_cpu_range_list("abc").is_err());
    assert!(parse_cpu_range_list("0-abc").is_err());
    assert!(parse_cpu_range_list("abc-5").is_err());

    // Test malformed ranges
    assert!(parse_cpu_range_list("-5").is_err());
    assert!(parse_cpu_range_list("5-").is_err());
    assert!(parse_cpu_range_list("--").is_err());
}

#[test]
fn test_cpu_count() {
    match cpu_count(Platform::Supported, PRESENT, CONFIGURED) {
        Ok(count) => {
            assert!(count > 0, "CPU count should be at least 1");
        }
        Err(CpuAffinityError::NotSupported) => {}
        Err(e) => panic!("Unexpected error: {:?}", e),
    }
}

#[test]
fn test_max_cpu_id_reasonable() {
    match max_cpu_id(Platform::Supported, PRESENT, CONFIGURED) {
        Ok(max) => {
            assert!(max < CPU_SETSIZE, "max_cpu_id should be less than CPU_SETSIZE");
        }
        Err(e) => panic!("Failed to get max_cpu_id: {:?}", e),
    }
}

#[test]
fn test_not_supported_on_non_linux() {
    let p = Platform::Unsupported;
    assert_eq!(
        set_cpu_affinity(p, &[0], PRESENT, CONFIGURED).unwrap_err(),
        CpuAffinityError::NotSupported
    );
    assert_eq!(
        cpu_affinity(p, &mask_with(&[0]), PRESENT, CONFIGURED).unwrap_err(),
        CpuAffinityError::NotSupported
    );
    assert_eq!(
        max_cpu_id(p, PRESENT, CONFIGURED).unwrap_err(),
        CpuAffinityError::NotSupported
    );
    assert_eq!(
        isolated_cpus(p, Some("1-2")).unwrap_err(),
        CpuAffinityError::NotSupported
    );
}

#[test]
fn test_set_cpu_affinity_validation() {
    // Test empty list
    assert!(matches!(
        set_cpu_affinity(Platform::Supported, &[], PRESENT, CONFIGURED).unwrap_err(),
        CpuAffinityError::EmptyCpuList
    ));

    // Test invalid CPU (way too high)
    let result = set_cpu_affinity(Platform::Supported, &[99999], PRESENT, CONFIGURED);
    assert!(matches!(
        result.unwrap_err(),
        CpuAffinityError::InvalidCpu { .. }
    ));
}

#[test]
fn test_cpu_affinity_returns_sorted() {
    if let Ok(cpus) = cpu_affinity(Platform::Supported, &mask_with(&[6, 1, 3]), PRESENT, CONFIGURED) {
        let mut sorted = cpus.clone();
        sorted.sort_unstable();
        assert_eq!(cpus, sorted, "cpu_affinity should return sorted CPU list");
    }
}

#[test]
fn test_isolated_cpus_returns_sorted() {
    if let Ok(cpus) = isolated_cpus(Platform::Supported, Some("7,2-3,0\n")) {
        let mut sorted = cpus.clone();
        sorted.sort_unstable();
        assert_eq!(cpus, sorted, "isolated_cpus should return sorted CPU list");
    }
}

#[test]
fn parse_then_format_then_parse_is_stable() {
    for s in ["0-2,5,7-9", " 9, 3-4 ,3", "", "0,,2", "10-12,11"] {
        let first = parse_cpu_range_list(s).unwrap();
        let text = format_cpu_range_list(&first);
        assert_eq!(parse_cpu_range_list(&text).unwrap(), first);
    }
    assert_eq!(format_cpu_range_list(&[0, 1, 2, 5, 17]), "0,1,2,5,17");
    assert_eq!(format_cpu_range_list(&[]), "");
}

#[test]
fn parse_result_is_ascending_without_duplicates() {
    let v = parse_cpu_range_list("9,8-12,0,3-1,12,+4").unwrap();
    assert_eq!(v, vec![0, 4, 8, 9, 10, 11, 12]);
}

#[test]
fn parse_reversed_range_is_empty() {
    assert_eq!(parse_cpu_range_list("5-2").unwrap(), Vec::<usize>::new());
    assert_eq!(parse_cpu_range_list("5-2,1").unwrap(), vec![1]);
}

#[test]
fn parse_examples() {
    assert_eq!(parse_cpu_range_list("0-2,5,7-9").unwrap(), vec![0, 1, 2, 5, 7, 8, 9]);
    assert_eq!(parse_cpu_range_list("0,,2").unwrap(), vec![0, 2]);
    assert_eq!(parse_cpu_range_list("3-3").unwrap(), vec![3]);
    assert_eq!(parse_cpu_range_list("\t1 \u{a0}").unwrap(), vec![1]);
}

#[test]
fn parse_errors_name_the_token() {
    assert_eq!(
        parse_cpu_range_list("-5").unwrap_err(),
        CpuAffinityError::ParseError("Invalid CPU range: -5".to_string())
    );
    assert_eq!(
        parse_cpu_range_list("1, 5- ,x").unwrap_err(),
        CpuAffinityError::ParseError("Invalid CPU range: 5-".to_string())
    );
    assert_eq!(
        parse_cpu_range_list("abc").unwrap_err(),
        CpuAffinityError::ParseError("Invalid CPU ID: abc".to_string())
    );
    assert_eq!(
        parse_cpu_range_list("18446744073709551616").unwrap_err(),
        CpuAffinityError::ParseError("Invalid CPU ID: 18446744073709551616".to_string())
    );
}

#[test]
fn max_cpu_id_sources() {
    let s = Platform::Supported;
    assert_eq!(max_cpu_id(s, Some("0-127\n"), 4).unwrap(), 127);
    assert_eq!(max_cpu_id(s, Some("0"), 4).unwrap(), 0);
    assert_eq!(max_cpu_id(s, Some("0-3-9"), 4).unwrap(), 3);
    // Unreadable or missing text falls back to the configured count.
    assert_eq!(max_cpu_id(s, Some("junk"), 4).unwrap(), 3);
    assert_eq!(max_cpu_id(s, None, 16).unwrap(), 15);
    // A count of 0 saturates to 0; only a failed query (negative) fails.
    assert_eq!(max_cpu_id(s, None, 0).unwrap(), 0);
    assert_eq!(max_cpu_id(s, Some("junk"), 1).unwrap(), 0);
    assert_eq!(
        max_cpu_id(s, None, -1).unwrap_err(),
        CpuAffinityError::SystemCall("Failed to get processor count".to_string())
    );
    assert_eq!(
        max_cpu_id(s, Some(""), -1).unwrap_err(),
        CpuAffinityError::SystemCall("Failed to get processor count".to_string())
    );
}

#[test]
fn cpu_count_is_max_plus_one() {
    let s = Platform::Supported;
    for (present, n) in [(Some("0-127"), 1), (None, 12), (Some("5"), 0)] {
        let max = max_cpu_id(s, present, n).unwrap();
        assert_eq!(cpu_count(s, present, n).unwrap(), max + 1);
    }
    assert_eq!(cpu_count(s, Some("0-63"), 1).unwrap(), 64);
    assert_eq!(cpu_count(s, None, 0).unwrap(), 1);
    assert_eq!(
        cpu_count(s, None, -1).unwrap_err(),
        max_cpu_id(s, None, -1).unwrap_err()
    );
    assert!(matches!(
        cpu_count(s, Some("0-18446744073709551615"), 1).unwrap_err(),
        CpuAffinityError::SystemCall(_)
    ));
}

#[test]
fn empty_request_is_rejected() {
    assert_eq!(
        set_cpu_affinity(Platform::Supported, &[], PRESENT, CONFIGURED).unwrap_err(),
        CpuAffinityError::EmptyCpuList
    );
}

#[test]
fn request_above_max_reports_the_maximum() {
    assert_eq!(
        set_cpu_affinity(Platform::Supported, &[2, 8], PRESENT, CONFIGURED).unwrap_err(),
        CpuAffinityError::InvalidCpu { cpu: 8, max: 7 }
    );
    assert_eq!(
        set_cpu_affinity(Platform::Supported, &[12, 9, 3], PRESENT, CONFIGURED).unwrap_err(),
        CpuAffinityError::InvalidCpu { cpu: 9, max: 7 }
    );
}

#[test]
fn request_at_capacity_reports_the_capacity() {
    assert_eq!(
        set_cpu_affinity(Platform::Supported, &[1024], Some("0-4095"), 1).unwrap_err(),
        CpuAffinityError::InvalidCpu { cpu: 1024, max: 1023 }
    );
    assert_eq!(
        set_cpu_affinity(Platform::Supported, &[5000], Some("0-4095"), 1).unwrap_err(),
        CpuAffinityError::InvalidCpu { cpu: 5000, max: 4095 }
    );
}

#[test]
fn request_builds_the_mask() {
    let mask = set_cpu_affinity(Platform::Supported, &[3, 1, 3, 7], PRESENT, CONFIGURED).unwrap();
    assert_eq!(mask.len(), CPU_SETSIZE);
    let marked: Vec<usize> = (0..CPU_SETSIZE).filter(|&i| mask[i]).collect();
    assert_eq!(marked, vec![1, 3, 7]);
}

#[test]
fn set_then_read_back_gives_the_set() {
    let s = Platform::Supported;
    let mask = set_cpu_affinity(s, &[5, 0, 2, 5], PRESENT, CONFIGURED).unwrap();
    assert_eq!(cpu_affinity(s, &mask, PRESENT, CONFIGURED).unwrap(), vec![0, 2, 5]);
}

#[test]
fn read_back_stops_at_the_maximum() {
    let mask = mask_with(&[1, 7, 8, 900]);
    assert_eq!(
        cpu_affinity(Platform::Supported, &mask, PRESENT, CONFIGURED).unwrap(),
        vec![1, 7]
    );
    assert_eq!(
        cpu_affinity(Platform::Supported, &vec![true, true], Some("0-3"), 1).unwrap(),
        vec![0, 1]
    );
}

#[test]
fn isolated_cpus_absent_or_empty() {
    let s = Platform::Supported;
    assert_eq!(isolated_cpus(s, None).unwrap(), Vec::<usize>::new());
    assert_eq!(isolated_cpus(s, Some("\n")).unwrap(), Vec::<usize>::new());
    assert_eq!(isolated_cpus(s, Some("")).unwrap(), Vec::<usize>::new());
    assert_eq!(isolated_cpus(s, Some("4-5,2\n")).unwrap(), vec![2, 4, 5]);
    assert_eq!(
        isolated_cpus(s, Some("2,x\n")).unwrap_err(),
        CpuAffinityError::ParseError("Invalid CPU ID: x".to_string())
    );
}

fn texts(items: &[Option<&str>]) -> Vec<Option<String>> {
    items.iter().map(|t| t.map(|s| s.to_string())).collect()
}

#[test]
fn mapping_groups_siblings() {
    let t = texts(&[Some("0\n"), Some("1\n"), None, Some("1\n"), Some("0\n"), Some("4\n")]);
    let m = core_to_cpus_mapping(Platform::Supported, &t).unwrap();
    let pairs: Vec<(usize, Vec<usize>)> = m.iter().map(|e| (e.core, e.cpus.clone())).collect();
    assert_eq!(pairs, vec![(0, vec![0, 4]), (1, vec![1, 3]), (4, vec![5])]);
    assert_eq!(physical_core_count(&m), 3);
    for cpu in [0usize, 1, 3, 4, 5] {
        assert_eq!(m.iter().filter(|e| e.cpus.contains(&cpu)).count(), 1);
    }
    assert_eq!(m.iter().filter(|e| e.cpus.contains(&2)).count(), 0);
}

#[test]
fn mapping_rejects_unreadable_core() {
    let t = texts(&[Some("0"), None, Some(" zz \n"), Some("q")]);
    assert_eq!(
        core_to_cpus_mapping(Platform::Supported, &t).unwrap_err(),
        CpuAffinityError::ParseError("Invalid core ID: zz".to_string())
    );
    assert_eq!(
        core_to_cpus_mapping(Platform::Unsupported, &t).unwrap_err(),
        CpuAffinityError::NotSupported
    );
}

#[test]
fn physical_cores_pin_first_sibling() {
    let t = texts(&[Some("0"), Some("1"), Some("0"), Some("1")]);
    let m = core_to_cpus_mapping(Platform::Supported, &t).unwrap();
    let s = Platform::Supported;
    let mask = set_affinity_physical_cores_only(s, &m, &[1, 0], Some("0-3"), 4).unwrap();
    assert_eq!(cpu_affinity(s, &mask, Some("0-3"), 4).unwrap(), vec![0, 1]);
    assert_eq!(
        set_affinity_physical_cores_only(s, &m, &[0, 7, 9], Some("0-3"), 4).unwrap_err(),
        CpuAffinityError::InvalidPhysicalCore { core: 7, max: 1 }
    );
    assert_eq!(
        set_affinity_physical_cores_only(s, &m, &[], Some("0-3"), 4).unwrap_err(),
        CpuAffinityError::EmptyCpuList
    );
    assert_eq!(
        set_affinity_physical_cores_only(Platform::Unsupported, &m, &[0], Some("0-3"), 4)
            .unwrap_err(),
        CpuAffinityError::NotSupported
    );
}

#[test]
fn unsupported_platform_fails_everywhere() {
    let p = Platform::Unsupported;
    assert_eq!(cpu_count(p, PRESENT, CONFIGURED).unwrap_err(), CpuAffinityError::NotSupported);
    assert_eq!(isolated_cpus(p, None).unwrap_err(), CpuAffinityError::NotSupported);
    assert_eq!(
        set_cpu_affinity(p, &[], PRESENT, CONFIGURED).unwrap_err(),
        CpuAffinityError::NotSupported
    );
    assert_eq!(
        core_to_cpus_mapping(p, &Vec::new()).unwrap_err(),
        CpuAffinityError::NotSupported
    );
}

#[test]
fn read_back_stops_at_the_capacity() {
    let mut mask = vec![false; CPU_SETSIZE + 8];
    mask[3] = true;
    mask[CPU_SETSIZE - 1] = true;
    mask[CPU_SETSIZE] = true;
    mask[CPU_SETSIZE + 5] = true;
    assert_eq!(
        cpu_affinity(Platform::Supported, &mask, Some("0-4095"), 1).unwrap(),
        vec![3, CPU_SETSIZE - 1]
    );
}
