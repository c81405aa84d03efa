//! Topology facts and the thread affinity mask.
//!
//! The functions here decide; the caller performs the system calls and file
//! reads, handing in what they returned and applying the mask that comes back.
use vstd::prelude::*;
use vstd::string::*;

use crate::error::CpuAffinityError;
use crate::range_list::{
    ascending,
    chars_of,
    find_char,
    first_index,
    id_set,
    insert_sorted,
    parse_cpu_range_list,
    parse_error_text,
    parse_uint,
    parse_uint_at,
    range_list_ids,
    trim,
    trim_bounds,
};

verus! {

/// Capacity of the kernel scheduling mask, in CPU slots.
pub const CPU_SETSIZE: usize = 1024;

/// Whether the running platform has the scheduling-affinity and sysfs facilities.
#[derive(Debug, Clone, Copy, PartialEq, Eq, Structural)]
pub enum Platform {
    Supported,
    Unsupported,
}

/// The view of an optional string.
pub open spec fn opt_view(o: Option<&str>) -> Option<Seq<char>> {
    match o {
        Some(s) => Some(s@),
        None => None,
    }
}

/// The highest CPU ID that "present CPUs" text gives: the value between the
/// first and a second dash of `low-high`, or the lone value.
pub open spec fn present_max(text: Seq<char>) -> Option<usize> {
    let t = trim(text);
    let d = first_index(t, '-');
    if d < t.len() {
        let rest = t.subrange(d + 1, t.len() as int);
        parse_uint(rest.subrange(0, first_index(rest, '-')))
    } else {
        parse_uint(t)
    }
}

/// The highest CPU ID derived from a configured-processor count: one less
/// than the count, saturating at 0. A negative count is a failed query.
pub open spec fn count_max(count: i64) -> Option<usize> {
    if count < 0 {
        None
    } else if count as usize == 0 {
        Some(0)
    } else {
        Some((count as usize - 1) as usize)
    }
}

/// The highest valid CPU ID: from the present-CPU text where it reads, else
/// from the configured-processor count.
pub open spec fn max_cpu_id_spec(
    platform: Platform,
    present: Option<Seq<char>>,
    count: i64,
) -> Option<usize> {
    if platform == Platform::Unsupported {
        None
    } else {
        match present {
            Some(t) if present_max(t) is Some => present_max(t),
            _ => count_max(count),
        }
    }
}

/// The number of logical CPUs: one more than the highest CPU ID.
pub open spec fn cpu_count_spec(platform: Platform, present: Option<Seq<char>>, count: i64) -> Option<
    usize,
> {
    match max_cpu_id_spec(platform, present, count) {
        Some(m) if m < usize::MAX => Some((m + 1) as usize),
        _ => None,
    }
}

/// The error of a failed topology query on a supported platform.
pub open spec fn is_count_failure(e: CpuAffinityError) -> bool {
    e matches CpuAffinityError::SystemCall(m) && m@ == "Failed to get processor count"@
}

/// The CPU IDs that `mask` marks, from 0 to `max` and below the mask capacity.
pub open spec fn mask_ids(mask: Seq<bool>, max: usize) -> Set<int> {
    Set::new(|x: int| 0 <= x <= max && x < mask.len() && x < CPU_SETSIZE && mask[x])
}

/// The highest ID of "present CPUs" text.
fn present_max_of(text: &str) -> (r: Option<usize>)
    ensures
        r == present_max(text@),
{
    let cs = chars_of(text);
    let n = cs.len();
    assert(cs@.subrange(0, n as int) =~= cs@);
    let (a, b) = trim_bounds(&cs, 0, n);
    let ghost t = cs@.subrange(a as int, b as int);
    let d = find_char(&cs, '-', a, b);
    if d < b {
        let ghost rest = t.subrange(d - a + 1, t.len() as int);
        assert(rest =~= cs@.subrange(d + 1, b as int));
        let e = find_char(&cs, '-', d + 1, b);
        assert(rest.subrange(0, e - d - 1) =~= cs@.subrange(d + 1, e as int));
        parse_uint_at(&cs, d + 1, e)
    } else {
        parse_uint_at(&cs, a, b)
    }
}

/// The maximum CPU ID on the system.
///
/// `present` is the text of the kernel's present-CPU list, if it could be read;
/// `configured_count` is the configured-processor count, used only where that
/// text is missing or does not read.
pub fn max_cpu_id(platform: Platform, present: Option<&str>, configured_count: i64) -> (r: Result<
    usize,
    CpuAffinityError,
>)
    ensures
        platform == Platform::Unsupported ==> r matches Err(CpuAffinityError::NotSupported),
        platform == Platform::Supported ==> match max_cpu_id_spec(
            platform,
            opt_view(present),
            configured_count,
        ) {
            Some(m) => r == Ok::<usize, CpuAffinityError>(m),
            None => r matches Err(e) && is_count_failure(e),
        },
{
    if platform == Platform::Unsupported {
        return Err(CpuAffinityError::NotSupported);
    }
    if let Some(text) = present {
        if let Some(m) = present_max_of(text) {
            return Ok(m);
        }
    }
    if configured_count < 0 {
        return Err(CpuAffinityError::SystemCall(String::from_str("Failed to get processor count")));
    }
    let c = configured_count as usize;
    if c == 0 {
        Ok(0)
    } else {
        Ok(c - 1)
    }
}

/// The number of logical CPUs on the system: `max_cpu_id + 1`.
pub fn cpu_count(platform: Platform, present: Option<&str>, configured_count: i64) -> (r: Result<
    usize,
    CpuAffinityError,
>)
    ensures
        platform == Platform::Unsupported ==> r matches Err(CpuAffinityError::NotSupported),
        platform == Platform::Supported ==> match max_cpu_id_spec(
            platform,
            opt_view(present),
            configured_count,
        ) {
            None => r matches Err(e) && is_count_failure(e),
            Some(m) => if m < usize::MAX {
                r == Ok::<usize, CpuAffinityError>((m + 1) as usize)
            } else {
                r matches Err(CpuAffinityError::SystemCall(_))
            },
        },
{
    let m = max_cpu_id(platform, present, configured_count)?;
    if m == usize::MAX {
        return Err(CpuAffinityError::SystemCall(String::from_str("CPU count does not fit in usize")));
    }
    Ok(m + 1)
}

/// The isolated CPUs of the kernel's isolated-CPU text `content`, ascending.
///
/// A missing source (`None`) or text that is empty once trimmed means that no
/// CPU is isolated; otherwise the trimmed text is read as a range list.
pub fn isolated_cpus(platform: Platform, content: Option<&str>) -> (r: Result<
    Vec<usize>,
    CpuAffinityError,
>)
    ensures
        platform == Platform::Unsupported ==> r matches Err(CpuAffinityError::NotSupported),
        platform == Platform::Supported ==> match content {
            None => r matches Ok(v) && v@.len() == 0,
            Some(t) => if trim(t@).len() == 0 {
                r matches Ok(v) && v@.len() == 0
            } else {
                match range_list_ids(trim(t@)) {
                    Ok(ids) => r matches Ok(v) && ascending(v@) && id_set(v@) == ids,
                    Err(tok) => r matches Err(CpuAffinityError::ParseError(m)) && m@
                        == parse_error_text(tok),
                }
            },
        },
{
    if platform == Platform::Unsupported {
        return Err(CpuAffinityError::NotSupported);
    }
    match content {
        None => Ok(Vec::new()),
        Some(text) => {
            let cs = chars_of(text);
            let n = cs.len();
            assert(cs@.subrange(0, n as int) =~= cs@);
            let (a, b) = trim_bounds(&cs, 0, n);
            if a == b {
                return Ok(Vec::new());
            }
            parse_cpu_range_list(text.substring_char(a, b))
        },
    }
}

/// The mask that holds exactly the CPU IDs of `ids` below the capacity.
pub open spec fn mask_of(ids: Set<int>) -> Seq<bool> {
    Seq::new(CPU_SETSIZE as nat, |i: int| ids.contains(i))
}

/// The highest ID that a request may name: the system maximum, and below the
/// mask capacity.
pub open spec fn id_limit(max: usize) -> int {
    if max < CPU_SETSIZE {
        max as int
    } else {
        CPU_SETSIZE - 1
    }
}

/// `c` is the least ID of `ids` above `limit`.
pub open spec fn least_above(ids: Set<int>, limit: int, c: int) -> bool {
    &&& ids.contains(c)
    &&& c > limit
    &&& forall|y: int| ids.contains(y) && y > limit ==> c <= y
}

/// What a valid affinity request for `cpus` yields on a system whose maximum
/// CPU ID is `max`: `Ok` with its mask, or the `InvalidCpu` error for the
/// least ID that is out of range.
pub open spec fn affinity_request_ok(cpus: Seq<usize>, max: usize, r: Result<
    Vec<bool>,
    CpuAffinityError,
>) -> bool {
    let ids = id_set(cpus);
    if exists|y: int| ids.contains(y) && y > id_limit(max) {
        r matches Err(CpuAffinityError::InvalidCpu { cpu, max: reported }) && least_above(
            ids,
            id_limit(max),
            cpu as int,
        ) && reported == (if cpu > max {
            max
        } else {
            (CPU_SETSIZE - 1) as usize
        })
    } else {
        r matches Ok(mask) && mask@ == mask_of(ids)
    }
}

/// The outcome of an affinity request for `cpus`: `NotSupported` on an
/// unsupported platform, `EmptyCpuList` for an empty request, the failure of
/// the maximum-ID query, or else as `affinity_request_ok` says.
pub open spec fn set_affinity_outcome(
    platform: Platform,
    cpus: Seq<usize>,
    present: Option<Seq<char>>,
    count: i64,
    r: Result<Vec<bool>, CpuAffinityError>,
) -> bool {
    if platform == Platform::Unsupported {
        r matches Err(CpuAffinityError::NotSupported)
    } else if cpus.len() == 0 {
        r matches Err(CpuAffinityError::EmptyCpuList)
    } else {
        match max_cpu_id_spec(platform, present, count) {
            None => r matches Err(e) && is_count_failure(e),
            Some(max) => affinity_request_ok(cpus, max, r),
        }
    }
}

/// Validates a request to pin the calling thread to the CPUs `cpus` and
/// builds the scheduling mask that the caller then applies.
///
/// Duplicates are removed. An empty request gives `EmptyCpuList`; an ID above
/// the system maximum (from `present` and `configured_count`, as `max_cpu_id`
/// reads them) or at or above the mask capacity gives `InvalidCpu`.
pub fn set_cpu_affinity(
    platform: Platform,
    cpus: &[usize],
    present: Option<&str>,
    configured_count: i64,
) -> (r: Result<Vec<bool>, CpuAffinityError>)
    ensures
        set_affinity_outcome(platform, cpus@, opt_view(present), configured_count, r),
{
    if platform == Platform::Unsupported {
        return Err(CpuAffinityError::NotSupported);
    }
    let mut ids: Vec<usize> = Vec::new();
    let mut i: usize = 0;
    while i < cpus.len()
        invariant
            platform == Platform::Supported,
            i <= cpus@.len(),
            ascending(ids@),
            id_set(ids@) == id_set(cpus@.subrange(0, i as int)),
        decreases cpus@.len() - i,
    {
        insert_sorted(&mut ids, cpus[i]);
        proof {
            let p = cpus@.subrange(0, i + 1);
            assert forall|y: int| #[trigger]
                id_set(p).contains(y) == id_set(cpus@.subrange(0, i as int)).insert(
                    cpus@[i as int] as int,
                ).contains(y) by {
                if id_set(p).contains(y) {
                    let k = choose|k: int| 0 <= k < p.len() && p[k] as int == y;
                    if k < i {
                        assert(cpus@.subrange(0, i as int)[k] == p[k]);
                    }
                }
                if id_set(cpus@.subrange(0, i as int)).contains(y) {
                    let k = choose|k: int|
                        0 <= k < i && cpus@.subrange(0, i as int)[k] as int == y;
                    assert(p[k] == cpus@.subrange(0, i as int)[k]);
                }
                if y == cpus@[i as int] {
                    assert(p[i as int] == cpus@[i as int]);
                }
            }
            assert(id_set(p) =~= id_set(cpus@.subrange(0, i as int)).insert(cpus@[i as int] as int));
        }
        i += 1;
    }
    assert(cpus@.subrange(0, i as int) =~= cpus@);
    if cpus.len() > 0 {
        assert(id_set(cpus@).contains(cpus@[0] as int));
        assert(id_set(ids@).contains(cpus@[0] as int));
    }
    if ids.len() == 0 {
        return Err(CpuAffinityError::EmptyCpuList);
    }
    assert(id_set(ids@).contains(ids@[0] as int));
    assert(id_set(cpus@).contains(ids@[0] as int));
    let max = max_cpu_id(platform, present, configured_count)?;
    let limit = if max < CPU_SETSIZE {
        max
    } else {
        CPU_SETSIZE - 1
    };
    let mut j: usize = 0;
    while j < ids.len()
        invariant
            platform == Platform::Supported,
            cpus@.len() > 0,
            max_cpu_id_spec(platform, opt_view(present), configured_count) == Some(max),
            limit == id_limit(max),
            j <= ids@.len(),
            ascending(ids@),
            id_set(ids@) == id_set(cpus@),
            forall|k: int| 0 <= k < j ==> ids@[k] <= limit,
        decreases ids@.len() - j,
    {
        let c = ids[j];
        if c > limit {
            proof {
                let ghost s = id_set(cpus@);
                assert(s.contains(c as int)) by {
                    assert(id_set(ids@).contains(c as int));
                }
                assert forall|y: int| s.contains(y) && y > limit implies c <= y by {
                    assert(id_set(ids@).contains(y));
                    let k = choose|k: int| 0 <= k < ids@.len() && ids@[k] as int == y;
                    if k < j {
                    } else if k > j {
                    }
                }
            }
            if c > max {
                return Err(CpuAffinityError::InvalidCpu { cpu: c, max });
            }
            return Err(CpuAffinityError::InvalidCpu { cpu: c, max: CPU_SETSIZE - 1 });
        }
        j += 1;
    }
    let mut mask: Vec<bool> = Vec::new();
    let mut b: usize = 0;
    while b < CPU_SETSIZE
        invariant
            platform == Platform::Supported,
            cpus@.len() > 0,
            max_cpu_id_spec(platform, opt_view(present), configured_count) == Some(max),
            limit == id_limit(max),
            forall|k: int| 0 <= k < ids@.len() ==> ids@[k] <= limit,
            id_set(ids@) == id_set(cpus@),
            b <= CPU_SETSIZE,
            mask@.len() == b,
            forall|k: int| 0 <= k < b ==> !mask@[k],
        decreases CPU_SETSIZE - b,
    {
        mask.push(false);
        b += 1;
    }
    let mut j: usize = 0;
    while j < ids.len()
        invariant
            platform == Platform::Supported,
            cpus@.len() > 0,
            max_cpu_id_spec(platform, opt_view(present), configured_count) == Some(max),
            limit == id_limit(max),
            id_set(ids@) == id_set(cpus@),
            j <= ids@.len(),
            mask@.len() == CPU_SETSIZE,
            forall|k: int| 0 <= k < ids@.len() ==> ids@[k] <= limit,
            limit < CPU_SETSIZE,
            forall|x: int|
                0 <= x < CPU_SETSIZE ==> #[trigger] mask@[x] == id_set(ids@.subrange(0, j as int)).contains(x),
        decreases ids@.len() - j,
    {
        let c = ids[j];
        mask.set(c, true);
        proof {
            let p = ids@.subrange(0, j + 1);
            let q = ids@.subrange(0, j as int);
            assert forall|x: int| 0 <= x < CPU_SETSIZE implies #[trigger] mask@[x] == id_set(p).contains(x) by {
                if id_set(q).contains(x) {
                    let k = choose|k: int| 0 <= k < q.len() && q[k] as int == x;
                    assert(p[k] == q[k]);
                }
                if id_set(p).contains(x) && x != c {
                    let k = choose|k: int| 0 <= k < p.len() && p[k] as int == x;
                    assert(q[k] == p[k]);
                }
                if x == c {
                    assert(p[j as int] == c);
                }
            }
        }
        j += 1;
    }
    proof {
        assert(ids@.subrange(0, j as int) =~= ids@);
        assert forall|y: int| !(id_set(cpus@).contains(y) && y > id_limit(max)) by {
            if id_set(cpus@).contains(y) && y > id_limit(max) {
                assert(id_set(ids@).contains(y));
                let k = choose|k: int| 0 <= k < ids@.len() && ids@[k] as int == y;
            }
        }
        assert(mask@ =~= mask_of(id_set(cpus@)));
    }
    Ok(mask)
}

/// The CPUs that the affinity mask `mask` permits, ascending, among the IDs
/// from 0 to the system maximum (read from `present` and `configured_count`)
/// that lie below the mask capacity `CPU_SETSIZE`.
///
/// `mask` is what the kernel reported for the calling thread: entry `i` tells
/// whether CPU `i` is permitted.
pub fn cpu_affinity(
    platform: Platform,
    mask: &Vec<bool>,
    present: Option<&str>,
    configured_count: i64,
) -> (r: Result<Vec<usize>, CpuAffinityError>)
    ensures
        platform == Platform::Unsupported ==> r matches Err(CpuAffinityError::NotSupported),
        platform == Platform::Supported ==> match max_cpu_id_spec(
            platform,
            opt_view(present),
            configured_count,
        ) {
            None => r matches Err(e) && is_count_failure(e),
            Some(max) => r matches Ok(v) && ascending(v@) && id_set(v@) == mask_ids(mask@, max),
        },
{
    let max = max_cpu_id(platform, present, configured_count)?;
    let mut v: Vec<usize> = Vec::new();
    let mut i: usize = 0;
    while i < mask.len() && i <= max && i < CPU_SETSIZE
        invariant
            i <= mask@.len(),
            i <= CPU_SETSIZE,
            i <= max + 1,
            ascending(v@),
            forall|k: int| 0 <= k < v@.len() ==> v@[k] < i,
            id_set(v@) == mask_ids(mask@, max).intersect(Set::new(|x: int| x < i)),
        decreases mask@.len() - i,
    {
        if mask[i] {
            let ghost before = v@;
            v.push(i);
            proof {
                assert forall|y: int| #[trigger]
                    id_set(v@).contains(y) == mask_ids(mask@, max).intersect(
                        Set::new(|x: int| x < i + 1),
                    ).contains(y) by {
                    if y == i {
                        assert(v@[v@.len() - 1] == i);
                    } else if id_set(v@).contains(y) {
                        let k = choose|k: int| 0 <= k < v@.len() && v@[k] as int == y;
                        assert(k < v@.len() - 1);
                        assert(before[k] == v@[k]);
                        assert(id_set(before).contains(y));
                    } else if mask_ids(mask@, max).contains(y) && y < i {
                        assert(id_set(before).contains(y));
                        let k = choose|k: int| 0 <= k < before.len() && before[k] as int == y;
                        assert(v@[k] == before[k]);
                    }
                }
                assert(id_set(v@) =~= mask_ids(mask@, max).intersect(Set::new(|x: int| x < i + 1)));
            }
        } else {
            assert(mask_ids(mask@, max).intersect(Set::new(|x: int| x < i)) =~= mask_ids(
                mask@,
                max,
            ).intersect(Set::new(|x: int| x < i + 1)));
        }
        i += 1;
    }
    assert(mask_ids(mask@, max).intersect(Set::new(|x: int| x < i)) =~= mask_ids(mask@, max));
    Ok(v)
}

/// The CPU count is one more than the maximum CPU ID whenever both are known.
pub proof fn lemma_count_is_max_plus_one(platform: Platform, present: Option<Seq<char>>, count: i64)
    ensures
        cpu_count_spec(platform, present, count) is Some ==> max_cpu_id_spec(
            platform,
            present,
            count,
        ) is Some && cpu_count_spec(platform, present, count)->0 == max_cpu_id_spec(
            platform,
            present,
            count,
        )->0 + 1,
{
}

/// Setting an affinity and reading it back gives the requested set: a request
/// `cpus` within `0..=max` and below the mask capacity is accepted, and the
/// IDs that its mask marks up to `max` are exactly those of `cpus`.
pub proof fn lemma_affinity_round_trip(cpus: Seq<usize>, max: usize)
    requires
        forall|i: int| 0 <= i < cpus.len() ==> cpus[i] <= max && cpus[i] < CPU_SETSIZE,
    ensures
        !exists|y: int| id_set(cpus).contains(y) && y > id_limit(max),
        mask_ids(mask_of(id_set(cpus)), max) == id_set(cpus),
{
    assert forall|y: int| !(id_set(cpus).contains(y) && y > id_limit(max)) by {
        if id_set(cpus).contains(y) {
            let k = choose|k: int| 0 <= k < cpus.len() && cpus[k] as int == y;
        }
    }
    assert forall|y: int| #[trigger]
        mask_ids(mask_of(id_set(cpus)), max).contains(y) == id_set(cpus).contains(y) by {
        if id_set(cpus).contains(y) {
            let k = choose|k: int| 0 <= k < cpus.len() && cpus[k] as int == y;
        }
    }
    assert(mask_ids(mask_of(id_set(cpus)), max) =~= id_set(cpus));
}

} // verus!
