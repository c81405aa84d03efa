//! Physical cores and the logical CPUs (hyperthread siblings) that share them.
use vstd::prelude::*;

use crate::affinity::{set_affinity_outcome, set_cpu_affinity, opt_view, Platform};
use crate::error::CpuAffinityError;
use crate::range_list::{
    ascending,
    chars_of,
    id_set,
    parse_uint,
    parse_uint_at,
    token_error,
    trim,
    trim_bounds,
};

verus! {

/// A physical core and its logical CPUs, ascending.
#[derive(Debug)]
pub struct CoreCpus {
    pub core: usize,
    pub cpus: Vec<usize>,
}

/// The core ID that a CPU's topology text gives.
pub open spec fn core_id_of(text: Seq<char>) -> Option<usize> {
    parse_uint(trim(text))
}

/// The core of CPU `x`, where `texts` holds a readable descriptor for it.
pub open spec fn cpu_core(texts: Seq<Option<String>>, x: int) -> Option<usize> {
    if 0 <= x < texts.len() {
        match texts[x] {
            Some(t) => core_id_of(t@),
            None => None,
        }
    } else {
        None
    }
}

/// CPU `x` is present but its topology text does not read as a core ID.
pub open spec fn unreadable(texts: Seq<Option<String>>, x: int) -> bool {
    0 <= x < texts.len() && texts[x] is Some && cpu_core(texts, x) is None
}

/// Entries keyed by strictly ascending core IDs, each with a non-empty
/// ascending list of CPUs.
pub open spec fn topology_wf(entries: Seq<CoreCpus>) -> bool {
    &&& forall|i: int, j: int| 0 <= i < j < entries.len() ==> entries[i].core < entries[j].core
    &&& forall|j: int|
        0 <= j < entries.len() ==> ascending(#[trigger] entries[j].cpus@) && entries[j].cpus@.len()
            > 0
}

/// `entries` groups the CPUs below `upto` by the core that `texts` gives them:
/// an entry holds exactly the CPUs of its core, and every such core has an entry.
pub open spec fn groups_by_core(entries: Seq<CoreCpus>, texts: Seq<Option<String>>, upto: int) -> bool {
    &&& topology_wf(entries)
    &&& forall|j: int, x: int|
        0 <= j < entries.len() ==> (#[trigger] id_set(entries[j].cpus@).contains(x) <==> (x < upto
            && cpu_core(texts, x) == Some(entries[j].core)))
    &&& forall|x: int|
        0 <= x < upto && #[trigger] cpu_core(texts, x) is Some ==> exists|j: int|
            0 <= j < entries.len() && entries[j].core == cpu_core(texts, x)->0
}

/// Adds CPU `c` of core `k` to the topology built from the CPUs below `c`.
fn add_cpu(entries: &mut Vec<CoreCpus>, texts: &Vec<Option<String>>, c: usize, k: usize)
    requires
        groups_by_core(old(entries)@, texts@, c as int),
        cpu_core(texts@, c as int) == Some(k),
    ensures
        groups_by_core(final(entries)@, texts@, c + 1),
{
    let ghost w = entries@;
    let n = entries.len();
    let mut j: usize = 0;
    while j < n && entries[j].core < k
        invariant
            j <= n == entries@.len(),
            entries@ == w,
            forall|i: int| 0 <= i < j ==> w[i].core < k,
        decreases n - j,
    {
        j += 1;
    }
    if j < n && entries[j].core == k {
        let mut e = entries.remove(j);
        proof {
            assert(e == w[j as int]);
            assert forall|y: int| id_set(e.cpus@).contains(y) implies y < c by {}
        }
        let ghost before = e.cpus@;
        e.cpus.push(c);
        proof {
            assert forall|y: int| #[trigger]
                id_set(e.cpus@).contains(y) == id_set(before).insert(c as int).contains(y) by {
                if id_set(before).contains(y) {
                    let i = choose|i: int| 0 <= i < before.len() && before[i] as int == y;
                    assert(e.cpus@[i] == before[i]);
                }
                if y == c {
                    assert(e.cpus@[before.len() as int] == c);
                }
                if id_set(e.cpus@).contains(y) && y != c {
                    let i = choose|i: int| 0 <= i < e.cpus@.len() && e.cpus@[i] as int == y;
                    assert(before[i] == e.cpus@[i]);
                }
            }
            assert(id_set(e.cpus@) =~= id_set(before).insert(c as int));
            assert forall|a: int, b: int| 0 <= a < b < e.cpus@.len() implies e.cpus@[a]
                < e.cpus@[b] by {
                if b == before.len() {
                    assert(id_set(before).contains(before[a] as int));
                }
            }
        }
        entries.insert(j, e);
        proof {
            assert forall|i: int| 0 <= i < entries@.len() && i != j implies #[trigger] entries@[i]
                == w[i] by {}
            assert forall|jj: int, x: int|
                0 <= jj < entries@.len() implies (#[trigger] id_set(entries@[jj].cpus@).contains(x)
                <==> (x < c + 1 && cpu_core(texts@, x) == Some(entries@[jj].core))) by {
                if jj != j {
                    assert(entries@[jj] == w[jj]);
                    assert(id_set(w[jj].cpus@).contains(x) <==> (x < c && cpu_core(texts@, x) == Some(
                        w[jj].core,
                    )));
                } else {
                    assert(id_set(w[jj].cpus@).contains(x) <==> (x < c && cpu_core(texts@, x) == Some(
                        w[jj].core,
                    )));
                }
            }
            assert forall|x: int|
                0 <= x < c + 1 && #[trigger] cpu_core(texts@, x) is Some implies exists|jj: int|
                0 <= jj < entries@.len() && entries@[jj].core == cpu_core(texts@, x)->0 by {
                if x < c {
                    let jj = choose|jj: int|
                        0 <= jj < w.len() && w[jj].core == cpu_core(texts@, x)->0;
                    assert(entries@[jj].core == w[jj].core);
                } else {
                    assert(entries@[j as int].core == k);
                }
            }
        }
    } else {
        let mut cpus: Vec<usize> = Vec::new();
        cpus.push(c);
        entries.insert(j, CoreCpus { core: k, cpus });
        proof {
            let e = entries@[j as int];
            assert forall|y: int| #[trigger] id_set(e.cpus@).contains(y) == (y == c) by {
                if y == c {
                    assert(e.cpus@[0] == c);
                }
            }
            assert forall|jj: int, x: int|
                0 <= jj < entries@.len() implies (#[trigger] id_set(entries@[jj].cpus@).contains(x)
                <==> (x < c + 1 && cpu_core(texts@, x) == Some(entries@[jj].core))) by {
                if jj < j {
                    assert(entries@[jj] == w[jj]);
                    assert(id_set(w[jj].cpus@).contains(x) <==> (x < c && cpu_core(texts@, x) == Some(
                        w[jj].core,
                    )));
                } else if jj > j {
                    assert(entries@[jj] == w[jj - 1]);
                    assert(id_set(w[jj - 1].cpus@).contains(x) <==> (x < c && cpu_core(texts@, x)
                        == Some(w[jj - 1].core)));
                } else {
                    if x < c && cpu_core(texts@, x) == Some(k) {
                        let i = choose|i: int| 0 <= i < w.len() && w[i].core == k;
                        if i < j {
                        } else {
                        }
                    }
                }
            }
            assert forall|x: int|
                0 <= x < c + 1 && #[trigger] cpu_core(texts@, x) is Some implies exists|jj: int|
                0 <= jj < entries@.len() && entries@[jj].core == cpu_core(texts@, x)->0 by {
                if x < c {
                    let i = choose|i: int| 0 <= i < w.len() && w[i].core == cpu_core(texts@, x)->0;
                    if i < j {
                        assert(entries@[i].core == w[i].core);
                    } else {
                        assert(entries@[i + 1].core == w[i].core);
                    }
                } else {
                    assert(entries@[j as int].core == k);
                }
            }
            assert forall|a: int, b: int| 0 <= a < b < entries@.len() implies entries@[a].core
                < entries@[b].core by {
                if a < j && b > j {
                    assert(entries@[b] == w[b - 1]);
                }
            }
        }
    }
}

/// Groups the CPUs by physical core.
///
/// `texts[c]` is the text of CPU `c`'s core-ID descriptor, for each CPU from 0
/// to the maximum CPU ID, or `None` where the CPU is absent (offline), which is
/// skipped. A present CPU whose text does not read as a core ID gives
/// `ParseError` for the lowest such CPU. The entries come by ascending core ID.
pub fn core_to_cpus_mapping(platform: Platform, texts: &Vec<Option<String>>) -> (r: Result<
    Vec<CoreCpus>,
    CpuAffinityError,
>)
    ensures
        platform == Platform::Unsupported ==> r matches Err(CpuAffinityError::NotSupported),
        platform == Platform::Supported && (exists|x: int| unreadable(texts@, x)) ==> exists|x: int|
            #![trigger unreadable(texts@, x)]
            unreadable(texts@, x) && (forall|y: int| 0 <= y < x ==> !unreadable(texts@, y)) && (
            r matches Err(CpuAffinityError::ParseError(m)) && m@ == "Invalid core ID: "@ + trim(
                texts@[x]->0@,
            )),
        platform == Platform::Supported && !(exists|x: int| unreadable(texts@, x)) ==> (r matches Ok(
            e,
        ) && groups_by_core(e@, texts@, texts@.len() as int)),
{
    if platform == Platform::Unsupported {
        return Err(CpuAffinityError::NotSupported);
    }
    let mut entries: Vec<CoreCpus> = Vec::new();
    let n = texts.len();
    let mut c: usize = 0;
    while c < n
        invariant
            platform == Platform::Supported,
            c <= n == texts@.len(),
            groups_by_core(entries@, texts@, c as int),
            forall|y: int| 0 <= y < c ==> !unreadable(texts@, y),
        decreases n - c,
    {
        match &texts[c] {
            None => {
                assert forall|jj: int, x: int|
                    0 <= jj < entries@.len() implies (#[trigger] id_set(
                    entries@[jj].cpus@,
                ).contains(x) <==> (x < c + 1 && cpu_core(texts@, x) == Some(
                    entries@[jj].core,
                ))) by {
                    if x == c {
                        assert(cpu_core(texts@, x) is None);
                    }
                }
            },
            Some(t) => {
                let text = t.as_str();
                let cs = chars_of(text);
                let len = cs.len();
                assert(cs@.subrange(0, len as int) =~= cs@);
                let (a, b) = trim_bounds(&cs, 0, len);
                match parse_uint_at(&cs, a, b) {
                    None => {
                        assert(unreadable(texts@, c as int));
                        return Err(token_error("Invalid core ID: ", text, a, b));
                    },
                    Some(k) => {
                        add_cpu(&mut entries, texts, c, k);
                    },
                }
            },
        }
        c += 1;
    }
    Ok(entries)
}

/// The core IDs that `topology` holds.
pub open spec fn core_set(topology: Seq<CoreCpus>) -> Set<usize> {
    Set::new(|k: usize| has_core(topology, k))
}

/// The number of distinct physical cores in `topology`.
pub fn physical_core_count(topology: &Vec<CoreCpus>) -> (r: usize)
    requires
        topology_wf(topology@),
    ensures
        r == core_set(topology@).len(),
{
    proof {
        let t = topology@;
        let cores = t.map_values(|e: CoreCpus| e.core);
        assert forall|i: int, j: int| 0 <= i < cores.len() && 0 <= j < cores.len() && i != j implies cores[i]
            != cores[j] by {
            if i < j {
                assert(t[i].core < t[j].core);
            } else {
                assert(t[j].core < t[i].core);
            }
        }
        assert(cores.no_duplicates());
        cores.unique_seq_to_set();
        assert forall|k: usize| #[trigger] cores.to_set().contains(k) == core_set(t).contains(k) by {
            if cores.to_set().contains(k) {
                let i = choose|i: int| 0 <= i < cores.len() && cores[i] == k;
                assert(t[i].core == k);
            }
            if core_set(t).contains(k) {
                let j = choose|j: int| 0 <= j < t.len() && t[j].core == k;
                assert(cores[j] == k);
            }
        }
        assert(cores.to_set() =~= core_set(t));
    }
    topology.len()
}

/// Every CPU that is present with a readable core appears in exactly one entry
/// of the grouping.
pub proof fn lemma_cpu_in_exactly_one_core(
    entries: Seq<CoreCpus>,
    texts: Seq<Option<String>>,
    x: int,
)
    requires
        groups_by_core(entries, texts, texts.len() as int),
        0 <= x < texts.len(),
        cpu_core(texts, x) is Some,
    ensures
        exists|j: int| 0 <= j < entries.len() && #[trigger] id_set(entries[j].cpus@).contains(x),
        forall|i: int, j: int|
            0 <= i < entries.len() && 0 <= j < entries.len() && #[trigger] id_set(
                entries[i].cpus@,
            ).contains(x) && #[trigger] id_set(entries[j].cpus@).contains(x) ==> i == j,
{
    let j = choose|j: int| 0 <= j < entries.len() && entries[j].core == cpu_core(texts, x)->0;
    assert(id_set(entries[j].cpus@).contains(x));
    assert forall|i: int, k: int|
        0 <= i < entries.len() && 0 <= k < entries.len() && #[trigger] id_set(
            entries[i].cpus@,
        ).contains(x) && #[trigger] id_set(entries[k].cpus@).contains(x) implies i == k by {
        assert(entries[i].core == entries[k].core);
        if i < k {
        } else if k < i {
        }
    }
}

/// Whether `topology` has an entry for `core`.
pub open spec fn has_core(topology: Seq<CoreCpus>, core: usize) -> bool {
    exists|j: int| 0 <= j < topology.len() && topology[j].core == core
}

/// The lowest logical CPU of `core` in `topology`.
pub open spec fn first_cpu_of(topology: Seq<CoreCpus>, core: usize) -> usize {
    let j = choose|j: int| 0 <= j < topology.len() && topology[j].core == core;
    topology[j].cpus@[0]
}

/// The highest core ID of `topology`, or 0 where it is empty.
pub open spec fn max_core(topology: Seq<CoreCpus>) -> usize {
    if topology.len() == 0 {
        0
    } else {
        topology.last().core
    }
}

/// Pins the calling thread to one logical CPU of each of the physical cores
/// `core_ids`: the lowest-numbered CPU of the core, which avoids its
/// hyperthread siblings. Builds the mask as `set_cpu_affinity` does.
///
/// A core ID that `topology` does not hold gives `InvalidPhysicalCore` for the
/// first such ID, with the highest core ID of the topology.
pub fn set_affinity_physical_cores_only(
    platform: Platform,
    topology: &Vec<CoreCpus>,
    core_ids: &[usize],
    present: Option<&str>,
    configured_count: i64,
) -> (r: Result<Vec<bool>, CpuAffinityError>)
    requires
        topology_wf(topology@),
    ensures
        platform == Platform::Unsupported ==> r matches Err(CpuAffinityError::NotSupported),
        platform == Platform::Supported && (exists|i: int|
            0 <= i < core_ids@.len() && !has_core(topology@, #[trigger] core_ids@[i])) ==> exists|
            i: int,
        |
            0 <= i < core_ids@.len() && !has_core(topology@, #[trigger] core_ids@[i]) && (forall|
                k: int,
            | 0 <= k < i ==> has_core(topology@, core_ids@[k])) && r == Err::<
                Vec<bool>,
                CpuAffinityError,
            >(
                CpuAffinityError::InvalidPhysicalCore { core: core_ids@[i], max: max_core(topology@) },
            ),
        platform == Platform::Supported && (forall|i: int|
            0 <= i < core_ids@.len() ==> has_core(topology@, #[trigger] core_ids@[i]))
            ==> set_affinity_outcome(
            platform,
            Seq::new(core_ids@.len(), |i: int| first_cpu_of(topology@, core_ids@[i])),
            opt_view(present),
            configured_count,
            r,
        ),
{
    if platform == Platform::Unsupported {
        return Err(CpuAffinityError::NotSupported);
    }
    let ghost want = Seq::new(core_ids@.len(), |i: int| first_cpu_of(topology@, core_ids@[i]));
    let mut reps: Vec<usize> = Vec::new();
    let mut i: usize = 0;
    while i < core_ids.len()
        invariant
            platform == Platform::Supported,
            topology_wf(topology@),
            i <= core_ids@.len(),
            want == Seq::new(core_ids@.len(), |i: int| first_cpu_of(topology@, core_ids@[i])),
            reps@ == want.subrange(0, i as int),
            forall|k: int| 0 <= k < i ==> has_core(topology@, core_ids@[k]),
        decreases core_ids@.len() - i,
    {
        let core = core_ids[i];
        let n = topology.len();
        let mut j: usize = 0;
        while j < n && topology[j].core != core
            invariant
                j <= n == topology@.len(),
                forall|k: int| 0 <= k < j ==> topology@[k].core != core,
            decreases n - j,
        {
            j += 1;
        }
        if j == n {
            let max = if n == 0 {
                0
            } else {
                topology[n - 1].core
            };
            return Err(CpuAffinityError::InvalidPhysicalCore { core, max });
        }
        proof {
            let jj = choose|jj: int| 0 <= jj < topology@.len() && topology@[jj].core == core;
            if jj < j {
            } else if jj > j {
            }
            assert(jj == j);
            assert(topology@[j as int].cpus@.len() > 0);
        }
        reps.push(topology[j].cpus[0]);
        assert(reps@ =~= want.subrange(0, i + 1));
        i += 1;
    }
    assert(reps@ =~= want);
    set_cpu_affinity(platform, reps.as_slice(), present, configured_count)
}

} // verus!
