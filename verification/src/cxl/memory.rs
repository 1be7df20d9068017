//! CXL memory management: non-overlapping physical regions, filed by base
//! address and walked in address order, allocated whole under a first-fit,
//! best-fit or NUMA-aware policy.
use std::collections::btree_map;
use std::collections::BTreeMap;
use std::ops::Range;
use vstd::prelude::*;
use vstd::std_specs::btree::{axiom_increasing_seq_meaning, increasing_seq};
use vstd::std_specs::cmp::OrdSpec;
use vstd::std_specs::iter::IteratorSpec;

verus! {

broadcast use {vstd::std_specs::btree::group_btree_axioms, vstd::laws_cmp::group_laws_cmp};

/// A CXL memory region.
#[derive(Debug)]
pub struct CXLMemoryRegion {
    /// Physical address range
    pub physical_range: Range<usize>,
    /// Device ID that owns this region
    pub device_id: u64,
    /// Whether this region is currently allocated
    pub allocated: bool,
    /// NUMA node (if applicable)
    pub numa_node: Option<u32>,
}

/// Whether two address ranges share an address.
pub open spec fn overlap(a: Range<usize>, b: Range<usize>) -> bool {
    a.start < b.end && b.start < a.end
}

/// The size of a region, negative when its range is reversed.
pub open spec fn region_size(r: CXLMemoryRegion) -> int {
    r.physical_range.end - r.physical_range.start
}

/// The range of a region does not run backwards.
pub open spec fn ordered(r: CXLMemoryRegion) -> bool {
    r.physical_range.start <= r.physical_range.end
}

impl CXLMemoryRegion {
    /// An unallocated region with no NUMA node.
    pub fn new(physical_range: Range<usize>, device_id: u64) -> (r: Self)
        ensures
            r == (CXLMemoryRegion { physical_range, device_id, allocated: false, numa_node: None }),
    {
        CXLMemoryRegion { physical_range, device_id, allocated: false, numa_node: None }
    }

    /// The number of bytes in the region.
    pub fn size(&self) -> (s: usize)
        requires
            ordered(*self),
        ensures
            s == region_size(*self),
    {
        self.physical_range.end - self.physical_range.start
    }

    /// A field-by-field copy.
    pub fn duplicate(&self) -> (c: Self)
        ensures
            c == *self,
    {
        CXLMemoryRegion {
            physical_range: Range { start: self.physical_range.start, end: self.physical_range.end },
            device_id: self.device_id,
            allocated: self.allocated,
            numa_node: self.numa_node,
        }
    }
}

/// CXL memory allocation policy.
#[derive(Debug, Clone, Copy, PartialEq, Eq, Structural)]
pub enum AllocationPolicy {
    /// First-fit allocation
    FirstFit,
    /// Best-fit allocation
    BestFit,
    /// NUMA-aware allocation
    NumaAware,
}

/// Regions in strictly increasing order of base address, no two of them
/// overlapping.
pub open spec fn regions_wf(s: Seq<CXLMemoryRegion>) -> bool {
    &&& forall|i: int, j: int|
        0 <= i < j < s.len() ==> (#[trigger] s[i]).physical_range.start < (#[trigger] s[j]).physical_range.start
    &&& forall|i: int, j: int|
        0 <= i < s.len() && 0 <= j < s.len() && i != j ==> !overlap(
            (#[trigger] s[i]).physical_range,
            (#[trigger] s[j]).physical_range,
        )
}

/// The position at which a region based at `x` belongs: past every region
/// based below `x`, before every other.
pub open spec fn lower_bound(s: Seq<CXLMemoryRegion>, x: usize) -> int {
    choose|p: int| is_lower_bound(s, x, p)
}

/// Every region before `p` is based below `x`, and none from `p` on.
pub open spec fn is_lower_bound(s: Seq<CXLMemoryRegion>, x: usize, p: int) -> bool {
    &&& 0 <= p <= s.len()
    &&& forall|i: int| 0 <= i < p ==> (#[trigger] s[i]).physical_range.start < x
    &&& forall|i: int| p <= i < s.len() ==> (#[trigger] s[i]).physical_range.start >= x
}

/// The regions after registering `r`: a region with the same base address is
/// replaced, otherwise `r` is inserted in address order.
pub open spec fn insert_region(s: Seq<CXLMemoryRegion>, r: CXLMemoryRegion) -> Seq<CXLMemoryRegion> {
    let p = lower_bound(s, r.physical_range.start);
    if p < s.len() && s[p].physical_range.start == r.physical_range.start {
        s.update(p, r)
    } else {
        s.insert(p, r)
    }
}

/// Whether region `r` may serve a request of `size` bytes for `numa_node`
/// under `policy`: it is free and large enough, and under the NUMA-aware
/// policy a requested node must match.
pub open spec fn is_candidate(
    r: CXLMemoryRegion,
    size: usize,
    numa_node: Option<u32>,
    policy: AllocationPolicy,
) -> bool {
    &&& !r.allocated
    &&& region_size(r) >= size
    &&& (numa_node is Some && policy == AllocationPolicy::NumaAware) ==> r.numa_node == numa_node
}

/// What a policy minimises among candidates: nothing (first fit), the size
/// (best fit), or a mismatch of NUMA node (NUMA-aware).
pub open spec fn policy_key(policy: AllocationPolicy, numa_node: Option<u32>, r: CXLMemoryRegion) -> int {
    match policy {
        AllocationPolicy::FirstFit => 0,
        AllocationPolicy::BestFit => region_size(r),
        AllocationPolicy::NumaAware => if r.numa_node == numa_node {
            0
        } else {
            1
        },
    }
}

/// Region `i` is the one the policy picks: a candidate with the least key,
/// and the lowest address among those.
pub open spec fn is_choice(
    s: Seq<CXLMemoryRegion>,
    size: usize,
    numa_node: Option<u32>,
    policy: AllocationPolicy,
    i: int,
) -> bool {
    &&& 0 <= i < s.len()
    &&& is_candidate(s[i], size, numa_node, policy)
    &&& forall|j: int|
        0 <= j < s.len() && is_candidate(#[trigger] s[j], size, numa_node, policy) ==> {
            &&& policy_key(policy, numa_node, s[i]) <= policy_key(policy, numa_node, s[j])
            &&& j < i ==> policy_key(policy, numa_node, s[i]) < policy_key(policy, numa_node, s[j])
        }
}

/// Whether a region counts toward a sum: every region, or only free ones.
pub open spec fn counted(r: CXLMemoryRegion, only_free: bool) -> bool {
    !only_free || !r.allocated
}

/// The summed size of the counted regions among `s[0..k]`.
pub open spec fn size_sum(s: Seq<CXLMemoryRegion>, k: int, only_free: bool) -> int
    decreases k,
{
    if k <= 0 {
        0
    } else {
        size_sum(s, k - 1, only_free) + if counted(s[k - 1], only_free) {
            region_size(s[k - 1])
        } else {
            0
        }
    }
}

/// The end of the last counted region among `s[0..k]`, or 0.
pub open spec fn last_end(s: Seq<CXLMemoryRegion>, k: int, only_free: bool) -> int
    decreases k,
{
    if k <= 0 {
        0
    } else if counted(s[k - 1], only_free) {
        s[k - 1].physical_range.end as int
    } else {
        last_end(s, k - 1, only_free)
    }
}

/// What freeing `address` gives, and the regions afterwards: the region based
/// there goes back to free when it was allocated.
pub open spec fn free_outcome(s: Seq<CXLMemoryRegion>, address: usize) -> (
    Result<(), &'static str>,
    Seq<CXLMemoryRegion>,
) {
    if exists|i: int| 0 <= i < s.len() && (#[trigger] s[i]).physical_range.start == address {
        let i = choose|i: int| 0 <= i < s.len() && (#[trigger] s[i]).physical_range.start == address;
        if s[i].allocated {
            (Ok(()), s.update(i, (CXLMemoryRegion { allocated: false, ..s[i] })))
        } else {
            (Err("Region not allocated"), s)
        }
    } else {
        (Err("Region not found"), s)
    }
}

/// The table `m` files every region of `s` under its base address, and holds
/// nothing else.
pub open spec fn filed(m: Map<usize, CXLMemoryRegion>, s: Seq<CXLMemoryRegion>) -> bool {
    &&& forall|i: int|
        0 <= i < s.len() ==> m.contains_key((#[trigger] s[i]).physical_range.start) && m[s[i].physical_range.start]
            == s[i]
    &&& forall|k: usize| #[trigger] m.contains_key(k) ==> exists|i: int| 0 <= i < s.len() && (#[trigger] s[i]).physical_range.start == k
}

/// CXL Memory Manager: the memory regions of CXL devices, filed by base
/// address.
pub struct CXLMemoryManager {
    regions: BTreeMap<usize, CXLMemoryRegion>,
    order: Ghost<Seq<CXLMemoryRegion>>,
    allocation_policy: AllocationPolicy,
}

impl CXLMemoryManager {
    /// The registered regions, in order of base address.
    pub closed spec fn regions_view(&self) -> Seq<CXLMemoryRegion> {
        self.order@
    }

    /// The allocation policy.
    pub closed spec fn policy(&self) -> AllocationPolicy {
        self.allocation_policy
    }

    /// The table holds exactly the regions, each under its base address.
    pub closed spec fn table_ok(&self) -> bool {
        filed(self.regions@, self.order@)
    }

    pub open spec fn wf(&self) -> bool {
        &&& regions_wf(self.regions_view())
        &&& self.table_ok()
    }

    /// No regions; first-fit allocation.
    pub fn new() -> (m: Self)
        ensures
            m.wf(),
            m.regions_view() == Seq::<CXLMemoryRegion>::empty(),
            m.policy() == AllocationPolicy::FirstFit,
    {
        let m = CXLMemoryManager {
            regions: BTreeMap::new(),
            order: Ghost(Seq::empty()),
            allocation_policy: AllocationPolicy::FirstFit,
        };
        assert(m.table_ok());
        m
    }

    /// Set allocation policy.
    pub fn set_allocation_policy(&mut self, policy: AllocationPolicy)
        ensures
            final(self).policy() == policy,
            final(self).regions_view() == old(self).regions_view(),
            final(self).table_ok() == old(self).table_ok(),
    {
        self.allocation_policy = policy;
    }

    /// The table walked in order of base address: its items are the regions.
    fn in_order(&self) -> (it: btree_map::Iter<'_, usize, CXLMemoryRegion>)
        requires
            self.wf(),
        ensures
            IteratorSpec::decrease(&it) is Some,
            IteratorSpec::initial_value_relation(&it, &it),
            it.remaining().len() == self.regions_view().len(),
            forall|i: int|
                0 <= i < it.remaining().len() ==> *(#[trigger] it.remaining()[i]).1 == self.regions_view()[i]
                    && *it.remaining()[i].0 == self.regions_view()[i].physical_range.start,
    {
        let it = self.regions.iter();
        proof {
            let keys = it.remaining().map_values(|kv: (&usize, &CXLMemoryRegion)| *kv.0);
            lemma_keys_increase(keys);
            assert forall|i: int, j: int| 0 <= i < j < it.remaining().len() implies *it.remaining()[i].0
                < *it.remaining()[j].0 by {
                assert(keys[i] == *it.remaining()[i].0 && keys[j] == *it.remaining()[j].0);
            }
            lemma_walk_in_order(self.regions@, self.order@, it.remaining());
        }
        it
    }

    /// Get all registered regions, in order of base address.
    pub fn regions(&self) -> (v: Vec<CXLMemoryRegion>)
        requires
            self.wf(),
        ensures
            v@ == self.regions_view(),
    {
        let ghost s = self.order@;
        let mut v: Vec<CXLMemoryRegion> = Vec::new();
        let walk = self.in_order();
        for kv in it: walk
            invariant
                it.seq().len() == s.len(),
                forall|i: int| 0 <= i < s.len() ==> *(#[trigger] it.seq()[i]).1 == s[i] && *it.seq()[i].0 == s[i].physical_range.start,
                v@ == s.subrange(0, it.index()),
        {
            let (_, r) = kv;
            v.push(r.duplicate());
            assert(v@ =~= s.subrange(0, it.index() + 1));
        }
        assert(s.subrange(0, s.len() as int) =~= s);
        v
    }

    /// Register a CXL memory region; it must not overlap a registered one.
    pub fn register_region(&mut self, region: CXLMemoryRegion) -> (r: Result<(), &'static str>)
        requires
            old(self).wf(),
        ensures
            final(self).wf(),
            final(self).policy() == old(self).policy(),
            (exists|i: int|
                0 <= i < old(self).regions_view().len() && overlap(
                    region.physical_range,
                    #[trigger] old(self).regions_view()[i].physical_range,
                )) <==> r is Err,
            r matches Err(e) ==> e == "Memory region overlaps with existing region"
                && final(self).regions_view() == old(self).regions_view(),
            r is Ok ==> final(self).regions_view() == insert_region(old(self).regions_view(), region),
    {
        let ghost s = self.order@;
        let base_addr = region.physical_range.start;
        let ghost mut p: int = 0;
        let walk = self.in_order();
        for kv in it: walk
            invariant
                s == self.order@,
                s == old(self).order@,
                self.wf(),
                self.policy() == old(self).policy(),
                regions_wf(s),
                it.seq().len() == s.len(),
                forall|i: int| 0 <= i < s.len() ==> *(#[trigger] it.seq()[i]).1 == s[i] && *it.seq()[i].0 == s[i].physical_range.start,
                forall|j: int| 0 <= j < it.index() ==> !overlap(region.physical_range, #[trigger] s[j].physical_range),
                0 <= p <= it.index(),
                forall|j: int| 0 <= j < p ==> (#[trigger] s[j]).physical_range.start < base_addr,
                forall|j: int| p <= j < it.index() ==> (#[trigger] s[j]).physical_range.start >= base_addr,
        {
            let (_, r) = kv;
            if self.ranges_overlap(&region.physical_range, &r.physical_range) {
                return Err("Memory region overlaps with existing region");
            }
            proof {
                let k = it.index();
                if r.physical_range.start < base_addr {
                    if p < k {
                        assert(s[p].physical_range.start < s[k].physical_range.start);
                    }
                    p = p + 1;
                }
            }
        }
        proof {
            assert(is_lower_bound(s, base_addr, p));
            lemma_lower_bound_unique(s, base_addr, p);
            lemma_insert_region_wf(s, region);
        }
        let ghost new_s = insert_region(s, region);
        let ghost replaced = p < s.len() && s[p].physical_range.start == base_addr;
        self.regions.insert(base_addr, region);
        self.order = Ghost(new_s);
        proof {
            let m0 = old(self).regions@;
            assert(self.regions@ == m0.insert(base_addr, region));
            assert forall|i: int| 0 <= i < s.len() && i != p implies (#[trigger] s[i]).physical_range.start != base_addr by {
                if i < p {
                    assert(s[i].physical_range.start < base_addr);
                } else if i > p {
                    assert(s[p].physical_range.start < s[i].physical_range.start);
                }
            }
            if replaced {
                assert(new_s == s.update(p, region));
            } else {
                assert(new_s == s.insert(p, region));
            }
            assert forall|i: int| 0 <= i < new_s.len() implies self.regions@.contains_key(
                (#[trigger] new_s[i]).physical_range.start,
            ) && self.regions@[new_s[i].physical_range.start] == new_s[i] by {
                if replaced {
                    if i != p {
                        assert(new_s[i] == s[i]);
                    }
                } else if i < p {
                    assert(new_s[i] == s[i]);
                } else if i > p {
                    assert(new_s[i] == s[i - 1]);
                }
            }
            assert forall|k: usize| #[trigger] self.regions@.contains_key(k) implies exists|i: int|
                0 <= i < new_s.len() && (#[trigger] new_s[i]).physical_range.start == k by {
                if k == base_addr {
                    assert(new_s[p].physical_range.start == k);
                } else {
                    assert(m0.contains_key(k));
                    let i = choose|i: int| 0 <= i < s.len() && (#[trigger] s[i]).physical_range.start == k;
                    if replaced || i < p {
                        assert(new_s[i] == s[i]);
                    } else {
                        assert(new_s[i + 1] == s[i]);
                    }
                }
            }
            assert(self.table_ok());
        }
        Ok(())
    }

    /// Allocate a whole free region of at least `size` bytes, as the policy
    /// picks it, and give its address range.
    pub fn allocate(&mut self, size: usize, numa_node: Option<u32>) -> (r: Result<Range<usize>, &'static str>)
        requires
            old(self).wf(),
            size > 0 ==> forall|i: int|
                0 <= i < old(self).regions_view().len() && !(#[trigger] old(self).regions_view()[i]).allocated
                    ==> ordered(old(self).regions_view()[i]),
        ensures
            final(self).wf(),
            final(self).policy() == old(self).policy(),
            r is Err ==> final(self).regions_view() == old(self).regions_view(),
            size == 0 ==> (r matches Err(e) && e == "Cannot allocate zero-sized region"),
            size > 0 && !(exists|i: int|
                0 <= i < old(self).regions_view().len() && is_candidate(
                    #[trigger] old(self).regions_view()[i],
                    size,
                    numa_node,
                    old(self).policy(),
                )) ==> (r matches Err(e) && e == "No suitable CXL memory region available"),
            size > 0 && (exists|i: int|
                0 <= i < old(self).regions_view().len() && is_candidate(
                    #[trigger] old(self).regions_view()[i],
                    size,
                    numa_node,
                    old(self).policy(),
                )) ==> exists|i: int|
                is_choice(old(self).regions_view(), size, numa_node, old(self).policy(), i) && r
                    == Ok::<Range<usize>, &'static str>(old(self).regions_view()[i].physical_range)
                    && #[trigger] final(self).regions_view() == old(self).regions_view().update(
                    i,
                    (CXLMemoryRegion { allocated: true, ..old(self).regions_view()[i] }),
                ),
    {
        if size == 0 {
            return Err("Cannot allocate zero-sized region");
        }
        let policy = self.allocation_policy;
        let ghost s = self.order@;
        let mut best: Option<(usize, usize, Option<u32>)> = None;
        let ghost mut b: int = 0;
        let walk = self.in_order();
        for kv in it: walk
            invariant
                s == self.order@,
                s == old(self).order@,
                self.wf(),
                self.policy() == old(self).policy(),
                regions_wf(s),
                policy == self.allocation_policy,
                it.seq().len() == s.len(),
                forall|i: int| 0 <= i < s.len() ==> *(#[trigger] it.seq()[i]).1 == s[i] && *it.seq()[i].0 == s[i].physical_range.start,
                size > 0,
                forall|k: int| 0 <= k < s.len() && !(#[trigger] s[k]).allocated ==> ordered(s[k]),
                best matches Some((key, bsize, bnode)) ==> is_choice(s.subrange(0, it.index()), size, numa_node, policy, b)
                    && key == s[b].physical_range.start && bsize == region_size(s[b]) && bnode == s[b].numa_node,
                best is None ==> forall|j: int| 0 <= j < it.index() ==> !is_candidate(#[trigger] s[j], size, numa_node, policy),
        {
            let (key, r) = kv;
            let ghost i = it.index();
            let fits = !r.allocated && r.size() >= size && match numa_node {
                Some(node) => r.numa_node == Some(node) || policy != AllocationPolicy::NumaAware,
                None => true,
            };
            proof {
                assert(fits == is_candidate(s[i], size, numa_node, policy));
                assert(s.subrange(0, i + 1).subrange(0, i) =~= s.subrange(0, i));
            }
            if fits {
                match best {
                    None => {
                        best = Some((*key, r.size(), r.numa_node));
                        proof {
                            b = i;
                        }
                    },
                    Some((_, bsize, bnode)) => {
                        let better = match policy {
                            AllocationPolicy::FirstFit => false,
                            AllocationPolicy::BestFit => r.size() < bsize,
                            AllocationPolicy::NumaAware => r.numa_node == numa_node && bnode != numa_node,
                        };
                        proof {
                            assert(better == (policy_key(policy, numa_node, s[i]) < policy_key(policy, numa_node, s[b])));
                        }
                        if better {
                            best = Some((*key, r.size(), r.numa_node));
                            proof {
                                b = i;
                            }
                        }
                    },
                }
            }
            proof {
                let t = s.subrange(0, i + 1);
                if best is Some {
                    assert forall|j: int|
                        0 <= j < t.len() && is_candidate(#[trigger] t[j], size, numa_node, policy) implies {
                        &&& policy_key(policy, numa_node, t[b]) <= policy_key(policy, numa_node, t[j])
                        &&& j < b ==> policy_key(policy, numa_node, t[b]) < policy_key(policy, numa_node, t[j])
                    } by {
                        if j < i {
                            assert(t[j] == s.subrange(0, i)[j]);
                        }
                    }
                }
            }
        }
        assert(s.subrange(0, s.len() as int) =~= s);
        match best {
            None => Err("No suitable CXL memory region available"),
            Some((key, _, _)) => {
                let mut region = match self.regions.remove(&key) {
                    Some(x) => x,
                    None => {
                        proof {
                            assert(self.regions@.contains_key(s[b].physical_range.start));
                        }
                        return Err("No suitable CXL memory region available");
                    },
                };
                region.allocated = true;
                let range = Range { start: region.physical_range.start, end: region.physical_range.end };
                let ghost new_s = s.update(b, (CXLMemoryRegion { allocated: true, ..s[b] }));
                self.regions.insert(key, region);
                self.order = Ghost(new_s);
                proof {
                    lemma_update_filed(old(self).regions@, s, b, region);
                    assert(self.regions@ =~= old(self).regions@.insert(key, region));
                    assert(region == new_s[b]);
                    assert forall|x: int, y: int| 0 <= x < new_s.len() && 0 <= y < new_s.len() && x != y
                        implies !overlap((#[trigger] new_s[x]).physical_range, (#[trigger] new_s[y]).physical_range) by {
                        assert(new_s[x].physical_range == s[x].physical_range);
                        assert(new_s[y].physical_range == s[y].physical_range);
                    }
                    assert forall|x: int, y: int| 0 <= x < y < new_s.len()
                        implies (#[trigger] new_s[x]).physical_range.start < (#[trigger] new_s[y]).physical_range.start by {
                        assert(new_s[x].physical_range == s[x].physical_range);
                        assert(new_s[y].physical_range == s[y].physical_range);
                    }
                    assert(self.table_ok());
                }
                Ok(range)
            },
        }
    }

    /// Free the allocated region based at `address`.
    pub fn free(&mut self, address: usize) -> (r: Result<(), &'static str>)
        requires
            old(self).wf(),
        ensures
            final(self).wf(),
            final(self).policy() == old(self).policy(),
            r is Err ==> final(self).regions_view() == old(self).regions_view(),
            !(exists|i: int|
                0 <= i < old(self).regions_view().len() && (#[trigger] old(self).regions_view()[i]).physical_range.start
                    == address) ==> (r matches Err(e) && e == "Region not found"),
            forall|i: int|
                0 <= i < old(self).regions_view().len() && (#[trigger] old(self).regions_view()[i]).physical_range.start
                    == address ==> if old(self).regions_view()[i].allocated {
                    r is Ok && final(self).regions_view() == old(self).regions_view().update(
                        i,
                        (CXLMemoryRegion { allocated: false, ..old(self).regions_view()[i] }),
                    )
                } else {
                    r matches Err(e) && e == "Region not allocated"
                },
            (r, final(self).regions_view()) == free_outcome(old(self).regions_view(), address),
    {
        let ghost s = self.order@;
        let allocated = match self.regions.get(&address) {
            Some(region) => region.allocated,
            None => {
                proof {
                    assert forall|i: int| 0 <= i < s.len() implies (#[trigger] s[i]).physical_range.start != address by {
                        assert(self.regions@.contains_key(s[i].physical_range.start));
                    }
                }
                return Err("Region not found");
            },
        };
        let ghost i = choose|i: int| 0 <= i < s.len() && (#[trigger] s[i]).physical_range.start == address;
        proof {
            assert(self.regions@.contains_key(address));
            lemma_base_unique(s, i);
            assert forall|j: int| 0 <= j < s.len() && (#[trigger] s[j]).physical_range.start == address implies j == i by {
                lemma_base_unique(s, j);
            }
            assert(self.regions@[address] == s[i]);
        }
        if !allocated {
            return Err("Region not allocated");
        }
        let mut region = match self.regions.remove(&address) {
            Some(x) => x,
            None => {
                return Err("Region not found");
            },
        };
        region.allocated = false;
        let ghost new_s = s.update(i, (CXLMemoryRegion { allocated: false, ..s[i] }));
        self.regions.insert(address, region);
        self.order = Ghost(new_s);
        proof {
            lemma_update_filed(old(self).regions@, s, i, region);
            assert(self.regions@ =~= old(self).regions@.insert(address, region));
            assert forall|x: int, y: int| 0 <= x < new_s.len() && 0 <= y < new_s.len() && x != y
                implies !overlap((#[trigger] new_s[x]).physical_range, (#[trigger] new_s[y]).physical_range) by {
                assert(new_s[x].physical_range == s[x].physical_range);
                assert(new_s[y].physical_range == s[y].physical_range);
            }
            assert forall|x: int, y: int| 0 <= x < y < new_s.len()
                implies (#[trigger] new_s[x]).physical_range.start < (#[trigger] new_s[y]).physical_range.start by {
                assert(new_s[x].physical_range == s[x].physical_range);
                assert(new_s[y].physical_range == s[y].physical_range);
            }
            assert(self.table_ok());
        }
        Ok(())
    }

    /// Get total CXL memory size.
    pub fn total_memory(&self) -> (n: usize)
        requires
            self.wf(),
            forall|i: int| 0 <= i < self.regions_view().len() ==> ordered(#[trigger] self.regions_view()[i]),
        ensures
            n == size_sum(self.regions_view(), self.regions_view().len() as int, false),
    {
        self.sum_sizes(false)
    }

    /// Get available (unallocated) CXL memory size.
    pub fn available_memory(&self) -> (n: usize)
        requires
            self.wf(),
            forall|i: int|
                0 <= i < self.regions_view().len() && !(#[trigger] self.regions_view()[i]).allocated ==> ordered(
                    self.regions_view()[i],
                ),
        ensures
            n == size_sum(self.regions_view(), self.regions_view().len() as int, true),
    {
        self.sum_sizes(true)
    }

    fn sum_sizes(&self, only_free: bool) -> (n: usize)
        requires
            self.wf(),
            forall|i: int|
                0 <= i < self.regions_view().len() && counted(#[trigger] self.regions_view()[i], only_free)
                    ==> ordered(self.regions_view()[i]),
        ensures
            n == size_sum(self.regions_view(), self.regions_view().len() as int, only_free),
    {
        let ghost s = self.order@;
        let mut total: usize = 0;
        let walk = self.in_order();
        for kv in it: walk
            invariant
                regions_wf(s),
                it.seq().len() == s.len(),
                forall|i: int| 0 <= i < s.len() ==> *(#[trigger] it.seq()[i]).1 == s[i] && *it.seq()[i].0 == s[i].physical_range.start,
                forall|k: int| 0 <= k < s.len() && counted(#[trigger] s[k], only_free) ==> ordered(s[k]),
                total == size_sum(s, it.index(), only_free),
        {
            let (_, r) = kv;
            proof {
                lemma_size_sum_bound(s, it.index() + 1, only_free);
            }
            if !only_free || !r.allocated {
                total = total + r.size();
            }
        }
        total
    }

    fn ranges_overlap(&self, a: &Range<usize>, b: &Range<usize>) -> (o: bool)
        ensures
            o == overlap(*a, *b),
    {
        a.start < b.end && b.start < a.end
    }
}

/// Keys the table walks through in increasing order come out increasing.
proof fn lemma_keys_increase(keys: Seq<usize>)
    requires
        increasing_seq(keys),
    ensures
        forall|i: int, j: int| 0 <= i < j < keys.len() ==> keys[i] < keys[j],
{
    axiom_increasing_seq_meaning(keys);
    assert forall|i: int, j: int| 0 <= i < j < keys.len() implies keys[i] < keys[j] by {
        assert(keys[i].cmp_spec(&keys[j]) is Less);
    }
}

/// Two increasing sequences with the same elements are the same sequence.
proof fn lemma_increasing_same(a: Seq<usize>, b: Seq<usize>)
    requires
        forall|i: int, j: int| 0 <= i < j < a.len() ==> a[i] < a[j],
        forall|i: int, j: int| 0 <= i < j < b.len() ==> b[i] < b[j],
        forall|x: usize| a.contains(x) <==> b.contains(x),
    ensures
        a == b,
    decreases a.len(),
{
    if a.len() == 0 {
        if b.len() > 0 {
            assert(b.contains(b[0]));
        }
        assert(a =~= b);
    } else {
        assert(a.contains(a[0]));
        assert(b.len() > 0);
        assert(b.contains(b[0]));
        let j = choose|j: int| 0 <= j < b.len() && b[j] == a[0];
        let k = choose|k: int| 0 <= k < a.len() && a[k] == b[0];
        if j > 0 {
            assert(b[0] < b[j]);
        }
        if k > 0 {
            assert(a[0] < a[k]);
        }
        assert(a[0] == b[0]);
        let a1 = a.subrange(1, a.len() as int);
        let b1 = b.subrange(1, b.len() as int);
        assert forall|x: usize| a1.contains(x) <==> b1.contains(x) by {
            if a1.contains(x) {
                let p = choose|p: int| 0 <= p < a1.len() && a1[p] == x;
                assert(a[p + 1] == x);
                assert(a.contains(x));
                let q = choose|q: int| 0 <= q < b.len() && b[q] == x;
                assert(a[0] < a[p + 1]);
                assert(q != 0);
                assert(b1[q - 1] == x);
            }
            if b1.contains(x) {
                let p = choose|p: int| 0 <= p < b1.len() && b1[p] == x;
                assert(b[p + 1] == x);
                assert(b.contains(x));
                let q = choose|q: int| 0 <= q < a.len() && a[q] == x;
                assert(b[0] < b[p + 1]);
                assert(q != 0);
                assert(a1[q - 1] == x);
            }
        }
        lemma_increasing_same(a1, b1);
        assert forall|i: int| 0 < i < a.len() implies a[i] == b[i] by {
            assert(a[i] == a1[i - 1]);
            assert(b[i] == b1[i - 1]);
        }
        assert(a =~= b);
    }
}

/// A walk of the table in increasing key order gives the regions in order.
proof fn lemma_walk_in_order<'a>(
    m: Map<usize, CXLMemoryRegion>,
    s: Seq<CXLMemoryRegion>,
    w: Seq<(&'a usize, &'a CXLMemoryRegion)>,
)
    requires
        regions_wf(s),
        filed(m, s),
        forall|i: int, j: int| 0 <= i < j < w.len() ==> *w[i].0 < *w[j].0,
        forall|i: int| 0 <= i < w.len() ==> m.contains_key(*(#[trigger] w[i]).0) && m[*w[i].0] == *w[i].1,
        forall|k: usize| #[trigger] m.contains_key(k) ==> w.contains((&k, &m[k])),
    ensures
        w.len() == s.len(),
        forall|i: int| 0 <= i < w.len() ==> *(#[trigger] w[i]).1 == s[i] && *w[i].0 == s[i].physical_range.start,
{
    let a = w.map_values(|kv: (&usize, &CXLMemoryRegion)| *kv.0);
    let b = s.map_values(|r: CXLMemoryRegion| r.physical_range.start);
    assert forall|i: int, j: int| 0 <= i < j < a.len() implies a[i] < a[j] by {
        assert(a[i] == *w[i].0 && a[j] == *w[j].0);
    }
    assert forall|i: int, j: int| 0 <= i < j < b.len() implies b[i] < b[j] by {
        assert(b[i] == s[i].physical_range.start && b[j] == s[j].physical_range.start);
    }
    assert forall|x: usize| a.contains(x) <==> b.contains(x) by {
        if a.contains(x) {
            let p = choose|p: int| 0 <= p < a.len() && a[p] == x;
            assert(a[p] == *w[p].0);
            assert(m.contains_key(x));
            let q = choose|q: int| 0 <= q < s.len() && (#[trigger] s[q]).physical_range.start == x;
            assert(b[q] == x);
        }
        if b.contains(x) {
            let q = choose|q: int| 0 <= q < b.len() && b[q] == x;
            assert(b[q] == s[q].physical_range.start);
            assert(m.contains_key(x));
            assert(w.contains((&x, &m[x])));
            let p = choose|p: int| 0 <= p < w.len() && w[p] == (&x, &m[x]);
            assert(a[p] == x);
        }
    }
    lemma_increasing_same(a, b);
    assert forall|i: int| 0 <= i < w.len() implies *(#[trigger] w[i]).1 == s[i] && *w[i].0 == s[i].physical_range.start by {
        assert(a[i] == *w[i].0);
        assert(b[i] == s[i].physical_range.start);
    }
}

/// Replacing region `i` by one with the same base address keeps the table
/// filed once it holds the new region there.
proof fn lemma_update_filed(m: Map<usize, CXLMemoryRegion>, s: Seq<CXLMemoryRegion>, i: int, r: CXLMemoryRegion)
    requires
        regions_wf(s),
        filed(m, s),
        0 <= i < s.len(),
        r.physical_range.start == s[i].physical_range.start,
    ensures
        filed(m.insert(r.physical_range.start, r), s.update(i, r)),
{
    let t = s.update(i, r);
    let n = m.insert(r.physical_range.start, r);
    assert forall|j: int| 0 <= j < t.len() implies n.contains_key((#[trigger] t[j]).physical_range.start)
        && n[t[j].physical_range.start] == t[j] by {
        if j != i {
            assert(t[j] == s[j]);
            if j < i {
                assert(s[j].physical_range.start < s[i].physical_range.start);
            } else {
                assert(s[i].physical_range.start < s[j].physical_range.start);
            }
        }
    }
    assert forall|k: usize| #[trigger] n.contains_key(k) implies exists|j: int|
        0 <= j < t.len() && (#[trigger] t[j]).physical_range.start == k by {
        if k == r.physical_range.start {
            assert(t[i].physical_range.start == k);
        } else {
            let j = choose|j: int| 0 <= j < s.len() && (#[trigger] s[j]).physical_range.start == k;
            assert(t[j].physical_range.start == s[j].physical_range.start);
        }
    }
}

/// What each policy picks among the regions that can serve a request (free,
/// large enough, and on the requested node under the NUMA-aware policy):
/// first fit takes the lowest-addressed of them; best fit the smallest, the
/// lowest-addressed among equally small ones; NUMA-aware the lowest-addressed
/// one on the requested node when there is one, else the lowest-addressed.
pub proof fn lemma_policy_picks(
    s: Seq<CXLMemoryRegion>,
    size: usize,
    numa_node: Option<u32>,
    policy: AllocationPolicy,
    i: int,
)
    requires
        is_choice(s, size, numa_node, policy, i),
    ensures
        is_candidate(s[i], size, numa_node, policy),
        policy == AllocationPolicy::FirstFit ==> forall|j: int|
            0 <= j < i ==> !is_candidate(#[trigger] s[j], size, numa_node, policy),
        policy == AllocationPolicy::BestFit ==> forall|j: int|
            0 <= j < s.len() && is_candidate(#[trigger] s[j], size, numa_node, policy) ==> region_size(s[i])
                <= region_size(s[j]) && (j < i ==> region_size(s[i]) < region_size(s[j])),
        policy == AllocationPolicy::NumaAware ==> forall|j: int|
            0 <= j < s.len() && is_candidate(#[trigger] s[j], size, numa_node, policy) ==> (s[j].numa_node
                == numa_node ==> s[i].numa_node == numa_node) && (j < i ==> s[i].numa_node == numa_node
                && s[j].numa_node != numa_node),
{
    if policy == AllocationPolicy::FirstFit {
        assert forall|j: int| 0 <= j < i implies !is_candidate(#[trigger] s[j], size, numa_node, policy) by {
            if is_candidate(s[j], size, numa_node, policy) {
                assert(policy_key(policy, numa_node, s[i]) < policy_key(policy, numa_node, s[j]));
            }
        }
    }
}

/// Among regions in order and free of overlap, one that does not run
/// backwards ends no later than a later one that does not either begins.
pub proof fn lemma_ends_before(s: Seq<CXLMemoryRegion>, i: int, j: int)
    requires
        regions_wf(s),
        0 <= i < j < s.len(),
        ordered(s[i]),
        ordered(s[j]),
    ensures
        s[i].physical_range.end <= s[j].physical_range.start,
{
    assert(s[i].physical_range.start < s[j].physical_range.start);
    assert(!overlap(s[i].physical_range, s[j].physical_range));
}

/// The end of the last counted region comes no later than the start of any
/// later counted region.
pub proof fn lemma_last_end_before(s: Seq<CXLMemoryRegion>, k: int, only_free: bool, m: int)
    requires
        regions_wf(s),
        0 <= k <= m < s.len(),
        forall|i: int| 0 <= i < s.len() && counted(#[trigger] s[i], only_free) ==> ordered(s[i]),
        counted(s[m], only_free),
    ensures
        last_end(s, k, only_free) <= s[m].physical_range.start,
    decreases k,
{
    if k > 0 {
        if counted(s[k - 1], only_free) {
            lemma_ends_before(s, k - 1, m);
        } else {
            lemma_last_end_before(s, k - 1, only_free, m);
        }
    }
}

/// The counted regions are disjoint and lie in the address space, so their
/// summed size is at most the end of the last of them, and fits in `usize`.
pub proof fn lemma_size_sum_bound(s: Seq<CXLMemoryRegion>, k: int, only_free: bool)
    requires
        regions_wf(s),
        0 <= k <= s.len(),
        forall|i: int| 0 <= i < s.len() && counted(#[trigger] s[i], only_free) ==> ordered(s[i]),
    ensures
        0 <= size_sum(s, k, only_free) <= last_end(s, k, only_free) <= usize::MAX,
    decreases k,
{
    if k > 0 {
        lemma_size_sum_bound(s, k - 1, only_free);
        if counted(s[k - 1], only_free) {
            lemma_last_end_before(s, k - 1, only_free, k - 1);
        }
    }
}

/// In ordered regions, a base address names one region.
pub proof fn lemma_base_unique(s: Seq<CXLMemoryRegion>, i: int)
    requires
        regions_wf(s),
        0 <= i < s.len(),
    ensures
        (choose|j: int| 0 <= j < s.len() && (#[trigger] s[j]).physical_range.start == s[i].physical_range.start)
            == i,
{
    let j = choose|j: int| 0 <= j < s.len() && (#[trigger] s[j]).physical_range.start == s[i].physical_range.start;
    assert(0 <= j < s.len() && s[j].physical_range.start == s[i].physical_range.start);
    if j < i {
        assert(s[j].physical_range.start < s[i].physical_range.start);
    } else if j > i {
        assert(s[i].physical_range.start < s[j].physical_range.start);
    }
}

/// Freeing the base address of a region that allocation just handed out
/// succeeds and restores the regions as they were before the allocation.
pub proof fn lemma_free_undoes_allocate(s: Seq<CXLMemoryRegion>, i: int)
    requires
        regions_wf(s),
        0 <= i < s.len(),
        !s[i].allocated,
    ensures
        ({
            let t = s.update(i, (CXLMemoryRegion { allocated: true, ..s[i] }));
            free_outcome(t, s[i].physical_range.start) == (Ok::<(), &'static str>(()), s)
        }),
{
    let t = s.update(i, (CXLMemoryRegion { allocated: true, ..s[i] }));
    assert forall|x: int, y: int| 0 <= x < y < t.len() implies (#[trigger] t[x]).physical_range.start
        < (#[trigger] t[y]).physical_range.start by {
        assert(t[x].physical_range == s[x].physical_range);
        assert(t[y].physical_range == s[y].physical_range);
    }
    assert forall|x: int, y: int| 0 <= x < t.len() && 0 <= y < t.len() && x != y implies !overlap(
        (#[trigger] t[x]).physical_range,
        (#[trigger] t[y]).physical_range,
    ) by {
        assert(t[x].physical_range == s[x].physical_range);
        assert(t[y].physical_range == s[y].physical_range);
    }
    lemma_base_unique(t, i);
    assert(t[i].physical_range.start == s[i].physical_range.start);
    assert(t.update(i, (CXLMemoryRegion { allocated: false, ..t[i] })) =~= s);
}

/// The free memory never exceeds the total memory.
pub proof fn lemma_available_le_total(s: Seq<CXLMemoryRegion>, k: int)
    requires
        0 <= k <= s.len(),
        forall|i: int| 0 <= i < s.len() ==> ordered(#[trigger] s[i]),
    ensures
        size_sum(s, k, true) <= size_sum(s, k, false),
    decreases k,
{
    if k > 0 {
        lemma_available_le_total(s, k - 1);
        assert(ordered(s[k - 1]));
    }
}

/// The position past the regions based below `x` is unique.
pub proof fn lemma_lower_bound_unique(s: Seq<CXLMemoryRegion>, x: usize, p: int)
    requires
        is_lower_bound(s, x, p),
    ensures
        lower_bound(s, x) == p,
{
    let q = lower_bound(s, x);
    assert(is_lower_bound(s, x, q));
    if q < p {
        assert(s[q].physical_range.start < x);
    } else if q > p {
        assert(s[p].physical_range.start < x);
    }
}

/// Registering a region that overlaps none keeps the regions in order and
/// free of overlap.
pub proof fn lemma_insert_region_wf(s: Seq<CXLMemoryRegion>, r: CXLMemoryRegion)
    requires
        regions_wf(s),
        forall|j: int| 0 <= j < s.len() ==> !overlap(r.physical_range, #[trigger] s[j].physical_range),
        exists|p: int| is_lower_bound(s, r.physical_range.start, p),
    ensures
        regions_wf(insert_region(s, r)),
{
    let x = r.physical_range.start;
    let p = lower_bound(s, x);
    assert(is_lower_bound(s, x, p));
    let t = insert_region(s, r);
    if p < s.len() && s[p].physical_range.start == x {
        assert forall|i: int, j: int| 0 <= i < j < t.len() implies (#[trigger] t[i]).physical_range.start
            < (#[trigger] t[j]).physical_range.start by {
            if i == p {
                assert(s[j].physical_range.start > s[p].physical_range.start);
            } else if j == p {
                assert(s[i].physical_range.start < s[p].physical_range.start);
            }
        }
        assert forall|i: int, j: int| 0 <= i < t.len() && 0 <= j < t.len() && i != j implies !overlap(
            (#[trigger] t[i]).physical_range,
            (#[trigger] t[j]).physical_range,
        ) by {
            if i == p {
                assert(!overlap(r.physical_range, s[j].physical_range));
            } else if j == p {
                assert(!overlap(r.physical_range, s[i].physical_range));
            }
        }
    } else {
        assert forall|i: int, j: int| 0 <= i < j < t.len() implies (#[trigger] t[i]).physical_range.start
            < (#[trigger] t[j]).physical_range.start by {
            if i < p && j < p {
            } else if i < p && j == p {
            } else if i < p && j > p {
                assert(t[j] == s[j - 1]);
            } else if i == p {
                assert(t[j] == s[j - 1]);
                if j - 1 == p {
                    assert(s[p].physical_range.start != x);
                }
            } else {
                assert(t[i] == s[i - 1]);
                assert(t[j] == s[j - 1]);
            }
        }
        assert forall|i: int, j: int| 0 <= i < t.len() && 0 <= j < t.len() && i != j implies !overlap(
            (#[trigger] t[i]).physical_range,
            (#[trigger] t[j]).physical_range,
        ) by {
            let si = if i < p { i } else { i - 1 };
            let sj = if j < p { j } else { j - 1 };
            if i == p {
                assert(t[j] == s[sj]);
                assert(!overlap(r.physical_range, s[sj].physical_range));
            } else if j == p {
                assert(t[i] == s[si]);
                assert(!overlap(r.physical_range, s[si].physical_range));
            } else {
                assert(t[i] == s[si]);
                assert(t[j] == s[sj]);
            }
        }
    }
}

} // verus!

