//! CPU sets and CPU affinity.
use vstd::prelude::*;

use crate::numfmt::{digits, push_digits};

verus! {

/// The CPUs of `mask`, in increasing order, among the first `n` entries.
pub open spec fn cpus_below(mask: Seq<bool>, n: int) -> Seq<usize>
    decreases n,
{
    if n <= 0 {
        Seq::empty()
    } else {
        let rest = cpus_below(mask, n - 1);
        if mask[n - 1] {
            rest.push((n - 1) as usize)
        } else {
            rest
        }
    }
}

/// The number of CPUs set among the first `n` entries of `mask`.
pub open spec fn count_below(mask: Seq<bool>, n: int) -> nat
    decreases n,
{
    if n <= 0 {
        0
    } else {
        count_below(mask, n - 1) + if mask[n - 1] { 1nat } else { 0nat }
    }
}

/// The lowest CPU set in `mask`, if any.
pub open spec fn first_set(mask: Seq<bool>) -> Option<usize> {
    if exists|i: int| 0 <= i < mask.len() && mask[i] {
        Some(
            (choose|i: int| 0 <= i < mask.len() && mask[i] && forall|j: int| 0 <= j < i ==> !mask[j]) as usize,
        )
    } else {
        None
    }
}

/// CPU numbers in decimal, separated by ", ".
pub open spec fn list_text(cpus: Seq<usize>) -> Seq<char>
    decreases cpus.len(),
{
    if cpus.len() == 0 {
        Seq::empty()
    } else if cpus.len() == 1 {
        digits(cpus[0] as nat, 10)
    } else {
        list_text(cpus.drop_last()) + seq![',', ' '] + digits(cpus.last() as nat, 10)
    }
}

/// The text of a CPU set: its CPUs in braces, as in "{0, 2, 3}".
pub open spec fn set_text(mask: Seq<bool>) -> Seq<char> {
    seq!['{'] + list_text(cpus_below(mask, mask.len() as int)) + seq!['}']
}

/// The text of an affinity: "allowed=" and the set, then ", preferred="
/// and the preferred CPU if there is one.
pub open spec fn affinity_text(allowed: Seq<bool>, preferred: Option<usize>) -> Seq<char> {
    let head = seq!['a', 'l', 'l', 'o', 'w', 'e', 'd', '='] + set_text(allowed);
    match preferred {
        Some(c) => head + seq![',', ' ', 'p', 'r', 'e', 'f', 'e', 'r', 'r', 'e', 'd', '='] + digits(c as nat, 10),
        None => head,
    }
}

/// Append `list_text(cpus)` to `s`.
fn push_list(s: &mut String, cpus: &Vec<usize>)
    ensures
        final(s)@ == old(s)@ + list_text(cpus@),
{
    let ghost s0 = s@;
    let sep = ", ";
    proof {
        reveal_strlit(", ");
    }
    let mut i: usize = 0;
    assert(s@ =~= s0 + list_text(cpus@.subrange(0, 0)));
    while i < cpus.len()
        invariant
            i <= cpus@.len(),
            sep@ == seq![',', ' '],
            s@ == s0 + list_text(cpus@.subrange(0, i as int)),
        decreases cpus@.len() - i,
    {
        let ghost before = s@;
        if i > 0 {
            s.append(sep);
        }
        push_digits(s, cpus[i] as u64, 10);
        proof {
            let t = cpus@.subrange(0, i + 1);
            assert(t.drop_last() =~= cpus@.subrange(0, i as int));
            assert(t.last() == cpus@[i as int]);
            if i == 0 {
                assert(list_text(cpus@.subrange(0, 0)) =~= Seq::<char>::empty());
                assert(s@ =~= s0 + list_text(t));
            } else {
                assert(s@ =~= s0 + list_text(t));
            }
        }
        i = i + 1;
    }
    assert(cpus@.subrange(0, cpus@.len() as int) =~= cpus@);
}

/// A set of CPUs, out of a fixed number of CPUs.
#[derive(Debug, PartialEq, Eq)]
pub struct CpuSet {
    mask: Vec<bool>,
}

impl View for CpuSet {
    type V = Seq<bool>;

    closed spec fn view(&self) -> Seq<bool> {
        self.mask@
    }
}

impl Clone for CpuSet {
    /// A copy of the set.
    fn clone(&self) -> (c: Self)
        ensures
            c@ == self@,
    {
        let mut mask: Vec<bool> = Vec::new();
        let mut i: usize = 0;
        while i < self.mask.len()
            invariant
                i <= self@.len(),
                mask@ == self@.subrange(0, i as int),
            decreases self@.len() - i,
        {
            mask.push(self.mask[i]);
            i = i + 1;
        }
        assert(mask@ =~= self@);
        CpuSet { mask }
    }
}

impl CpuSet {
    /// Whether `cpu` is a member.
    pub open spec fn has(&self, cpu: int) -> bool {
        0 <= cpu < self@.len() && self@[cpu]
    }

    /// A CPU set is drawn from at most `usize::MAX` CPUs.
    pub proof fn lemma_len_bound(&self)
        ensures
            self@.len() <= usize::MAX,
    {
        assert(self.mask@.len() == self.mask.len());
    }

    /// Create a new CPU set with the given number of CPUs, none of them in it.
    pub fn new(num_cpus: usize) -> (s: Self)
        ensures
            s@ == Seq::new(num_cpus as nat, |i: int| false),
    {
        let mut mask: Vec<bool> = Vec::new();
        let mut i: usize = 0;
        while i < num_cpus
            invariant
                i <= num_cpus,
                mask@ == Seq::new(i as nat, |k: int| false),
            decreases num_cpus - i,
        {
            mask.push(false);
            i = i + 1;
        }
        CpuSet { mask }
    }

    /// Create a CPU set with all CPUs enabled.
    pub fn all(num_cpus: usize) -> (s: Self)
        ensures
            s@ == Seq::new(num_cpus as nat, |i: int| true),
    {
        let mut mask: Vec<bool> = Vec::new();
        let mut i: usize = 0;
        while i < num_cpus
            invariant
                i <= num_cpus,
                mask@ == Seq::new(i as nat, |k: int| true),
            decreases num_cpus - i,
        {
            mask.push(true);
            i = i + 1;
        }
        CpuSet { mask }
    }

    /// Create a CPU set with a single CPU.
    pub fn single(num_cpus: usize, cpu_id: usize) -> (r: Result<Self, &'static str>)
        ensures
            cpu_id >= num_cpus <==> r is Err,
            r matches Ok(s) ==> s@ == Seq::new(num_cpus as nat, |i: int| i == cpu_id),
    {
        if cpu_id >= num_cpus {
            return Err("CPU ID out of range");
        }
        let mut s = CpuSet::new(num_cpus);
        s.mask.set(cpu_id, true);
        assert(s@ =~= Seq::new(num_cpus as nat, |i: int| i == cpu_id));
        Ok(s)
    }

    /// Add a CPU to the set.
    pub fn add(&mut self, cpu_id: usize) -> (r: Result<(), &'static str>)
        ensures
            cpu_id >= old(self)@.len() <==> r is Err,
            r is Err ==> final(self)@ == old(self)@,
            r is Ok ==> final(self)@ == old(self)@.update(cpu_id as int, true),
    {
        if cpu_id >= self.mask.len() {
            return Err("CPU ID out of range");
        }
        self.mask.set(cpu_id, true);
        Ok(())
    }

    /// Remove a CPU from the set.
    pub fn remove(&mut self, cpu_id: usize) -> (r: Result<(), &'static str>)
        ensures
            cpu_id >= old(self)@.len() <==> r is Err,
            r is Err ==> final(self)@ == old(self)@,
            r is Ok ==> final(self)@ == old(self)@.update(cpu_id as int, false),
    {
        if cpu_id >= self.mask.len() {
            return Err("CPU ID out of range");
        }
        self.mask.set(cpu_id, false);
        Ok(())
    }

    /// Check if a CPU is in the set.
    pub fn contains(&self, cpu_id: usize) -> (b: bool)
        ensures
            b == self.has(cpu_id as int),
    {
        cpu_id < self.mask.len() && self.mask[cpu_id]
    }

    /// The number of CPUs the set is drawn from.
    pub fn num_cpus(&self) -> (n: usize)
        ensures
            n == self@.len(),
    {
        self.mask.len()
    }

    /// Get the number of CPUs in the set.
    pub fn count(&self) -> (n: usize)
        ensures
            n == count_below(self@, self@.len() as int),
    {
        let mut n: usize = 0;
        let mut i: usize = 0;
        while i < self.mask.len()
            invariant
                i <= self@.len(),
                n == count_below(self@, i as int),
                n <= i,
            decreases self@.len() - i,
        {
            if self.mask[i] {
                n = n + 1;
            }
            i = i + 1;
        }
        n
    }

    /// Check if the set is empty.
    pub fn is_empty(&self) -> (b: bool)
        ensures
            b == (count_below(self@, self@.len() as int) == 0),
    {
        self.count() == 0
    }

    /// Get the first CPU in the set.
    pub fn first(&self) -> (r: Option<usize>)
        ensures
            r == first_set(self@),
    {
        let mut i: usize = 0;
        while i < self.mask.len()
            invariant
                i <= self@.len(),
                forall|j: int| 0 <= j < i ==> !self@[j],
            decreases self@.len() - i,
        {
            if self.mask[i] {
                proof {
                    let c = choose|k: int|
                        0 <= k < self@.len() && self@[k] && forall|j: int| 0 <= j < k ==> !self@[j];
                    assert(0 <= i < self@.len() && self@[i as int] && forall|j: int|
                        0 <= j < i ==> !self@[j]);
                    if c < i {
                    } else if c > i {
                        assert(!self@[i as int]);
                    }
                }
                return Some(i);
            }
            i = i + 1;
        }
        None
    }

    /// Get all CPUs in the set, in increasing order.
    pub fn cpus(&self) -> (v: Vec<usize>)
        ensures
            v@ == cpus_below(self@, self@.len() as int),
    {
        let mut v: Vec<usize> = Vec::new();
        let mut i: usize = 0;
        while i < self.mask.len()
            invariant
                i <= self@.len(),
                v@ == cpus_below(self@, i as int),
            decreases self@.len() - i,
        {
            if self.mask[i] {
                v.push(i);
            }
            i = i + 1;
        }
        v
    }

    /// The set as text: its CPUs in braces, as in "{0, 2, 3}".
    pub fn to_string(&self) -> (s: String)
        ensures
            s@ == set_text(self@),
    {
        let open = "{";
        let close = "}";
        proof {
            reveal_strlit("{");
            reveal_strlit("}");
        }
        let mut s = String::from_str(open);
        let cpus = self.cpus();
        push_list(&mut s, &cpus);
        s.append(close);
        assert(s@ =~= set_text(self@));
        s
    }

    /// Clear all CPUs from the set.
    pub fn clear(&mut self)
        ensures
            final(self)@ == Seq::new(old(self)@.len(), |i: int| false),
    {
        let mut i: usize = 0;
        while i < self.mask.len()
            invariant
                i <= self@.len(),
                self@.len() == old(self)@.len(),
                forall|j: int| 0 <= j < i ==> !self@[j],
            decreases self@.len() - i,
        {
            self.mask.set(i, false);
            i = i + 1;
        }
        assert(self@ =~= Seq::new(old(self)@.len(), |i: int| false));
    }
}


/// CPU affinity of a task: the CPUs it may run on, and the one it prefers.
#[derive(Debug)]
pub struct CpuAffinity {
    allowed_cpus: CpuSet,
    preferred_cpu: Option<usize>,
}

impl Clone for CpuAffinity {
    /// A copy of the affinity.
    fn clone(&self) -> (c: Self)
        ensures
            c.allowed() == self.allowed(),
            c.preferred() == self.preferred(),
    {
        proof {
            use_type_invariant(self);
        }
        CpuAffinity { allowed_cpus: self.allowed_cpus.clone(), preferred_cpu: self.preferred_cpu }
    }
}

impl CpuAffinity {
    /// The allowed CPUs, as a mask.
    pub closed spec fn allowed(&self) -> Seq<bool> {
        self.allowed_cpus@
    }

    /// The preferred CPU.
    pub closed spec fn preferred(&self) -> Option<usize> {
        self.preferred_cpu
    }

    /// Whether `cpu` is allowed.
    pub open spec fn allows(&self, cpu: int) -> bool {
        0 <= cpu < self.allowed().len() && self.allowed()[cpu]
    }

    /// A preferred CPU is always one of the allowed CPUs.
    #[verifier::type_invariant]
    pub open spec fn wf(&self) -> bool {
        self.preferred() matches Some(c) ==> self.allows(c as int)
    }

    /// The CPU that `select_cpu` picks.
    pub open spec fn selected(&self) -> Option<usize> {
        match self.preferred() {
            Some(c) => if self.allows(c as int) {
                Some(c)
            } else {
                first_set(self.allowed())
            },
            None => first_set(self.allowed()),
        }
    }

    /// The allowed mask is drawn from at most `usize::MAX` CPUs.
    pub proof fn lemma_len_bound(&self)
        ensures
            self.allowed().len() <= usize::MAX,
    {
        self.allowed_cpus.lemma_len_bound();
    }

    /// The affinity as text: "allowed=" and the set, then ", preferred="
    /// and the preferred CPU if there is one.
    pub fn to_string(&self) -> (s: String)
        ensures
            s@ == affinity_text(self.allowed(), self.preferred()),
    {
        let label = "allowed=";
        proof {
            reveal_strlit("allowed=");
        }
        let mut s = String::from_str(label);
        let set = self.allowed_cpus.to_string();
        s.append(set.as_str());
        match self.preferred_cpu {
            Some(cpu) => {
                let pref = ", preferred=";
                proof {
                    reveal_strlit(", preferred=");
                }
                s.append(pref);
                push_digits(&mut s, cpu as u64, 10);
            },
            None => {},
        }
        assert(s@ =~= affinity_text(self.allowed(), self.preferred()));
        s
    }

    /// Create a new CPU affinity with all CPUs allowed.
    pub fn any(num_cpus: usize) -> (a: Self)
        ensures
            a.allowed() == Seq::new(num_cpus as nat, |i: int| true),
            a.preferred() == None::<usize>,
            a.wf(),
    {
        CpuAffinity { allowed_cpus: CpuSet::all(num_cpus), preferred_cpu: None }
    }

    /// Create a CPU affinity for a specific CPU.
    pub fn single(num_cpus: usize, cpu_id: usize) -> (r: Result<Self, &'static str>)
        ensures
            cpu_id >= num_cpus <==> r is Err,
            r matches Ok(a) ==> a.allowed() == Seq::new(num_cpus as nat, |i: int| i == cpu_id)
                && a.preferred() == Some(cpu_id) && a.wf(),
    {
        let allowed_cpus = CpuSet::single(num_cpus, cpu_id)?;
        Ok(CpuAffinity { allowed_cpus, preferred_cpu: Some(cpu_id) })
    }

    /// Create a CPU affinity with a custom CPU set; the lowest member is preferred.
    pub fn custom(allowed_cpus: CpuSet) -> (a: Self)
        ensures
            a.allowed() == allowed_cpus@,
            a.preferred() == first_set(allowed_cpus@),
            a.wf(),
    {
        let preferred_cpu = allowed_cpus.first();
        proof {
            allowed_cpus.lemma_len_bound();
            lemma_first_set(allowed_cpus@);
        }
        CpuAffinity { allowed_cpus, preferred_cpu }
    }

    /// Get the allowed CPU set.
    pub fn allowed_cpus(&self) -> (s: &CpuSet)
        ensures
            s@ == self.allowed(),
    {
        &self.allowed_cpus
    }

    /// Get the preferred CPU.
    pub fn preferred_cpu(&self) -> (c: Option<usize>)
        ensures
            c == self.preferred(),
    {
        self.preferred_cpu
    }

    /// Set the preferred CPU; it must be allowed.
    pub fn set_preferred_cpu(&mut self, cpu_id: usize) -> (r: Result<(), &'static str>)
        ensures
            !old(self).allows(cpu_id as int) <==> r is Err,
            r matches Err(e) ==> e == "CPU not in allowed set",
            final(self).allowed() == old(self).allowed(),
            r is Ok ==> final(self).preferred() == Some(cpu_id),
            r is Err ==> final(self).preferred() == old(self).preferred(),
            old(self).wf() ==> final(self).wf(),
    {
        if !self.allowed_cpus.contains(cpu_id) {
            return Err("CPU not in allowed set");
        }
        self.preferred_cpu = Some(cpu_id);
        Ok(())
    }

    /// Check if a CPU is allowed.
    pub fn is_allowed(&self, cpu_id: usize) -> (b: bool)
        ensures
            b == self.allows(cpu_id as int),
    {
        self.allowed_cpus.contains(cpu_id)
    }

    /// Select a CPU to run on: the preferred CPU when it is allowed, else the
    /// lowest allowed CPU.
    pub fn select_cpu(&self) -> (c: Option<usize>)
        ensures
            c == self.selected(),
    {
        if let Some(cpu) = self.preferred_cpu {
            if self.allowed_cpus.contains(cpu) {
                return Some(cpu);
            }
        }
        self.allowed_cpus.first()
    }
}

/// The lowest set CPU is set, and no lower CPU is; there is one exactly when
/// some CPU is set.
pub proof fn lemma_first_set(mask: Seq<bool>)
    requires
        mask.len() <= usize::MAX,
    ensures
        first_set(mask) is None <==> forall|i: int| 0 <= i < mask.len() ==> !mask[i],
        first_set(mask) matches Some(c) ==> {
            &&& c < mask.len()
            &&& mask[c as int]
            &&& forall|j: int| 0 <= j < c ==> !mask[j]
        },
{
    if exists|i: int| 0 <= i < mask.len() && mask[i] {
        let w = choose|i: int| 0 <= i < mask.len() && mask[i];
        lemma_lowest_exists(mask, w);
        let c = choose|i: int| 0 <= i < mask.len() && mask[i] && forall|j: int| 0 <= j < i ==> !mask[j];
        assert(first_set(mask) == Some(c as usize));
    }
}

/// The CPUs listed by `cpus_below(mask, n)` are exactly the set CPUs below
/// `n`, in strictly increasing order, and as many as `count_below` counts:
/// a set's `cpus` are its members in order, `count` of them.
pub proof fn lemma_cpus_below(mask: Seq<bool>, n: int)
    requires
        0 <= n <= mask.len(),
        mask.len() <= usize::MAX,
    ensures
        forall|k: int|
            0 <= k < cpus_below(mask, n).len() ==> {
                &&& #[trigger] cpus_below(mask, n)[k] < n
                &&& mask[cpus_below(mask, n)[k] as int]
            },
        forall|k: int, l: int|
            0 <= k < l < cpus_below(mask, n).len() ==> #[trigger] cpus_below(mask, n)[k]
                < #[trigger] cpus_below(mask, n)[l],
        forall|i: int| 0 <= i < n && mask[i] ==> cpus_below(mask, n).contains(i as usize),
        cpus_below(mask, n).len() <= n,
        cpus_below(mask, n).len() == count_below(mask, n),
    decreases n,
{
    if n > 0 {
        lemma_cpus_below(mask, n - 1);
        let rest = cpus_below(mask, n - 1);
        if mask[n - 1] {
            assert(cpus_below(mask, n) == rest.push((n - 1) as usize));
            assert forall|i: int| 0 <= i < n && mask[i] implies cpus_below(mask, n).contains(i as usize) by {
                if i < n - 1 {
                    let k = choose|k: int| 0 <= k < rest.len() && rest[k] == i as usize;
                    assert(cpus_below(mask, n)[k] == i as usize);
                } else {
                    assert(cpus_below(mask, n)[rest.len() as int] == i as usize);
                }
            }
        }
    }
}

proof fn lemma_lowest_exists(mask: Seq<bool>, w: int)
    requires
        0 <= w < mask.len(),
        mask[w],
    ensures
        exists|i: int| 0 <= i < mask.len() && mask[i] && forall|j: int| 0 <= j < i ==> !mask[j],
    decreases w,
{
    if exists|j: int| 0 <= j < w && mask[j] {
        let v = choose|j: int| 0 <= j < w && mask[j];
        lemma_lowest_exists(mask, v);
    } else {
        assert(forall|j: int| 0 <= j < w ==> !mask[j]);
    }
}

} // verus!
