use vstd::prelude::*;

use crate::config::Config;
use crate::tenant::Tenant;

verus! {

/// Why a slot could not be reserved or released.
#[derive(Clone, Copy, Debug, PartialEq, Eq, Structural)]
pub enum GpuError {
    NoGlobalCapacity,
    TenantLimitReached,
    TenantHasNoSlots,
}

/// Abstract state of the manager: the global cap, the default per-tenant cap,
/// and one `(tenant id, slots held)` entry per tenant that holds any slot.
pub struct GpuView {
    pub gpu_slots: nat,
    pub per_tenant_limit: nat,
    pub entries: Seq<(Seq<char>, nat)>,
}

/// Slots held by all entries.
pub open spec fn total(entries: Seq<(Seq<char>, nat)>) -> nat
    decreases entries.len(),
{
    if entries.len() == 0 {
        0
    } else {
        total(entries.drop_last()) + entries.last().1
    }
}

/// Slots held by tenant `id` (0 when it has no entry).
pub open spec fn count_of(entries: Seq<(Seq<char>, nat)>, id: Seq<char>) -> nat
    decreases entries.len(),
{
    if entries.len() == 0 {
        0
    } else if entries.last().0 == id {
        entries.last().1
    } else {
        count_of(entries.drop_last(), id)
    }
}

pub open spec fn keys_unique(entries: Seq<(Seq<char>, nat)>) -> bool {
    forall|i: int, j: int|
        0 <= i < entries.len() && 0 <= j < entries.len() && i != j ==> entries[i].0
            != entries[j].0
}

impl GpuView {
    /// The manager's invariant: one entry per tenant, no zero entries, and no
    /// more slots held than the global cap.
    pub open spec fn wf(self) -> bool {
        &&& keys_unique(self.entries)
        &&& forall|i: int| 0 <= i < self.entries.len() ==> self.entries[i].1 > 0
        &&& total(self.entries) <= self.gpu_slots
    }

    pub open spec fn count(self, id: Seq<char>) -> nat {
        count_of(self.entries, id)
    }

    pub open spec fn used(self) -> nat {
        total(self.entries)
    }
}

/// Two-tier slot accounting: slots in use overall against the global cap, and
/// per tenant against that tenant's limit.
pub struct GpuManager {
    gpu_slots: usize,
    per_tenant_limit: usize,
    tenant_ids: Vec<String>,
    tenant_counts: Vec<usize>,
}

impl View for GpuManager {
    type V = GpuView;

    closed spec fn view(&self) -> GpuView {
        GpuView {
            gpu_slots: self.gpu_slots as nat,
            per_tenant_limit: self.per_tenant_limit as nat,
            entries: Seq::new(
                self.tenant_ids@.len(),
                |i: int| (self.tenant_ids@[i]@, self.tenant_counts@[i] as nat),
            ),
        }
    }
}

proof fn lemma_total_update(s: Seq<(Seq<char>, nat)>, k: int, v: nat)
    requires
        0 <= k < s.len(),
    ensures
        total(s.update(k, (s[k].0, v))) == total(s) - s[k].1 + v,
    decreases s.len(),
{
    let u = s.update(k, (s[k].0, v));
    if k < s.len() - 1 {
        assert(u.drop_last() =~= s.drop_last().update(k, (s[k].0, v)));
        lemma_total_update(s.drop_last(), k, v);
    } else {
        assert(u.drop_last() =~= s.drop_last());
    }
}

proof fn lemma_total_remove(s: Seq<(Seq<char>, nat)>, k: int)
    requires
        0 <= k < s.len(),
    ensures
        total(s.remove(k)) == total(s) - s[k].1,
    decreases s.len(),
{
    if k < s.len() - 1 {
        assert(s.remove(k).drop_last() =~= s.drop_last().remove(k));
        assert(s.remove(k).last() == s.last());
        lemma_total_remove(s.drop_last(), k);
    } else {
        assert(s.remove(k) =~= s.drop_last());
    }
}

proof fn lemma_count_absent(s: Seq<(Seq<char>, nat)>, id: Seq<char>)
    requires
        forall|i: int| 0 <= i < s.len() ==> s[i].0 != id,
    ensures
        count_of(s, id) == 0,
    decreases s.len(),
{
    if s.len() > 0 {
        lemma_count_absent(s.drop_last(), id);
    }
}

proof fn lemma_count_at(s: Seq<(Seq<char>, nat)>, k: int)
    requires
        0 <= k < s.len(),
        keys_unique(s),
    ensures
        count_of(s, s[k].0) == s[k].1,
    decreases s.len(),
{
    if k < s.len() - 1 {
        lemma_count_at(s.drop_last(), k);
    }
}

proof fn lemma_count_update(s: Seq<(Seq<char>, nat)>, k: int, v: nat, id: Seq<char>)
    requires
        0 <= k < s.len(),
        keys_unique(s),
    ensures
        count_of(s.update(k, (s[k].0, v)), id) == if id == s[k].0 {
            v
        } else {
            count_of(s, id)
        },
    decreases s.len(),
{
    let u = s.update(k, (s[k].0, v));
    if k < s.len() - 1 {
        assert(u.drop_last() =~= s.drop_last().update(k, (s[k].0, v)));
        lemma_count_update(s.drop_last(), k, v, id);
    } else {
        assert(u.drop_last() =~= s.drop_last());
    }
}

proof fn lemma_count_remove(s: Seq<(Seq<char>, nat)>, k: int, id: Seq<char>)
    requires
        0 <= k < s.len(),
        keys_unique(s),
    ensures
        count_of(s.remove(k), id) == if id == s[k].0 {
            0
        } else {
            count_of(s, id)
        },
    decreases s.len(),
{
    if k < s.len() - 1 {
        assert(s.remove(k).drop_last() =~= s.drop_last().remove(k));
        assert(s.remove(k).last() == s.last());
        lemma_count_remove(s.drop_last(), k, id);
    } else {
        assert(s.remove(k) =~= s.drop_last());
        if id == s[k].0 {
            lemma_count_absent(s.drop_last(), id);
        }
    }
}

proof fn lemma_total_prefix(s: Seq<(Seq<char>, nat)>, i: int)
    requires
        0 <= i < s.len(),
    ensures
        total(s.subrange(0, i + 1)) == total(s.subrange(0, i)) + s[i].1,
        total(s.subrange(0, i + 1)) <= total(s),
    decreases s.len() - i,
{
    assert(s.subrange(0, i + 1).drop_last() =~= s.subrange(0, i));
    if i + 1 < s.len() {
        lemma_total_prefix(s, i + 1);
    } else {
        assert(s.subrange(0, i + 1) =~= s);
    }
}

impl GpuManager {
    pub closed spec fn wf(&self) -> bool {
        &&& self.tenant_ids@.len() == self.tenant_counts@.len()
        &&& self@.wf()
    }

    /// At every moment the slots in use stay within the global cap, and every
    /// tenant with an entry holds at least one slot.
    pub proof fn lemma_slots_bounded(&self)
        requires
            self.wf(),
        ensures
            self@.used() <= self@.gpu_slots,
            forall|i: int| 0 <= i < self@.entries.len() ==> self@.entries[i].1 > 0,
            keys_unique(self@.entries),
    {
    }

    /// A manager with no slot in use.
    pub fn new(config: &Config) -> (r: GpuManager)
        ensures
            r.wf(),
            r@.gpu_slots == config.gpu_slots,
            r@.per_tenant_limit == config.per_tenant_limit,
            r@.entries.len() == 0,
    {
        let r = GpuManager {
            gpu_slots: config.gpu_slots,
            per_tenant_limit: config.per_tenant_limit,
            tenant_ids: Vec::new(),
            tenant_counts: Vec::new(),
        };
        assert(r@.entries =~= Seq::<(Seq<char>, nat)>::empty());
        r
    }

    /// Slots held by `tenant_id`.
    pub fn slots_of(&self, tenant_id: &str) -> (r: usize)
        requires
            self.wf(),
        ensures
            r == self@.count(tenant_id@),
    {
        let id = String::from_str(tenant_id);
        let ghost e = self@.entries;
        match self.find(&id) {
            Some(k) => {
                proof {
                    lemma_count_at(e, k as int);
                }
                self.tenant_counts[k]
            },
            None => {
                proof {
                    lemma_count_absent(e, id@);
                }
                0
            },
        }
    }

    /// Slots in use over all tenants.
    pub fn used_slots(&self) -> (r: usize)
        requires
            self.wf(),
        ensures
            r == self@.used(),
    {
        let ghost e = self@.entries;
        let mut sum: usize = 0;
        let mut i: usize = 0;
        while i < self.tenant_counts.len()
            invariant
                self.wf(),
                e == self@.entries,
                0 <= i <= e.len(),
                sum == total(e.subrange(0, i as int)),
            decreases e.len() - i,
        {
            proof {
                lemma_total_prefix(e, i as int);
            }
            sum = sum + self.tenant_counts[i];
            i = i + 1;
        }
        assert(e.subrange(0, e.len() as int) =~= e);
        sum
    }

    /// Index of tenant `id`'s entry, if it has one.
    fn find(&self, id: &String) -> (r: Option<usize>)
        requires
            self.wf(),
        ensures
            match r {
                Some(k) => k < self@.entries.len() && self@.entries[k as int].0 == id@,
                None => forall|i: int|
                    0 <= i < self@.entries.len() ==> self@.entries[i].0 != id@,
            },
    {
        let mut i: usize = 0;
        while i < self.tenant_ids.len()
            invariant
                self.wf(),
                0 <= i <= self@.entries.len(),
                forall|j: int| 0 <= j < i ==> self@.entries[j].0 != id@,
            decreases self@.entries.len() - i,
        {
            if self.tenant_ids[i] == *id {
                return Some(i);
            }
            i = i + 1;
        }
        None
    }

    /// Takes one slot for `tenant`: refused when every global slot is in use,
    /// or when the tenant already holds as many as its limit allows.
    pub fn try_reserve_slot(&mut self, tenant: &Tenant) -> (r: Result<(), GpuError>)
        requires
            old(self).wf(),
        ensures
            final(self).wf(),
            final(self)@.gpu_slots == old(self)@.gpu_slots,
            final(self)@.per_tenant_limit == old(self)@.per_tenant_limit,
            (r == Err::<(), GpuError>(GpuError::NoGlobalCapacity)) <==> old(self)@.used()
                >= old(self)@.gpu_slots,
            (r == Err::<(), GpuError>(GpuError::TenantLimitReached)) <==> (old(self)@.used()
                < old(self)@.gpu_slots && old(self)@.count(tenant.tenant_id@)
                >= tenant.gpu_slot_limit),
            r is Ok <==> (old(self)@.used() < old(self)@.gpu_slots && old(self)@.count(
                tenant.tenant_id@,
            ) < tenant.gpu_slot_limit),
            r is Err ==> final(self)@ == old(self)@,
            r is Ok ==> final(self)@.count(tenant.tenant_id@) <= tenant.gpu_slot_limit,
            r is Ok ==> {
                &&& final(self)@.used() == old(self)@.used() + 1
                &&& forall|id: Seq<char>| #[trigger]
                    final(self)@.count(id) == if id == tenant.tenant_id@ {
                        old(self)@.count(id) + 1
                    } else {
                        old(self)@.count(id)
                    }
            },
    {
        let used = self.used_slots();
        if used >= self.gpu_slots {
            return Err(GpuError::NoGlobalCapacity);
        }
        let ghost e = self@.entries;
        let id = &tenant.tenant_id;
        match self.find(id) {
            Some(k) => {
                proof {
                    lemma_count_at(e, k as int);
                }
                let c = self.tenant_counts[k];
                if c >= tenant.gpu_slot_limit {
                    return Err(GpuError::TenantLimitReached);
                }
                self.tenant_counts.set(k, c + 1);
                proof {
                    assert(self@.entries =~= e.update(k as int, (e[k as int].0, (c + 1) as nat)));
                    lemma_total_update(e, k as int, (c + 1) as nat);
                    assert forall|id2: Seq<char>|
                        #[trigger] count_of(self@.entries, id2) == if id2 == id@ {
                            count_of(e, id2) + 1
                        } else {
                            count_of(e, id2)
                        } by {
                        lemma_count_update(e, k as int, (c + 1) as nat, id2);
                    }
                    assert(keys_unique(self@.entries));
                }
                Ok(())
            },
            None => {
                proof {
                    lemma_count_absent(e, id@);
                }
                if tenant.gpu_slot_limit == 0 {
                    return Err(GpuError::TenantLimitReached);
                }
                self.tenant_ids.push(id.clone());
                self.tenant_counts.push(1);
                proof {
                    assert(self@.entries =~= e.push((id@, 1nat)));
                    assert(self@.entries.drop_last() =~= e);
                    assert forall|id2: Seq<char>|
                        #[trigger] count_of(self@.entries, id2) == if id2 == id@ {
                            count_of(e, id2) + 1
                        } else {
                            count_of(e, id2)
                        } by {}
                }
                Ok(())
            },
        }
    }

    /// Gives back one slot of `tenant_id`; an entry that reaches zero is removed.
    pub fn release_slot(&mut self, tenant_id: &str) -> (r: Result<(), GpuError>)
        requires
            old(self).wf(),
        ensures
            final(self).wf(),
            final(self)@.gpu_slots == old(self)@.gpu_slots,
            final(self)@.per_tenant_limit == old(self)@.per_tenant_limit,
            (r == Err::<(), GpuError>(GpuError::TenantHasNoSlots)) <==> old(self)@.count(
                tenant_id@,
            ) == 0,
            r is Ok <==> old(self)@.count(tenant_id@) > 0,
            r is Err ==> final(self)@ == old(self)@,
            r is Ok ==> {
                &&& final(self)@.used() + 1 == old(self)@.used()
                &&& forall|id: Seq<char>| #[trigger]
                    final(self)@.count(id) == if id == tenant_id@ {
                        (old(self)@.count(id) - 1) as nat
                    } else {
                        old(self)@.count(id)
                    }
            },
    {
        let ghost e = self@.entries;
        let id = String::from_str(tenant_id);
        match self.find(&id) {
            None => {
                proof {
                    lemma_count_absent(e, tenant_id@);
                }
                Err(GpuError::TenantHasNoSlots)
            },
            Some(k) => {
                proof {
                    lemma_count_at(e, k as int);
                }
                let c = self.tenant_counts[k];
                if c == 0 {
                    return Err(GpuError::TenantHasNoSlots);
                }
                if c == 1 {
                    self.tenant_ids.remove(k);
                    self.tenant_counts.remove(k);
                    proof {
                        assert(self@.entries =~= e.remove(k as int));
                        lemma_total_remove(e, k as int);
                        assert forall|id2: Seq<char>|
                            #[trigger] count_of(self@.entries, id2) == if id2 == tenant_id@ {
                                (count_of(e, id2) - 1) as nat
                            } else {
                                count_of(e, id2)
                            } by {
                            lemma_count_remove(e, k as int, id2);
                        }
                        assert(keys_unique(self@.entries));
                    }
                } else {
                    self.tenant_counts.set(k, c - 1);
                    proof {
                        assert(self@.entries =~= e.update(
                            k as int,
                            (e[k as int].0, (c - 1) as nat),
                        ));
                        lemma_total_update(e, k as int, (c - 1) as nat);
                        assert forall|id2: Seq<char>|
                            #[trigger] count_of(self@.entries, id2) == if id2 == tenant_id@ {
                                (count_of(e, id2) - 1) as nat
                            } else {
                                count_of(e, id2)
                            } by {
                            lemma_count_update(e, k as int, (c - 1) as nat, id2);
                        }
                        assert(keys_unique(self@.entries));
                    }
                }
                Ok(())
            },
        }
    }
}

} // verus!
