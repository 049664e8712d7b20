use vstd::prelude::*;

verus! {

/// Whether a tenant may currently submit work.
#[derive(Clone, Copy, Debug, PartialEq, Eq, Structural)]
pub enum TenantStatus {
    Active,
    Suspended,
}

/// A tenant's policy record.
pub struct Tenant {
    pub tenant_id: String,
    pub allowed_capabilities: Vec<String>,
    pub gpu_slot_limit: usize,
    /// Jobs admitted per sliding minute; 0 means unlimited.
    pub rate_limit: usize,
    pub status: TenantStatus,
}

pub struct TenantView {
    pub tenant_id: Seq<char>,
    pub allowed_capabilities: Seq<Seq<char>>,
    pub gpu_slot_limit: nat,
    pub rate_limit: nat,
    pub status: TenantStatus,
}

/// The views of a list of strings.
pub open spec fn strings_view(v: Seq<String>) -> Seq<Seq<char>> {
    v.map_values(|s: String| s@)
}

impl View for Tenant {
    type V = TenantView;

    open spec fn view(&self) -> TenantView {
        TenantView {
            tenant_id: self.tenant_id@,
            allowed_capabilities: strings_view(self.allowed_capabilities@),
            gpu_slot_limit: self.gpu_slot_limit as nat,
            rate_limit: self.rate_limit as nat,
            status: self.status,
        }
    }
}

/// The requested capabilities that `allowed` does not hold, in request order.
pub open spec fn unpermitted(allowed: Seq<Seq<char>>, requested: Seq<Seq<char>>) -> Seq<
    Seq<char>,
>
    decreases requested.len(),
{
    if requested.len() == 0 {
        Seq::empty()
    } else {
        let rest = unpermitted(allowed, requested.drop_last());
        if allowed.contains(requested.last()) {
            rest
        } else {
            rest.push(requested.last())
        }
    }
}

/// The tenant that `tenants` registers under `id`; a later record replaces an
/// earlier one with the same id.
pub open spec fn lookup(tenants: Seq<TenantView>, id: Seq<char>) -> Option<TenantView>
    decreases tenants.len(),
{
    if tenants.len() == 0 {
        None
    } else if tenants.last().tenant_id == id {
        Some(tenants.last())
    } else {
        lookup(tenants.drop_last(), id)
    }
}

/// A tenant `t` exists, is active, and may use every capability of `caps`.
pub open spec fn policy_allows(t: Option<TenantView>, caps: Seq<Seq<char>>) -> bool {
    t matches Some(tv) && tv.status == TenantStatus::Active && unpermitted(
        tv.allowed_capabilities,
        caps,
    ).len() == 0
}

/// Whether `s` holds `x`.
pub fn contains_string(s: &Vec<String>, x: &String) -> (r: bool)
    ensures
        r == strings_view(s@).contains(x@),
{
    let mut i: usize = 0;
    while i < s.len()
        invariant
            0 <= i <= s@.len(),
            forall|j: int| 0 <= j < i ==> s@[j]@ != x@,
        decreases s@.len() - i,
    {
        if s[i] == *x {
            assert(strings_view(s@)[i as int] == x@);
            return true;
        }
        i = i + 1;
    }
    assert forall|j: int| 0 <= j < strings_view(s@).len() implies strings_view(s@)[j] != x@ by {}
    false
}

/// A copy of a list of strings.
pub fn copy_strings(s: &Vec<String>) -> (r: Vec<String>)
    ensures
        strings_view(r@) == strings_view(s@),
{
    let mut r: Vec<String> = Vec::new();
    let mut i: usize = 0;
    while i < s.len()
        invariant
            0 <= i <= s@.len(),
            r@.len() == i,
            forall|j: int| 0 <= j < i ==> r@[j]@ == s@[j]@,
        decreases s@.len() - i,
    {
        r.push(s[i].clone());
        i = i + 1;
    }
    assert(strings_view(r@) =~= strings_view(s@));
    r
}

impl Tenant {
    pub fn copy(&self) -> (r: Tenant)
        ensures
            r@ == self@,
    {
        Tenant {
            tenant_id: self.tenant_id.clone(),
            allowed_capabilities: copy_strings(&self.allowed_capabilities),
            gpu_slot_limit: self.gpu_slot_limit,
            rate_limit: self.rate_limit,
            status: self.status,
        }
    }

    /// The capabilities of `requested` that this tenant may not use, in
    /// request order; empty when every request is permitted.
    pub fn unpermitted_capabilities(&self, requested: &Vec<String>) -> (r: Vec<String>)
        ensures
            strings_view(r@) == unpermitted(self@.allowed_capabilities, strings_view(requested@)),
    {
        let mut r: Vec<String> = Vec::new();
        let mut i: usize = 0;
        while i < requested.len()
            invariant
                0 <= i <= requested@.len(),
                strings_view(r@) == unpermitted(
                    self@.allowed_capabilities,
                    strings_view(requested@.subrange(0, i as int)),
                ),
            decreases requested@.len() - i,
        {
            let ghost pre = strings_view(requested@.subrange(0, i as int));
            let ghost next = strings_view(requested@.subrange(0, i + 1));
            assert(next.drop_last() =~= pre);
            assert(next.last() == requested@[i as int]@);
            if !contains_string(&self.allowed_capabilities, &requested[i]) {
                r.push(requested[i].clone());
                assert(strings_view(r@) =~= unpermitted(self@.allowed_capabilities, pre).push(
                    requested@[i as int]@,
                ));
            }
            i = i + 1;
        }
        assert(requested@.subrange(0, requested@.len() as int) =~= requested@);
        r
    }
}

/// The shape of the tenants file: a list of tenant records.
pub struct TenantFile {
    pub tenants: Vec<Tenant>,
}

/// Read-only tenant policy, keyed by tenant id.
pub struct TenantRegistry {
    tenants: Vec<Tenant>,
}

impl View for TenantRegistry {
    type V = Seq<TenantView>;

    closed spec fn view(&self) -> Seq<TenantView> {
        self.tenants@.map_values(|t: Tenant| t@)
    }
}

impl TenantRegistry {
    /// Registers every tenant of `file`; where two share an id, the later one
    /// is kept.
    pub fn from_file(file: TenantFile) -> (r: TenantRegistry)
        ensures
            r@ == file.tenants@.map_values(|t: Tenant| t@),
    {
        TenantRegistry { tenants: file.tenants }
    }

    /// A snapshot of the registry, so that readers need not hold it while
    /// they take other locks.
    pub fn copy(&self) -> (r: TenantRegistry)
        ensures
            r@ == self@,
    {
        let mut out: Vec<Tenant> = Vec::new();
        let mut i: usize = 0;
        while i < self.tenants.len()
            invariant
                0 <= i <= self.tenants@.len(),
                out@.len() == i,
                forall|j: int| 0 <= j < i ==> out@[j]@ == self.tenants@[j]@,
            decreases self.tenants@.len() - i,
        {
            out.push(self.tenants[i].copy());
            i = i + 1;
        }
        let r = TenantRegistry { tenants: out };
        assert(r@ =~= self@);
        r
    }

    /// The policy record registered under `tenant_id`.
    pub fn get(&self, tenant_id: &String) -> (r: Option<&Tenant>)
        ensures
            match r {
                Some(t) => lookup(self@, tenant_id@) == Some(t@) && t.tenant_id@ == tenant_id@,
                None => lookup(self@, tenant_id@) is None,
            },
    {
        let mut i: usize = self.tenants.len();
        assert(self@.subrange(0, i as int) =~= self@);
        while i > 0
            invariant
                0 <= i <= self@.len(),
                lookup(self@, tenant_id@) == lookup(self@.subrange(0, i as int), tenant_id@),
            decreases i,
        {
            let ghost pre = self@.subrange(0, i as int);
            assert(pre.drop_last() =~= self@.subrange(0, i - 1));
            if self.tenants[i - 1].tenant_id == *tenant_id {
                return Some(&self.tenants[i - 1]);
            }
            i = i - 1;
        }
        None
    }
}

} // verus!
