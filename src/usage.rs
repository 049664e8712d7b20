use vstd::prelude::*;

verus! {

/// Length of the rate-limit window: one minute, in nanoseconds.
pub const WINDOW_NANOS: i128 = 60_000_000_000;

/// Timestamps (Unix nanoseconds) that a clock reading can take.
pub open spec fn is_time(t: int) -> bool {
    -0x1_0000_0000_0000_0000_0000 < t < 0x1_0000_0000_0000_0000_0000
}

/// `t` lies within the window of `WINDOW_NANOS` that ends at `now`.
pub open spec fn recent(t: i128, now: i128) -> bool {
    t <= now && now - t <= WINDOW_NANOS
}

/// The timestamps of `s` that still lie within the window ending at `now`, in order.
pub open spec fn keep_recent(s: Seq<i128>, now: i128) -> Seq<i128>
    decreases s.len(),
{
    if s.len() == 0 {
        Seq::empty()
    } else {
        let rest = keep_recent(s.drop_last(), now);
        if recent(s.last(), now) {
            rest.push(s.last())
        } else {
            rest
        }
    }
}

/// Entries of the usage map: a tenant id with its admission timestamps, oldest first.
pub type UsageEntries = Seq<(Seq<char>, Seq<i128>)>;

/// Position of `id`'s entry, or -1.
pub open spec fn index_of(e: UsageEntries, id: Seq<char>) -> int
    decreases e.len(),
{
    if e.len() == 0 {
        -1
    } else if e.last().0 == id {
        e.len() - 1
    } else {
        index_of(e.drop_last(), id)
    }
}

/// The admission timestamps kept for `id`.
pub open spec fn history(e: UsageEntries, id: Seq<char>) -> Seq<i128> {
    let k = index_of(e, id);
    if k >= 0 {
        e[k].1
    } else {
        Seq::empty()
    }
}

/// The usage map after a rate-limit decision for `id` at `now`, and whether the
/// job is admitted. Old timestamps are dropped first; the job is admitted when
/// fewer than `limit` remain, and its timestamp is then appended. A limit of 0
/// admits everything and records nothing.
pub open spec fn decide(e: UsageEntries, id: Seq<char>, limit: nat, now: i128) -> (
    UsageEntries,
    bool,
) {
    if limit == 0 {
        (e, true)
    } else {
        let k = index_of(e, id);
        let kept = keep_recent(history(e, id), now);
        let ok = kept.len() < limit;
        let h = if ok {
            kept.push(now)
        } else {
            kept
        };
        if k >= 0 {
            (e.update(k, (id, h)), ok)
        } else if ok {
            (e.push((id, h)), ok)
        } else {
            (e, ok)
        }
    }
}

/// The usage map after the newest timestamp of `id` is taken back; an entry
/// left with no timestamp is removed.
pub open spec fn rollback(e: UsageEntries, id: Seq<char>) -> UsageEntries {
    let k = index_of(e, id);
    if k < 0 {
        e
    } else if e[k].1.len() <= 1 {
        e.remove(k)
    } else {
        e.update(k, (id, e[k].1.drop_last()))
    }
}

/// One entry per tenant, none of them empty, every timestamp a clock reading.
pub open spec fn usage_wf(e: UsageEntries) -> bool {
    &&& forall|i: int, j: int| 0 <= i < e.len() && 0 <= j < e.len() && i != j ==> e[i].0 != e[j].0
    &&& forall|i: int| 0 <= i < e.len() ==> e[i].1.len() > 0
    &&& forall|i: int, j: int| 0 <= i < e.len() && 0 <= j < e[i].1.len() ==> is_time(e[i].1[j] as int)
}

proof fn lemma_index_of(e: UsageEntries, id: Seq<char>)
    ensures
        -1 <= index_of(e, id) < e.len(),
        index_of(e, id) >= 0 ==> e[index_of(e, id)].0 == id,
        index_of(e, id) < 0 ==> forall|i: int| 0 <= i < e.len() ==> e[i].0 != id,
    decreases e.len(),
{
    if e.len() > 0 {
        lemma_index_of(e.drop_last(), id);
        if index_of(e, id) < 0 {
            assert forall|i: int| 0 <= i < e.len() implies e[i].0 != id by {
                if i < e.len() - 1 {
                    assert(e[i] == e.drop_last()[i]);
                }
            }
        }
    }
}

proof fn lemma_index_at(e: UsageEntries, id: Seq<char>, k: int)
    requires
        0 <= k < e.len(),
        e[k].0 == id,
        forall|i: int| 0 <= i < e.len() && i != k ==> e[i].0 != id,
    ensures
        index_of(e, id) == k,
    decreases e.len(),
{
    if k < e.len() - 1 {
        assert forall|i: int| 0 <= i < e.drop_last().len() && i != k implies e.drop_last()[i].0
            != id by {
            assert(e.drop_last()[i] == e[i]);
        }
        lemma_index_at(e.drop_last(), id, k);
    }
}

proof fn lemma_keep_recent(s: Seq<i128>, now: i128)
    ensures
        keep_recent(s, now).len() <= s.len(),
        forall|j: int| 0 <= j < keep_recent(s, now).len() ==> recent(keep_recent(s, now)[j], now),
        forall|j: int|
            0 <= j < keep_recent(s, now).len() ==> s.contains(#[trigger] keep_recent(s, now)[j]),
        (forall|j: int| 0 <= j < s.len() ==> recent(s[j], now)) ==> keep_recent(s, now) == s,
    decreases s.len(),
{
    if s.len() > 0 {
        lemma_keep_recent(s.drop_last(), now);
        let r = keep_recent(s.drop_last(), now);
        assert forall|j: int| 0 <= j < keep_recent(s, now).len() implies s.contains(
            #[trigger] keep_recent(s, now)[j],
        ) by {
            if j < r.len() {
                let w = choose|w: int| 0 <= w < s.drop_last().len() && s.drop_last()[w] == r[j];
                assert(s[w] == r[j]);
            } else {
                assert(s[s.len() - 1] == s.last());
            }
        }
        if forall|j: int| 0 <= j < s.len() ==> recent(s[j], now) {
            assert(recent(s.last(), now));
            assert(s.drop_last().push(s.last()) =~= s);
        }
    }
}

/// Rolling back a reservation restores the usage map exactly, as long as the
/// decision dropped no timestamp of the tenant.
pub proof fn lemma_rollback_restores(e: UsageEntries, id: Seq<char>, limit: nat, now: i128)
    requires
        usage_wf(e),
        limit > 0,
        decide(e, id, limit, now).1,
        forall|j: int| 0 <= j < history(e, id).len() ==> recent(history(e, id)[j], now),
    ensures
        rollback(decide(e, id, limit, now).0, id) == e,
{
    lemma_index_of(e, id);
    lemma_keep_recent(history(e, id), now);
    let k = index_of(e, id);
    let a = decide(e, id, limit, now).0;
    if k >= 0 {
        lemma_index_of(a, id);
        assert(a[k].0 == id);
        assert forall|i: int| 0 <= i < a.len() && i != k implies a[i].0 != id by {}
        lemma_index_at(a, id, k);
        assert(a[k].1.drop_last() =~= e[k].1);
        assert(rollback(a, id) =~= e);
    } else {
        lemma_index_of(a, id);
        assert(a[a.len() - 1].0 == id);
        lemma_index_at(a, id, a.len() - 1);
        assert(rollback(a, id) =~= e);
    }
}

/// Taking back a reservation never lengthens a tenant's log.
pub proof fn lemma_rollback_shrinks(e: UsageEntries, id: Seq<char>)
    requires
        usage_wf(e),
    ensures
        history(rollback(e, id), id).len() <= history(e, id).len(),
        forall|j: int|
            0 <= j < history(rollback(e, id), id).len() ==> history(e, id).contains(
                #[trigger] history(rollback(e, id), id)[j],
            ),
{
    lemma_index_of(e, id);
    let k = index_of(e, id);
    if k >= 0 {
        let n = rollback(e, id);
        lemma_index_of(n, id);
        if e[k].1.len() <= 1 {
            assert forall|i: int| 0 <= i < n.len() implies n[i].0 != id by {
                if i < k {
                    assert(n[i] == e[i]);
                } else {
                    assert(n[i] == e[i + 1]);
                }
            }
        } else {
            assert forall|i: int| 0 <= i < n.len() && i != k implies n[i].0 != id by {}
            lemma_index_at(n, id, k);
            assert forall|j: int| 0 <= j < history(n, id).len() implies history(e, id).contains(
                #[trigger] history(n, id)[j],
            ) by {
                assert(history(n, id)[j] == e[k].1[j]);
            }
        }
    }
}

/// After a decision under a fixed limit, the tenant keeps at most `limit`
/// timestamps, all within the window ending at that decision.
pub proof fn lemma_admit_bounds(e: UsageEntries, id: Seq<char>, limit: nat, now: i128)
    requires
        usage_wf(e),
        limit > 0,
        history(e, id).len() <= limit,
    ensures
        history(decide(e, id, limit, now).0, id).len() <= limit,
        forall|j: int|
            0 <= j < history(decide(e, id, limit, now).0, id).len() ==> recent(
                #[trigger] history(decide(e, id, limit, now).0, id)[j],
                now,
            ),
{
    lemma_index_of(e, id);
    lemma_keep_recent(history(e, id), now);
    let a = decide(e, id, limit, now).0;
    let kept = keep_recent(history(e, id), now);
    lemma_index_of(a, id);
    let k = index_of(e, id);
    if k >= 0 {
        assert forall|i: int| 0 <= i < a.len() && i != k implies a[i].0 != id by {}
        lemma_index_at(a, id, k);
    } else if decide(e, id, limit, now).1 {
        lemma_index_at(a, id, a.len() - 1);
    }
}

/// Sliding-window admission log, one timestamp sequence per tenant.
pub struct UsageTracker {
    tenant_ids: Vec<String>,
    stamps: Vec<Vec<i128>>,
}

impl View for UsageTracker {
    type V = UsageEntries;

    closed spec fn view(&self) -> UsageEntries {
        Seq::new(self.tenant_ids@.len(), |i: int| (self.tenant_ids@[i]@, self.stamps@[i]@))
    }
}

impl UsageTracker {
    pub closed spec fn wf(&self) -> bool {
        &&& self.tenant_ids@.len() == self.stamps@.len()
        &&& usage_wf(self@)
    }

    pub proof fn lemma_entries_wf(&self)
        requires
            self.wf(),
        ensures
            usage_wf(self@),
    {
    }

    /// An empty log.
    pub fn new() -> (r: UsageTracker)
        ensures
            r.wf(),
            r@.len() == 0,
    {
        let r = UsageTracker { tenant_ids: Vec::new(), stamps: Vec::new() };
        assert(r@ =~= Seq::<(Seq<char>, Seq<i128>)>::empty());
        r
    }

    fn find(&self, id: &String) -> (r: Option<usize>)
        requires
            self.wf(),
        ensures
            match r {
                Some(k) => k as int == index_of(self@, id@),
                None => index_of(self@, id@) == -1,
            },
    {
        proof {
            lemma_index_of(self@, id@);
        }
        let mut i: usize = 0;
        while i < self.tenant_ids.len()
            invariant
                self.wf(),
                0 <= i <= self@.len(),
                forall|j: int| 0 <= j < i ==> self@[j].0 != id@,
            decreases self@.len() - i,
        {
            if self.tenant_ids[i] == *id {
                proof {
                    lemma_index_at(self@, id@, i as int);
                }
                return Some(i);
            }
            i = i + 1;
        }
        None
    }

    /// The timestamps of `s` within the window ending at `now`.
    fn recent_stamps(s: &Vec<i128>, now: i128) -> (r: Vec<i128>)
        requires
            is_time(now as int),
            forall|j: int| 0 <= j < s@.len() ==> is_time(s@[j] as int),
        ensures
            r@ == keep_recent(s@, now),
    {
        let mut r: Vec<i128> = Vec::new();
        let mut i: usize = 0;
        while i < s.len()
            invariant
                0 <= i <= s@.len(),
                is_time(now as int),
                forall|j: int| 0 <= j < s@.len() ==> is_time(s@[j] as int),
                r@ == keep_recent(s@.subrange(0, i as int), now),
            decreases s@.len() - i,
        {
            assert(s@.subrange(0, i + 1).drop_last() =~= s@.subrange(0, i as int));
            if s[i] <= now && now - s[i] <= WINDOW_NANOS {
                r.push(s[i]);
            }
            i = i + 1;
        }
        assert(s@.subrange(0, s@.len() as int) =~= s@);
        r
    }

    /// The admission timestamps kept for `tenant_id`, oldest first.
    pub fn history_of(&self, tenant_id: &String) -> (r: Vec<i128>)
        requires
            self.wf(),
        ensures
            r@ == history(self@, tenant_id@),
    {
        proof {
            lemma_index_of(self@, tenant_id@);
        }
        match self.find(tenant_id) {
            Some(k) => Self::copy_stamps(&self.stamps[k]),
            None => Vec::new(),
        }
    }

    /// Rate-limit decision for a tenant at `now`: drops timestamps older than
    /// the window, refuses when `rate_limit` remain, and otherwise records `now`.
    pub fn try_admit(&mut self, tenant_id: &String, rate_limit: usize, now: i128) -> (r: bool)
        requires
            old(self).wf(),
            is_time(now as int),
        ensures
            final(self).wf(),
            (final(self)@, r) == decide(old(self)@, tenant_id@, rate_limit as nat, now),
    {
        if rate_limit == 0 {
            return true;
        }
        let ghost e = self@;
        proof {
            lemma_index_of(e, tenant_id@);
        }
        match self.find(tenant_id) {
            Some(k) => {
                let mut kept = Self::recent_stamps(&self.stamps[k], now);
                proof {
                    lemma_keep_recent(e[k as int].1, now);
                }
                let ok = kept.len() < rate_limit;
                if ok {
                    kept.push(now);
                }
                let ghost h = kept@;
                self.stamps.set(k, kept);
                proof {
                    assert(self@ =~= e.update(k as int, (tenant_id@, h)));
                    let a = self@;
                    assert forall|i: int, j: int| 0 <= i < a.len() && 0 <= j < a[i].1.len() implies is_time(
                        a[i].1[j] as int,
                    ) by {
                        if i == k {
                            if j < keep_recent(e[k as int].1, now).len() {
                                let v = keep_recent(e[k as int].1, now)[j];
                                assert(e[k as int].1.contains(v));
                            }
                        }
                    }
                }
                ok
            },
            None => {
                let mut h: Vec<i128> = Vec::new();
                h.push(now);
                self.tenant_ids.push(tenant_id.clone());
                self.stamps.push(h);
                proof {
                    assert(keep_recent(Seq::<i128>::empty(), now) =~= Seq::<i128>::empty());
                    assert(self@ =~= e.push((tenant_id@, seq![now])));
                    assert(Seq::<i128>::empty().push(now) =~= seq![now]);
                }
                true
            },
        }
    }

    /// Takes back the newest timestamp of `tenant_id`, removing its entry when
    /// none is left.
    pub fn rollback(&mut self, tenant_id: &String)
        requires
            old(self).wf(),
        ensures
            final(self).wf(),
            final(self)@ == rollback(old(self)@, tenant_id@),
    {
        let ghost e = self@;
        proof {
            lemma_index_of(e, tenant_id@);
        }
        match self.find(tenant_id) {
            None => {},
            Some(k) => {
                if self.stamps[k].len() <= 1 {
                    self.tenant_ids.remove(k);
                    self.stamps.remove(k);
                    proof {
                        assert(self@ =~= e.remove(k as int));
                    }
                } else {
                    let mut h = Self::copy_stamps(&self.stamps[k]);
                    h.pop();
                    self.stamps.set(k, h);
                    proof {
                        assert(self@ =~= e.update(k as int, (tenant_id@, e[k as int].1.drop_last())));
                    }
                }
            },
        }
    }

    fn copy_stamps(s: &Vec<i128>) -> (r: Vec<i128>)
        ensures
            r@ == s@,
    {
        let mut r: Vec<i128> = Vec::new();
        let mut i: usize = 0;
        while i < s.len()
            invariant
                0 <= i <= s@.len(),
                r@ == s@.subrange(0, i as int),
            decreases s@.len() - i,
        {
            r.push(s[i]);
            i = i + 1;
            assert(r@ =~= s@.subrange(0, i as int));
        }
        assert(s@.subrange(0, s@.len() as int) =~= s@);
        r
    }
}

} // verus!
