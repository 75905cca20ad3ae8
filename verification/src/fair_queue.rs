//! Bounded fair queue: scoped quotas and deficit credit over one list of waiting requests.
//!
//! Each waiting request counts against several scopes, such as its tenant and its repository. A
//! scope's usage is always the number and the bytes of the requests that wait in it, and its
//! deficit credit lives exactly as long as something waits in it.

use vstd::prelude::*;

verus! {

/// Name of one scope.
#[derive(Debug)]
pub struct ScopeKey {
    /// Tenant that the scope belongs to.
    pub tenant: String,
    /// Part of the tenant; empty for the tenant as a whole.
    pub part: String,
}

impl View for ScopeKey {
    type V = (Seq<char>, Seq<char>);

    open spec fn view(&self) -> (Seq<char>, Seq<char>) {
        (self.tenant@, self.part@)
    }
}

impl ScopeKey {
    /// Return whether two keys name the same scope.
    pub fn same(&self, other: &ScopeKey) -> (same: bool)
        ensures
            same == (self@ == other@),
    {
        self.tenant == other.tenant && self.part == other.part
    }
}

impl Clone for ScopeKey {
    fn clone(&self) -> (copy: Self)
        ensures
            copy@ == self@,
    {
        ScopeKey { tenant: self.tenant.clone(), part: self.part.clone() }
    }
}

/// What waits in one scope.
#[derive(Clone, Copy, Debug, PartialEq, Eq, Structural)]
pub struct ScopeUsage {
    /// Waiting requests.
    pub count: usize,
    /// Retained bytes.
    pub bytes: u64,
    /// Deficit credit, once a round has given some.
    pub deficit: Option<u64>,
}

/// Quota of every scope of one kind.
#[derive(Clone, Copy, Debug, PartialEq, Eq, Structural)]
pub struct ScopeQuota {
    /// Maximum waiting requests.
    pub max_count: usize,
    /// Maximum retained bytes.
    pub max_bytes: u64,
}

impl ScopeUsage {
    /// The usage of a scope in which nothing waits.
    pub open spec fn spec_empty() -> ScopeUsage {
        ScopeUsage { count: 0, bytes: 0, deficit: None }
    }

    /// The deficit credit.
    pub open spec fn credit(self) -> u64 {
        match self.deficit {
            Some(credit) => credit,
            None => 0,
        }
    }

    /// One more request fits the quota.
    pub open spec fn spec_fits(self, bytes: u64, quota: ScopeQuota) -> bool {
        self.count < quota.max_count && self.bytes + bytes <= quota.max_bytes
    }

    /// Return whether one more request fits the quota.
    pub fn fits(self, bytes: u64, quota: ScopeQuota) -> (fits: bool)
        ensures
            fits == self.spec_fits(bytes, quota),
    {
        self.count < quota.max_count && match self.bytes.checked_add(bytes) {
            Some(total) => total <= quota.max_bytes,
            None => false,
        }
    }
}

/// Usage of every scope of one kind in which something waits.
pub type ScopeMap = Map<(Seq<char>, Seq<char>), ScopeUsage>;

/// The usage recorded for a scope.
pub open spec fn usage_of(scopes: ScopeMap, key: (Seq<char>, Seq<char>)) -> ScopeUsage {
    if scopes.dom().contains(key) {
        scopes[key]
    } else {
        ScopeUsage::spec_empty()
    }
}

/// Record one more request in a scope.
pub open spec fn charged(scopes: ScopeMap, key: (Seq<char>, Seq<char>), bytes: u64) -> ScopeMap {
    let usage = usage_of(scopes, key);
    scopes.insert(
        key,
        ScopeUsage {
            count: (usage.count + 1) as usize,
            bytes: (usage.bytes + bytes) as u64,
            deficit: usage.deficit,
        },
    )
}

/// Record one request fewer in a scope, and forget a scope in which nothing is left.
pub open spec fn discharged(scopes: ScopeMap, key: (Seq<char>, Seq<char>), bytes: u64) -> ScopeMap {
    let usage = usage_of(scopes, key);
    if usage.count <= 1 {
        scopes.remove(key)
    } else {
        scopes.insert(
            key,
            ScopeUsage {
                count: (usage.count - 1) as usize,
                bytes: (usage.bytes - bytes) as u64,
                deficit: usage.deficit,
            },
        )
    }
}

/// A sum that stops at a maximum.
pub open spec fn capped(credit: u64, units: u64, maximum: u64) -> u64 {
    if credit + units > maximum {
        maximum
    } else {
        (credit + units) as u64
    }
}

/// Give every scope the credit of one round.
pub open spec fn credited(scopes: ScopeMap, quantum: u64, maximum: u64) -> ScopeMap {
    scopes.map_values(
        |usage: ScopeUsage|
            ScopeUsage {
                count: usage.count,
                bytes: usage.bytes,
                deficit: Some(capped(usage.credit(), quantum, maximum)),
            },
    )
}

/// Take service units from the credit of a scope that has some.
pub open spec fn debited(scopes: ScopeMap, key: (Seq<char>, Seq<char>), units: u64) -> ScopeMap {
    let usage = usage_of(scopes, key);
    match usage.deficit {
        Some(credit) => scopes.insert(
            key,
            ScopeUsage {
                count: usage.count,
                bytes: usage.bytes,
                deficit: Some(
                    if credit >= units {
                        (credit - units) as u64
                    } else {
                        0
                    },
                ),
            },
        ),
        None => scopes,
    }
}

/// Give service units back to a scope that has credit.
pub open spec fn refunded(
    scopes: ScopeMap,
    key: (Seq<char>, Seq<char>),
    units: u64,
    maximum: u64,
) -> ScopeMap {
    let usage = usage_of(scopes, key);
    match usage.deficit {
        Some(credit) => scopes.insert(
            key,
            ScopeUsage {
                count: usage.count,
                bytes: usage.bytes,
                deficit: Some(capped(credit, units, maximum)),
            },
        ),
        None => scopes,
    }
}

/// No scope has more credit than the maximum.
pub open spec fn credit_bounded(scopes: ScopeMap, maximum: u64) -> bool {
    forall|key: (Seq<char>, Seq<char>)| #[trigger]
        scopes.dom().contains(key) ==> scopes[key].credit() <= maximum
}

/// No scope exceeds its quota.
pub open spec fn quota_kept(scopes: ScopeMap, quota: ScopeQuota) -> bool {
    forall|key: (Seq<char>, Seq<char>)| #[trigger]
        scopes.dom().contains(key) ==> scopes[key].count <= quota.max_count && scopes[key].bytes
            <= quota.max_bytes
}

/// One scope and its usage.
#[derive(Debug)]
struct ScopeRow {
    key: ScopeKey,
    usage: ScopeUsage,
}

spec fn has_scope(rows: Seq<ScopeRow>, key: (Seq<char>, Seq<char>)) -> bool {
    exists|i: int| 0 <= i < rows.len() && (#[trigger] rows[i]).key@ == key
}

spec fn rows_map(rows: Seq<ScopeRow>) -> ScopeMap {
    Map::new(
        |key: (Seq<char>, Seq<char>)| has_scope(rows, key),
        |key: (Seq<char>, Seq<char>)|
            rows[choose|i: int| 0 <= i < rows.len() && (#[trigger] rows[i]).key@ == key].usage,
    )
}

spec fn rows_distinct(rows: Seq<ScopeRow>) -> bool {
    forall|i: int, j: int|
        #![trigger rows[i], rows[j]]
        0 <= i < j < rows.len() ==> rows[i].key@ != rows[j].key@
}

/// The map holds the usage of each row.
proof fn lemma_row_usage(rows: Seq<ScopeRow>, at: int)
    requires
        rows_distinct(rows),
        0 <= at < rows.len(),
    ensures
        rows_map(rows).dom().contains(rows[at].key@),
        rows_map(rows)[rows[at].key@] == rows[at].usage,
{
    let key = rows[at].key@;
    assert(has_scope(rows, key));
    let i = choose|i: int| 0 <= i < rows.len() && (#[trigger] rows[i]).key@ == key;
    assert(rows[i].key@ == key);
    if i < at {
        assert(rows[i].key@ != rows[at].key@);
    } else if at < i {
        assert(rows[at].key@ != rows[i].key@);
    }
}

/// Usage of every scope of one kind.
#[derive(Debug)]
pub struct ScopeTable {
    rows: Vec<ScopeRow>,
}

impl View for ScopeTable {
    type V = ScopeMap;

    closed spec fn view(&self) -> ScopeMap {
        rows_map(self.rows@)
    }
}

impl ScopeTable {
    #[verifier::type_invariant]
    spec fn distinct(self) -> bool {
        rows_distinct(self.rows@)
    }

    /// Create a table in which nothing waits.
    pub fn new() -> (table: Self)
        ensures
            table@ == ScopeMap::empty(),
    {
        let table = ScopeTable { rows: Vec::new() };
        assert(table@ =~= ScopeMap::empty());
        table
    }

    fn position(&self, key: &ScopeKey) -> (at: Option<usize>)
        ensures
            match at {
                Some(i) => i < self.rows@.len() && self.rows@[i as int].key@ == key@
                    && self@.dom().contains(key@) && self@[key@] == self.rows@[i as int].usage,
                None => !self@.dom().contains(key@),
            },
    {
        proof {
            use_type_invariant(self);
        }
        let mut at: usize = 0;
        while at < self.rows.len()
            invariant
                at <= self.rows@.len(),
                rows_distinct(self.rows@),
                forall|i: int| 0 <= i < at ==> (#[trigger] self.rows@[i]).key@ != key@,
            decreases self.rows.len() - at,
        {
            if self.rows[at].key.same(key) {
                proof {
                    lemma_row_usage(self.rows@, at as int);
                }
                return Some(at);
            }
            at = at + 1;
        }
        None
    }

    /// Return the usage of a scope.
    pub fn usage(&self, key: &ScopeKey) -> (usage: ScopeUsage)
        ensures
            usage == usage_of(self@, key@),
    {
        match self.position(key) {
            Some(at) => self.rows[at].usage,
            None => ScopeUsage { count: 0, bytes: 0, deficit: None },
        }
    }

    /// Replace the usage of a scope.
    fn set(&mut self, key: &ScopeKey, usage: ScopeUsage)
        ensures
            final(self)@ == old(self)@.insert(key@, usage),
    {
        let found = self.position(key);
        proof {
            use_type_invariant(&*self);
        }
        let ghost before = self.rows@;
        let mut rows: Vec<ScopeRow> = Vec::new();
        std::mem::swap(&mut rows, &mut self.rows);
        match found {
            Some(at) => {
                rows[at].usage = usage;
                proof {
                    assert forall|i: int| 0 <= i < rows@.len() implies (#[trigger] rows@[i]).key@
                        == before[i].key@ by {}
                    lemma_set_existing(before, rows@, at as int, usage);
                }
            },
            None => {
                rows.push(ScopeRow { key: key.clone(), usage });
                proof {
                    assert(rows@.drop_last() =~= before);
                    lemma_set_new(before, rows@);
                }
            },
        }
        self.rows = rows;
    }

    /// Forget a scope.
    fn forget(&mut self, key: &ScopeKey)
        ensures
            final(self)@ == old(self)@.remove(key@),
    {
        let found = self.position(key);
        proof {
            use_type_invariant(&*self);
        }
        let ghost before = self.rows@;
        let mut rows: Vec<ScopeRow> = Vec::new();
        std::mem::swap(&mut rows, &mut self.rows);
        match found {
            Some(at) => {
                let _ = rows.remove(at);
                proof {
                    lemma_forget(before, at as int);
                }
            },
            None => {
                assert(rows_map(before) =~= rows_map(before).remove(key@));
            },
        }
        self.rows = rows;
    }

    /// Record one more request in a scope.
    pub fn charge(&mut self, key: &ScopeKey, bytes: u64)
        requires
            usage_of(old(self)@, key@).count < usize::MAX,
            usage_of(old(self)@, key@).bytes + bytes <= u64::MAX,
        ensures
            final(self)@ == charged(old(self)@, key@, bytes),
    {
        let usage = self.usage(key);
        self.set(
            key,
            ScopeUsage {
                count: usage.count + 1,
                bytes: usage.bytes + bytes,
                deficit: usage.deficit,
            },
        );
    }

    /// Record one request fewer in a scope, and forget a scope in which nothing is left.
    pub fn discharge(&mut self, key: &ScopeKey, bytes: u64)
        requires
            usage_of(old(self)@, key@).bytes >= bytes,
        ensures
            final(self)@ == discharged(old(self)@, key@, bytes),
    {
        let usage = self.usage(key);
        if usage.count <= 1 {
            self.forget(key);
        } else {
            self.set(
                key,
                ScopeUsage {
                    count: usage.count - 1,
                    bytes: usage.bytes - bytes,
                    deficit: usage.deficit,
                },
            );
        }
    }

    /// Take service units from the credit of a scope that has some.
    pub fn debit(&mut self, key: &ScopeKey, units: u64)
        ensures
            final(self)@ == debited(old(self)@, key@, units),
    {
        let usage = self.usage(key);
        match usage.deficit {
            Some(credit) => {
                self.set(
                    key,
                    ScopeUsage {
                        count: usage.count,
                        bytes: usage.bytes,
                        deficit: Some(credit.saturating_sub(units)),
                    },
                );
            },
            None => {},
        }
    }

    /// Give service units back to a scope that has credit.
    pub fn refund(&mut self, key: &ScopeKey, units: u64, maximum: u64)
        ensures
            final(self)@ == refunded(old(self)@, key@, units, maximum),
    {
        let usage = self.usage(key);
        match usage.deficit {
            Some(credit) => {
                self.set(
                    key,
                    ScopeUsage {
                        count: usage.count,
                        bytes: usage.bytes,
                        deficit: Some(capped_sum(credit, units, maximum)),
                    },
                );
            },
            None => {},
        }
    }

    /// Give every scope the credit of one round.
    pub fn credit(&mut self, quantum: u64, maximum: u64)
        ensures
            final(self)@ == credited(old(self)@, quantum, maximum),
    {
        proof {
            use_type_invariant(&*self);
        }
        let ghost before = self.rows@;
        let mut rows: Vec<ScopeRow> = Vec::new();
        std::mem::swap(&mut rows, &mut self.rows);
        let mut at: usize = 0;
        while at < rows.len()
            invariant
                at <= rows@.len(),
                rows@.len() == before.len(),
                forall|i: int|
                    0 <= i < rows@.len() ==> (#[trigger] rows@[i]).key@ == before[i].key@,
                forall|i: int|
                    0 <= i < at ==> (#[trigger] rows@[i]).usage == (ScopeUsage {
                        count: before[i].usage.count,
                        bytes: before[i].usage.bytes,
                        deficit: Some(capped(before[i].usage.credit(), quantum, maximum)),
                    }),
                forall|i: int| at <= i < rows@.len() ==> #[trigger] rows@[i] == before[i],
            decreases rows.len() - at,
        {
            let usage = rows[at].usage;
            let credit: u64 = match usage.deficit {
                Some(credit) => credit,
                None => 0,
            };
            rows[at].usage =
            ScopeUsage {
                count: usage.count,
                bytes: usage.bytes,
                deficit: Some(capped_sum(credit, quantum, maximum)),
            };
            at = at + 1;
        }
        proof {
            let after = rows@;
            assert(rows_distinct(after)) by {
                assert forall|i: int, j: int|
                    #![trigger after[i], after[j]]
                    0 <= i < j < after.len() implies after[i].key@ != after[j].key@ by {
                    assert(before[i].key@ != before[j].key@);
                }
            }
            let wanted = credited(rows_map(before), quantum, maximum);
            assert forall|key: (Seq<char>, Seq<char>)|
                has_scope(after, key) <==> has_scope(before, key) by {
                if has_scope(after, key) {
                    let i = choose|i: int| 0 <= i < after.len() && (#[trigger] after[i]).key@ == key;
                    assert(before[i].key@ == key);
                }
                if has_scope(before, key) {
                    let i = choose|i: int|
                        0 <= i < before.len() && (#[trigger] before[i]).key@ == key;
                    assert(after[i].key@ == key);
                }
            }
            assert forall|key: (Seq<char>, Seq<char>)|
                has_scope(after, key) implies #[trigger] rows_map(after)[key] == wanted[key] by {
                let i = choose|i: int| 0 <= i < after.len() && (#[trigger] after[i]).key@ == key;
                lemma_row_usage(after, i);
                assert(before[i].key@ == key);
                lemma_row_usage(before, i);
            }
            assert(rows_map(after) =~= wanted);
        }
        self.rows = rows;
    }
}

/// A sum that stops at a maximum.
fn capped_sum(credit: u64, units: u64, maximum: u64) -> (sum: u64)
    ensures
        sum == capped(credit, units, maximum),
{
    match credit.checked_add(units) {
        Some(total) => if total > maximum {
            maximum
        } else {
            total
        },
        None => maximum,
    }
}

proof fn lemma_set_existing(before: Seq<ScopeRow>, after: Seq<ScopeRow>, at: int, usage: ScopeUsage)
    requires
        rows_distinct(before),
        0 <= at < before.len(),
        after.len() == before.len(),
        forall|i: int| 0 <= i < after.len() ==> (#[trigger] after[i]).key@ == before[i].key@,
        forall|i: int| 0 <= i < after.len() && i != at ==> #[trigger] after[i] == before[i],
        after[at].usage == usage,
    ensures
        rows_distinct(after),
        rows_map(after) == rows_map(before).insert(before[at].key@, usage),
{
    assert forall|i: int, j: int|
        #![trigger after[i], after[j]]
        0 <= i < j < after.len() implies after[i].key@ != after[j].key@ by {
        assert(before[i].key@ != before[j].key@);
    }
    let wanted = rows_map(before).insert(before[at].key@, usage);
    assert forall|key: (Seq<char>, Seq<char>)| has_scope(after, key) <==> has_scope(before, key) by {
        if has_scope(after, key) {
            let i = choose|i: int| 0 <= i < after.len() && (#[trigger] after[i]).key@ == key;
            assert(before[i].key@ == key);
        }
        if has_scope(before, key) {
            let i = choose|i: int| 0 <= i < before.len() && (#[trigger] before[i]).key@ == key;
            assert(after[i].key@ == key);
        }
    }
    assert(has_scope(before, before[at].key@));
    assert forall|key: (Seq<char>, Seq<char>)| has_scope(after, key) implies #[trigger] rows_map(
        after,
    )[key] == wanted[key] by {
        let i = choose|i: int| 0 <= i < after.len() && (#[trigger] after[i]).key@ == key;
        lemma_row_usage(after, i);
        assert(before[i].key@ == key);
        lemma_row_usage(before, i);
        lemma_row_usage(after, at);
        if key != before[at].key@ {
            assert(i != at);
        }
    }
    assert(rows_map(after) =~= wanted);
}

proof fn lemma_set_new(before: Seq<ScopeRow>, after: Seq<ScopeRow>)
    requires
        rows_distinct(before),
        after.len() == before.len() + 1,
        after.drop_last() == before,
        !has_scope(before, after.last().key@),
    ensures
        rows_distinct(after),
        rows_map(after) == rows_map(before).insert(after.last().key@, after.last().usage),
{
    let n = before.len() as int;
    let row = after.last();
    assert forall|i: int| 0 <= i < n implies after[i] == before[i] by {
        assert(after.drop_last()[i] == before[i]);
    }
    assert(after[n] == row);
    assert forall|i: int, j: int|
        #![trigger after[i], after[j]]
        0 <= i < j < after.len() implies after[i].key@ != after[j].key@ by {
        if j < n {
            assert(before[i].key@ != before[j].key@);
        } else {
            assert(before[i].key@ != row.key@);
        }
    }
    let wanted = rows_map(before).insert(row.key@, row.usage);
    assert forall|key: (Seq<char>, Seq<char>)|
        has_scope(after, key) <==> has_scope(before, key) || key == row.key@ by {
        if has_scope(after, key) {
            let i = choose|i: int| 0 <= i < after.len() && (#[trigger] after[i]).key@ == key;
            if i < n {
                assert(before[i].key@ == key);
            }
        }
        if has_scope(before, key) {
            let i = choose|i: int| 0 <= i < before.len() && (#[trigger] before[i]).key@ == key;
            assert(after[i].key@ == key);
        }
    }
    assert forall|key: (Seq<char>, Seq<char>)| has_scope(after, key) implies #[trigger] rows_map(
        after,
    )[key] == wanted[key] by {
        let i = choose|i: int| 0 <= i < after.len() && (#[trigger] after[i]).key@ == key;
        lemma_row_usage(after, i);
        if i < n {
            assert(before[i].key@ == key);
            lemma_row_usage(before, i);
        }
    }
    assert(rows_map(after) =~= wanted);
}

proof fn lemma_forget(before: Seq<ScopeRow>, at: int)
    requires
        rows_distinct(before),
        0 <= at < before.len(),
    ensures
        rows_distinct(before.remove(at)),
        rows_map(before.remove(at)) == rows_map(before).remove(before[at].key@),
{
    let after = before.remove(at);
    let gone = before[at].key@;
    assert forall|i: int, j: int|
        #![trigger after[i], after[j]]
        0 <= i < j < after.len() implies after[i].key@ != after[j].key@ by {
        let p = if i < at {
            i
        } else {
            i + 1
        };
        let q = if j < at {
            j
        } else {
            j + 1
        };
        assert(after[i] == before[p] && after[j] == before[q]);
        assert(before[p].key@ != before[q].key@);
    }
    let wanted = rows_map(before).remove(gone);
    assert forall|key: (Seq<char>, Seq<char>)|
        has_scope(after, key) <==> has_scope(before, key) && key != gone by {
        if has_scope(after, key) {
            let i = choose|i: int| 0 <= i < after.len() && (#[trigger] after[i]).key@ == key;
            let p = if i < at {
                i
            } else {
                i + 1
            };
            assert(before[p].key@ == key);
            if p < at {
                assert(before[p].key@ != before[at].key@);
            } else {
                assert(before[at].key@ != before[p].key@);
            }
        }
        if has_scope(before, key) && key != gone {
            let i = choose|i: int| 0 <= i < before.len() && (#[trigger] before[i]).key@ == key;
            if i < at {
                assert(after[i].key@ == key);
            } else {
                assert(after[i - 1].key@ == key);
            }
        }
    }
    assert forall|key: (Seq<char>, Seq<char>)| has_scope(after, key) implies #[trigger] rows_map(
        after,
    )[key] == wanted[key] by {
        let i = choose|i: int| 0 <= i < after.len() && (#[trigger] after[i]).key@ == key;
        lemma_row_usage(after, i);
        let p = if i < at {
            i
        } else {
            i + 1
        };
        assert(after[i] == before[p]);
        lemma_row_usage(before, p);
    }
    assert(rows_map(after) =~= wanted);
}

/// What one request counts for in one scope.
pub type ScopeCharge = ((Seq<char>, Seq<char>), u64);

/// Requests that count in a scope.
pub open spec fn count_in(charges: Seq<ScopeCharge>, key: (Seq<char>, Seq<char>)) -> int
    decreases charges.len(),
{
    if charges.len() == 0 {
        0
    } else {
        count_in(charges.drop_last(), key) + if charges.last().0 == key {
            1int
        } else {
            0
        }
    }
}

/// Bytes that count in a scope.
pub open spec fn bytes_in(charges: Seq<ScopeCharge>, key: (Seq<char>, Seq<char>)) -> int
    decreases charges.len(),
{
    if charges.len() == 0 {
        0
    } else {
        bytes_in(charges.drop_last(), key) + if charges.last().0 == key {
            charges.last().1 as int
        } else {
            0
        }
    }
}

/// The recorded usage is what waits.
pub open spec fn scope_matches(scopes: ScopeMap, charges: Seq<ScopeCharge>) -> bool {
    forall|key: (Seq<char>, Seq<char>)|
        #![trigger scopes.dom().contains(key)]
        #![trigger count_in(charges, key)]
        {
            &&& scopes.dom().contains(key) <==> count_in(charges, key) > 0
            &&& scopes.dom().contains(key) ==> scopes[key].count == count_in(charges, key)
                && scopes[key].bytes == bytes_in(charges, key)
        }
}

/// Counts and bytes are never negative, a count never exceeds the number of requests, and bytes wait
/// only where requests do.
pub proof fn lemma_counts(charges: Seq<ScopeCharge>, key: (Seq<char>, Seq<char>))
    ensures
        0 <= count_in(charges, key) <= charges.len(),
        0 <= bytes_in(charges, key),
        count_in(charges, key) == 0 ==> bytes_in(charges, key) == 0,
    decreases charges.len(),
{
    if charges.len() > 0 {
        lemma_counts(charges.drop_last(), key);
    }
}

/// Removing a request takes away what it counted for.
proof fn lemma_counts_remove(charges: Seq<ScopeCharge>, at: int, key: (Seq<char>, Seq<char>))
    requires
        0 <= at < charges.len(),
    ensures
        count_in(charges.remove(at), key) == count_in(charges, key) - if charges[at].0 == key {
            1int
        } else {
            0
        },
        bytes_in(charges.remove(at), key) == bytes_in(charges, key) - if charges[at].0 == key {
            charges[at].1 as int
        } else {
            0
        },
    decreases charges.len(),
{
    let after = charges.remove(at);
    if at == charges.len() - 1 {
        assert(after =~= charges.drop_last());
    } else {
        lemma_counts_remove(charges.drop_last(), at, key);
        assert(after.drop_last() =~= charges.drop_last().remove(at));
        assert(after.last() == charges.last());
    }
}

/// Recording a request that joins keeps the record right.
pub proof fn lemma_charged_matches(
    scopes: ScopeMap,
    charges: Seq<ScopeCharge>,
    key: (Seq<char>, Seq<char>),
    bytes: u64,
)
    requires
        scope_matches(scopes, charges),
        usage_of(scopes, key).count < usize::MAX,
        usage_of(scopes, key).bytes + bytes <= u64::MAX,
    ensures
        scope_matches(charged(scopes, key, bytes), charges.push((key, bytes))),
{
    let more = charges.push((key, bytes));
    let after = charged(scopes, key, bytes);
    assert(more.drop_last() =~= charges);
    assert(more.last() == (key, bytes));
    lemma_counts(charges, key);
    assert(scopes.dom().contains(key) <==> count_in(charges, key) > 0);
    assert forall|k: (Seq<char>, Seq<char>)|
        #![trigger after.dom().contains(k)]
        #![trigger count_in(more, k)]
        {
            &&& after.dom().contains(k) <==> count_in(more, k) > 0
            &&& after.dom().contains(k) ==> after[k].count == count_in(more, k) && after[k].bytes
                == bytes_in(more, k)
        } by {
        lemma_counts(charges, k);
        assert(scopes.dom().contains(k) <==> count_in(charges, k) > 0);
    }
}

/// Recording a request that leaves keeps the record right.
pub proof fn lemma_discharged_matches(scopes: ScopeMap, charges: Seq<ScopeCharge>, at: int)
    requires
        scope_matches(scopes, charges),
        0 <= at < charges.len(),
    ensures
        scope_matches(discharged(scopes, charges[at].0, charges[at].1), charges.remove(at)),
        usage_of(scopes, charges[at].0).bytes >= charges[at].1,
        usage_of(scopes, charges[at].0).count >= 1,
{
    let key = charges[at].0;
    let bytes = charges[at].1;
    let fewer = charges.remove(at);
    let after = discharged(scopes, key, bytes);
    lemma_counts_remove(charges, at, key);
    lemma_counts(fewer, key);
    lemma_counts(charges, key);
    assert(scopes.dom().contains(key) <==> count_in(charges, key) > 0);
    assert forall|k: (Seq<char>, Seq<char>)|
        #![trigger after.dom().contains(k)]
        #![trigger count_in(fewer, k)]
        {
            &&& after.dom().contains(k) <==> count_in(fewer, k) > 0
            &&& after.dom().contains(k) ==> after[k].count == count_in(fewer, k) && after[k].bytes
                == bytes_in(fewer, k)
        } by {
        lemma_counts_remove(charges, at, k);
        lemma_counts(charges, k);
        lemma_counts(fewer, k);
        assert(scopes.dom().contains(k) <==> count_in(charges, k) > 0);
    }
}

/// Two records with the same counts and bytes are right together.
pub proof fn lemma_same_usage_matches(before: ScopeMap, after: ScopeMap, charges: Seq<ScopeCharge>)
    requires
        scope_matches(before, charges),
        forall|key: (Seq<char>, Seq<char>)| #[trigger]
            after.dom().contains(key) <==> before.dom().contains(key),
        forall|key: (Seq<char>, Seq<char>)| #[trigger]
            after.dom().contains(key) ==> after[key].count == before[key].count
                && after[key].bytes == before[key].bytes,
    ensures
        scope_matches(after, charges),
{
    assert forall|key: (Seq<char>, Seq<char>)|
        #![trigger after.dom().contains(key)]
        #![trigger count_in(charges, key)]
        {
            &&& after.dom().contains(key) <==> count_in(charges, key) > 0
            &&& after.dom().contains(key) ==> after[key].count == count_in(charges, key)
                && after[key].bytes == bytes_in(charges, key)
        } by {
        assert(before.dom().contains(key) <==> count_in(charges, key) > 0);
    }
}

/// Changing credit changes no count and no bytes.
pub proof fn lemma_credit_keeps_usage(
    scopes: ScopeMap,
    charges: Seq<ScopeCharge>,
    key: (Seq<char>, Seq<char>),
    units: u64,
    maximum: u64,
)
    requires
        scope_matches(scopes, charges),
    ensures
        scope_matches(credited(scopes, units, maximum), charges),
        scope_matches(debited(scopes, key, units), charges),
        scope_matches(refunded(scopes, key, units, maximum), charges),
        credit_bounded(credited(scopes, units, maximum), maximum),
        credit_bounded(scopes, maximum) ==> credit_bounded(debited(scopes, key, units), maximum)
            && credit_bounded(refunded(scopes, key, units, maximum), maximum),
{
    let rich = credited(scopes, units, maximum);
    assert(rich.dom() =~= scopes.dom());
    lemma_same_usage_matches(scopes, rich, charges);
    lemma_same_usage_matches(scopes, debited(scopes, key, units), charges);
    lemma_same_usage_matches(scopes, refunded(scopes, key, units, maximum), charges);
}

/// Taking units that the credit covers and giving them back restores the credit.
pub proof fn law_refund_undoes_debit(
    scopes: ScopeMap,
    key: (Seq<char>, Seq<char>),
    units: u64,
    maximum: u64,
)
    requires
        credit_bounded(scopes, maximum),
        units <= usage_of(scopes, key).credit(),
    ensures
        refunded(debited(scopes, key, units), key, units, maximum) == scopes,
{
    assert(refunded(debited(scopes, key, units), key, units, maximum) =~= scopes);
}

/// A request that joins and leaves again leaves the record of its scope as it was.
pub proof fn law_discharge_undoes_charge(
    scopes: ScopeMap,
    charges: Seq<ScopeCharge>,
    key: (Seq<char>, Seq<char>),
    bytes: u64,
)
    requires
        scope_matches(scopes, charges),
        usage_of(scopes, key).count < usize::MAX,
        usage_of(scopes, key).bytes + bytes <= u64::MAX,
    ensures
        discharged(charged(scopes, key, bytes), key, bytes) == scopes,
{
    lemma_counts(charges, key);
    assert(scopes.dom().contains(key) <==> count_in(charges, key) > 0);
    assert(discharged(charged(scopes, key, bytes), key, bytes) =~= scopes);
}

/// One waiting request.
#[derive(Debug)]
pub struct QueueSlot<R> {
    /// Ticket of the request.
    pub ticket: u64,
    /// Scopes that the request counts in, one of each kind.
    pub keys: Vec<ScopeKey>,
    /// Retained bytes.
    pub bytes: u64,
    /// The request.
    pub request: R,
}

/// What the slots count for in scopes of one kind.
pub open spec fn slot_charges<R>(slots: Seq<QueueSlot<R>>, kind: int) -> Seq<ScopeCharge> {
    Seq::new(slots.len(), |i: int| (slots[i].keys@[kind]@, slots[i].bytes))
}

/// Bytes that the slots retain.
pub open spec fn slot_bytes<R>(slots: Seq<QueueSlot<R>>) -> int
    decreases slots.len(),
{
    if slots.len() == 0 {
        0
    } else {
        slot_bytes(slots.drop_last()) + slots.last().bytes
    }
}

/// Removing a slot takes its bytes away.
proof fn lemma_bytes_remove<R>(slots: Seq<QueueSlot<R>>, at: int)
    requires
        0 <= at < slots.len(),
    ensures
        slot_bytes(slots.remove(at)) == slot_bytes(slots) - slots[at].bytes,
        slot_bytes(slots.remove(at)) >= 0,
    decreases slots.len(),
{
    let after = slots.remove(at);
    if at == slots.len() - 1 {
        assert(after =~= slots.drop_last());
        lemma_bytes_nonnegative(after);
    } else {
        lemma_bytes_remove(slots.drop_last(), at);
        assert(after.drop_last() =~= slots.drop_last().remove(at));
        assert(after.last() == slots.last());
    }
}

proof fn lemma_bytes_nonnegative<R>(slots: Seq<QueueSlot<R>>)
    ensures
        slot_bytes(slots) >= 0,
    decreases slots.len(),
{
    if slots.len() > 0 {
        lemma_bytes_nonnegative(slots.drop_last());
    }
}

/// Waiting requests with the usage of their scopes.
#[derive(Debug)]
pub struct FairQueue<R> {
    /// Ticket of the next request.
    pub next_ticket: u64,
    /// Waiting requests in order of arrival.
    pub slots: Vec<QueueSlot<R>>,
    /// Bytes that they retain.
    pub queued_bytes: u64,
    /// Usage of the scopes of each kind.
    pub scopes: Vec<ScopeTable>,
    /// Where the next scan starts.
    pub cursor: usize,
    /// Tickets being offered to the controller.
    pub dispatching: Vec<u64>,
}

impl<R> FairQueue<R> {
    /// The usage of the scopes of one kind.
    pub open spec fn scope(self, kind: int) -> ScopeMap {
        self.scopes@[kind]@
    }

    /// Tickets increase in order of arrival, and every record is what waits.
    pub open spec fn wf(self) -> bool {
        &&& forall|i: int|
            0 <= i < self.slots@.len() ==> (#[trigger] self.slots@[i]).keys@.len()
                == self.scopes@.len() && self.slots@[i].ticket < self.next_ticket
        &&& forall|i: int, j: int|
            #![trigger self.slots@[i], self.slots@[j]]
            0 <= i < j < self.slots@.len() ==> self.slots@[i].ticket < self.slots@[j].ticket
        &&& self.queued_bytes == slot_bytes(self.slots@)
        &&& forall|kind: int|
            0 <= kind < self.scopes@.len() ==> scope_matches(
                #[trigger] self.scope(kind),
                slot_charges(self.slots@, kind),
            )
        &&& self.dispatching@.no_duplicates()
    }

    /// Only the scopes' credit differs.
    pub open spec fn same_but_credit(self, other: Self) -> bool {
        &&& self.next_ticket == other.next_ticket
        &&& self.slots@ == other.slots@
        &&& self.queued_bytes == other.queued_bytes
        &&& self.scopes@.len() == other.scopes@.len()
        &&& self.cursor == other.cursor
        &&& self.dispatching@ == other.dispatching@
    }

    /// A request with this ticket waits.
    pub open spec fn waits(self, ticket: u64) -> bool {
        exists|i: int| 0 <= i < self.slots@.len() && (#[trigger] self.slots@[i]).ticket == ticket
    }

    /// Create an empty queue with scopes of `kinds` kinds.
    pub fn new(kinds: usize) -> (queue: Self)
        ensures
            queue.wf(),
            queue.next_ticket == 1,
            queue.slots@ == Seq::<QueueSlot<R>>::empty(),
            queue.queued_bytes == 0,
            queue.cursor == 0,
            queue.scopes@.len() == kinds,
            forall|kind: int| 0 <= kind < kinds ==> #[trigger] queue.scope(kind) == ScopeMap::empty(),
            queue.dispatching@ == Seq::<u64>::empty(),
    {
        let mut scopes: Vec<ScopeTable> = Vec::new();
        while scopes.len() < kinds
            invariant
                scopes@.len() <= kinds,
                forall|kind: int|
                    0 <= kind < scopes@.len() ==> (#[trigger] scopes@[kind])@ == ScopeMap::empty(),
            decreases kinds - scopes.len(),
        {
            scopes.push(ScopeTable::new());
        }
        let queue = FairQueue {
            next_ticket: 1,
            slots: Vec::new(),
            queued_bytes: 0,
            scopes,
            cursor: 0,
            dispatching: Vec::new(),
        };
        proof {
            assert forall|kind: int| 0 <= kind < queue.scopes@.len() implies scope_matches(
                #[trigger] queue.scope(kind),
                slot_charges(queue.slots@, kind),
            ) by {
                assert(queue.scopes@[kind]@ == ScopeMap::empty());
                assert(slot_charges(queue.slots@, kind) =~= Seq::<ScopeCharge>::empty());
            }
        }
        queue
    }

    /// Append a request and return its ticket.
    pub fn push(&mut self, keys: Vec<ScopeKey>, bytes: u64, request: R) -> (ticket: u64)
        requires
            old(self).wf(),
            old(self).next_ticket < u64::MAX,
            old(self).queued_bytes + bytes <= u64::MAX,
            keys@.len() == old(self).scopes@.len(),
            forall|kind: int|
                0 <= kind < keys@.len() ==> usage_of(
                    #[trigger] old(self).scope(kind),
                    keys@[kind]@,
                ).count < usize::MAX && usage_of(old(self).scope(kind), keys@[kind]@).bytes + bytes
                    <= u64::MAX,
        ensures
            final(self).wf(),
            ticket == old(self).next_ticket,
            final(self).next_ticket == old(self).next_ticket + 1,
            final(self).slots@ == old(self).slots@.push((QueueSlot { ticket, keys, bytes, request })),
            final(self).queued_bytes == old(self).queued_bytes + bytes,
            final(self).scopes@.len() == old(self).scopes@.len(),
            forall|kind: int|
                0 <= kind < old(self).scopes@.len() ==> #[trigger] final(self).scope(kind)
                    == charged(old(self).scope(kind), keys@[kind]@, bytes),
            final(self).cursor == old(self).cursor,
            final(self).dispatching@ == old(self).dispatching@,
    {
        let mut kind: usize = 0;
        let ghost before = *self;
        while kind < keys.len()
            invariant
                kind <= keys@.len(),
                keys@.len() == before.scopes@.len(),
                self.same_but_credit(before),
                forall|k: int|
                    0 <= k < kind ==> #[trigger] self.scope(k) == charged(
                        before.scope(k),
                        keys@[k]@,
                        bytes,
                    ),
                forall|k: int|
                    kind <= k < keys@.len() ==> #[trigger] self.scope(k) == before.scope(k),
                forall|k: int|
                    0 <= k < keys@.len() ==> usage_of(
                        #[trigger] before.scope(k),
                        keys@[k]@,
                    ).count < usize::MAX && usage_of(before.scope(k), keys@[k]@).bytes + bytes
                        <= u64::MAX,
            decreases keys.len() - kind,
        {
            assert(self.scope(kind as int) == before.scope(kind as int));
            let ghost prior = *self;
            self.scopes[kind].charge(&keys[kind], bytes);
            proof {
                assert forall|k: int| 0 <= k < keys@.len() && k != kind implies #[trigger] self.scope(
                    k,
                ) == prior.scope(k) by {}
                assert forall|k: int| 0 <= k < kind + 1 implies #[trigger] self.scope(k)
                    == charged(before.scope(k), keys@[k]@, bytes) by {
                    if k < kind {
                        assert(prior.scope(k) == charged(before.scope(k), keys@[k]@, bytes));
                    }
                }
            }
            kind = kind + 1;
        }
        let ghost done = *self;
        let ticket: u64 = self.next_ticket;
        let slot = QueueSlot { ticket, keys, bytes, request };
        self.next_ticket = ticket + 1;
        self.queued_bytes = self.queued_bytes + bytes;
        self.slots.push(slot);
        proof {
            assert(self.slots@.drop_last() =~= before.slots@);
            assert forall|k: int| 0 <= k < self.scopes@.len() implies #[trigger] self.scope(k)
                == charged(before.scope(k), slot.keys@[k]@, bytes) by {
                assert(self.scope(k) == done.scope(k));
            }
            assert forall|k: int| 0 <= k < self.scopes@.len() implies scope_matches(
                #[trigger] self.scope(k),
                slot_charges(self.slots@, k),
            ) by {
                assert(scope_matches(before.scope(k), slot_charges(before.slots@, k)));
                lemma_charged_matches(
                    before.scope(k),
                    slot_charges(before.slots@, k),
                    slot.keys@[k]@,
                    bytes,
                );
                assert(slot_charges(self.slots@, k) =~= slot_charges(before.slots@, k).push(
                    (slot.keys@[k]@, bytes),
                ));
            }
        }
        ticket
    }

    /// Find a waiting request, first at the expected place.
    pub fn locate(&self, ticket: u64, expected: usize) -> (at: Option<usize>)
        ensures
            match at {
                Some(i) => i < self.slots@.len() && self.slots@[i as int].ticket == ticket,
                None => !self.waits(ticket),
            },
    {
        if expected < self.slots.len() && self.slots[expected].ticket == ticket {
            return Some(expected);
        }
        let mut at: usize = 0;
        while at < self.slots.len()
            invariant
                at <= self.slots@.len(),
                forall|i: int| 0 <= i < at ==> (#[trigger] self.slots@[i]).ticket != ticket,
            decreases self.slots.len() - at,
        {
            if self.slots[at].ticket == ticket {
                return Some(at);
            }
            at = at + 1;
        }
        None
    }

    /// Remove a waiting request.
    pub fn remove(&mut self, at: usize) -> (slot: QueueSlot<R>)
        requires
            old(self).wf(),
            at < old(self).slots@.len(),
        ensures
            final(self).wf(),
            slot == old(self).slots@[at as int],
            final(self).slots@ == old(self).slots@.remove(at as int),
            final(self).queued_bytes == old(self).queued_bytes - slot.bytes,
            final(self).next_ticket == old(self).next_ticket,
            final(self).scopes@.len() == old(self).scopes@.len(),
            forall|kind: int|
                0 <= kind < old(self).scopes@.len() ==> #[trigger] final(self).scope(kind)
                    == discharged(old(self).scope(kind), slot.keys@[kind]@, slot.bytes),
            final(self).cursor == old(self).cursor,
            final(self).dispatching@ == old(self).dispatching@,
    {
        let ghost before = *self;
        proof {
            lemma_bytes_remove(self.slots@, at as int);
        }
        let slot = self.slots.remove(at);
        self.queued_bytes = self.queued_bytes - slot.bytes;
        let kinds: usize = self.scopes.len();
        let mut kind: usize = 0;
        while kind < kinds
            invariant
                kind <= kinds,
                kinds == before.scopes@.len(),
                kinds == self.scopes@.len(),
                kinds == slot.keys@.len(),
                at < before.slots@.len(),
                before.wf(),
                slot == before.slots@[at as int],
                self.slots@ == before.slots@.remove(at as int),
                self.queued_bytes == before.queued_bytes - slot.bytes,
                self.next_ticket == before.next_ticket,
                self.cursor == before.cursor,
                self.dispatching@ == before.dispatching@,
                forall|k: int|
                    0 <= k < kind ==> #[trigger] self.scope(k) == discharged(
                        before.scope(k),
                        slot.keys@[k]@,
                        slot.bytes,
                    ),
                forall|k: int|
                    kind <= k < kinds ==> #[trigger] self.scope(k) == before.scope(k),
            decreases kinds - kind,
        {
            proof {
                assert(self.scope(kind as int) == before.scope(kind as int));
                assert(scope_matches(
                    before.scope(kind as int),
                    slot_charges(before.slots@, kind as int),
                ));
                lemma_discharged_matches(
                    before.scope(kind as int),
                    slot_charges(before.slots@, kind as int),
                    at as int,
                );
            }
            let ghost prior = *self;
            self.scopes[kind].discharge(&slot.keys[kind], slot.bytes);
            proof {
                assert forall|k: int| 0 <= k < kinds && k != kind implies #[trigger] self.scope(k)
                    == prior.scope(k) by {}
                assert forall|k: int| 0 <= k < kind + 1 implies #[trigger] self.scope(k)
                    == discharged(before.scope(k), slot.keys@[k]@, slot.bytes) by {
                    if k < kind {
                        assert(prior.scope(k) == discharged(
                            before.scope(k),
                            slot.keys@[k]@,
                            slot.bytes,
                        ));
                    }
                }
            }
            kind = kind + 1;
        }
        proof {
            assert forall|k: int| 0 <= k < self.scopes@.len() implies scope_matches(
                #[trigger] self.scope(k),
                slot_charges(self.slots@, k),
            ) by {
                assert(scope_matches(before.scope(k), slot_charges(before.slots@, k)));
                lemma_discharged_matches(
                    before.scope(k),
                    slot_charges(before.slots@, k),
                    at as int,
                );
                assert(slot_charges(self.slots@, k) =~= slot_charges(before.slots@, k).remove(
                    at as int,
                ));
            }
        }
        slot
    }

    /// Give every scope the credit of one round.
    pub fn credit(&mut self, quantum: u64, maximum: u64)
        requires
            old(self).wf(),
        ensures
            final(self).wf(),
            final(self).same_but_credit(*old(self)),
            forall|kind: int|
                0 <= kind < old(self).scopes@.len() ==> #[trigger] final(self).scope(kind)
                    == credited(old(self).scope(kind), quantum, maximum),
    {
        let ghost before = *self;
        let kinds: usize = self.scopes.len();
        let mut kind: usize = 0;
        while kind < kinds
            invariant
                kind <= kinds,
                kinds == before.scopes@.len(),
                self.same_but_credit(before),
                forall|k: int|
                    0 <= k < kind ==> #[trigger] self.scope(k) == credited(
                        before.scope(k),
                        quantum,
                        maximum,
                    ),
                forall|k: int|
                    kind <= k < kinds ==> #[trigger] self.scope(k) == before.scope(k),
            decreases kinds - kind,
        {
            assert(self.scope(kind as int) == before.scope(kind as int));
            let ghost prior = *self;
            self.scopes[kind].credit(quantum, maximum);
            proof {
                assert forall|k: int| 0 <= k < kinds && k != kind implies #[trigger] self.scope(k)
                    == prior.scope(k) by {}
                assert forall|k: int| 0 <= k < kind + 1 implies #[trigger] self.scope(k)
                    == credited(before.scope(k), quantum, maximum) by {
                    if k < kind {
                        assert(prior.scope(k) == credited(before.scope(k), quantum, maximum));
                    }
                }
            }
            kind = kind + 1;
        }
        proof {
            assert forall|k: int| 0 <= k < self.scopes@.len() implies scope_matches(
                #[trigger] self.scope(k),
                slot_charges(self.slots@, k),
            ) by {
                assert(scope_matches(before.scope(k), slot_charges(before.slots@, k)));
                lemma_credit_keeps_usage(
                    before.scope(k),
                    slot_charges(before.slots@, k),
                    (Seq::empty(), Seq::empty()),
                    quantum,
                    maximum,
                );
            }
        }
    }

    /// Take service units from the scopes of a request.
    pub fn debit(&mut self, keys: &Vec<ScopeKey>, units: u64)
        requires
            old(self).wf(),
            keys@.len() == old(self).scopes@.len(),
        ensures
            final(self).wf(),
            final(self).same_but_credit(*old(self)),
            forall|kind: int|
                0 <= kind < keys@.len() ==> #[trigger] final(self).scope(kind) == debited(
                    old(self).scope(kind),
                    keys@[kind]@,
                    units,
                ),
    {
        let ghost before = *self;
        let mut kind: usize = 0;
        while kind < keys.len()
            invariant
                kind <= keys@.len(),
                keys@.len() == before.scopes@.len(),
                self.same_but_credit(before),
                forall|k: int|
                    0 <= k < kind ==> #[trigger] self.scope(k) == debited(
                        before.scope(k),
                        keys@[k]@,
                        units,
                    ),
                forall|k: int|
                    kind <= k < keys@.len() ==> #[trigger] self.scope(k) == before.scope(k),
            decreases keys.len() - kind,
        {
            assert(self.scope(kind as int) == before.scope(kind as int));
            let ghost prior = *self;
            self.scopes[kind].debit(&keys[kind], units);
            proof {
                assert forall|k: int| 0 <= k < keys@.len() && k != kind implies #[trigger] self.scope(
                    k,
                ) == prior.scope(k) by {}
                assert forall|k: int| 0 <= k < kind + 1 implies #[trigger] self.scope(k)
                    == debited(before.scope(k), keys@[k]@, units) by {
                    if k < kind {
                        assert(prior.scope(k) == debited(before.scope(k), keys@[k]@, units));
                    }
                }
            }
            kind = kind + 1;
        }
        proof {
            assert forall|k: int| 0 <= k < self.scopes@.len() implies scope_matches(
                #[trigger] self.scope(k),
                slot_charges(self.slots@, k),
            ) by {
                assert(scope_matches(before.scope(k), slot_charges(before.slots@, k)));
                lemma_credit_keeps_usage(
                    before.scope(k),
                    slot_charges(before.slots@, k),
                    keys@[k]@,
                    units,
                    0,
                );
            }
        }
    }

    /// Give service units back to the scopes of a request.
    pub fn refund(&mut self, keys: &Vec<ScopeKey>, units: u64, maximum: u64)
        requires
            old(self).wf(),
            keys@.len() == old(self).scopes@.len(),
        ensures
            final(self).wf(),
            final(self).same_but_credit(*old(self)),
            forall|kind: int|
                0 <= kind < keys@.len() ==> #[trigger] final(self).scope(kind) == refunded(
                    old(self).scope(kind),
                    keys@[kind]@,
                    units,
                    maximum,
                ),
    {
        let ghost before = *self;
        let mut kind: usize = 0;
        while kind < keys.len()
            invariant
                kind <= keys@.len(),
                keys@.len() == before.scopes@.len(),
                self.same_but_credit(before),
                forall|k: int|
                    0 <= k < kind ==> #[trigger] self.scope(k) == refunded(
                        before.scope(k),
                        keys@[k]@,
                        units,
                        maximum,
                    ),
                forall|k: int|
                    kind <= k < keys@.len() ==> #[trigger] self.scope(k) == before.scope(k),
            decreases keys.len() - kind,
        {
            assert(self.scope(kind as int) == before.scope(kind as int));
            let ghost prior = *self;
            self.scopes[kind].refund(&keys[kind], units, maximum);
            proof {
                assert forall|k: int| 0 <= k < keys@.len() && k != kind implies #[trigger] self.scope(
                    k,
                ) == prior.scope(k) by {}
                assert forall|k: int| 0 <= k < kind + 1 implies #[trigger] self.scope(k)
                    == refunded(before.scope(k), keys@[k]@, units, maximum) by {
                    if k < kind {
                        assert(prior.scope(k) == refunded(
                            before.scope(k),
                            keys@[k]@,
                            units,
                            maximum,
                        ));
                    }
                }
            }
            kind = kind + 1;
        }
        proof {
            assert forall|k: int| 0 <= k < self.scopes@.len() implies scope_matches(
                #[trigger] self.scope(k),
                slot_charges(self.slots@, k),
            ) by {
                assert(scope_matches(before.scope(k), slot_charges(before.slots@, k)));
                lemma_credit_keeps_usage(
                    before.scope(k),
                    slot_charges(before.slots@, k),
                    keys@[k]@,
                    units,
                    maximum,
                );
            }
        }
    }

    /// Return whether a request is being offered to the controller.
    pub fn is_dispatching(&self, ticket: u64) -> (dispatching: bool)
        ensures
            dispatching == self.dispatching@.contains(ticket),
    {
        let mut at: usize = 0;
        while at < self.dispatching.len()
            invariant
                at <= self.dispatching@.len(),
                forall|i: int| 0 <= i < at ==> #[trigger] self.dispatching@[i] != ticket,
            decreases self.dispatching.len() - at,
        {
            if self.dispatching[at] == ticket {
                assert(self.dispatching@[at as int] == ticket);
                return true;
            }
            at = at + 1;
        }
        false
    }

    /// Note that a request is being offered to the controller.
    pub fn begin_dispatch(&mut self, ticket: u64)
        requires
            old(self).wf(),
            !old(self).dispatching@.contains(ticket),
        ensures
            final(self).wf(),
            final(self).dispatching@ == old(self).dispatching@.push(ticket),
            final(self).next_ticket == old(self).next_ticket,
            final(self).slots@ == old(self).slots@,
            final(self).queued_bytes == old(self).queued_bytes,
            final(self).scopes@ == old(self).scopes@,
            final(self).cursor == old(self).cursor,
    {
        let ghost before = *self;
        self.dispatching.push(ticket);
        proof {
            assert(self.dispatching@.no_duplicates()) by {
                assert forall|i: int, j: int|
                    0 <= i < self.dispatching@.len() && 0 <= j < self.dispatching@.len() && i
                        != j implies self.dispatching@[i] != self.dispatching@[j] by {
                    if i == before.dispatching@.len() {
                        assert(before.dispatching@[j] != ticket);
                    } else if j == before.dispatching@.len() {
                        assert(before.dispatching@[i] != ticket);
                    }
                }
            }
            assert forall|k: int| 0 <= k < self.scopes@.len() implies scope_matches(
                #[trigger] self.scope(k),
                slot_charges(self.slots@, k),
            ) by {
                assert(self.scope(k) == before.scope(k));
            }
        }
    }

    /// Note that a request is no longer being offered, and return whether it was.
    pub fn end_dispatch(&mut self, ticket: u64) -> (was: bool)
        requires
            old(self).wf(),
        ensures
            final(self).wf(),
            was == old(self).dispatching@.contains(ticket),
            !was ==> *final(self) == *old(self),
            !final(self).dispatching@.contains(ticket),
            forall|other: u64|
                other != ticket ==> (#[trigger] final(self).dispatching@.contains(other)
                    == old(self).dispatching@.contains(other)),
            final(self).next_ticket == old(self).next_ticket,
            final(self).slots@ == old(self).slots@,
            final(self).queued_bytes == old(self).queued_bytes,
            final(self).scopes@ == old(self).scopes@,
            final(self).cursor == old(self).cursor,
    {
        let ghost before = *self;
        let mut at: usize = 0;
        while at < self.dispatching.len()
            invariant
                *self == before,
                before == *old(self),
                before.wf(),
                at <= self.dispatching@.len(),
                forall|i: int| 0 <= i < at ==> #[trigger] self.dispatching@[i] != ticket,
            decreases self.dispatching.len() - at,
        {
            if self.dispatching[at] == ticket {
                let _ = self.dispatching.remove(at);
                proof {
                    let after = self.dispatching@;
                    assert(after == before.dispatching@.remove(at as int));
                    assert(before.dispatching@[at as int] == ticket);
                    assert forall|other: u64| other != ticket implies (#[trigger] after.contains(
                        other,
                    ) == before.dispatching@.contains(other)) by {
                        if before.dispatching@.contains(other) {
                            let i = choose|i: int|
                                0 <= i < before.dispatching@.len() && before.dispatching@[i]
                                    == other;
                            if i < at {
                                assert(after[i] == other);
                            } else {
                                assert(after[i - 1] == other);
                            }
                        }
                        if after.contains(other) {
                            let i = choose|i: int| 0 <= i < after.len() && after[i] == other;
                            if i < at {
                                assert(before.dispatching@[i] == other);
                            } else {
                                assert(before.dispatching@[i + 1] == other);
                            }
                        }
                    }
                    assert forall|k: int| 0 <= k < self.scopes@.len() implies scope_matches(
                        #[trigger] self.scope(k),
                        slot_charges(self.slots@, k),
                    ) by {
                        assert(self.scope(k) == before.scope(k));
                    }
                }
                return true;
            }
            at = at + 1;
        }
        false
    }
}

/// The place of the request `offset` behind the cursor.
pub open spec fn rotated(cursor: usize, offset: int, len: nat) -> int {
    (cursor + offset) % (len as int)
}

/// Discharging keeps quotas and credit bounds.
pub proof fn lemma_discharge_keeps_bounds(
    scopes: ScopeMap,
    key: (Seq<char>, Seq<char>),
    bytes: u64,
    quota: ScopeQuota,
    maximum: u64,
)
    requires
        quota_kept(scopes, quota),
        credit_bounded(scopes, maximum),
        usage_of(scopes, key).bytes >= bytes,
    ensures
        quota_kept(discharged(scopes, key, bytes), quota),
        credit_bounded(discharged(scopes, key, bytes), maximum),
{
    let after = discharged(scopes, key, bytes);
    assert forall|k: (Seq<char>, Seq<char>)| #[trigger] after.dom().contains(k) implies after[k].count
        <= quota.max_count && after[k].bytes <= quota.max_bytes && after[k].credit()
        <= maximum by {
        if k == key && usage_of(scopes, key).count > 1 {
            assert(scopes.dom().contains(key));
        } else {
            assert(scopes.dom().contains(k));
        }
    }
}

/// Changes of credit keep quotas and credit bounds.
pub proof fn lemma_credit_keeps_bounds(
    scopes: ScopeMap,
    key: (Seq<char>, Seq<char>),
    units: u64,
    quota: ScopeQuota,
    maximum: u64,
)
    requires
        quota_kept(scopes, quota),
        credit_bounded(scopes, maximum),
    ensures
        quota_kept(credited(scopes, units, maximum), quota),
        credit_bounded(credited(scopes, units, maximum), maximum),
        quota_kept(debited(scopes, key, units), quota),
        credit_bounded(debited(scopes, key, units), maximum),
        quota_kept(refunded(scopes, key, units, maximum), quota),
        credit_bounded(refunded(scopes, key, units, maximum), maximum),
{
    let rich = credited(scopes, units, maximum);
    assert forall|k: (Seq<char>, Seq<char>)| #[trigger] rich.dom().contains(k) implies rich[k].count
        <= quota.max_count && rich[k].bytes <= quota.max_bytes && rich[k].credit() <= maximum by {
        assert(scopes.dom().contains(k));
    }
    let poor = debited(scopes, key, units);
    assert forall|k: (Seq<char>, Seq<char>)| #[trigger] poor.dom().contains(k) implies poor[k].count
        <= quota.max_count && poor[k].bytes <= quota.max_bytes && poor[k].credit() <= maximum by {
        if usage_of(scopes, key).deficit is Some {
            assert(scopes.dom().contains(key));
        }
        assert(scopes.dom().contains(k));
    }
    let back = refunded(scopes, key, units, maximum);
    assert forall|k: (Seq<char>, Seq<char>)| #[trigger] back.dom().contains(k) implies back[k].count
        <= quota.max_count && back[k].bytes <= quota.max_bytes && back[k].credit() <= maximum by {
        if usage_of(scopes, key).deficit is Some {
            assert(scopes.dom().contains(key));
        }
        assert(scopes.dom().contains(k));
    }
}

/// Where the request `offset` behind the cursor stands.
pub proof fn lemma_rotated(cursor: usize, offset: int, len: nat)
    requires
        0 <= offset < len,
    ensures
        ({
            let start = cursor as int % len as int;
            &&& 0 <= start < len
            &&& rotated(cursor, offset, len) == if offset < len - start {
                start + offset
            } else {
                offset - (len - start)
            }
        }),
{
    let n = len as int;
    let start = cursor as int % n;
    vstd::arithmetic::div_mod::lemma_mod_bound(cursor as int, n);
    vstd::arithmetic::div_mod::lemma_add_mod_noop(cursor as int, offset, n);
    vstd::arithmetic::div_mod::lemma_small_mod(offset as nat, len);
    assert((cursor + offset) % n == (start + offset) % n);
    if offset < n - start {
        vstd::arithmetic::div_mod::lemma_small_mod((start + offset) as nat, len);
    } else {
        vstd::arithmetic::div_mod::lemma_mod_sub_multiples_vanish(start + offset, n);
        vstd::arithmetic::div_mod::lemma_small_mod((start + offset - n) as nat, len);
    }
}

/// Return whether the credit of a scope covers a cost.
pub fn covers(usage: ScopeUsage, cost: u64) -> (covered: bool)
    ensures
        covered == (cost <= usage.credit()),
{
    match usage.deficit {
        Some(credit) => cost <= credit,
        None => cost == 0,
    }
}

/// The same offers are out, except for one that has ended.
pub open spec fn offer_ended(before: Seq<u64>, after: Seq<u64>, ticket: u64) -> bool {
    &&& !after.contains(ticket)
    &&& forall|other: u64|
        other != ticket ==> (#[trigger] after.contains(other) == before.contains(other))
}

/// The credit of one kind of scope after an offer has ended.
pub open spec fn credit_after(
    before: ScopeMap,
    key: (Seq<char>, Seq<char>),
    units: u64,
    maximum: u64,
    refund: bool,
) -> ScopeMap {
    if refund {
        refunded(before, key, units, maximum)
    } else {
        before
    }
}

} // verus!
