//! A bounded, time-aware key/value store: least-recently-used eviction and
//! per-entry time to live.

use vstd::prelude::*;

verus! {

#[verifier::external_type_specification]
#[verifier::external_body]
pub struct ExInstant(std::time::Instant);

/// Relies on std::time::Instant::now: a reading of the monotonic clock.
#[verifier::external_body]
fn clock_start() -> std::time::Instant {
    std::time::Instant::now()
}

/// Relies on std::time::Instant::elapsed: the nanoseconds since `start`, whatever they are.
#[verifier::external_body]
fn nanos_since(start: &std::time::Instant) -> u128 {
    start.elapsed().as_nanos()
}

/// Nanoseconds rounded up to whole milliseconds, saturating: a reading is never earlier
/// than the time it stands for, so no entry is served past its expiry.
pub fn ceil_millis(nanos: u128) -> (r: u64)
    ensures
        (nanos + 999_999) / 1_000_000 <= u64::MAX ==> r == (nanos + 999_999) / 1_000_000,
        (nanos + 999_999) / 1_000_000 > u64::MAX ==> r == u64::MAX,
{
    let whole: u128 = nanos / 1_000_000;
    let ms: u128 = if nanos % 1_000_000 == 0 {
        whole
    } else {
        whole + 1
    };
    assert(ms == (nanos + 999_999) / 1_000_000);
    if ms > u64::MAX as u128 {
        u64::MAX
    } else {
        ms as u64
    }
}

/// One stored value with its access and expiry times, in milliseconds.
pub struct CacheEntry<T> {
    pub key: String,
    pub value: T,
    pub last_accessed: u64,
    pub expires_at: Option<u64>,
}

/// What an entry holds, with its key as text.
pub struct EntryView<T> {
    pub key: Seq<char>,
    pub value: T,
    pub last_accessed: u64,
    pub expires_at: Option<u64>,
}

impl<T> EntryView<T> {
    /// An entry is expired once the time has passed its expiry; one without expiry never is.
    pub open spec fn expired_at(&self, now: u64) -> bool {
        match self.expires_at {
            Some(t) => now > t,
            None => false,
        }
    }
}

impl<T> View for CacheEntry<T> {
    type V = EntryView<T>;

    open spec fn view(&self) -> EntryView<T> {
        EntryView {
            key: self.key@,
            value: self.value,
            last_accessed: self.last_accessed,
            expires_at: self.expires_at,
        }
    }
}

impl<T> CacheEntry<T> {
    /// Whether the entry is expired at `timestamp`.
    pub fn is_expired_at(&self, timestamp: u64) -> (r: bool)
        ensures
            r == self@.expired_at(timestamp),
    {
        match self.expires_at {
            Some(t) => timestamp > t,
            None => false,
        }
    }
}

/// The entries of `s` that are not expired at `now`, in their order.
pub open spec fn live_entries<T>(s: Seq<EntryView<T>>, now: u64) -> Seq<EntryView<T>>
    decreases s.len(),
{
    if s.len() == 0 {
        s
    } else {
        let rest = live_entries(s.drop_last(), now);
        if s.last().expired_at(now) {
            rest
        } else {
            rest.push(s.last())
        }
    }
}

/// No two entries share a key.
pub open spec fn keys_unique<T>(s: Seq<EntryView<T>>) -> bool {
    forall|i: int, j: int|
        0 <= i < s.len() && 0 <= j < s.len() && i != j ==> #[trigger] s[i].key != #[trigger] s[j].key
}

/// Where the entry with key `k` stands, if there is one.
pub open spec fn key_position<T>(s: Seq<EntryView<T>>, k: Seq<char>) -> Option<int> {
    if exists|i: int| 0 <= i < s.len() && #[trigger] s[i].key == k {
        Some(choose|i: int| 0 <= i < s.len() && #[trigger] s[i].key == k)
    } else {
        None
    }
}

/// `s` without the entry with key `k`.
pub open spec fn without_key<T>(s: Seq<EntryView<T>>, k: Seq<char>) -> Seq<EntryView<T>> {
    match key_position(s, k) {
        Some(i) => s.remove(i),
        None => s,
    }
}

/// The value stored under `k` in `s`, if any.
pub open spec fn value_of<T>(s: Seq<EntryView<T>>, k: Seq<char>) -> Option<T> {
    match key_position(s, k) {
        Some(i) => Some(s[i].value),
        None => None,
    }
}

/// The expiry of an entry stored at `now` with time to live `ttl`; a sum past the
/// largest time saturates.
pub open spec fn expiry(now: u64, ttl: Option<u64>) -> Option<u64> {
    match ttl {
        Some(d) => Some(
            if now + d > u64::MAX {
                u64::MAX
            } else {
                (now + d) as u64
            },
        ),
        None => None,
    }
}

/// The time to live that an insertion uses: its own, else the cache's default.
pub open spec fn effective_ttl(custom: Option<u64>, default_ttl: Option<u64>) -> Option<u64> {
    match custom {
        Some(d) => Some(d),
        None => default_ttl,
    }
}

/// The entries after inserting `k` at `now`: expired entries and an older entry for `k`
/// leave, the new entry becomes the most recently used, and when that exceeds the
/// capacity the least recently used entry is evicted.
pub open spec fn inserted<T>(
    s: Seq<EntryView<T>>,
    k: Seq<char>,
    v: T,
    ttl: Option<u64>,
    now: u64,
    capacity: usize,
) -> Seq<EntryView<T>> {
    let grown = without_key(live_entries(s, now), k).push(
        EntryView { key: k, value: v, last_accessed: now, expires_at: expiry(now, ttl) },
    );
    if grown.len() > capacity {
        grown.drop_first()
    } else {
        grown
    }
}

/// The entries after reading `k` at `now`: an expired entry is purged, a live one is
/// stamped with `now` and becomes the most recently used.
pub open spec fn after_get<T>(s: Seq<EntryView<T>>, k: Seq<char>, now: u64) -> Seq<EntryView<T>> {
    match key_position(s, k) {
        Some(i) => if s[i].expired_at(now) {
            s.remove(i)
        } else {
            s.remove(i).push(EntryView { last_accessed: now, ..s[i] })
        },
        None => s,
    }
}

/// What reading `k` at `now` yields: the value of a live entry, else nothing.
pub open spec fn get_result<T>(s: Seq<EntryView<T>>, k: Seq<char>, now: u64) -> Option<T> {
    match key_position(s, k) {
        Some(i) => if s[i].expired_at(now) {
            None
        } else {
            Some(s[i].value)
        },
        None => None,
    }
}

proof fn lemma_live_entries<T>(s: Seq<EntryView<T>>, now: u64)
    ensures
        live_entries(s, now).len() <= s.len(),
        forall|a: int|
            0 <= a < live_entries(s, now).len() ==> exists|b: int|
                0 <= b < s.len() && #[trigger] live_entries(s, now)[a] == #[trigger] s[b],
        forall|a: int|
            0 <= a < live_entries(s, now).len() ==> !(#[trigger] live_entries(s, now)[a]).expired_at(
                now,
            ),
        keys_unique(s) ==> keys_unique(live_entries(s, now)),
    decreases s.len(),
{
    if s.len() > 0 {
        let p = s.drop_last();
        lemma_live_entries(p, now);
        let rest = live_entries(p, now);
        assert forall|a: int| 0 <= a < rest.len() implies exists|b: int|
            0 <= b < s.len() && #[trigger] rest[a] == #[trigger] s[b] by {
            let b = choose|b: int| 0 <= b < p.len() && rest[a] == p[b];
            assert(s[b] == p[b]);
        }
        if !s.last().expired_at(now) {
            let l = rest.push(s.last());
            assert forall|a: int| 0 <= a < l.len() implies exists|b: int|
                0 <= b < s.len() && #[trigger] l[a] == #[trigger] s[b] by {
                if a < rest.len() {
                    assert(l[a] == rest[a]);
                } else {
                    assert(l[a] == s[s.len() - 1]);
                }
            }
            if keys_unique(s) {
                assert forall|a: int, c: int|
                    0 <= a < l.len() && 0 <= c < l.len() && a != c implies #[trigger] l[a].key
                    != #[trigger] l[c].key by {
                    if a < rest.len() && c < rest.len() {
                        assert(l[a] == rest[a] && l[c] == rest[c]);
                    } else if a < rest.len() {
                        let b = choose|b: int| 0 <= b < p.len() && rest[a] == p[b];
                        assert(s[b] == p[b]);
                    } else {
                        let b = choose|b: int| 0 <= b < p.len() && rest[c] == p[b];
                        assert(s[b] == p[b]);
                    }
                }
            }
        }
    }
}

proof fn lemma_remove_unique<T>(s: Seq<EntryView<T>>, i: int)
    requires
        keys_unique(s),
        0 <= i < s.len(),
    ensures
        keys_unique(s.remove(i)),
        forall|a: int| 0 <= a < s.remove(i).len() ==> #[trigger] s.remove(i)[a].key != s[i].key,
{
    let r = s.remove(i);
    assert forall|a: int| 0 <= a < r.len() implies #[trigger] r[a].key != s[i].key by {
        if a < i {
            assert(r[a] == s[a]);
        } else {
            assert(r[a] == s[a + 1]);
        }
    }
    assert forall|a: int, c: int|
        0 <= a < r.len() && 0 <= c < r.len() && a != c implies #[trigger] r[a].key
        != #[trigger] r[c].key by {
        let a2 = if a < i { a } else { a + 1 };
        let c2 = if c < i { c } else { c + 1 };
        assert(r[a] == s[a2] && r[c] == s[c2]);
    }
}

proof fn lemma_inserted_wf<T>(
    s: Seq<EntryView<T>>,
    k: Seq<char>,
    v: T,
    ttl: Option<u64>,
    now: u64,
    capacity: usize,
)
    requires
        keys_unique(s),
        s.len() <= capacity,
    ensures
        keys_unique(inserted(s, k, v, ttl, now, capacity)),
        inserted(s, k, v, ttl, now, capacity).len() <= capacity,
{
    lemma_live_entries(s, now);
    let l = live_entries(s, now);
    let base = without_key(l, k);
    match key_position(l, k) {
        Some(i) => {
            lemma_remove_unique(l, i);
        },
        None => {},
    }
    assert(forall|a: int| 0 <= a < base.len() ==> #[trigger] base[a].key != k);
    let grown = base.push(
        EntryView { key: k, value: v, last_accessed: now, expires_at: expiry(now, ttl) },
    );
    assert forall|a: int, c: int|
        0 <= a < grown.len() && 0 <= c < grown.len() && a != c implies #[trigger] grown[a].key
        != #[trigger] grown[c].key by {
        if a < base.len() && c < base.len() {
            assert(grown[a] == base[a] && grown[c] == base[c]);
        } else if a < base.len() {
            assert(grown[a] == base[a]);
        } else {
            assert(grown[c] == base[c]);
        }
    }
    if grown.len() > capacity {
        let d = grown.drop_first();
        assert forall|a: int, c: int|
            0 <= a < d.len() && 0 <= c < d.len() && a != c implies #[trigger] d[a].key
            != #[trigger] d[c].key by {
            assert(d[a] == grown[a + 1] && d[c] == grown[c + 1]);
        }
    }
}

/// `e` holding `v` instead.
pub open spec fn with_value<T>(e: EntryView<T>, v: T) -> EntryView<T> {
    EntryView { value: v, ..e }
}

proof fn lemma_same_keys_unique<T>(s: Seq<EntryView<T>>)
    requires
        keys_unique(s),
    ensures
        forall|u: Seq<EntryView<T>>|
            u.len() == s.len() && (forall|i: int| 0 <= i < u.len() ==> u[i].key == s[i].key)
                ==> #[trigger] keys_unique(u),
{
    assert forall|u: Seq<EntryView<T>>|
        u.len() == s.len() && (forall|i: int| 0 <= i < u.len() ==> u[i].key == s[i].key)
            implies #[trigger] keys_unique(u) by {
        assert forall|a: int, c: int|
            0 <= a < u.len() && 0 <= c < u.len() && a != c implies #[trigger] u[a].key
            != #[trigger] u[c].key by {
            assert(u[a].key == s[a].key && u[c].key == s[c].key);
        }
    }
}

/// Right after an insertion into a cache that can hold an entry, the new entry is the
/// most recently used one and the only one with its key.
pub proof fn lemma_inserted_found<T>(
    s: Seq<EntryView<T>>,
    k: Seq<char>,
    v: T,
    ttl: Option<u64>,
    now: u64,
    capacity: usize,
)
    requires
        keys_unique(s),
        s.len() <= capacity,
        capacity > 0,
    ensures
        ({
            let after = inserted(s, k, v, ttl, now, capacity);
            &&& after.len() > 0
            &&& key_position(after, k) == Some(after.len() - 1)
            &&& after.last() == EntryView {
                key: k,
                value: v,
                last_accessed: now,
                expires_at: expiry(now, ttl),
            }
        }),
{
    let after = inserted(s, k, v, ttl, now, capacity);
    lemma_inserted_wf(s, k, v, ttl, now, capacity);
    lemma_live_entries(s, now);
    let l = live_entries(s, now);
    match key_position(l, k) {
        Some(i) => {
            lemma_remove_unique(l, i);
        },
        None => {},
    }
    let e = EntryView { key: k, value: v, last_accessed: now, expires_at: expiry(now, ttl) };
    let grown = without_key(l, k).push(e);
    assert(after.last() == grown.last());
    let n = after.len() - 1;
    assert(after[n].key == k);
    let p = key_position(after, k);
    assert(p is Some);
    assert(p->Some_0 == n);
}

/// Time to live: an entry inserted at `now` under time to live `d`, its own or else the
/// cache's default, reads as absent at every later time past `now + d`, and, in a cache
/// that can hold an entry, reads as its value at every time up to `now + d`.
pub proof fn lemma_ttl_expiry<T>(
    s: Seq<EntryView<T>>,
    k: Seq<char>,
    v: T,
    custom_ttl: Option<u64>,
    default_ttl: Option<u64>,
    now: u64,
    capacity: usize,
    later: u64,
)
    requires
        keys_unique(s),
        s.len() <= capacity,
        effective_ttl(custom_ttl, default_ttl) is Some,
    ensures
        ({
            let d = effective_ttl(custom_ttl, default_ttl)->Some_0;
            let after = inserted(s, k, v, effective_ttl(custom_ttl, default_ttl), now, capacity);
            &&& later > now + d ==> get_result(after, k, later) is None
            &&& (now <= later <= now + d && capacity > 0) ==> get_result(after, k, later) == Some(v)
        }),
{
    let ttl = effective_ttl(custom_ttl, default_ttl);
    let after = inserted(s, k, v, ttl, now, capacity);
    if capacity > 0 {
        lemma_inserted_found(s, k, v, ttl, now, capacity);
    } else {
        lemma_inserted_wf(s, k, v, ttl, now, capacity);
        assert(after.len() == 0);
    }
}

/// Expired entries are never served: in any cache, reading a key whose entry is expired
/// at `now` yields nothing and purges that entry.
pub proof fn lemma_expired_not_served<T>(s: Seq<EntryView<T>>, k: Seq<char>, now: u64)
    requires
        keys_unique(s),
        key_position(s, k) matches Some(i) && s[i].expired_at(now),
    ensures
        get_result(s, k, now) is None,
        key_position(after_get(s, k, now), k) is None,
{
    let i = key_position(s, k)->Some_0;
    lemma_remove_unique(s, i);
    assert(s[i].key == k);
}

/// Insertions keep the other entries as they were: every entry after inserting `k`,
/// other than the one for `k`, is an entry from before, with the same expiry.
pub proof fn lemma_inserted_keeps_entries<T>(
    s: Seq<EntryView<T>>,
    k: Seq<char>,
    v: T,
    ttl: Option<u64>,
    now: u64,
    capacity: usize,
)
    ensures
        forall|a: int|
            0 <= a < inserted(s, k, v, ttl, now, capacity).len() && #[trigger] inserted(
                s,
                k,
                v,
                ttl,
                now,
                capacity,
            )[a].key != k ==> exists|b: int|
                0 <= b < s.len() && inserted(s, k, v, ttl, now, capacity)[a] == s[b],
{
    lemma_live_entries(s, now);
    let l = live_entries(s, now);
    let base = without_key(l, k);
    let e = EntryView { key: k, value: v, last_accessed: now, expires_at: expiry(now, ttl) };
    let grown = base.push(e);
    let after = inserted(s, k, v, ttl, now, capacity);
    assert forall|a: int| 0 <= a < after.len() && #[trigger] after[a].key != k implies exists|
        b: int,
    | 0 <= b < s.len() && after[a] == s[b] by {
        let g = if grown.len() > capacity {
            a + 1
        } else {
            a
        };
        assert(after[a] == grown[g]);
        assert(g < base.len());
        let li = match key_position(l, k) {
            Some(i) => if g < i {
                g
            } else {
                g + 1
            },
            None => g,
        };
        assert(base[g] == l[li]);
        let b = choose|b: int| 0 <= b < s.len() && #[trigger] l[li] == #[trigger] s[b];
        assert(after[a] == s[b]);
    }
}

/// Reads keep every entry's key and expiry: a read only purges an expired entry or
/// restamps the read one's access time.
pub proof fn lemma_get_keeps_expiry<T>(s: Seq<EntryView<T>>, k: Seq<char>, now: u64)
    ensures
        forall|a: int|
            0 <= a < after_get(s, k, now).len() ==> exists|b: int|
                0 <= b < s.len() && (#[trigger] after_get(s, k, now)[a]).key == s[b].key
                    && after_get(s, k, now)[a].expires_at == s[b].expires_at,
{
    let g = after_get(s, k, now);
    assert forall|a: int| 0 <= a < g.len() implies exists|b: int|
        0 <= b < s.len() && (#[trigger] g[a]).key == s[b].key && g[a].expires_at
            == s[b].expires_at by {
        match key_position(s, k) {
            Some(i) => {
                let r = s.remove(i);
                if a < r.len() {
                    let b = if a < i {
                        a
                    } else {
                        a + 1
                    };
                    assert(g[a] == r[a] && r[a] == s[b]);
                } else {
                    assert(g[a].key == s[i].key && g[a].expires_at == s[i].expires_at);
                }
            },
            None => {
                assert(g[a] == s[a]);
            },
        }
    }
}

/// A bounded store keyed by text; entries are kept from least to most recently used.
pub struct LRUCache<T> {
    capacity: usize,
    entries: Vec<CacheEntry<T>>,
    default_ttl: Option<u64>,
    clock: std::time::Instant,
}

impl<T> View for LRUCache<T> {
    type V = Seq<EntryView<T>>;

    closed spec fn view(&self) -> Seq<EntryView<T>> {
        self.entries@.map_values(|e: CacheEntry<T>| e@)
    }
}

impl<T> LRUCache<T> {
    /// The most entries the cache holds.
    pub closed spec fn spec_capacity(&self) -> usize {
        self.capacity
    }

    /// The time to live, in milliseconds, of entries inserted without one of their own.
    pub closed spec fn spec_default_ttl(&self) -> Option<u64> {
        self.default_ttl
    }

    /// Keys are unique and the capacity holds.
    pub open spec fn wf(&self) -> bool {
        &&& keys_unique(self@)
        &&& self@.len() <= self.spec_capacity()
    }

    /// An empty cache of at most `capacity` entries; `default_ttl` is in milliseconds.
    pub fn new(capacity: usize, default_ttl: Option<u64>) -> (r: Self)
        ensures
            r.wf(),
            r@ == Seq::<EntryView<T>>::empty(),
            r.spec_capacity() == capacity,
            r.spec_default_ttl() == default_ttl,
    {
        let r = LRUCache { capacity, entries: Vec::new(), default_ttl, clock: clock_start() };
        assert(r@ =~= Seq::<EntryView<T>>::empty());
        r
    }

    /// Number of entries held, expired ones not yet purged included.
    pub fn size(&self) -> (r: usize)
        ensures
            r == self@.len(),
    {
        self.entries.len()
    }

    /// The most entries the cache holds.
    pub fn capacity(&self) -> (r: usize)
        ensures
            r == self.spec_capacity(),
    {
        self.capacity
    }

    /// Where the entry with key `key` stands, if there is one.
    fn position(&self, key: &String) -> (r: Option<usize>)
        requires
            self.wf(),
        ensures
            match r {
                Some(i) => key_position(self@, key@) == Some(i as int) && i < self@.len(),
                None => key_position(self@, key@) is None,
            },
    {
        let mut i: usize = 0;
        while i < self.entries.len()
            invariant
                self.wf(),
                i <= self@.len(),
                forall|j: int| 0 <= j < i ==> #[trigger] self@[j].key != key@,
            decreases self@.len() - i,
        {
            assert(self@[i as int].key == self.entries@[i as int].key@);
            if self.entries[i].key == *key {
                assert(self@[i as int].key == key@);
                let ghost c = choose|c: int| 0 <= c < self@.len() && #[trigger] self@[c].key == key@;
                assert(c == i);
                return Some(i);
            }
            i = i + 1;
        }
        None
    }

    /// Purges every entry expired at `now`.
    fn evict_expired(&mut self, now: u64)
        requires
            old(self).wf(),
        ensures
            final(self)@ == live_entries(old(self)@, now),
            final(self).spec_capacity() == old(self).spec_capacity(),
            final(self).spec_default_ttl() == old(self).spec_default_ttl(),
            final(self).wf(),
    {
        let ghost s0 = self@;
        proof {
            lemma_live_entries(s0, now);
        }
        let mut i: usize = 0;
        let ghost mut j: int = 0;
        assert(s0.subrange(0, 0) =~= Seq::<EntryView<T>>::empty());
        assert(self@ =~= live_entries(s0.subrange(0, 0), now) + s0.subrange(0, s0.len() as int));
        while i < self.entries.len()
            invariant
                0 <= j <= s0.len(),
                self@ == live_entries(s0.subrange(0, j), now) + s0.subrange(j, s0.len() as int),
                i == live_entries(s0.subrange(0, j), now).len(),
                self.spec_capacity() == old(self).spec_capacity(),
                self.spec_default_ttl() == old(self).spec_default_ttl(),
            decreases s0.len() - j,
        {
            let ghost pre = live_entries(s0.subrange(0, j), now);
            assert(s0.subrange(0, j + 1).drop_last() =~= s0.subrange(0, j));
            assert(s0.subrange(0, j + 1).last() == s0[j]);
            assert(self@[i as int] == s0[j]);
            if self.entries[i].is_expired_at(now) {
                let ghost before = self.entries@;
                self.entries.remove(i);
                assert(self@ =~= before.map_values(|e: CacheEntry<T>| e@).remove(i as int));
                assert(self@ =~= pre + s0.subrange(j + 1, s0.len() as int));
            } else {
                assert(self@ =~= pre.push(s0[j]) + s0.subrange(j + 1, s0.len() as int));
                i = i + 1;
            }
            proof {
                j = j + 1;
            }
        }
        assert(s0.subrange(0, s0.len() as int) =~= s0);
        assert(self@ =~= live_entries(s0, now));
    }

    /// Removes the entry with key `key`, handing back its value.
    fn take_key(&mut self, key: &String) -> (r: Option<T>)
        requires
            old(self).wf(),
        ensures
            final(self)@ == without_key(old(self)@, key@),
            r == value_of(old(self)@, key@),
            final(self).spec_capacity() == old(self).spec_capacity(),
            final(self).spec_default_ttl() == old(self).spec_default_ttl(),
    {
        match self.position(key) {
            Some(i) => {
                let ghost before = self.entries@;
                let e = self.entries.remove(i);
                assert(self@ =~= before.map_values(|e: CacheEntry<T>| e@).remove(i as int));
                Some(e.value)
            },
            None => None,
        }
    }

    /// Evicts the least recently used entry, handing back its key and value.
    fn evict_lru(&mut self) -> (r: Option<(String, T)>)
        ensures
            old(self)@.len() > 0 ==> final(self)@ == old(self)@.drop_first() && r is Some
                && r->Some_0.0@ == old(self)@[0].key && r->Some_0.1 == old(self)@[0].value,
            old(self)@.len() == 0 ==> final(self)@ == old(self)@ && r is None,
            final(self).spec_capacity() == old(self).spec_capacity(),
            final(self).spec_default_ttl() == old(self).spec_default_ttl(),
    {
        if self.entries.len() == 0 {
            return None;
        }
        let ghost before = self.entries@;
        let e = self.entries.remove(0);
        assert(self@ =~= before.map_values(|e: CacheEntry<T>| e@).drop_first());
        Some((e.key, e.value))
    }

    /// Moves the entry at `i` to the most recently used end, stamped with `now`.
    fn update_access_order(&mut self, i: usize, now: u64)
        requires
            i < old(self)@.len(),
        ensures
            final(self)@ == old(self)@.remove(i as int).push(
                EntryView { last_accessed: now, ..old(self)@[i as int] },
            ),
            final(self).spec_capacity() == old(self).spec_capacity(),
            final(self).spec_default_ttl() == old(self).spec_default_ttl(),
    {
        let ghost before = self@;
        let mut e = self.entries.remove(i);
        e.last_accessed = now;
        self.entries.push(e);
        assert(self@ =~= before.remove(i as int).push(
            EntryView { last_accessed: now, ..before[i as int] },
        ));
    }

    /// Inserts `value` under `key` at time `now` (milliseconds), with `custom_ttl` or else
    /// the default time to live; hands back the value that a live entry held under `key`.
    pub fn insert_at(&mut self, key: &str, value: T, custom_ttl: Option<u64>, now: u64) -> (r:
        Option<T>)
        requires
            old(self).wf(),
        ensures
            final(self).wf(),
            final(self)@.len() <= final(self).spec_capacity(),
            final(self)@ == inserted(
                old(self)@,
                key@,
                value,
                effective_ttl(custom_ttl, old(self).spec_default_ttl()),
                now,
                old(self).spec_capacity(),
            ),
            r == value_of(live_entries(old(self)@, now), key@),
            final(self).spec_capacity() == old(self).spec_capacity(),
            final(self).spec_default_ttl() == old(self).spec_default_ttl(),
    {
        let ghost s0 = self@;
        let ttl = match custom_ttl {
            Some(d) => Some(d),
            None => self.default_ttl,
        };
        let expires_at = match ttl {
            Some(d) => Some(now.saturating_add(d)),
            None => None,
        };
        self.evict_expired(now);
        let k = key.to_owned();
        let old_value = self.take_key(&k);
        let ghost base = self@;
        self.entries.push(CacheEntry { key: k, value, last_accessed: now, expires_at });
        assert(self@ =~= base.push(
            EntryView { key: key@, value, last_accessed: now, expires_at: expiry(now, ttl) },
        ));
        if self.entries.len() > self.capacity {
            self.evict_lru();
        }
        proof {
            lemma_inserted_wf(s0, key@, value, ttl, now, self.capacity);
        }
        old_value
    }

    /// Inserts `value` under `key` at the current time; see `insert_at`.
    pub fn insert(&mut self, key: &str, value: T, custom_ttl: Option<u64>) -> (r: Option<T>)
        requires
            old(self).wf(),
        ensures
            final(self).wf(),
            final(self)@.len() <= final(self).spec_capacity(),
            exists|now: u64|
                {
                    &&& final(self)@ == #[trigger] inserted(
                        old(self)@,
                        key@,
                        value,
                        effective_ttl(custom_ttl, old(self).spec_default_ttl()),
                        now,
                        old(self).spec_capacity(),
                    )
                    &&& r == value_of(live_entries(old(self)@, now), key@)
                },
            final(self).spec_capacity() == old(self).spec_capacity(),
            final(self).spec_default_ttl() == old(self).spec_default_ttl(),
    {
        let now = ceil_millis(nanos_since(&self.clock));
        self.insert_at(key, value, custom_ttl, now)
    }

    /// Reads `key` at time `now` (milliseconds): a live entry's value, which then becomes
    /// the most recently used; an expired entry is purged and reads as absent.
    pub fn get_at(&mut self, key: &str, now: u64) -> (r: Option<&mut T>)
        requires
            old(self).wf(),
        ensures
            final(self).wf(),
            match get_result(old(self)@, key@, now) {
                Some(v) => r is Some && *r.unwrap() == v && final(self)@ == after_get(
                    old(self)@,
                    key@,
                    now,
                ).update(
                    after_get(old(self)@, key@, now).len() - 1,
                    with_value(after_get(old(self)@, key@, now).last(), *final(r.unwrap())),
                ),
                None => r is None && final(self)@ == after_get(old(self)@, key@, now),
            },
            final(self).spec_capacity() == old(self).spec_capacity(),
            final(self).spec_default_ttl() == old(self).spec_default_ttl(),
    {
        let k = key.to_owned();
        match self.position(&k) {
            None => None,
            Some(i) => {
                if self.entries[i].is_expired_at(now) {
                    let ghost before = self.entries@;
                    self.entries.remove(i);
                    assert(self@ =~= before.map_values(|e: CacheEntry<T>| e@).remove(i as int));
                    proof {
                        lemma_remove_unique(before.map_values(|e: CacheEntry<T>| e@), i as int);
                    }
                    None
                } else {
                    let ghost s0 = self@;
                    self.update_access_order(i, now);
                    proof {
                        lemma_remove_unique(s0, i as int);
                        let r = s0.remove(i as int);
                        let g = self@;
                        assert forall|a: int, c: int|
                            0 <= a < g.len() && 0 <= c < g.len() && a != c implies #[trigger] g[a].key
                            != #[trigger] g[c].key by {
                            if a < r.len() && c < r.len() {
                                assert(g[a] == r[a] && g[c] == r[c]);
                            } else if a < r.len() {
                                assert(g[a] == r[a]);
                            } else if c < r.len() {
                                assert(g[c] == r[c]);
                            }
                        }
                    }
                    let last = self.entries.len() - 1;
                    assert(self.entries@[last as int]@ == self@[last as int]);
                    assert(self@[last as int].value == s0[i as int].value);
                    proof {
                        lemma_same_keys_unique(self@);
                    }
                    let entry = &mut self.entries[last];
                    Some(&mut entry.value)
                }
            },
        }
    }

    /// What reading `key` at time `now` would yield, without purging or reordering.
    pub fn peek_at(&self, key: &str, now: u64) -> (r: Option<&T>)
        requires
            self.wf(),
        ensures
            match get_result(self@, key@, now) {
                Some(v) => r matches Some(x) && *x == v,
                None => r is None,
            },
    {
        let k = key.to_owned();
        match self.position(&k) {
            None => None,
            Some(i) => {
                assert(self.entries@[i as int]@ == self@[i as int]);
                if self.entries[i].is_expired_at(now) {
                    None
                } else {
                    Some(&self.entries[i].value)
                }
            },
        }
    }

    /// Reads `key` at the current time; see `get_at`.
    pub fn get(&mut self, key: &str) -> (r: Option<&mut T>)
        requires
            old(self).wf(),
        ensures
            final(self).wf(),
            exists|now: u64|
                match #[trigger] get_result(old(self)@, key@, now) {
                    Some(v) => r is Some && *r.unwrap() == v && final(self)@ == after_get(
                        old(self)@,
                        key@,
                        now,
                    ).update(
                        after_get(old(self)@, key@, now).len() - 1,
                        with_value(after_get(old(self)@, key@, now).last(), *final(r.unwrap())),
                    ),
                    None => r is None && final(self)@ == after_get(old(self)@, key@, now),
                },
            final(self).spec_capacity() == old(self).spec_capacity(),
            final(self).spec_default_ttl() == old(self).spec_default_ttl(),
    {
        let now = ceil_millis(nanos_since(&self.clock));
        self.get_at(key, now)
    }
}

} // verus!
