//! An expiring key/value cache driven by an injectable clock.
use vstd::laws_eq::obeys_concrete_eq;
use vstd::prelude::*;
use vstd::std_specs::cmp::PartialEqSpec;

verus! {

/// The latest instant that a clock reading can stand for.
pub const MAX_INSTANT: u64 = 0xffff_ffff_ffff_ffff;

/// The deadline of an entry stored at `now` for `ttl` ticks; a deadline past
/// the end of the clock's range is held at its last instant.
pub open spec fn deadline_of(now: u64, ttl: u64) -> u64 {
    if now + ttl > MAX_INSTANT {
        MAX_INSTANT
    } else {
        (now + ttl) as u64
    }
}

/// A source of the current instant, counted in the clock's own ticks.
///
/// Successive readings of one clock are expected not to go backwards.
pub trait Clock {
    fn now(&self) -> u64;
}

#[verifier::external_type_specification]
#[verifier::external_body]
pub struct ExInstant(std::time::Instant);

/// Relies on `std::time::Instant::now`: a reading of the monotonic clock.
#[verifier::external_body]
fn instant_now() -> std::time::Instant {
    std::time::Instant::now()
}

/// Relies on `std::time::Instant::elapsed`: the time since `origin`.
#[verifier::external_body]
fn elapsed_since(origin: &std::time::Instant) -> std::time::Duration {
    origin.elapsed()
}

/// Relies on `std::time::Duration::as_millis`: whole milliseconds of `d`.
#[verifier::external_body]
fn whole_millis(d: &std::time::Duration) -> u128 {
    d.as_millis()
}

/// The monotonic clock of the machine, in milliseconds since the clock was made.
#[derive(Clone, Copy)]
pub struct SystemClock {
    origin: std::time::Instant,
}

impl SystemClock {
    pub fn new() -> (r: SystemClock) {
        SystemClock { origin: instant_now() }
    }
}

impl Clock for SystemClock {
    fn now(&self) -> u64 {
        let ms = whole_millis(&elapsed_since(&self.origin));
        if ms > MAX_INSTANT as u128 {
            MAX_INSTANT
        } else {
            ms as u64
        }
    }
}

/// A value together with the instant from which on it counts as expired.
pub struct ValueWithTtl<T, C: Clock = SystemClock> {
    deadline: u64,
    clock: C,
    value: T,
}

impl<T, C: Clock> ValueWithTtl<T, C> {
    pub closed spec fn deadline(&self) -> u64 {
        self.deadline
    }

    pub closed spec fn value(&self) -> T {
        self.value
    }

    /// The value is readable at `now`.
    pub open spec fn live_at(&self, now: u64) -> bool {
        now < self.deadline()
    }

    /// Stores `value` for `ttl` ticks of `clock`, counted from the clock's reading.
    pub fn new(value: T, clock: C, ttl: u64) -> (r: Self)
        ensures
            r.value() == value,
            exists|t: u64| r.deadline() == deadline_of(t, ttl),
    {
        let now = clock.now();
        Self::new_at(value, clock, ttl, now)
    }

    /// Stores `value` for `ttl` ticks counted from `now`.
    pub fn new_at(value: T, clock: C, ttl: u64, now: u64) -> (r: Self)
        ensures
            r.value() == value,
            r.deadline() == deadline_of(now, ttl),
    {
        let deadline = if ttl > MAX_INSTANT - now {
            MAX_INSTANT
        } else {
            now + ttl
        };
        ValueWithTtl { deadline, clock, value }
    }

    pub fn is_expired_at(&self, now: u64) -> (r: bool)
        ensures
            r == !self.live_at(now),
    {
        now >= self.deadline
    }

    /// Whether the entry has expired at the clock's current reading.
    pub fn is_expired(&self) -> (r: bool)
        ensures
            exists|t: u64| r == !self.live_at(t),
    {
        let now = self.clock.now();
        self.is_expired_at(now)
    }

    pub fn get_at(&self, now: u64) -> (r: Option<&T>)
        ensures
            match r {
                Some(v) => self.live_at(now) && *v == self.value(),
                None => !self.live_at(now),
            },
    {
        if self.is_expired_at(now) {
            None
        } else {
            Some(&self.value)
        }
    }

    /// The value, unless it has expired at the clock's current reading.
    pub fn get(&self) -> (r: Option<&T>)
        ensures
            exists|t: u64|
                match r {
                    Some(v) => self.live_at(t) && *v == self.value(),
                    None => !self.live_at(t),
                },
    {
        let now = self.clock.now();
        self.get_at(now)
    }

    pub fn extract_at(self, now: u64) -> (r: Option<T>)
        ensures
            r == (if self.live_at(now) {
                Some(self.value())
            } else {
                None
            }),
    {
        if self.is_expired_at(now) {
            None
        } else {
            Some(self.value)
        }
    }

    /// Takes the value out, unless it has expired at the clock's current reading.
    pub fn extract(self) -> (r: Option<T>)
        ensures
            exists|t: u64|
                r == (if self.live_at(t) {
                    Some(self.value())
                } else {
                    None
                }),
    {
        let now = self.clock.now();
        self.extract_at(now)
    }
}

/// No two entries of `s` share a key.
pub open spec fn keys_distinct<K, E>(s: Seq<(K, E)>) -> bool {
    forall|i: int, j: int|
        0 <= i < s.len() && 0 <= j < s.len() && i != j ==> #[trigger] s[i].0 != #[trigger] s[j].0
}

/// Some entry of `s` has the key `k`.
pub open spec fn holds_key<K, E>(s: Seq<(K, E)>, k: K) -> bool {
    exists|i: int| 0 <= i < s.len() && #[trigger] s[i].0 == k
}

/// What the entries of `s` stand for: each key mapped to its value and deadline.
pub open spec fn view_of<K, V, C: Clock>(s: Seq<(K, ValueWithTtl<V, C>)>) -> Map<K, (V, u64)> {
    Map::new(
        |k: K| holds_key(s, k),
        |k: K|
            {
                let i = choose|i: int| 0 <= i < s.len() && #[trigger] s[i].0 == k;
                (s[i].1.value(), s[i].1.deadline())
            },
    )
}

/// The entries of `m` whose deadline lies after `now`.
pub open spec fn live_part<K, V>(m: Map<K, (V, u64)>, now: u64) -> Map<K, (V, u64)> {
    Map::new(|k: K| m.contains_key(k) && now < m[k].1, |k: K| m[k])
}

/// What a lookup of `k` in `m` at `now` reads: the value while its deadline lies ahead.
pub open spec fn lookup<K, V>(m: Map<K, (V, u64)>, k: K, now: u64) -> Option<V> {
    if m.contains_key(k) && now < m[k].1 {
        Some(m[k].0)
    } else {
        None
    }
}

proof fn lemma_view_of_index<K, V, C: Clock>(s: Seq<(K, ValueWithTtl<V, C>)>, i: int)
    requires
        keys_distinct(s),
        0 <= i < s.len(),
    ensures
        view_of(s).contains_key(s[i].0),
        view_of(s)[s[i].0] == (s[i].1.value(), s[i].1.deadline()),
{
    let k = s[i].0;
    assert(holds_key(s, k));
    let j = choose|j: int| 0 <= j < s.len() && #[trigger] s[j].0 == k;
    assert(j == i);
}

proof fn lemma_view_of_dom<K, V, C: Clock>(s: Seq<(K, ValueWithTtl<V, C>)>)
    requires
        keys_distinct(s),
    ensures
        view_of(s).dom().finite(),
        view_of(s).dom().len() == s.len(),
{
    let ks = s.map_values(|e: (K, ValueWithTtl<V, C>)| e.0);
    assert(ks.no_duplicates()) by {
        assert forall|i: int, j: int|
            0 <= i < ks.len() && 0 <= j < ks.len() && i != j implies ks[i] != ks[j] by {
            assert(s[i].0 != s[j].0);
        }
    }
    assert(view_of(s).dom() =~= ks.to_set()) by {
        assert forall|k: K| view_of(s).dom().contains(k) implies ks.to_set().contains(k) by {
            let i = choose|i: int| 0 <= i < s.len() && #[trigger] s[i].0 == k;
            assert(ks[i] == k);
        }
        assert forall|k: K| ks.to_set().contains(k) implies view_of(s).dom().contains(k) by {
            let i = choose|i: int| 0 <= i < ks.len() && ks[i] == k;
            assert(s[i].0 == k);
        }
    }
    ks.unique_seq_to_set();
}

/// `e` is one of the entries of `s` from position `lo` on, and is live at `now`.
pub open spec fn live_from<K, V, C: Clock>(
    s: Seq<(K, ValueWithTtl<V, C>)>,
    lo: int,
    e: (K, ValueWithTtl<V, C>),
    now: u64,
) -> bool {
    exists|j: int| lo <= j < s.len() && #[trigger] s[j] == e && s[j].1.live_at(now)
}

proof fn lemma_map_insert<K, V>(m1: Map<K, V>, m0: Map<K, V>, key: K, v: V)
    requires
        m1.contains_key(key),
        m1[key] == v,
        forall|k: K| k != key ==> (#[trigger] m1.contains_key(k)) == m0.contains_key(k),
        forall|k: K| k != key && #[trigger] m0.contains_key(k) ==> m1[k] == m0[k],
    ensures
        m1 == m0.insert(key, v),
{
    assert(m1 =~= m0.insert(key, v));
}

/// A key/value store whose entries expire a fixed number of clock ticks after insertion.
///
/// Reading never removes anything: expired entries read as absent until `gc` drops them.
pub struct Cache<K, V, C: Clock = SystemClock> {
    inner: Vec<(K, ValueWithTtl<V, C>)>,
    clock: C,
}

impl<K, V> Cache<K, V, SystemClock> {
    /// An empty cache on the machine's monotonic clock, with ttls in milliseconds.
    pub fn new() -> (r: Self)
        ensures
            r.wf(),
            r@ == Map::<K, (V, u64)>::empty(),
    {
        Cache::with_clock(SystemClock::new())
    }
}

impl<K, V, C: Clock + Clone> Cache<K, V, C> {
    pub closed spec fn entries(&self) -> Seq<(K, ValueWithTtl<V, C>)> {
        self.inner@
    }

    pub open spec fn wf(&self) -> bool {
        keys_distinct(self.entries())
    }

    /// Each stored key with its value and deadline, expired or not.
    pub open spec fn view(&self) -> Map<K, (V, u64)> {
        view_of(self.entries())
    }

    /// An empty cache reading time from `clock`.
    pub fn with_clock(clock: C) -> (r: Self)
        ensures
            r.wf(),
            r@ == Map::<K, (V, u64)>::empty(),
    {
        let r = Cache { inner: Vec::new(), clock };
        assert(r@ =~= Map::<K, (V, u64)>::empty());
        r
    }

    /// The number of stored entries, expired ones included.
    pub fn len(&self) -> (r: usize)
        requires
            self.wf(),
        ensures
            r == self@.dom().len(),
    {
        proof {
            lemma_view_of_dom(self.entries());
        }
        self.inner.len()
    }

    /// The position of the entry with key `key`, if any.
    fn position(&self, key: &K) -> (r: Option<usize>)
        where
            K: PartialEq,
        requires
            obeys_concrete_eq::<K>(),
        ensures
            match r {
                Some(i) => i < self.entries().len() && self.entries()[i as int].0 == *key,
                None => !holds_key(self.entries(), *key),
            },
    {
        proof {
            reveal(obeys_concrete_eq);
        }
        let mut i: usize = 0;
        while i < self.inner.len()
            invariant
                obeys_concrete_eq::<K>(),
                K::obeys_eq_spec(),
                forall|x: K, y: K| x.eq_spec(&y) == (x == y),
                i <= self.entries().len(),
                forall|j: int| 0 <= j < i ==> #[trigger] self.entries()[j].0 != *key,
            decreases self.entries().len() - i,
        {
            if self.inner[i].0.eq(key) {
                return Some(i);
            }
            i = i + 1;
        }
        None
    }

    /// Stores `value` under `key` until `ttl` ticks after `now`, replacing any
    /// entry of that key; returns the replaced value if it was still live at `now`.
    pub fn insert_at(&mut self, key: K, value: V, ttl: u64, now: u64) -> (r: Option<V>)
        where
            K: PartialEq,
        requires
            old(self).wf(),
            obeys_concrete_eq::<K>(),
        ensures
            final(self).wf(),
            final(self)@ == old(self)@.insert(key, (value, deadline_of(now, ttl))),
            r == lookup(old(self)@, key, now),
    {
        let ghost s0 = self.entries();
        let entry = ValueWithTtl::new_at(value, self.clock.clone(), ttl, now);
        match self.position(&key) {
            None => {
                self.inner.push((key, entry));
                let ghost s1 = self.entries();
                proof {
                    assert(keys_distinct(s1));
                    lemma_view_of_index(s1, s0.len() as int);
                    assert forall|k: K| k != key implies (#[trigger] view_of(s1).contains_key(k))
                        == view_of(s0).contains_key(k) && (view_of(s0).contains_key(k)
                        ==> view_of(s1)[k] == view_of(s0)[k]) by {
                        if holds_key(s0, k) {
                            let i = choose|i: int| 0 <= i < s0.len() && #[trigger] s0[i].0 == k;
                            assert(s1[i] == s0[i]);
                            lemma_view_of_index(s0, i);
                            lemma_view_of_index(s1, i);
                        }
                        if holds_key(s1, k) {
                            let i = choose|i: int| 0 <= i < s1.len() && #[trigger] s1[i].0 == k;
                            assert(s1[i] == s0[i]);
                        }
                    }
                    lemma_map_insert(view_of(s1), view_of(s0), key, (value, deadline_of(now, ttl)));
                }
                None
            },
            Some(i) => {
                let (_, previous) = self.inner.swap_remove(i);
                self.inner.push((key, entry));
                let ghost s1 = self.entries();
                let ghost last = s0.len() - 1;
                proof {
                    lemma_view_of_index(s0, i as int);
                    assert forall|a: int, b: int|
                        0 <= a < s1.len() && 0 <= b < s1.len() && a != b implies s1[a].0
                        != s1[b].0 by {
                        let oa = if a == last { i as int } else if a == i { last } else { a };
                        let ob = if b == last { i as int } else if b == i { last } else { b };
                        assert(s1[a].0 == s0[oa].0);
                        assert(s1[b].0 == s0[ob].0);
                    }
                    lemma_view_of_index(s1, last);
                    assert forall|k: K| k != key implies (#[trigger] view_of(s1).contains_key(k))
                        == view_of(s0).contains_key(k) && (view_of(s0).contains_key(k)
                        ==> view_of(s1)[k] == view_of(s0)[k]) by {
                        if holds_key(s0, k) {
                            let j = choose|j: int| 0 <= j < s0.len() && #[trigger] s0[j].0 == k;
                            let m = if j == last { i as int } else { j };
                            assert(s1[m] == s0[j]);
                            lemma_view_of_index(s0, j);
                            lemma_view_of_index(s1, m);
                        }
                        if holds_key(s1, k) {
                            let m = choose|m: int| 0 <= m < s1.len() && #[trigger] s1[m].0 == k;
                            let j = if m == i { last } else { m };
                            assert(s1[m] == s0[j]);
                        }
                    }
                    lemma_map_insert(view_of(s1), view_of(s0), key, (value, deadline_of(now, ttl)));
                }
                previous.extract_at(now)
            },
        }
    }

    /// Stores `value` under `key` for `ttl` ticks of the cache's clock; returns
    /// the replaced value if it had not yet expired.
    pub fn insert(&mut self, key: K, value: V, ttl: u64) -> (r: Option<V>)
        where
            K: PartialEq,
        requires
            old(self).wf(),
            obeys_concrete_eq::<K>(),
        ensures
            final(self).wf(),
            exists|now: u64|
                {
                    &&& final(self)@ == old(self)@.insert(key, (value, deadline_of(now, ttl)))
                    &&& r == lookup(old(self)@, key, now)
                },
    {
        let now = self.clock.now();
        self.insert_at(key, value, ttl, now)
    }

    /// Drops every entry whose deadline is not after `now`.
    pub fn gc_at(&mut self, now: u64)
        requires
            old(self).wf(),
        ensures
            final(self).wf(),
            final(self)@ == live_part(old(self)@, now),
    {
        let ghost s0 = self.entries();
        let mut kept: Vec<(K, ValueWithTtl<V, C>)> = Vec::new();
        loop
            invariant
                keys_distinct(s0),
                self.entries().len() <= s0.len(),
                self.entries() == s0.subrange(0, self.entries().len() as int),
                keys_distinct(kept@),
                forall|m: int|
                    0 <= m < kept@.len() ==> live_from(s0, self.entries().len() as int, #[trigger] kept@[m], now),
                forall|j: int|
                    self.entries().len() <= j < s0.len() && (#[trigger] s0[j]).1.live_at(now)
                        ==> exists|m: int| 0 <= m < kept@.len() && kept@[m] == s0[j],
            ensures
                self.entries().len() == 0,
            decreases self.entries().len(),
        {
            match self.inner.pop() {
                None => break,
                Some(e) => {
                    let ghost n = self.entries().len();
                    assert(s0[n as int] == e);
                    if !e.1.is_expired_at(now) {
                        let ghost k0 = kept@;
                        kept.push(e);
                        proof {
                            assert forall|a: int, b: int|
                                0 <= a < kept@.len() && 0 <= b < kept@.len() && a != b implies kept@[a].0
                                != kept@[b].0 by {
                                if a < k0.len() && b < k0.len() {
                                } else if a < k0.len() {
                                    let j = choose|j: int|
                                        n < j < s0.len() && #[trigger] s0[j] == k0[a]
                                            && s0[j].1.live_at(now);
                                    assert(s0[j].0 != s0[n as int].0);
                                } else {
                                    let j = choose|j: int|
                                        n < j < s0.len() && #[trigger] s0[j] == k0[b]
                                            && s0[j].1.live_at(now);
                                    assert(s0[j].0 != s0[n as int].0);
                                }
                            }
                            assert forall|m: int| 0 <= m < kept@.len() implies live_from(s0, n as int, #[trigger] kept@[m], now) by {
                                if m < k0.len() {
                                    let j = choose|j: int|
                                        n < j < s0.len() && #[trigger] s0[j] == k0[m]
                                            && s0[j].1.live_at(now);
                                    assert(s0[j] == kept@[m]);
                                } else {
                                    assert(s0[n as int] == kept@[m]);
                                }
                            }
                            assert forall|j: int|
                                n <= j < s0.len() && (#[trigger] s0[j]).1.live_at(now) implies exists|m: int|
                                    0 <= m < kept@.len() && kept@[m] == s0[j] by {
                                if j == n {
                                    assert(kept@[k0.len() as int] == s0[j]);
                                } else {
                                    let m = choose|m: int| 0 <= m < k0.len() && k0[m] == s0[j];
                                    assert(kept@[m] == s0[j]);
                                }
                            }
                        }
                    }
                },
            }
        }
        self.inner = kept;
        proof {
            let s1 = self.entries();
            let m0 = view_of(s0);
            assert forall|k: K| #[trigger] view_of(s1).contains_key(k) == live_part(m0, now).contains_key(k)
                && (view_of(s1).contains_key(k) ==> view_of(s1)[k] == live_part(m0, now)[k]) by {
                if holds_key(s1, k) {
                    let m = choose|m: int| 0 <= m < s1.len() && #[trigger] s1[m].0 == k;
                    let j = choose|j: int| 0 <= j < s0.len() && #[trigger] s0[j] == s1[m] && s0[j].1.live_at(now);
                    lemma_view_of_index(s0, j);
                    lemma_view_of_index(s1, m);
                }
                if holds_key(s0, k) {
                    let j = choose|j: int| 0 <= j < s0.len() && #[trigger] s0[j].0 == k;
                    lemma_view_of_index(s0, j);
                    if s0[j].1.live_at(now) {
                        let m = choose|m: int| 0 <= m < s1.len() && s1[m] == s0[j];
                        assert(s1[m].0 == k);
                    }
                }
            }
            assert(view_of(s1) =~= live_part(m0, now));
        }
    }

    /// Drops every entry that has expired at the clock's current reading.
    pub fn gc(&mut self)
        requires
            old(self).wf(),
        ensures
            final(self).wf(),
            exists|now: u64| final(self)@ == live_part(old(self)@, now),
    {
        let now = self.clock.now();
        self.gc_at(now)
    }

    /// The value stored under `key`, if its deadline lies after `now`.
    pub fn get_at(&self, key: &K, now: u64) -> (r: Option<&V>)
        where
            K: PartialEq,
        requires
            self.wf(),
            obeys_concrete_eq::<K>(),
        ensures
            match r {
                Some(v) => lookup(self@, *key, now) == Some(*v),
                None => lookup(self@, *key, now) == None::<V>,
            },
    {
        match self.position(key) {
            None => None,
            Some(i) => {
                proof {
                    lemma_view_of_index(self.entries(), i as int);
                }
                self.inner[i].1.get_at(now)
            },
        }
    }

    /// The value stored under `key`, unless it has expired at the clock's reading.
    pub fn get(&self, key: &K) -> (r: Option<&V>)
        where
            K: PartialEq,
        requires
            self.wf(),
            obeys_concrete_eq::<K>(),
        ensures
            exists|now: u64|
                match r {
                    Some(v) => lookup(self@, *key, now) == Some(*v),
                    None => lookup(self@, *key, now) == None::<V>,
                },
    {
        let now = self.clock.now();
        self.get_at(key, now)
    }
}

} // verus!

verus! {

/// A value inserted at `at` for `ttl > 0` ticks reads back at every instant
/// from `at` up to, but excluding, `at + ttl`, and reads as absent from then on.
pub proof fn lemma_insert_then_lookup<K, V>(
    m: Map<K, (V, u64)>,
    k: K,
    v: V,
    ttl: u64,
    at: u64,
    t: u64,
)
    requires
        ttl > 0,
        at + ttl <= MAX_INSTANT,
    ensures
        at <= t < at + ttl ==> lookup(m.insert(k, (v, deadline_of(at, ttl))), k, t) == Some(v),
        t >= at + ttl ==> lookup(m.insert(k, (v, deadline_of(at, ttl))), k, t) == None::<V>,
{
}

/// Inserting again under a key hands back the earlier value while it is
/// still live, and nothing once it has expired.
pub proof fn lemma_reinsert<K, V>(
    m: Map<K, (V, u64)>,
    k: K,
    v: V,
    ttl: u64,
    at: u64,
    later: u64,
)
    ensures
        later < deadline_of(at, ttl) ==> lookup(m.insert(k, (v, deadline_of(at, ttl))), k, later)
            == Some(v),
        later >= deadline_of(at, ttl) ==> lookup(m.insert(k, (v, deadline_of(at, ttl))), k, later)
            == None::<V>,
{
}

/// A sweep keeps a subset of the stored keys, so the number of entries never grows.
pub proof fn lemma_gc_shrinks<K, V, C: Clock + Clone>(c: &Cache<K, V, C>, now: u64)
    requires
        c.wf(),
    ensures
        live_part(c@, now).dom().subset_of(c@.dom()),
        live_part(c@, now).dom().len() <= c@.dom().len(),
{
    lemma_view_of_dom(c.entries());
    vstd::set_lib::lemma_len_subset(live_part(c@, now).dom(), c@.dom());
}

} // verus!
