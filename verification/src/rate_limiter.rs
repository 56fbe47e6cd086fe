//! Rate limits on new connections: a budget for each address, and one for
//! all connections together.

use crate::peer::IpAddress;
use std::collections::HashMap;
use vstd::prelude::*;

verus! {

/// The length of the window of the limit by address, in milliseconds.
pub const CONNECTION_RATE_LIMITER_WINDOW_MS: u64 = 60_000;

/// The length of the window of the limit on all connections, in
/// milliseconds.
pub const TOTAL_RATE_LIMITER_WINDOW_MS: u64 = 1_000;

/// A budget of requests in a window of time. Times are in milliseconds.
#[derive(Clone, Copy, Debug, PartialEq, Eq, Structural)]
pub struct RateLimiter {
    /// The number of requests allowed in one window.
    pub limit: u64,
    /// The length of a window.
    pub interval: u64,
    /// The number of requests allowed in the current window so far.
    pub count: u64,
    /// When the current window began.
    pub window_start: u64,
}

impl RateLimiter {
    /// Whether the current window is over at `now`.
    pub open spec fn window_over(self, now: u64) -> bool {
        now > self.window_start && now - self.window_start > self.interval
    }

    /// The limiter as it stands at `now`, before a request is counted: a
    /// window that is over has made place for a new one that begins at `now`.
    pub open spec fn refreshed(self, now: u64) -> Self {
        if self.window_over(now) {
            RateLimiter { count: 0, window_start: now, ..self }
        } else {
            self
        }
    }

    /// Whether a request at `now` is within the budget.
    pub open spec fn allows(self, now: u64) -> bool {
        self.refreshed(now).count < self.limit
    }

    /// The limiter after a request at `now`: counted if it was allowed.
    pub open spec fn after_request(self, now: u64) -> Self {
        let current = self.refreshed(now);
        if current.count < current.limit {
            RateLimiter { count: (current.count + 1) as u64, ..current }
        } else {
            current
        }
    }

    /// A limiter with its budget unused, whose first window begins at `now`.
    pub fn new(limit: u64, interval: u64, now: u64) -> (limiter: Self)
        ensures
            limiter == (RateLimiter { limit, interval, count: 0, window_start: now }),
    {
        RateLimiter { limit, interval, count: 0, window_start: now }
    }

    /// Whether the current window is over at `now`.
    pub fn is_window_over(&self, now: u64) -> (over: bool)
        ensures
            over == self.window_over(now),
    {
        now > self.window_start && now - self.window_start > self.interval
    }

    /// Takes a request at `now`: says whether it is within the budget, and
    /// counts it if it is.
    pub fn check_and_update(&mut self, now: u64) -> (allowed: bool)
        ensures
            allowed == old(self).allows(now),
            *final(self) == old(self).after_request(now),
    {
        if self.is_window_over(now) {
            self.window_start = now;
            self.count = 0;
        }
        if self.count < self.limit {
            self.count = self.count + 1;
            true
        } else {
            false
        }
    }
}

/// Within one window no more requests are allowed than the budget holds:
/// the count never passes the limit, and once it has reached the limit,
/// every request is refused until the window is over.
pub proof fn lemma_budget_holds(limiter: RateLimiter, now: u64)
    requires
        limiter.count <= limiter.limit,
    ensures
        limiter.after_request(now).count <= limiter.limit,
        limiter.after_request(now).limit == limiter.limit,
        limiter.after_request(now).interval == limiter.interval,
        !limiter.window_over(now) && limiter.count == limiter.limit ==> !limiter.allows(now)
            && limiter.after_request(now) == limiter,
        limiter.allows(now) ==> limiter.after_request(now).count == limiter.refreshed(now).count
            + 1,
        limiter.limit > 0 && limiter.window_over(now) ==> limiter.allows(now),
{
}

/// The limit on new connections from all addresses together.
pub struct TotalConnectionRateLimiter {
    limiter: RateLimiter,
}

impl View for TotalConnectionRateLimiter {
    type V = RateLimiter;

    closed spec fn view(&self) -> RateLimiter {
        self.limiter
    }
}

impl TotalConnectionRateLimiter {
    /// A limiter that allows `limit_per_second` connections in a second.
    pub fn new(limit_per_second: u64, now: u64) -> (limiter: Self)
        ensures
            limiter@ == (RateLimiter {
                limit: limit_per_second,
                interval: TOTAL_RATE_LIMITER_WINDOW_MS,
                count: 0,
                window_start: now,
            }),
    {
        TotalConnectionRateLimiter {
            limiter: RateLimiter::new(limit_per_second, TOTAL_RATE_LIMITER_WINDOW_MS, now),
        }
    }

    /// Whether one more connection is allowed at `now`; it is counted if it
    /// is.
    pub fn is_allowed(&mut self, now: u64) -> (allowed: bool)
        ensures
            allowed == old(self)@.allows(now),
            final(self)@ == old(self)@.after_request(now),
    {
        self.limiter.check_and_update(now)
    }
}

/// The budgets of the addresses of one kind, each address as an integer.
struct KeyedLimiters {
    limiters: HashMap<u128, RateLimiter>,
    keys: Vec<u128>,
}

impl KeyedLimiters {
    spec fn budgets(&self) -> Map<u128, RateLimiter> {
        self.limiters@
    }

    /// The keys list the addresses that have a budget, each once.
    spec fn wf(&self) -> bool {
        &&& self.keys@.no_duplicates()
        &&& forall|key: u128| self.limiters@.contains_key(key) <==> self.keys@.contains(key)
    }

    fn new() -> (limiters: Self)
        ensures
            limiters.wf(),
            limiters.budgets() == Map::<u128, RateLimiter>::empty(),
            limiters.keys@.len() == 0,
    {
        KeyedLimiters { limiters: HashMap::new(), keys: Vec::new() }
    }

    fn check(&mut self, key: u128, limit: u64, now: u64) -> (allowed: bool)
        requires
            old(self).wf(),
        ensures
            final(self).wf(),
            allowed == budget_of(old(self).budgets(), key, limit, now).allows(now),
            final(self).budgets() == old(self).budgets().insert(
                key,
                budget_of(old(self).budgets(), key, limit, now).after_request(now),
            ),
            final(self).keys@.len() == old(self).keys@.len() + (if old(
                self,
            ).budgets().contains_key(key) {
                0int
            } else {
                1int
            }),
    {
        broadcast use vstd::std_specs::hash::group_hash_axioms;

        let ghost keys = self.keys@;
        let known: Option<RateLimiter> = match self.limiters.get(&key) {
            Some(limiter) => Some(*limiter),
            None => None,
        };
        let mut limiter: RateLimiter = match known {
            Some(limiter) => limiter,
            None => {
                self.keys.push(key);
                RateLimiter::new(limit, CONNECTION_RATE_LIMITER_WINDOW_MS, now)
            },
        };
        let allowed: bool = limiter.check_and_update(now);
        self.limiters.insert(key, limiter);
        proof {
            if known is None {
                assert(!keys.contains(key));
                assert(self.keys@ == keys.push(key));
                assert forall|k: u128| self.limiters@.contains_key(k) <==> self.keys@.contains(
                    k,
                ) by {
                    if k == key {
                        assert(self.keys@[keys.len() as int] == key);
                    } else if keys.contains(k) {
                        let i = choose|i: int| 0 <= i < keys.len() && keys[i] == k;
                        assert(self.keys@[i] == k);
                    }
                }
            }
        }
        allowed
    }

    fn retain_recent(&mut self, now: u64)
        requires
            old(self).wf(),
        ensures
            final(self).wf(),
            final(self).budgets() == recent_budgets(old(self).budgets(), now),
            final(self).keys@.len() <= old(self).keys@.len(),
    {
        broadcast use vstd::std_specs::hash::group_hash_axioms;

        let ghost budgets = self.limiters@;
        let ghost keys = self.keys@;
        let mut kept: Vec<u128> = Vec::new();
        let mut i: usize = 0;
        while i < self.keys.len()
            invariant
                self.keys@ == keys,
                keys.no_duplicates(),
                forall|key: u128| budgets.contains_key(key) <==> keys.contains(key),
                i <= keys.len(),
                kept@.len() <= i,
                kept@.no_duplicates(),
                forall|key: u128|
                    kept@.contains(key) <==> keys.take(i as int).contains(key) && is_recent(
                        budgets,
                        key,
                        now,
                    ),
                forall|key: u128|
                    #[trigger] self.limiters@.contains_key(key) <==> keys.contains(key) && (
                    keys.take(i as int).contains(key) ==> is_recent(budgets, key, now)),
                forall|key: u128|
                    #[trigger] self.limiters@.contains_key(key) ==> budgets.contains_key(key)
                        && self.limiters@[key] == budgets[key],
            decreases keys.len() - i,
        {
            let key: u128 = self.keys[i];
            let ghost kept_before = kept@;
            let ghost limiters_before = self.limiters@;
            proof {
                assert(keys.contains(key));
                assert(keys.take(i + 1) == keys.take(i as int).push(key));
                assert(!keys.take(i as int).contains(key)) by {
                    if keys.take(i as int).contains(key) {
                        let j = choose|j: int|
                            0 <= j < keys.take(i as int).len() && keys.take(i as int)[j] == key;
                        assert(keys[j] == keys[i as int]);
                    }
                }
                assert(limiters_before.contains_key(key));
            }
            let stale: bool = match self.limiters.get(&key) {
                Some(limiter) => limiter.is_window_over(now),
                None => false,
            };
            proof {
                assert(stale == !is_recent(budgets, key, now));
            }
            if stale {
                self.limiters.remove(&key);
                proof {
                    assert(self.limiters@ == limiters_before.remove(key));
                }
            } else {
                kept.push(key);
            }
            proof {
                assert forall|k: u128|
                    kept@.contains(k) <==> keys.take(i + 1).contains(k) && is_recent(
                        budgets,
                        k,
                        now,
                    ) by {
                    lemma_push_contains(keys.take(i as int), key, k);
                    if !stale {
                        lemma_push_contains(kept_before, key, k);
                    }
                }
                assert forall|k: u128|
                    self.limiters@.contains_key(k) <==> keys.contains(k) && (keys.take(
                        i + 1,
                    ).contains(k) ==> is_recent(budgets, k, now)) by {
                    lemma_push_contains(keys.take(i as int), key, k);
                    if k != key {
                        assert(self.limiters@.contains_key(k) == limiters_before.contains_key(k));
                    }
                }
                if !stale {
                    assert(!kept_before.contains(key));
                    lemma_push_no_duplicates(kept_before, key);
                }
            }
            i = i + 1;
        }
        proof {
            assert(keys.take(i as int) == keys);
            assert(self.limiters@ =~= recent_budgets(budgets, now));
        }
        self.keys = kept;
    }
}

proof fn lemma_push_contains(s: Seq<u128>, last: u128, k: u128)
    ensures
        s.push(last).contains(k) <==> s.contains(k) || k == last,
{
    if s.contains(k) {
        let i = choose|i: int| 0 <= i < s.len() && s[i] == k;
        assert(s.push(last)[i] == k);
    }
    if k == last {
        assert(s.push(last)[s.len() as int] == k);
    }
}

proof fn lemma_push_no_duplicates(s: Seq<u128>, last: u128)
    requires
        s.no_duplicates(),
        !s.contains(last),
    ensures
        s.push(last).no_duplicates(),
{
    assert forall|i: int, j: int|
        0 <= i < s.push(last).len() && 0 <= j < s.push(last).len() && i != j implies s.push(
        last,
    )[i] != s.push(last)[j] by {
        if i < s.len() && j < s.len() {
        } else if i < s.len() {
            assert(s.contains(s[i]));
        } else {
            assert(s.contains(s[j]));
        }
    }
}

/// The budget under which a request of `key` is taken: the one that the key
/// has, or a fresh one whose window begins at `now`.
pub open spec fn budget_of(budgets: Map<u128, RateLimiter>, key: u128, limit: u64, now: u64)
    -> RateLimiter {
    if budgets.contains_key(key) {
        budgets[key]
    } else {
        RateLimiter { limit, interval: CONNECTION_RATE_LIMITER_WINDOW_MS, count: 0, window_start: now }
    }
}

/// Whether a key has a budget whose window is not over at `now`.
pub open spec fn is_recent(budgets: Map<u128, RateLimiter>, key: u128, now: u64) -> bool {
    budgets.contains_key(key) && !budgets[key].window_over(now)
}

/// The budgets whose window is not over at `now`.
pub open spec fn recent_budgets(budgets: Map<u128, RateLimiter>, now: u64) -> Map<
    u128,
    RateLimiter,
> {
    Map::new(|key: u128| is_recent(budgets, key, now), |key: u128| budgets[key])
}

/// The limit on new connections by address: each address has a budget of
/// connections in a minute.
pub struct ConnectionRateLimiter {
    v4: KeyedLimiters,
    v6: KeyedLimiters,
    limit_per_minute: u64,
}

impl ConnectionRateLimiter {
    /// The budgets of the addresses of version 4.
    pub closed spec fn v4_budgets(&self) -> Map<u128, RateLimiter> {
        self.v4.budgets()
    }

    /// The budgets of the addresses of version 6.
    pub closed spec fn v6_budgets(&self) -> Map<u128, RateLimiter> {
        self.v6.budgets()
    }

    /// The number of connections that an address is allowed in a minute.
    pub closed spec fn limit(&self) -> u64 {
        self.limit_per_minute
    }

    /// The number of addresses that have a budget.
    pub closed spec fn size(&self) -> nat {
        self.v4.keys@.len() + self.v6.keys@.len()
    }

    pub closed spec fn wf(&self) -> bool {
        self.v4.wf() && self.v6.wf()
    }

    /// The budgets of the addresses of the kind of `ip`.
    pub open spec fn budgets(&self, ip: IpAddress) -> Map<u128, RateLimiter> {
        match ip {
            IpAddress::V4(_) => self.v4_budgets(),
            IpAddress::V6(_) => self.v6_budgets(),
        }
    }

    /// A limiter that allows each address `limit_per_minute` connections in
    /// a minute, and that knows no address yet.
    pub fn new(limit_per_minute: u64) -> (limiter: Self)
        ensures
            limiter.wf(),
            limiter.limit() == limit_per_minute,
            limiter.v4_budgets() == Map::<u128, RateLimiter>::empty(),
            limiter.v6_budgets() == Map::<u128, RateLimiter>::empty(),
            limiter.size() == 0,
    {
        ConnectionRateLimiter {
            v4: KeyedLimiters::new(),
            v6: KeyedLimiters::new(),
            limit_per_minute,
        }
    }

    /// Whether one more connection from `ip` is allowed at `now`; it is
    /// counted if it is. An address that is new gets a fresh budget.
    pub fn is_allowed(&mut self, ip: &IpAddress, now: u64) -> (allowed: bool)
        requires
            old(self).wf(),
        ensures
            final(self).wf(),
            final(self).limit() == old(self).limit(),
            allowed == budget_of(old(self).budgets(*ip), address_bits(*ip), old(self).limit(), now).allows(
                now,
            ),
            final(self).budgets(*ip) == old(self).budgets(*ip).insert(
                address_bits(*ip),
                budget_of(
                    old(self).budgets(*ip),
                    address_bits(*ip),
                    old(self).limit(),
                    now,
                ).after_request(now),
            ),
            ip is V4 ==> final(self).v6_budgets() == old(self).v6_budgets(),
            ip is V6 ==> final(self).v4_budgets() == old(self).v4_budgets(),
            final(self).size() == old(self).size() + (if old(self).budgets(*ip).contains_key(
                address_bits(*ip),
            ) {
                0int
            } else {
                1int
            }),
    {
        match ip {
            IpAddress::V4(bits) => self.v4.check(*bits as u128, self.limit_per_minute, now),
            IpAddress::V6(bits) => self.v6.check(*bits, self.limit_per_minute, now),
        }
    }

    /// Forgets the addresses whose window is over at `now`: their budget is
    /// unused again, as that of an address that is new.
    pub fn retain_recent(&mut self, now: u64)
        requires
            old(self).wf(),
        ensures
            final(self).wf(),
            final(self).limit() == old(self).limit(),
            final(self).v4_budgets() == recent_budgets(old(self).v4_budgets(), now),
            final(self).v6_budgets() == recent_budgets(old(self).v6_budgets(), now),
            final(self).size() <= old(self).size(),
    {
        self.v4.retain_recent(now);
        self.v6.retain_recent(now);
    }

    /// The number of addresses that have a budget.
    pub fn len(&self) -> (len: usize)
        ensures
            len == if self.size() <= usize::MAX {
                self.size() as usize
            } else {
                usize::MAX
            },
    {
        let v4: usize = self.v4.keys.len();
        let v6: usize = self.v6.keys.len();
        if v4 > usize::MAX - v6 {
            usize::MAX
        } else {
            v4 + v6
        }
    }
}

/// The integer of an address.
pub open spec fn address_bits(ip: IpAddress) -> u128 {
    match ip {
        IpAddress::V4(bits) => bits as u128,
        IpAddress::V6(bits) => bits,
    }
}

/// Forgetting the addresses whose window is over changes no answer: such an
/// address is answered as one that is new, before and after.
pub proof fn lemma_retain_recent_keeps_answers(
    budgets: Map<u128, RateLimiter>,
    key: u128,
    limit: u64,
    cleaned_at: u64,
    now: u64,
)
    requires
        cleaned_at <= now,
        budgets.contains_key(key) ==> budgets[key].limit == limit && budgets[key].interval
            == CONNECTION_RATE_LIMITER_WINDOW_MS,
    ensures
        budget_of(recent_budgets(budgets, cleaned_at), key, limit, now).allows(now) == budget_of(
            budgets,
            key,
            limit,
            now,
        ).allows(now),
{
}

} // verus!
