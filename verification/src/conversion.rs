use vstd::prelude::*;
use vstd::arithmetic::div_mod::{
    lemma_fundamental_div_mod, lemma_hoist_over_denominator, lemma_div_pos_is_pos,
};

verus! {

/// Number of wei (the smallest native subunit) in one whole native unit.
pub const WEI_PER_NATIVE: u128 = 1000000000000000000;

/// Number of wei in one Gwei; withdrawal amounts arrive in Gwei.
pub const WEI_PER_GWEI: u128 = 1000000000;

/// Throttle interval between external price lookups when an API key is
/// configured (seconds).
pub const THROTTLE_WITH_KEY_SECS: u64 = 4;

/// Throttle interval between external price lookups without an API key
/// (seconds).
pub const THROTTLE_WITHOUT_KEY_SECS: u64 = 12;

/// The fiat value, in micro-fiat, of `amount` wei priced at `price`
/// micro-fiat per whole native unit: `amount * price / WEI_PER_NATIVE`,
/// rounded toward zero.
pub open spec fn fiat_micro(amount: int, price: int) -> int {
    (amount * price) / (WEI_PER_NATIVE as int)
}

/// Splitting `amount` into whole native units and a wei remainder splits the
/// fiat value accordingly.
proof fn lemma_fiat_split(a: int, p: int)
    requires
        0 <= a,
        0 <= p,
    ensures
        fiat_micro(a, p) == (a / (WEI_PER_NATIVE as int)) * p
            + ((a % (WEI_PER_NATIVE as int)) * p) / (WEI_PER_NATIVE as int),
        ((a % (WEI_PER_NATIVE as int)) * p) / (WEI_PER_NATIVE as int) >= 0,
        (a / (WEI_PER_NATIVE as int)) * p >= 0,
{
    let e = WEI_PER_NATIVE as int;
    let q = a / e;
    let rm = a % e;
    lemma_fundamental_div_mod(a, e);
    assert(a * p == rm * p + (q * p) * e) by (nonlinear_arith)
        requires a == e * q + rm,
    ;
    lemma_hoist_over_denominator(rm * p, q * p, WEI_PER_NATIVE as nat);
    assert(rm * p >= 0) by (nonlinear_arith)
        requires rm >= 0, p >= 0,
    ;
    assert(q * p >= 0) by (nonlinear_arith)
        requires q >= 0, p >= 0,
    ;
    if rm * p > 0 {
        lemma_div_pos_is_pos(rm * p, e);
    }
}

/// Computes the fiat value, in micro-fiat, of `amount` wei at `price`
/// micro-fiat per whole native unit. Returns `None` exactly when the value
/// does not fit in a `u64`.
pub fn fiat_value(amount: u128, price: u64) -> (r: Option<u64>)
    ensures
        r is Some <==> fiat_micro(amount as int, price as int) <= u64::MAX,
        r is Some ==> r->Some_0 == fiat_micro(amount as int, price as int),
{
    proof {
        lemma_fiat_split(amount as int, price as int);
    }
    let q = amount / WEI_PER_NATIVE;
    let rm = amount % WEI_PER_NATIVE;
    assert(rm * (price as u128) <= (WEI_PER_NATIVE - 1) * (u64::MAX as u128)) by (nonlinear_arith)
        requires rm <= WEI_PER_NATIVE - 1, price <= u64::MAX,
    ;
    let low = (rm * (price as u128)) / WEI_PER_NATIVE;
    match q.checked_mul(price as u128) {
        None => {
            assert(q * (price as u128) > u128::MAX);
            None
        }
        Some(high) => {
            match high.checked_add(low) {
                None => None,
                Some(total) => {
                    if total > u64::MAX as u128 {
                        None
                    } else {
                        Some(total as u64)
                    }
                }
            }
        }
    }
}

/// The mapping that a sequence of `(day, price)` entries denotes; a later
/// entry for a day shadows an earlier one.
pub open spec fn map_of(s: Seq<(u64, u64)>) -> Map<u64, u64>
    decreases s.len(),
{
    if s.len() == 0 {
        Map::empty()
    } else {
        map_of(s.drop_last()).insert(s.last().0, s.last().1)
    }
}

/// An entry for `day` that no later entry shadows gives `day`'s price.
proof fn lemma_map_of_last_occurrence(s: Seq<(u64, u64)>, i: int, day: u64)
    requires
        0 <= i < s.len(),
        s[i].0 == day,
        forall|k: int| i < k < s.len() ==> (#[trigger] s[k]).0 != day,
    ensures
        map_of(s).contains_key(day),
        map_of(s)[day] == s[i].1,
    decreases s.len(),
{
    if i == s.len() - 1 {
    } else {
        lemma_map_of_last_occurrence(s.drop_last(), i, day);
    }
}

/// A day that no entry names is absent from the mapping.
proof fn lemma_map_of_absent(s: Seq<(u64, u64)>, day: u64)
    requires
        forall|k: int| 0 <= k < s.len() ==> (#[trigger] s[k]).0 != day,
    ensures
        !map_of(s).contains_key(day),
    decreases s.len(),
{
    if s.len() > 0 {
        lemma_map_of_absent(s.drop_last(), day);
    }
}

/// The persistent price cache: day-indexed historical prices, held as a flat
/// list of `(day index, price in micro-fiat)` entries. Reading and writing
/// the backing document is the caller's concern; the cache itself is a pure
/// day-to-price mapping.
pub struct PriceCache {
    entries: Vec<(u64, u64)>,
}

impl View for PriceCache {
    type V = Map<u64, u64>;

    closed spec fn view(&self) -> Map<u64, u64> {
        map_of(self.entries@)
    }
}

impl PriceCache {
    /// An empty cache.
    pub fn new() -> (r: Self)
        ensures
            r@ == Map::<u64, u64>::empty(),
    {
        PriceCache { entries: Vec::new() }
    }

    /// Rebuilds a cache from persisted entries; a later entry for a day
    /// shadows an earlier one, as `put` would.
    pub fn from_entries(entries: Vec<(u64, u64)>) -> (r: Self)
        ensures
            r@ == map_of(entries@),
    {
        PriceCache { entries }
    }

    /// The entries to persist: they denote exactly this cache's mapping.
    pub fn entries(&self) -> (r: &Vec<(u64, u64)>)
        ensures
            map_of(r@) == self@,
    {
        &self.entries
    }

    /// The cached price for a day, if one is stored.
    pub fn get_cached(&self, day: u64) -> (r: Option<u64>)
        ensures
            r == if self@.contains_key(day) {
                Some(self@[day])
            } else {
                None::<u64>
            },
    {
        let n = self.entries.len();
        let mut i: usize = n;
        while i > 0
            invariant
                i <= n,
                n == self.entries@.len(),
                forall|k: int| i <= k < n ==> (#[trigger] self.entries@[k]).0 != day,
            decreases i,
        {
            i = i - 1;
            let entry = self.entries[i];
            if entry.0 == day {
                proof {
                    lemma_map_of_last_occurrence(self.entries@, i as int, day);
                }
                return Some(entry.1);
            }
        }
        proof {
            lemma_map_of_absent(self.entries@, day);
        }
        None
    }

    /// Stores a fetched price for a day, replacing any earlier one.
    pub fn put(&mut self, day: u64, price: u64)
        ensures
            final(self)@ == old(self)@.insert(day, price),
    {
        self.entries.push((day, price));
        proof {
            assert(self.entries@.drop_last() =~= old(self).entries@);
        }
    }
}

/// Law: price resolution is idempotent per date. Once a fetched price is
/// stored under its day, a later lookup of the same day is a cache hit that
/// returns that price, so no further external call (and no rate-limit slot)
/// is needed for it: `put(day, p)` followed by `get_cached(day)` yields
/// `Some(p)`.
pub proof fn lemma_resolution_idempotent(cache: Map<u64, u64>, day: u64, price: u64)
    ensures
        cache.insert(day, price).contains_key(day),
        cache.insert(day, price)[day] == price,
{
}

/// A minimum-interval throttle: at most one permitted call per interval.
/// Time is supplied by the caller as seconds of some monotonic clock; the
/// limiter itself holds only the instant of the last permitted call.
pub struct RateLimiter {
    /// Seconds that must elapse between two permitted calls.
    pub interval_secs: u64,
    /// When the last permitted call was made, if any.
    pub last_permit: Option<u64>,
}

impl RateLimiter {
    /// Whether a call at instant `now` is permitted.
    pub open spec fn permitted(&self, now: u64) -> bool {
        match self.last_permit {
            None => true,
            Some(t) => now >= t + self.interval_secs,
        }
    }

    /// A fresh limiter; its first call is always permitted.
    pub fn new(interval_secs: u64) -> (r: Self)
        ensures
            r.interval_secs == interval_secs,
            r.last_permit is None,
    {
        RateLimiter { interval_secs, last_permit: None }
    }

    /// Takes the one slot available at instant `now`, if the minimum
    /// interval since the last permitted call has elapsed.
    pub fn try_acquire(&mut self, now: u64) -> (ok: bool)
        ensures
            ok == old(self).permitted(now),
            ok ==> *final(self) == (RateLimiter { last_permit: Some(now), ..*old(self) }),
            !ok ==> *final(self) == *old(self),
    {
        let permitted = match self.last_permit {
            None => true,
            Some(t) => now >= t && now - t >= self.interval_secs,
        };
        if permitted {
            self.last_permit = Some(now);
        }
        permitted
    }
}

/// The throttle interval the external price API is given: shorter with an
/// API key, longer without.
pub fn limiter_interval_secs(has_api_key: bool) -> (r: u64)
    ensures
        r == if has_api_key {
            THROTTLE_WITH_KEY_SECS
        } else {
            THROTTLE_WITHOUT_KEY_SECS
        },
{
    if has_api_key {
        THROTTLE_WITH_KEY_SECS
    } else {
        THROTTLE_WITHOUT_KEY_SECS
    }
}

} // verus!
