use vstd::prelude::*;
use crate::conversion::{fiat_micro, PriceCache, WEI_PER_GWEI};
use crate::dates::{year_of, year_of_timestamp, MAX_TIMESTAMP, SECONDS_PER_DAY, day_of_timestamp};
use crate::parse::{dec_digits, dec_value, format_u64, is_dec_numeral, parse_u128};
use crate::types::{
    Address, ArithmeticError, FetchError, RawBlock, RawInternalTransaction, RawTransaction,
    RawWithdrawal, Reward, RewardEvent, RewardEventV, RewardV,
};

verus! {

/// A ledger in chronological order: dates never decrease.
pub open spec fn sorted_by_date(s: Seq<RewardEvent>) -> bool {
    forall|i: int, j: int| 0 <= i < j < s.len() ==> s[i].spec_date() <= s[j].spec_date()
}

/// `p` maps positions of `b` back to distinct positions of a sequence of
/// length `n`.
pub open spec fn valid_perm(p: Seq<int>, n: int) -> bool {
    &&& p.len() == n
    &&& forall|i: int| 0 <= i < n ==> 0 <= #[trigger] p[i] < n
    &&& forall|i: int, j: int| 0 <= i < j < n ==> p[i] != p[j]
}

/// `b` is `a` rearranged along the permutation `p`, and entries that share a
/// date keep their original relative order (stability).
pub open spec fn stable_arrangement(
    a: Seq<RewardEvent>,
    b: Seq<RewardEvent>,
    p: Seq<int>,
) -> bool {
    &&& valid_perm(p, a.len() as int)
    &&& b.len() == a.len()
    &&& forall|i: int| 0 <= i < b.len() ==> b[i] == a[#[trigger] p[i]]
    &&& forall|i: int, j: int|
        #![trigger p[i], p[j]]
        0 <= i < j < b.len() && b[i].spec_date() == b[j].spec_date() ==> p[i] < p[j]
}

/// How one event moves the native-unit balance: a credit adds its amount, an
/// `Outgoing` subtracts its amount and its fee.
pub open spec fn signed_delta(e: RewardEvent) -> int {
    match e {
        RewardEvent::Outgoing { reward, fee } => -(reward.amount + fee),
        _ => e.spec_reward().amount as int,
    }
}

/// The mathematical balance after a sequence of events, in ledger order,
/// with no range limits.
pub open spec fn running_balance(s: Seq<RewardEvent>) -> int
    decreases s.len(),
{
    if s.len() == 0 {
        0
    } else {
        running_balance(s.drop_last()) + signed_delta(s.last())
    }
}

/// Whether every intermediate balance stays within the unsigned 128-bit
/// range; summation order is ledger order, so a debit ahead of its credit
/// underflows even when the final figure would be representable.
pub open spec fn balance_in_range(s: Seq<RewardEvent>) -> bool {
    forall|i: int|
        0 <= i <= s.len() ==> 0 <= #[trigger] running_balance(s.subrange(0, i)) <= u128::MAX
}

/// Total realized fiat earnings: the fiat values of all credit events.
/// `Outgoing` entries contribute nothing.
pub open spec fn fiat_total(s: Seq<RewardEvent>) -> int
    decreases s.len(),
{
    if s.len() == 0 {
        0
    } else {
        fiat_total(s.drop_last()) + if s.last().is_credit() {
            s.last().spec_reward().fiat as int
        } else {
            0
        }
    }
}

/// The fiat values of the `Outgoing` entries alone.
pub open spec fn outgoing_fiat_total(s: Seq<RewardEvent>) -> int
    decreases s.len(),
{
    if s.len() == 0 {
        0
    } else {
        outgoing_fiat_total(s.drop_last()) + if s.last().is_credit() {
            0
        } else {
            s.last().spec_reward().fiat as int
        }
    }
}

/// Unliquidated earnings: each credit adds its fiat value, each `Outgoing`
/// subtracts its fiat value.
pub open spec fn unliquidated_total(s: Seq<RewardEvent>) -> int
    decreases s.len(),
{
    if s.len() == 0 {
        0
    } else {
        unliquidated_total(s.drop_last()) + if s.last().is_credit() {
            s.last().spec_reward().fiat as int
        } else {
            -(s.last().spec_reward().fiat as int)
        }
    }
}

/// Whether every intermediate unliquidated figure stays within the signed
/// 128-bit range.
pub open spec fn unliquidated_in_range(s: Seq<RewardEvent>) -> bool {
    forall|i: int|
        0 <= i <= s.len() ==> i128::MIN <= #[trigger] unliquidated_total(s.subrange(0, i))
            <= i128::MAX
}

/// One more event shifts the balance by its signed delta.
proof fn lemma_running_balance_step(s: Seq<RewardEvent>, i: int)
    requires
        0 <= i < s.len(),
    ensures
        running_balance(s.subrange(0, i + 1)) == running_balance(s.subrange(0, i)) + signed_delta(
            s[i],
        ),
{
    let t = s.subrange(0, i + 1);
    assert(t.drop_last() =~= s.subrange(0, i));
    assert(t.last() == s[i]);
}

/// One more event adds its credit fiat value to the total.
proof fn lemma_fiat_total_step(s: Seq<RewardEvent>, i: int)
    requires
        0 <= i < s.len(),
    ensures
        fiat_total(s.subrange(0, i + 1)) == fiat_total(s.subrange(0, i)) + if s[i].is_credit() {
            s[i].spec_reward().fiat as int
        } else {
            0
        },
{
    let t = s.subrange(0, i + 1);
    assert(t.drop_last() =~= s.subrange(0, i));
    assert(t.last() == s[i]);
}

/// One more event shifts the unliquidated figure by its signed fiat value.
proof fn lemma_unliquidated_step(s: Seq<RewardEvent>, i: int)
    requires
        0 <= i < s.len(),
    ensures
        unliquidated_total(s.subrange(0, i + 1)) == unliquidated_total(s.subrange(0, i)) + if s[i]
            .is_credit() {
            s[i].spec_reward().fiat as int
        } else {
            -(s[i].spec_reward().fiat as int)
        },
{
    let t = s.subrange(0, i + 1);
    assert(t.drop_last() =~= s.subrange(0, i));
    assert(t.last() == s[i]);
}

/// The fiat total never exceeds one maximal fiat value per event.
proof fn lemma_fiat_total_bound(s: Seq<RewardEvent>)
    ensures
        0 <= fiat_total(s) <= s.len() * (u64::MAX as int),
    decreases s.len(),
{
    if s.len() > 0 {
        lemma_fiat_total_bound(s.drop_last());
        assert((s.len() - 1) * (u64::MAX as int) + (u64::MAX as int) == s.len() * (
        u64::MAX as int)) by (nonlinear_arith);
    }
}

/// The current native-unit balance of the whole ledger: every credit's
/// amount added, every `Outgoing`'s amount and fee subtracted, in ledger
/// order over unsigned 128-bit arithmetic. An intermediate figure below zero
/// or above the range is a fatal arithmetic error, never clamped.
pub fn current_balance(events: &Vec<RewardEvent>) -> (r: Result<u128, ArithmeticError>)
    ensures
        r is Ok <==> balance_in_range(events@),
        r matches Ok(b) ==> b == running_balance(events@),
{
    let ghost s = events@;
    let mut sum: u128 = 0;
    let mut i: usize = 0;
    assert(s.subrange(0, 0) =~= Seq::<RewardEvent>::empty());
    while i < events.len()
        invariant
            0 <= i <= s.len(),
            s == events@,
            sum == running_balance(s.subrange(0, i as int)),
            forall|j: int|
                0 <= j <= i ==> 0 <= #[trigger] running_balance(s.subrange(0, j)) <= u128::MAX,
        decreases s.len() - i,
    {
        proof {
            lemma_running_balance_step(s, i as int);
        }
        let next = match &events[i] {
            RewardEvent::Outgoing { reward, fee } => {
                match reward.amount.checked_add(*fee) {
                    Some(debit) => sum.checked_sub(debit),
                    None => None,
                }
            }
            e => sum.checked_add(e.reward().amount),
        };
        match next {
            Some(v) => {
                sum = v;
            }
            None => {
                assert(!(0 <= running_balance(s.subrange(0, i + 1)) <= u128::MAX));
                return Err(ArithmeticError);
            }
        }
        i += 1;
    }
    proof {
        assert(s.subrange(0, s.len() as int) =~= s);
    }
    Ok(sum)
}

/// Total realized fiat earnings of the ledger, in micro-fiat: the fiat
/// values of all credit events summed; `Outgoing` entries are ignored
/// entirely.
pub fn total_earnings(events: &Vec<RewardEvent>) -> (r: u128)
    ensures
        r == fiat_total(events@),
{
    let ghost s = events@;
    let mut sum: u128 = 0;
    let mut i: usize = 0;
    assert(s.subrange(0, 0) =~= Seq::<RewardEvent>::empty());
    while i < events.len()
        invariant
            0 <= i <= s.len(),
            s == events@,
            sum == fiat_total(s.subrange(0, i as int)),
        decreases s.len() - i,
    {
        proof {
            lemma_fiat_total_step(s, i as int);
            lemma_fiat_total_bound(s.subrange(0, i as int));
            assert(s.subrange(0, i as int).len() * (u64::MAX as int) <= (u64::MAX as int) * (
            u64::MAX as int)) by (nonlinear_arith)
                requires s.subrange(0, i as int).len() <= u64::MAX as int,
            ;
        }
        let e = &events[i];
        if !(matches!(e, RewardEvent::Outgoing { .. })) {
            sum = sum + (e.reward().fiat as u128);
        }
        i += 1;
    }
    proof {
        assert(s.subrange(0, s.len() as int) =~= s);
    }
    sum
}

/// Unliquidated earnings of the ledger, in micro-fiat: realized earnings net
/// of the fiat value of everything sent out. An intermediate figure outside
/// the signed 128-bit range is a fatal arithmetic error.
pub fn unliquidated(events: &Vec<RewardEvent>) -> (r: Result<i128, ArithmeticError>)
    ensures
        r is Ok <==> unliquidated_in_range(events@),
        r matches Ok(v) ==> v == unliquidated_total(events@),
{
    let ghost s = events@;
    let mut sum: i128 = 0;
    let mut i: usize = 0;
    assert(s.subrange(0, 0) =~= Seq::<RewardEvent>::empty());
    while i < events.len()
        invariant
            0 <= i <= s.len(),
            s == events@,
            sum == unliquidated_total(s.subrange(0, i as int)),
            forall|j: int|
                0 <= j <= i ==> i128::MIN <= #[trigger] unliquidated_total(s.subrange(0, j))
                    <= i128::MAX,
        decreases s.len() - i,
    {
        proof {
            lemma_unliquidated_step(s, i as int);
        }
        let e = &events[i];
        let fiat = e.reward().fiat;
        let next = if matches!(e, RewardEvent::Outgoing { .. }) {
            sum.checked_sub_unsigned(fiat as u128)
        } else {
            sum.checked_add_unsigned(fiat as u128)
        };
        match next {
            Some(v) => {
                sum = v;
            }
            None => {
                assert(!(i128::MIN <= unliquidated_total(s.subrange(0, i + 1)) <= i128::MAX));
                return Err(ArithmeticError);
            }
        }
        i += 1;
    }
    proof {
        assert(s.subrange(0, s.len() as int) =~= s);
    }
    Ok(sum)
}

/// Law: total earnings ignore `Outgoing` entries entirely — appending one to
/// any ledger leaves the total unchanged.
pub proof fn lemma_total_earnings_ignores_outgoing(s: Seq<RewardEvent>, reward: Reward, fee: u128)
    ensures
        fiat_total(s.push(RewardEvent::Outgoing { reward, fee })) == fiat_total(s),
{
    let t = s.push(RewardEvent::Outgoing { reward, fee });
    assert(t.drop_last() =~= s);
}

/// Law: total earnings ignore `Outgoing` entries entirely — a ledger made of
/// `Outgoing` entries alone has zero total earnings.
pub proof fn lemma_total_earnings_all_outgoing_zero(s: Seq<RewardEvent>)
    requires
        forall|i: int| 0 <= i < s.len() ==> !(#[trigger] s[i]).is_credit(),
    ensures
        fiat_total(s) == 0,
    decreases s.len(),
{
    if s.len() > 0 {
        lemma_total_earnings_all_outgoing_zero(s.drop_last());
    }
}

/// Law: the unliquidated figure is exactly the total earnings minus the fiat
/// value of the `Outgoing` entries, for any ledger.
pub proof fn lemma_unliquidated_decomposition(s: Seq<RewardEvent>)
    ensures
        unliquidated_total(s) == fiat_total(s) - outgoing_fiat_total(s),
    decreases s.len(),
{
    if s.len() > 0 {
        lemma_unliquidated_decomposition(s.drop_last());
    }
}

/// Sorts the ledger chronologically in place: dates ascending. The sort is
/// stable — some permutation relates the result to the input, and entries
/// sharing a date keep their original relative order.
pub fn sort(events: &mut Vec<RewardEvent>)
    ensures
        sorted_by_date(final(events)@),
        final(events)@.len() == old(events)@.len(),
        forall|i: int|
            0 <= i < final(events)@.len() ==> old(events)@.contains(#[trigger] final(events)@[i]),
        exists|p: Seq<int>| stable_arrangement(old(events)@, final(events)@, p),
{
    let ghost orig = events@;
    let n = events.len();
    let ghost mut perm: Seq<int> = Seq::new(n as nat, |k: int| k);
    if n <= 1 {
        proof {
            assert(stable_arrangement(orig, events@, perm));
            assert forall|k: int| 0 <= k < events@.len() implies orig.contains(
                #[trigger] events@[k],
            ) by {
                assert(events@[k] == orig[perm[k]]);
            }
        }
        return ;
    }
    let mut i: usize = 1;
    while i < n
        invariant
            1 <= i <= n,
            n == events@.len(),
            n == orig.len(),
            stable_arrangement(orig, events@, perm),
            forall|a: int, b: int|
                0 <= a < b < i ==> events@[a].spec_date() <= events@[b].spec_date(),
        decreases n - i,
    {
        let mut j: usize = i;
        let mut placed = false;
        while j > 0 && !placed
            invariant
                0 <= j <= i < n,
                n == events@.len(),
                n == orig.len(),
                stable_arrangement(orig, events@, perm),
                forall|a: int, b: int|
                    0 <= a < b <= i && b != j ==> events@[a].spec_date() <= events@[b].spec_date(),
                forall|b: int|
                    j < b <= i ==> events@[j as int].spec_date() < (#[trigger] events@[b]).spec_date(),
                placed ==> j > 0 && events@[j - 1].spec_date() <= events@[j as int].spec_date(),
            decreases j, (if placed { 0int } else { 1int }),
        {
            let dprev = events[j - 1].date();
            let dcur = events[j].date();
            if dprev <= dcur {
                placed = true;
            } else {
                let ghost before = events@;
                let ghost p0 = perm;
                let moved = events.remove(j);
                events.insert(j - 1, moved);
                proof {
                    let jj = j as int;
                    assert(events@ =~= before.update(jj - 1, before[jj]).update(
                        jj,
                        before[jj - 1],
                    ));
                    perm = p0.update(jj - 1, p0[jj]).update(jj, p0[jj - 1]);
                    assert forall|a: int| 0 <= a < n implies events@[a] == orig[#[trigger] perm[a]] by {
                        assert(before[a] == orig[p0[a]]);
                    }
                    assert forall|a: int, b: int| 0 <= a < b < n implies perm[a] != perm[b] by {
                        assert(p0[a] != p0[b]);
                        assert(p0[jj - 1] != p0[jj]);
                    }
                    assert forall|a: int, b: int|
                        #![trigger perm[a], perm[b]]
                        0 <= a < b < n && events@[a].spec_date() == events@[b].spec_date()
                            implies perm[a] < perm[b] by {
                        if a == jj - 1 && b == jj {
                            assert(before[jj - 1].spec_date() > before[jj].spec_date());
                        } else if b == jj - 1 {
                            assert(p0[a] < p0[jj]);
                        } else if b == jj {
                            assert(p0[a] < p0[jj - 1]);
                        } else if a == jj - 1 {
                            assert(p0[jj] < p0[b]);
                        } else if a == jj {
                            assert(p0[jj - 1] < p0[b]);
                        } else {
                            assert(p0[a] < p0[b]);
                        }
                    }
                }
                j = j - 1;
            }
        }
        proof {
            assert forall|a: int, b: int| 0 <= a < b <= i implies events@[a].spec_date()
                <= events@[b].spec_date() by {
                if b == j {
                    if a < j - 1 {
                        assert(events@[a].spec_date() <= events@[j - 1].spec_date());
                    }
                }
            }
        }
        i += 1;
    }
    proof {
        assert(stable_arrangement(old(events)@, events@, perm));
        assert forall|k: int| 0 <= k < events@.len() implies old(events)@.contains(
            #[trigger] events@[k],
        ) by {
            assert(events@[k] == orig[perm[k]]);
        }
    }
}

/// Whether a date falls in a calendar year: the year component alone is
/// compared.
pub fn range_filter(date: u64, year: i32) -> (r: bool)
    requires
        date <= MAX_TIMESTAMP,
    ensures
        r == (year_of(date as int) == year as int),
{
    year_of_timestamp(date) == year
}

/// Whether an event falls in a calendar year.
pub open spec fn in_year(e: RewardEvent, year: i32) -> bool {
    year_of(e.spec_date() as int) == year as int
}

/// The subsequence of a ledger that falls in a calendar year, in ledger
/// order.
pub open spec fn year_filter(s: Seq<RewardEvent>, year: i32) -> Seq<RewardEvent> {
    s.filter(|e: RewardEvent| in_year(e, year))
}

/// Keeps exactly the events whose date falls in `year`, in ledger order.
pub fn filter_by_year(events: &Vec<RewardEvent>, year: i32) -> (r: Vec<RewardEvent>)
    requires
        forall|i: int| 0 <= i < events@.len() ==> (#[trigger] events@[i]).wf(),
    ensures
        r@ == year_filter(events@, year),
{
    let ghost s = events@;
    let mut out: Vec<RewardEvent> = Vec::new();
    let mut i: usize = 0;
    assert(s.subrange(0, 0) =~= Seq::<RewardEvent>::empty());
    proof {
        reveal_with_fuel(Seq::filter, 1);
    }
    while i < events.len()
        invariant
            0 <= i <= s.len(),
            s == events@,
            forall|k: int| 0 <= k < s.len() ==> (#[trigger] s[k]).wf(),
            out@ == year_filter(s.subrange(0, i as int), year),
        decreases s.len() - i,
    {
        let e = &events[i];
        if range_filter(e.reward().date, year) {
            out.push(e.clone());
        }
        proof {
            broadcast use vstd::prelude::Seq::lemma_filter_push;

            assert(s.subrange(0, i + 1) =~= s.subrange(0, i as int).push(s[i as int]));
        }
        i += 1;
    }
    proof {
        assert(s.subrange(0, s.len() as int) =~= s);
    }
    out
}

/// A filtered entry came from the unfiltered ledger.
proof fn lemma_filter_elem_of(s: Seq<RewardEvent>, pred: spec_fn(RewardEvent) -> bool, i: int)
    requires
        0 <= i < s.filter(pred).len(),
    ensures
        s.contains(s.filter(pred)[i]),
    decreases s.len(),
{
    broadcast use vstd::seq_lib::group_filter_ensures;

    reveal_with_fuel(Seq::filter, 2);
    if s.len() > 0 {
        let t = s.drop_last();
        if i < t.filter(pred).len() {
            lemma_filter_elem_of(t, pred, i);
            let k = choose|k: int| 0 <= k < t.len() && t[k] == t.filter(pred)[i];
            assert(s[k] == s.filter(pred)[i]);
        } else {
            assert(s.last() == s.filter(pred)[i]);
            assert(s[s.len() - 1] == s.filter(pred)[i]);
        }
    }
}

/// Law: filtering a chronologically sorted ledger by a year yields a ledger
/// whose dates are still non-decreasing and all fall in that year.
pub proof fn lemma_sort_filter_year(s: Seq<RewardEvent>, year: i32)
    requires
        sorted_by_date(s),
    ensures
        sorted_by_date(year_filter(s, year)),
        forall|i: int| 0 <= i < year_filter(s, year).len() ==> in_year(
            #[trigger] year_filter(s, year)[i],
            year,
        ),
    decreases s.len(),
{
    broadcast use vstd::seq_lib::group_filter_ensures;

    reveal_with_fuel(Seq::filter, 2);
    let pred = |e: RewardEvent| in_year(e, year);
    let f = s.filter(pred);
    if s.len() > 0 {
        let t = s.drop_last();
        assert(sorted_by_date(t));
        lemma_sort_filter_year(t, year);
        if pred(s.last()) {
            assert(f == t.filter(pred).push(s.last()));
            assert forall|i: int, j: int| 0 <= i < j < f.len() implies f[i].spec_date()
                <= f[j].spec_date() by {
                if j < f.len() - 1 {
                    assert(t.filter(pred)[i] == f[i]);
                    assert(t.filter(pred)[j] == f[j]);
                } else {
                    if i < f.len() - 1 {
                        lemma_filter_elem_of(t, pred, i);
                        let k = choose|k: int|
                            0 <= k < t.len() && t[k] == t.filter(pred)[i];
                        assert(s[k] == f[i]);
                        assert(s[k].spec_date() <= s[s.len() - 1].spec_date());
                    }
                }
            }
        }
    }
}

/// A well-formed timestamp text: a decimal numeral naming a valid calendar
/// second.
pub open spec fn ts_ok(ts: Seq<char>) -> bool {
    is_dec_numeral(ts) && dec_value(ts) <= MAX_TIMESTAMP
}

/// The priced entry that one record's fields yield under a price table: the
/// timestamp must be readable, the record's day priced, and the fiat value
/// representable.
pub open spec fn spec_priced_reward(
    block: u64,
    id: Seq<char>,
    ts: Seq<char>,
    amount: u128,
    prices: Map<u64, u64>,
) -> Result<RewardV, FetchError> {
    if !ts_ok(ts) {
        Err(FetchError::MalformedRecord)
    } else {
        let date = dec_value(ts) as u64;
        if !prices.contains_key(date / SECONDS_PER_DAY) {
            Err(FetchError::PriceUnavailable)
        } else {
            let price = prices[date / SECONDS_PER_DAY];
            if fiat_micro(amount as int, price as int) > u64::MAX {
                Err(FetchError::AmountOverflow)
            } else {
                Ok(
                    RewardV {
                        block,
                        id,
                        date,
                        amount,
                        price,
                        fiat: fiat_micro(amount as int, price as int) as u64,
                    },
                )
            }
        }
    }
}

/// Builds one priced entry: parses the record's timestamp, looks the day's
/// price up in the cache, and fixes the fiat value at construction.
pub fn priced_reward(block: u64, id: String, timestamp: &str, amount: u128, cache: &PriceCache) -> (r:
    Result<Reward, FetchError>)
    ensures
        r matches Ok(rw) ==> spec_priced_reward(block, id@, timestamp@, amount, cache@) == Ok::<
            RewardV,
            FetchError,
        >(rw@) && rw.wf(),
        r matches Err(e) ==> spec_priced_reward(block, id@, timestamp@, amount, cache@) == Err::<
            RewardV,
            FetchError,
        >(e),
{
    let date = match parse_u128(timestamp) {
        Some(v) => {
            if v > MAX_TIMESTAMP as u128 {
                return Err(FetchError::MalformedRecord);
            }
            v as u64
        }
        None => {
            return Err(FetchError::MalformedRecord);
        }
    };
    let day = day_of_timestamp(date);
    let price = match cache.get_cached(day) {
        Some(p) => p,
        None => {
            return Err(FetchError::PriceUnavailable);
        }
    };
    match Reward::new(block, id, timestamp, amount, price) {
        Ok(rw) => {
            proof {
                let expected = spec_priced_reward(block, id@, timestamp@, amount, cache@);
                assert(rw@ =~= expected->Ok_0);
            }
            Ok(rw)
        }
        Err(e) => Err(e),
    }
}

/// Normalization of one produced block: the reward numeral is the amount in
/// wei and the identifier is empty.
pub open spec fn spec_normalize_block(b: RawBlock, prices: Map<u64, u64>) -> Result<
    RewardEventV,
    FetchError,
> {
    if !(is_dec_numeral(b.block_reward@) && dec_value(b.block_reward@) <= u128::MAX) {
        Err(FetchError::MalformedRecord)
    } else {
        match spec_priced_reward(
            b.block_number,
            Seq::empty(),
            b.time_stamp@,
            dec_value(b.block_reward@) as u128,
            prices,
        ) {
            Ok(rv) => Ok(RewardEventV::ProducedBlock { reward: rv }),
            Err(e) => Err(e),
        }
    }
}

/// Normalization of one outgoing transfer: the wrapped amount is the
/// transferred value and the fee is gas used times gas price.
pub open spec fn spec_outgoing(tx: RawTransaction, prices: Map<u64, u64>) -> Result<
    RewardEventV,
    FetchError,
> {
    match spec_priced_reward(tx.block_number, tx.hash@, tx.time_stamp@, tx.value, prices) {
        Err(e) => Err(e),
        Ok(rv) => {
            if tx.gas_price is None {
                Err(FetchError::MalformedRecord)
            } else if tx.gas_used * tx.gas_price->0 > u128::MAX {
                Err(FetchError::AmountOverflow)
            } else {
                Ok(
                    RewardEventV::Outgoing {
                        reward: rv,
                        fee: (tx.gas_used * tx.gas_price->0) as u128,
                    },
                )
            }
        }
    }
}

/// Normalization of one transaction of the execution-rewards address: a
/// payment to that address is an execution-layer tip; anything else is an
/// outgoing transfer.
pub open spec fn spec_normalize_exec_tx(
    tx: RawTransaction,
    execution_addr: Address,
    prices: Map<u64, u64>,
) -> Result<RewardEventV, FetchError> {
    if tx.to is None {
        Err(FetchError::MalformedRecord)
    } else if tx.to->0 == execution_addr {
        match spec_priced_reward(tx.block_number, tx.hash@, tx.time_stamp@, tx.value, prices) {
            Ok(rv) => Ok(RewardEventV::MevReward { reward: rv }),
            Err(e) => Err(e),
        }
    } else {
        spec_outgoing(tx, prices)
    }
}

/// Normalization of one transaction of the consensus-rewards address: only
/// transfers out of that address enter the ledger; the rest are skipped.
pub open spec fn spec_normalize_cons_tx(
    tx: RawTransaction,
    consensus_addr: Address,
    prices: Map<u64, u64>,
) -> Result<Option<RewardEventV>, FetchError> {
    if tx.from is None {
        Err(FetchError::MalformedRecord)
    } else if tx.from->0 == consensus_addr {
        match spec_outgoing(tx, prices) {
            Ok(ev) => Ok(Some(ev)),
            Err(e) => Err(e),
        }
    } else {
        Ok(None)
    }
}

/// Normalization of one internal transaction: an execution-layer tip.
pub open spec fn spec_normalize_internal_tx(
    tx: RawInternalTransaction,
    prices: Map<u64, u64>,
) -> Result<RewardEventV, FetchError> {
    match spec_priced_reward(tx.block_number, tx.hash@, tx.time_stamp@, tx.value, prices) {
        Ok(rv) => Ok(RewardEventV::MevRewardInternal { reward: rv }),
        Err(e) => Err(e),
    }
}

/// Normalization of one withdrawal: the Gwei numeral converted to wei and
/// the validator index as the identifier.
pub open spec fn spec_normalize_withdrawal(w: RawWithdrawal, prices: Map<u64, u64>) -> Result<
    RewardEventV,
    FetchError,
> {
    if !(is_dec_numeral(w.amount@) && dec_value(w.amount@) <= u128::MAX) {
        Err(FetchError::MalformedRecord)
    } else if dec_value(w.amount@) * (WEI_PER_GWEI as int) > u128::MAX {
        Err(FetchError::AmountOverflow)
    } else {
        match spec_priced_reward(
            w.block_number,
            dec_digits(w.validator_index as int),
            w.timestamp@,
            (dec_value(w.amount@) * (WEI_PER_GWEI as int)) as u128,
            prices,
        ) {
            Ok(rv) => Ok(RewardEventV::Withdrawal { reward: rv }),
            Err(e) => Err(e),
        }
    }
}

/// An outcome that enters the ledger, one that is skipped, or a failure.
pub open spec fn lift_event(r: Result<RewardEventV, FetchError>) -> Result<
    Option<RewardEventV>,
    FetchError,
> {
    match r {
        Ok(ev) => Ok(Some(ev)),
        Err(e) => Err(e),
    }
}

/// Folds per-record outcomes into one ledger segment, in collection order:
/// the first failure aborts the whole segment; skipped records contribute
/// nothing.
pub open spec fn collect_events(rs: Seq<Result<Option<RewardEventV>, FetchError>>) -> Result<
    Seq<RewardEventV>,
    FetchError,
>
    decreases rs.len(),
{
    if rs.len() == 0 {
        Ok(Seq::empty())
    } else {
        match collect_events(rs.drop_last()) {
            Err(e) => Err(e),
            Ok(rest) => match rs.last() {
                Err(e) => Err(e),
                Ok(None) => Ok(rest),
                Ok(Some(ev)) => Ok(rest.push(ev)),
            },
        }
    }
}

/// One more record extends the collected segment or aborts it.
proof fn lemma_collect_step(rs: Seq<Result<Option<RewardEventV>, FetchError>>, i: int)
    requires
        0 <= i < rs.len(),
    ensures
        collect_events(rs.subrange(0, i + 1)) == (match collect_events(rs.subrange(0, i)) {
            Err(e) => Err(e),
            Ok(rest) => match rs[i] {
                Err(e) => Err(e),
                Ok(None) => Ok(rest),
                Ok(Some(ev)) => Ok(rest.push(ev)),
            },
        }),
{
    let t = rs.subrange(0, i + 1);
    assert(t.drop_last() =~= rs.subrange(0, i));
    assert(t.last() == rs[i]);
}

/// A failed prefix fails the whole collection, with the same error.
proof fn lemma_collect_err_extends(rs: Seq<Result<Option<RewardEventV>, FetchError>>, i: int)
    requires
        0 <= i <= rs.len(),
        collect_events(rs.subrange(0, i)) is Err,
    ensures
        collect_events(rs) == collect_events(rs.subrange(0, i)),
    decreases rs.len() - i,
{
    if i < rs.len() {
        lemma_collect_step(rs, i);
        lemma_collect_err_extends(rs, i + 1);
    } else {
        assert(rs.subrange(0, rs.len() as int) =~= rs);
    }
}

/// Normalizes one produced block into a ledger entry.
pub fn normalize_produced_block(b: &RawBlock, cache: &PriceCache) -> (r: Result<
    RewardEvent,
    FetchError,
>)
    ensures
        r matches Ok(ev) ==> spec_normalize_block(*b, cache@) == Ok::<RewardEventV, FetchError>(
            ev@,
        ) && ev.wf(),
        r matches Err(e) ==> spec_normalize_block(*b, cache@) == Err::<RewardEventV, FetchError>(e),
{
    let amount = match parse_u128(b.block_reward.as_str()) {
        Some(a) => a,
        None => {
            return Err(FetchError::MalformedRecord);
        }
    };
    let id = String::new();
    proof {
        assert(id@ =~= Seq::<char>::empty());
    }
    match priced_reward(b.block_number, id, b.time_stamp.as_str(), amount, cache) {
        Ok(reward) => Ok(RewardEvent::ProducedBlock { reward }),
        Err(e) => Err(e),
    }
}

/// Normalizes one outgoing transfer into a ledger entry.
fn outgoing_event(tx: &RawTransaction, cache: &PriceCache) -> (r: Result<RewardEvent, FetchError>)
    ensures
        r matches Ok(ev) ==> spec_outgoing(*tx, cache@) == Ok::<RewardEventV, FetchError>(ev@)
            && ev.wf(),
        r matches Err(e) ==> spec_outgoing(*tx, cache@) == Err::<RewardEventV, FetchError>(e),
{
    match priced_reward(tx.block_number, tx.hash.clone(), tx.time_stamp.as_str(), tx.value, cache) {
        Err(e) => Err(e),
        Ok(reward) => {
            let gp = match &tx.gas_price {
                Some(g) => *g,
                None => {
                    return Err(FetchError::MalformedRecord);
                }
            };
            match tx.gas_used.checked_mul(gp) {
                Some(fee) => Ok(RewardEvent::Outgoing { reward, fee }),
                None => Err(FetchError::AmountOverflow),
            }
        }
    }
}

/// Normalizes one transaction of the execution-rewards address.
pub fn normalize_exec_transaction(
    tx: &RawTransaction,
    execution_addr: Address,
    cache: &PriceCache,
) -> (r: Result<RewardEvent, FetchError>)
    ensures
        r matches Ok(ev) ==> spec_normalize_exec_tx(*tx, execution_addr, cache@) == Ok::<
            RewardEventV,
            FetchError,
        >(ev@) && ev.wf(),
        r matches Err(e) ==> spec_normalize_exec_tx(*tx, execution_addr, cache@) == Err::<
            RewardEventV,
            FetchError,
        >(e),
{
    let to = match &tx.to {
        Some(a) => *a,
        None => {
            return Err(FetchError::MalformedRecord);
        }
    };
    if to == execution_addr {
        match priced_reward(
            tx.block_number,
            tx.hash.clone(),
            tx.time_stamp.as_str(),
            tx.value,
            cache,
        ) {
            Ok(reward) => Ok(RewardEvent::MevReward { reward }),
            Err(e) => Err(e),
        }
    } else {
        outgoing_event(tx, cache)
    }
}

/// Normalizes one transaction of the consensus-rewards address; transactions
/// not sent from that address are skipped.
pub fn normalize_cons_transaction(
    tx: &RawTransaction,
    consensus_addr: Address,
    cache: &PriceCache,
) -> (r: Result<Option<RewardEvent>, FetchError>)
    ensures
        r matches Ok(Some(ev)) ==> spec_normalize_cons_tx(*tx, consensus_addr, cache@) == Ok::<
            Option<RewardEventV>,
            FetchError,
        >(Some(ev@)) && ev.wf(),
        r matches Ok(None) ==> spec_normalize_cons_tx(*tx, consensus_addr, cache@) == Ok::<
            Option<RewardEventV>,
            FetchError,
        >(None),
        r matches Err(e) ==> spec_normalize_cons_tx(*tx, consensus_addr, cache@) == Err::<
            Option<RewardEventV>,
            FetchError,
        >(e),
{
    let from = match &tx.from {
        Some(a) => *a,
        None => {
            return Err(FetchError::MalformedRecord);
        }
    };
    if from == consensus_addr {
        match outgoing_event(tx, cache) {
            Ok(ev) => Ok(Some(ev)),
            Err(e) => Err(e),
        }
    } else {
        Ok(None)
    }
}

/// Normalizes one internal transaction into a ledger entry.
pub fn normalize_internal_transaction(tx: &RawInternalTransaction, cache: &PriceCache) -> (r:
    Result<RewardEvent, FetchError>)
    ensures
        r matches Ok(ev) ==> spec_normalize_internal_tx(*tx, cache@) == Ok::<
            RewardEventV,
            FetchError,
        >(ev@) && ev.wf(),
        r matches Err(e) ==> spec_normalize_internal_tx(*tx, cache@) == Err::<
            RewardEventV,
            FetchError,
        >(e),
{
    match priced_reward(tx.block_number, tx.hash.clone(), tx.time_stamp.as_str(), tx.value, cache) {
        Ok(reward) => Ok(RewardEvent::MevRewardInternal { reward }),
        Err(e) => Err(e),
    }
}

/// Normalizes one beacon withdrawal into a ledger entry: the Gwei amount is
/// converted to wei.
pub fn normalize_withdrawal(w: &RawWithdrawal, cache: &PriceCache) -> (r: Result<
    RewardEvent,
    FetchError,
>)
    ensures
        r matches Ok(ev) ==> spec_normalize_withdrawal(*w, cache@) == Ok::<
            RewardEventV,
            FetchError,
        >(ev@) && ev.wf(),
        r matches Err(e) ==> spec_normalize_withdrawal(*w, cache@) == Err::<
            RewardEventV,
            FetchError,
        >(e),
{
    let gwei = match parse_u128(w.amount.as_str()) {
        Some(a) => a,
        None => {
            return Err(FetchError::MalformedRecord);
        }
    };
    let wei = match gwei.checked_mul(WEI_PER_GWEI) {
        Some(x) => x,
        None => {
            return Err(FetchError::AmountOverflow);
        }
    };
    let id = format_u64(w.validator_index);
    match priced_reward(w.block_number, id, w.timestamp.as_str(), wei, cache) {
        Ok(reward) => Ok(RewardEvent::Withdrawal { reward }),
        Err(e) => Err(e),
    }
}

/// The per-record outcomes of a source's produced blocks.
pub open spec fn blocks_outcomes(bs: Seq<RawBlock>, prices: Map<u64, u64>) -> Seq<
    Result<Option<RewardEventV>, FetchError>,
> {
    bs.map_values(|b: RawBlock| lift_event(spec_normalize_block(b, prices)))
}

/// The per-record outcomes of the execution-rewards address's transactions.
pub open spec fn exec_tx_outcomes(
    txs: Seq<RawTransaction>,
    execution_addr: Address,
    prices: Map<u64, u64>,
) -> Seq<Result<Option<RewardEventV>, FetchError>> {
    txs.map_values(|tx: RawTransaction| lift_event(spec_normalize_exec_tx(tx, execution_addr, prices)))
}

/// The per-record outcomes of the consensus-rewards address's transactions.
pub open spec fn cons_tx_outcomes(
    txs: Seq<RawTransaction>,
    consensus_addr: Address,
    prices: Map<u64, u64>,
) -> Seq<Result<Option<RewardEventV>, FetchError>> {
    txs.map_values(|tx: RawTransaction| spec_normalize_cons_tx(tx, consensus_addr, prices))
}

/// The per-record outcomes of the internal transactions.
pub open spec fn internal_tx_outcomes(
    txs: Seq<RawInternalTransaction>,
    prices: Map<u64, u64>,
) -> Seq<Result<Option<RewardEventV>, FetchError>> {
    txs.map_values(|tx: RawInternalTransaction| lift_event(spec_normalize_internal_tx(tx, prices)))
}

/// The per-record outcomes of the beacon withdrawals.
pub open spec fn withdrawal_outcomes(ws: Seq<RawWithdrawal>, prices: Map<u64, u64>) -> Seq<
    Result<Option<RewardEventV>, FetchError>,
> {
    ws.map_values(|w: RawWithdrawal| lift_event(spec_normalize_withdrawal(w, prices)))
}

/// The whole ledger one run builds: every source's records normalized in
/// collection order and the segments concatenated in fetch order. Any single
/// failure aborts the build with its error; no partial ledger exists.
pub open spec fn spec_build(
    blocks: Seq<RawBlock>,
    exec_txs: Seq<RawTransaction>,
    cons_txs: Seq<RawTransaction>,
    internal_txs: Seq<RawInternalTransaction>,
    withdrawals: Seq<RawWithdrawal>,
    execution_addr: Address,
    consensus_addr: Address,
    prices: Map<u64, u64>,
) -> Result<Seq<RewardEventV>, FetchError> {
    match collect_events(blocks_outcomes(blocks, prices)) {
        Err(e) => Err(e),
        Ok(a) => match collect_events(exec_tx_outcomes(exec_txs, execution_addr, prices)) {
            Err(e) => Err(e),
            Ok(b) => match collect_events(cons_tx_outcomes(cons_txs, consensus_addr, prices)) {
                Err(e) => Err(e),
                Ok(c) => match collect_events(internal_tx_outcomes(internal_txs, prices)) {
                    Err(e) => Err(e),
                    Ok(d) => match collect_events(withdrawal_outcomes(withdrawals, prices)) {
                        Err(e) => Err(e),
                        Ok(w) => Ok(a + b + c + d + w),
                    },
                },
            },
        },
    }
}

/// The view of a ledger: each event's mathematical value, in order.
pub open spec fn events_view(v: Seq<RewardEvent>) -> Seq<RewardEventV> {
    v.map_values(|e: RewardEvent| e@)
}

/// Normalizes every produced block, in collection order.
pub fn normalize_blocks(blocks: &Vec<RawBlock>, cache: &PriceCache) -> (r: Result<
    Vec<RewardEvent>,
    FetchError,
>)
    ensures
        r matches Ok(v) ==> collect_events(blocks_outcomes(blocks@, cache@)) == Ok::<
            Seq<RewardEventV>,
            FetchError,
        >(events_view(v@)) && (forall|k: int| 0 <= k < v@.len() ==> (#[trigger] v@[k]).wf()),
        r matches Err(e) ==> collect_events(blocks_outcomes(blocks@, cache@)) == Err::<
            Seq<RewardEventV>,
            FetchError,
        >(e),
{
    let ghost rs = blocks_outcomes(blocks@, cache@);
    let mut out: Vec<RewardEvent> = Vec::new();
    let mut i: usize = 0;
    proof {
        assert(rs.subrange(0, 0) =~= Seq::<Result<Option<RewardEventV>, FetchError>>::empty());
        assert(events_view(out@) =~= Seq::<RewardEventV>::empty());
    }
    while i < blocks.len()
        invariant
            0 <= i <= blocks@.len(),
            rs == blocks_outcomes(blocks@, cache@),
            rs.len() == blocks@.len(),
            collect_events(rs.subrange(0, i as int)) == Ok::<Seq<RewardEventV>, FetchError>(
                events_view(out@),
            ),
            forall|k: int| 0 <= k < out@.len() ==> (#[trigger] out@[k]).wf(),
        decreases blocks@.len() - i,
    {
        proof {
            lemma_collect_step(rs, i as int);
        }
        match normalize_produced_block(&blocks[i], cache) {
            Ok(ev) => {
                let ghost prev = events_view(out@);
                out.push(ev);
                proof {
                    assert(events_view(out@) =~= prev.push(ev@));
                }
            }
            Err(e) => {
                proof {
                    lemma_collect_err_extends(rs, i as int + 1);
                }
                return Err(e);
            }
        }
        i += 1;
    }
    proof {
        assert(rs.subrange(0, rs.len() as int) =~= rs);
    }
    Ok(out)
}

/// Normalizes every transaction of the execution-rewards address, in
/// collection order.
pub fn normalize_exec_transactions(
    txs: &Vec<RawTransaction>,
    execution_addr: Address,
    cache: &PriceCache,
) -> (r: Result<Vec<RewardEvent>, FetchError>)
    ensures
        r matches Ok(v) ==> collect_events(exec_tx_outcomes(txs@, execution_addr, cache@)) == Ok::<
            Seq<RewardEventV>,
            FetchError,
        >(events_view(v@)) && (forall|k: int| 0 <= k < v@.len() ==> (#[trigger] v@[k]).wf()),
        r matches Err(e) ==> collect_events(exec_tx_outcomes(txs@, execution_addr, cache@)) == Err::<
            Seq<RewardEventV>,
            FetchError,
        >(e),
{
    let ghost rs = exec_tx_outcomes(txs@, execution_addr, cache@);
    let mut out: Vec<RewardEvent> = Vec::new();
    let mut i: usize = 0;
    proof {
        assert(rs.subrange(0, 0) =~= Seq::<Result<Option<RewardEventV>, FetchError>>::empty());
        assert(events_view(out@) =~= Seq::<RewardEventV>::empty());
    }
    while i < txs.len()
        invariant
            0 <= i <= txs@.len(),
            rs == exec_tx_outcomes(txs@, execution_addr, cache@),
            rs.len() == txs@.len(),
            collect_events(rs.subrange(0, i as int)) == Ok::<Seq<RewardEventV>, FetchError>(
                events_view(out@),
            ),
            forall|k: int| 0 <= k < out@.len() ==> (#[trigger] out@[k]).wf(),
        decreases txs@.len() - i,
    {
        proof {
            lemma_collect_step(rs, i as int);
        }
        match normalize_exec_transaction(&txs[i], execution_addr, cache) {
            Ok(ev) => {
                let ghost prev = events_view(out@);
                out.push(ev);
                proof {
                    assert(events_view(out@) =~= prev.push(ev@));
                }
            }
            Err(e) => {
                proof {
                    lemma_collect_err_extends(rs, i as int + 1);
                }
                return Err(e);
            }
        }
        i += 1;
    }
    proof {
        assert(rs.subrange(0, rs.len() as int) =~= rs);
    }
    Ok(out)
}

/// Normalizes every transaction of the consensus-rewards address, in
/// collection order; transactions not sent from it are skipped.
pub fn normalize_cons_transactions(
    txs: &Vec<RawTransaction>,
    consensus_addr: Address,
    cache: &PriceCache,
) -> (r: Result<Vec<RewardEvent>, FetchError>)
    ensures
        r matches Ok(v) ==> collect_events(cons_tx_outcomes(txs@, consensus_addr, cache@)) == Ok::<
            Seq<RewardEventV>,
            FetchError,
        >(events_view(v@)) && (forall|k: int| 0 <= k < v@.len() ==> (#[trigger] v@[k]).wf()),
        r matches Err(e) ==> collect_events(cons_tx_outcomes(txs@, consensus_addr, cache@)) == Err::<
            Seq<RewardEventV>,
            FetchError,
        >(e),
{
    let ghost rs = cons_tx_outcomes(txs@, consensus_addr, cache@);
    let mut out: Vec<RewardEvent> = Vec::new();
    let mut i: usize = 0;
    proof {
        assert(rs.subrange(0, 0) =~= Seq::<Result<Option<RewardEventV>, FetchError>>::empty());
        assert(events_view(out@) =~= Seq::<RewardEventV>::empty());
    }
    while i < txs.len()
        invariant
            0 <= i <= txs@.len(),
            rs == cons_tx_outcomes(txs@, consensus_addr, cache@),
            rs.len() == txs@.len(),
            collect_events(rs.subrange(0, i as int)) == Ok::<Seq<RewardEventV>, FetchError>(
                events_view(out@),
            ),
            forall|k: int| 0 <= k < out@.len() ==> (#[trigger] out@[k]).wf(),
        decreases txs@.len() - i,
    {
        proof {
            lemma_collect_step(rs, i as int);
        }
        match normalize_cons_transaction(&txs[i], consensus_addr, cache) {
            Ok(Some(ev)) => {
                let ghost prev = events_view(out@);
                out.push(ev);
                proof {
                    assert(events_view(out@) =~= prev.push(ev@));
                }
            }
            Ok(None) => {}
            Err(e) => {
                proof {
                    lemma_collect_err_extends(rs, i as int + 1);
                }
                return Err(e);
            }
        }
        i += 1;
    }
    proof {
        assert(rs.subrange(0, rs.len() as int) =~= rs);
    }
    Ok(out)
}

/// Normalizes every internal transaction, in collection order.
pub fn normalize_internal_transactions(
    txs: &Vec<RawInternalTransaction>,
    cache: &PriceCache,
) -> (r: Result<Vec<RewardEvent>, FetchError>)
    ensures
        r matches Ok(v) ==> collect_events(internal_tx_outcomes(txs@, cache@)) == Ok::<
            Seq<RewardEventV>,
            FetchError,
        >(events_view(v@)) && (forall|k: int| 0 <= k < v@.len() ==> (#[trigger] v@[k]).wf()),
        r matches Err(e) ==> collect_events(internal_tx_outcomes(txs@, cache@)) == Err::<
            Seq<RewardEventV>,
            FetchError,
        >(e),
{
    let ghost rs = internal_tx_outcomes(txs@, cache@);
    let mut out: Vec<RewardEvent> = Vec::new();
    let mut i: usize = 0;
    proof {
        assert(rs.subrange(0, 0) =~= Seq::<Result<Option<RewardEventV>, FetchError>>::empty());
        assert(events_view(out@) =~= Seq::<RewardEventV>::empty());
    }
    while i < txs.len()
        invariant
            0 <= i <= txs@.len(),
            rs == internal_tx_outcomes(txs@, cache@),
            rs.len() == txs@.len(),
            collect_events(rs.subrange(0, i as int)) == Ok::<Seq<RewardEventV>, FetchError>(
                events_view(out@),
            ),
            forall|k: int| 0 <= k < out@.len() ==> (#[trigger] out@[k]).wf(),
        decreases txs@.len() - i,
    {
        proof {
            lemma_collect_step(rs, i as int);
        }
        match normalize_internal_transaction(&txs[i], cache) {
            Ok(ev) => {
                let ghost prev = events_view(out@);
                out.push(ev);
                proof {
                    assert(events_view(out@) =~= prev.push(ev@));
                }
            }
            Err(e) => {
                proof {
                    lemma_collect_err_extends(rs, i as int + 1);
                }
                return Err(e);
            }
        }
        i += 1;
    }
    proof {
        assert(rs.subrange(0, rs.len() as int) =~= rs);
    }
    Ok(out)
}

/// Normalizes every beacon withdrawal, in collection order.
pub fn normalize_withdrawals(ws: &Vec<RawWithdrawal>, cache: &PriceCache) -> (r: Result<
    Vec<RewardEvent>,
    FetchError,
>)
    ensures
        r matches Ok(v) ==> collect_events(withdrawal_outcomes(ws@, cache@)) == Ok::<
            Seq<RewardEventV>,
            FetchError,
        >(events_view(v@)) && (forall|k: int| 0 <= k < v@.len() ==> (#[trigger] v@[k]).wf()),
        r matches Err(e) ==> collect_events(withdrawal_outcomes(ws@, cache@)) == Err::<
            Seq<RewardEventV>,
            FetchError,
        >(e),
{
    let ghost rs = withdrawal_outcomes(ws@, cache@);
    let mut out: Vec<RewardEvent> = Vec::new();
    let mut i: usize = 0;
    proof {
        assert(rs.subrange(0, 0) =~= Seq::<Result<Option<RewardEventV>, FetchError>>::empty());
        assert(events_view(out@) =~= Seq::<RewardEventV>::empty());
    }
    while i < ws.len()
        invariant
            0 <= i <= ws@.len(),
            rs == withdrawal_outcomes(ws@, cache@),
            rs.len() == ws@.len(),
            collect_events(rs.subrange(0, i as int)) == Ok::<Seq<RewardEventV>, FetchError>(
                events_view(out@),
            ),
            forall|k: int| 0 <= k < out@.len() ==> (#[trigger] out@[k]).wf(),
        decreases ws@.len() - i,
    {
        proof {
            lemma_collect_step(rs, i as int);
        }
        match normalize_withdrawal(&ws[i], cache) {
            Ok(ev) => {
                let ghost prev = events_view(out@);
                out.push(ev);
                proof {
                    assert(events_view(out@) =~= prev.push(ev@));
                }
            }
            Err(e) => {
                proof {
                    lemma_collect_err_extends(rs, i as int + 1);
                }
                return Err(e);
            }
        }
        i += 1;
    }
    proof {
        assert(rs.subrange(0, rs.len() as int) =~= rs);
    }
    Ok(out)
}

/// Builds the whole ledger for one run: for each tracked address and record
/// source the fetched raw records are normalized in collection order and
/// accumulated into one collection. The first failed normalization — a
/// malformed record, a missing price, or an unrepresentable value — aborts
/// the build with that error, and no partial ledger is returned.
pub fn build(
    blocks: &Vec<RawBlock>,
    exec_txs: &Vec<RawTransaction>,
    cons_txs: &Vec<RawTransaction>,
    internal_txs: &Vec<RawInternalTransaction>,
    withdrawals: &Vec<RawWithdrawal>,
    execution_addr: Address,
    consensus_addr: Address,
    cache: &PriceCache,
) -> (r: Result<Vec<RewardEvent>, FetchError>)
    ensures
        r matches Ok(v) ==> spec_build(
            blocks@,
            exec_txs@,
            cons_txs@,
            internal_txs@,
            withdrawals@,
            execution_addr,
            consensus_addr,
            cache@,
        ) == Ok::<Seq<RewardEventV>, FetchError>(events_view(v@)),
        r matches Ok(v) ==> forall|k: int| 0 <= k < v@.len() ==> (#[trigger] v@[k]).wf(),
        r matches Err(e) ==> spec_build(
            blocks@,
            exec_txs@,
            cons_txs@,
            internal_txs@,
            withdrawals@,
            execution_addr,
            consensus_addr,
            cache@,
        ) == Err::<Seq<RewardEventV>, FetchError>(e),
{
    let mut out = match normalize_blocks(blocks, cache) {
        Ok(v) => v,
        Err(e) => {
            return Err(e);
        }
    };
    let mut seg = match normalize_exec_transactions(exec_txs, execution_addr, cache) {
        Ok(v) => v,
        Err(e) => {
            return Err(e);
        }
    };
    let ghost a = events_view(out@);
    let ghost b = events_view(seg@);
    out.append(&mut seg);
    proof {
        assert(events_view(out@) =~= a + b);
    }
    let mut seg = match normalize_cons_transactions(cons_txs, consensus_addr, cache) {
        Ok(v) => v,
        Err(e) => {
            return Err(e);
        }
    };
    let ghost ab = events_view(out@);
    let ghost c = events_view(seg@);
    out.append(&mut seg);
    proof {
        assert(events_view(out@) =~= ab + c);
    }
    let mut seg = match normalize_internal_transactions(internal_txs, cache) {
        Ok(v) => v,
        Err(e) => {
            return Err(e);
        }
    };
    let ghost abc = events_view(out@);
    let ghost d = events_view(seg@);
    out.append(&mut seg);
    proof {
        assert(events_view(out@) =~= abc + d);
    }
    let mut seg = match normalize_withdrawals(withdrawals, cache) {
        Ok(v) => v,
        Err(e) => {
            return Err(e);
        }
    };
    let ghost abcd = events_view(out@);
    let ghost w = events_view(seg@);
    out.append(&mut seg);
    proof {
        assert(events_view(out@) =~= abcd + w);
        assert(events_view(out@) =~= a + b + c + d + w);
    }
    Ok(out)
}

/// Law: appending an `Outgoing` entry lowers the running balance by exactly
/// its amount plus its fee.
pub proof fn lemma_outgoing_lowers_balance(s: Seq<RewardEvent>, reward: Reward, fee: u128)
    ensures
        running_balance(s.push(RewardEvent::Outgoing { reward, fee })) == running_balance(s) - (
        reward.amount + fee),
{
    let t = s.push(RewardEvent::Outgoing { reward, fee });
    assert(t.drop_last() =~= s);
}

} // verus!
