use rewards_ledger::conversion::PriceCache;
use rewards_ledger::dates::day_of_timestamp;
use rewards_ledger::processing::{
    build, current_balance, filter_by_year, normalize_withdrawal, sort, total_earnings,
    unliquidated,
};
use rewards_ledger::types::{
    Address, FetchError, RawBlock, RawInternalTransaction, RawTransaction, RawWithdrawal, Reward,
    RewardEvent,
};

// 2022-04-15 and 2023-01-15, in seconds.
const TS_2022: u64 = 1_650_000_000;
const TS_2023: u64 = 1_673_740_800;
// Two fiat units per native unit, in micro-fiat.
const PRICE: u64 = 2_000_000;

fn cache_with(days: &[u64]) -> PriceCache {
    let mut cache = PriceCache::new();
    for d in days {
        cache.put(*d, PRICE);
    }
    cache
}

fn reward(ts: u64, id: &str, amount: u128) -> Reward {
    Reward::new(1, id.to_string(), &ts.to_string(), amount, PRICE).unwrap()
}

fn credit(ts: u64, id: &str, amount: u128) -> RewardEvent {
    RewardEvent::ProducedBlock { reward: reward(ts, id, amount) }
}

fn outgoing(ts: u64, id: &str, amount: u128, fee: u128) -> RewardEvent {
    RewardEvent::Outgoing { reward: reward(ts, id, amount), fee }
}

#[test]
fn test_withdrawal_gwei_to_wei() {
    let mut cache = PriceCache::new();
    cache.put(day_of_timestamp(TS_2022), PRICE);
    let raw = RawWithdrawal {
        block_number: 77,
        validator_index: 421_337,
        timestamp: TS_2022.to_string(),
        amount: "1000000000".to_string(),
    };
    let event = normalize_withdrawal(&raw, &cache).unwrap();
    match &event {
        RewardEvent::Withdrawal { reward } => {
            assert_eq!(reward.amount, 1_000_000_000 * 1_000_000_000u128);
            assert_eq!(reward.id, "421337");
            assert_eq!(reward.block, 77);
            assert_eq!(reward.date, TS_2022);
        }
        _ => panic!("expected a withdrawal event"),
    }
}

#[test]
fn test_outgoing_lowers_balance_by_amount_plus_fee() {
    let before = vec![credit(TS_2022, "", 1_000_000_000_000_000_000)];
    let mut after = before.clone();
    after.push(outgoing(
        TS_2022,
        "tx",
        500_000_000_000_000_000,
        2_000_000_000_000_000,
    ));
    let b0 = current_balance(&before).unwrap();
    let b1 = current_balance(&after).unwrap();
    assert_eq!(b0 - b1, 502_000_000_000_000_000);
    assert_eq!(b1, 498_000_000_000_000_000);
}

#[test]
fn test_balance_underflow_is_fatal() {
    let events = vec![outgoing(TS_2022, "tx", 500_000_000_000_000_000, 0)];
    assert!(current_balance(&events).is_err());
}

#[test]
fn test_total_earnings_ignores_outgoing() {
    let only_outgoing = vec![
        outgoing(TS_2022, "a", 500_000_000_000_000_000, 1),
        outgoing(TS_2022, "b", 250_000_000_000_000_000, 2),
    ];
    assert_eq!(total_earnings(&only_outgoing), 0);

    let mixed = vec![
        credit(TS_2022, "", 1_000_000_000_000_000_000),
        outgoing(TS_2022, "a", 500_000_000_000_000_000, 1),
        credit(TS_2023, "", 500_000_000_000_000_000),
    ];
    // 2.0 fiat + 1.0 fiat, in micro-fiat.
    assert_eq!(total_earnings(&mixed), 3_000_000);
}

#[test]
fn test_unliquidated_is_earnings_minus_outgoing_fiat() {
    let events = vec![
        credit(TS_2022, "", 1_000_000_000_000_000_000),
        outgoing(TS_2022, "a", 500_000_000_000_000_000, 1),
    ];
    let earnings = total_earnings(&events) as i128;
    let outgoing_fiat = 1_000_000i128;
    assert_eq!(unliquidated(&events).unwrap(), earnings - outgoing_fiat);

    // More sent out than earned: the figure goes negative.
    let sold = vec![outgoing(TS_2022, "a", 500_000_000_000_000_000, 1)];
    assert_eq!(unliquidated(&sold).unwrap(), -1_000_000);
}

#[test]
fn test_sort_is_chronological_and_stable() {
    let mut events = vec![
        credit(TS_2023, "late", 1),
        credit(TS_2022, "first", 2),
        outgoing(TS_2022, "second", 3, 0),
        credit(TS_2022, "third", 4),
    ];
    sort(&mut events);
    let ids: Vec<&str> = events.iter().map(|e| e.reward().id.as_str()).collect();
    // The three equal timestamps keep their discovery order.
    assert_eq!(ids, vec!["first", "second", "third", "late"]);
    for pair in events.windows(2) {
        assert!(pair[0].reward().date <= pair[1].reward().date);
    }
}

#[test]
fn test_sort_then_filter_by_year() {
    let mut events = vec![
        credit(TS_2023, "c", 1),
        credit(TS_2022, "a", 2),
        credit(TS_2022 + 100, "b", 3),
    ];
    sort(&mut events);
    let filtered = filter_by_year(&events, 2022);
    assert_eq!(filtered.len(), 2);
    for pair in filtered.windows(2) {
        assert!(pair[0].reward().date <= pair[1].reward().date);
    }
    assert_eq!(filtered[0].reward().id, "a");
    assert_eq!(filtered[1].reward().id, "b");
    let later = filter_by_year(&events, 2023);
    assert_eq!(later.len(), 1);
    assert_eq!(later[0].reward().id, "c");
}

fn exec_addr() -> Address {
    Address { hi: 1, lo: 100 }
}

fn cons_addr() -> Address {
    Address { hi: 2, lo: 200 }
}

fn other_addr() -> Address {
    Address { hi: 3, lo: 300 }
}

fn sample_tx(ts: u64, from: Address, to: Address, value: u128) -> RawTransaction {
    RawTransaction {
        block_number: 5,
        hash: "0xabc".to_string(),
        time_stamp: ts.to_string(),
        from: Some(from),
        to: Some(to),
        value,
        gas_used: 21_000,
        gas_price: Some(10_000_000_000),
    }
}

#[test]
fn test_build_full_ledger() {
    let cache = cache_with(&[day_of_timestamp(TS_2022), day_of_timestamp(TS_2023)]);
    let blocks = vec![RawBlock {
        block_number: 1,
        time_stamp: TS_2022.to_string(),
        block_reward: "2000000000000000000".to_string(),
    }];
    let exec_txs = vec![
        // A payment into the execution-rewards address: an execution tip.
        sample_tx(TS_2022, other_addr(), exec_addr(), 1_000_000_000_000_000),
        // A transfer elsewhere: outgoing, with its gas fee.
        sample_tx(TS_2023, exec_addr(), other_addr(), 2_000_000_000_000_000),
    ];
    let cons_txs = vec![
        // Sent from the consensus address: enters the ledger.
        sample_tx(TS_2023, cons_addr(), other_addr(), 3_000_000_000_000_000),
        // Received by it: skipped.
        sample_tx(TS_2023, other_addr(), cons_addr(), 4_000_000_000_000_000),
    ];
    let internal_txs = vec![RawInternalTransaction {
        block_number: 9,
        hash: "0xdef".to_string(),
        time_stamp: TS_2022.to_string(),
        value: 5_000_000_000_000_000,
    }];
    let withdrawals = vec![RawWithdrawal {
        block_number: 11,
        validator_index: 7,
        timestamp: TS_2023.to_string(),
        amount: "32000000000".to_string(),
    }];
    let ledger = build(
        &blocks,
        &exec_txs,
        &cons_txs,
        &internal_txs,
        &withdrawals,
        exec_addr(),
        cons_addr(),
        &cache,
    )
    .unwrap();
    assert_eq!(ledger.len(), 6);
    assert!(matches!(ledger[0], RewardEvent::ProducedBlock { .. }));
    assert!(matches!(ledger[1], RewardEvent::MevReward { .. }));
    match &ledger[2] {
        RewardEvent::Outgoing { fee, .. } => assert_eq!(*fee, 21_000 * 10_000_000_000u128),
        _ => panic!("expected an outgoing event"),
    }
    assert!(matches!(ledger[3], RewardEvent::Outgoing { .. }));
    assert!(matches!(ledger[4], RewardEvent::MevRewardInternal { .. }));
    match &ledger[5] {
        RewardEvent::Withdrawal { reward } => {
            assert_eq!(reward.amount, 32_000_000_000 * 1_000_000_000u128);
            assert_eq!(reward.id, "7");
        }
        _ => panic!("expected a withdrawal event"),
    }
}

#[test]
fn test_build_aborts_on_missing_price() {
    // The withdrawal's day is priced; the block's day is not.
    let cache = cache_with(&[day_of_timestamp(TS_2023)]);
    let blocks = vec![RawBlock {
        block_number: 1,
        time_stamp: TS_2022.to_string(),
        block_reward: "1000000000000000000".to_string(),
    }];
    let withdrawals = vec![RawWithdrawal {
        block_number: 11,
        validator_index: 7,
        timestamp: TS_2023.to_string(),
        amount: "1000000000".to_string(),
    }];
    let r = build(
        &blocks,
        &vec![],
        &vec![],
        &vec![],
        &withdrawals,
        exec_addr(),
        cons_addr(),
        &cache,
    );
    assert_eq!(r.err(), Some(FetchError::PriceUnavailable));
}

#[test]
fn test_build_aborts_on_malformed_record() {
    let cache = cache_with(&[day_of_timestamp(TS_2022)]);
    let blocks = vec![RawBlock {
        block_number: 1,
        time_stamp: "not-a-number".to_string(),
        block_reward: "1000000000000000000".to_string(),
    }];
    let r = build(
        &blocks,
        &vec![],
        &vec![],
        &vec![],
        &vec![],
        exec_addr(),
        cons_addr(),
        &cache,
    );
    assert_eq!(r.err(), Some(FetchError::MalformedRecord));
}

#[test]
fn test_reward_new_errors() {
    assert_eq!(
        Reward::new(1, String::new(), "abc", 5, PRICE).err(),
        Some(FetchError::MalformedRecord)
    );
    // A value whose fiat figure cannot be represented.
    assert_eq!(
        Reward::new(1, String::new(), "1650000000", u128::MAX, u64::MAX).err(),
        Some(FetchError::AmountOverflow)
    );
}

#[test]
fn test_kind_labels() {
    assert_eq!(credit(TS_2022, "", 1).kind_label(), "Block");
    assert_eq!(outgoing(TS_2022, "", 1, 0).kind_label(), "Fee");
    let w = RewardEvent::Withdrawal { reward: reward(TS_2022, "7", 1) };
    assert_eq!(w.kind_label(), "Withdrawal");
    assert_eq!(w.fee(), None);
    assert_eq!(outgoing(TS_2022, "", 1, 9).fee(), Some(9));
}

#[test]
fn test_empty_ledger_aggregates() {
    let events: Vec<RewardEvent> = vec![];
    assert_eq!(current_balance(&events).unwrap(), 0);
    assert_eq!(total_earnings(&events), 0);
    assert_eq!(unliquidated(&events).unwrap(), 0);
}
