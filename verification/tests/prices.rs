use rewards_ledger::conversion::{fiat_value, limiter_interval_secs, PriceCache, RateLimiter};
use rewards_ledger::dates::day_of_timestamp;
use rewards_ledger::parse::{format_u64, parse_u128};
use rewards_ledger::processing::range_filter;
use rewards_ledger::report::footer;

#[test]
fn test_parse_u128_values() {
    assert_eq!(parse_u128("1650000000"), Some(1650000000));
    assert_eq!(parse_u128("0"), Some(0));
    assert_eq!(parse_u128("007"), Some(7));
    assert_eq!(
        parse_u128("340282366920938463463374607431768211455"),
        Some(u128::MAX)
    );
}

#[test]
fn test_parse_u128_rejects() {
    assert_eq!(parse_u128(""), None);
    assert_eq!(parse_u128("12a"), None);
    assert_eq!(parse_u128("-5"), None);
    assert_eq!(parse_u128(" 12"), None);
    // One above the largest representable value.
    assert_eq!(parse_u128("340282366920938463463374607431768211456"), None);
}

#[test]
fn test_format_u64() {
    assert_eq!(format_u64(0).as_str(), "0");
    assert_eq!(format_u64(9).as_str(), "9");
    assert_eq!(format_u64(12345).as_str(), "12345");
    assert_eq!(format_u64(u64::MAX).as_str(), "18446744073709551615");
}

#[test]
fn test_fiat_value_exact() {
    // Half a native unit at 2794.538482 fiat per unit: 1397.269241 fiat.
    assert_eq!(
        fiat_value(500_000_000_000_000_000, 2_794_538_482),
        Some(1_397_269_241)
    );
    assert_eq!(fiat_value(0, 2_794_538_482), Some(0));
    assert_eq!(fiat_value(1_000_000_000_000_000_000, 2_000_000), Some(2_000_000));
    // Far beyond any representable fiat value.
    assert_eq!(fiat_value(u128::MAX, u64::MAX), None);
}

#[test]
fn test_price_cache_round_trip() {
    let mut cache = PriceCache::new();
    let day = day_of_timestamp(1_650_000_000);
    assert_eq!(cache.get_cached(day), None);
    cache.put(day, 2_794_538_482);
    assert_eq!(cache.get_cached(day), Some(2_794_538_482));
    // A second store for the same day replaces the first.
    cache.put(day, 3_000_000_000);
    assert_eq!(cache.get_cached(day), Some(3_000_000_000));
    // Other days are unaffected.
    assert_eq!(cache.get_cached(day + 1), None);
}

#[test]
fn test_price_cache_persisted_entries() {
    let mut cache = PriceCache::new();
    cache.put(10, 111);
    cache.put(20, 222);
    let entries = cache.entries().clone();
    let reloaded = PriceCache::from_entries(entries);
    assert_eq!(reloaded.get_cached(10), Some(111));
    assert_eq!(reloaded.get_cached(20), Some(222));
    assert_eq!(reloaded.get_cached(30), None);
}

#[test]
fn test_rate_limiter_minimum_interval() {
    let mut limiter = RateLimiter::new(4);
    // The first call is always permitted.
    assert!(limiter.try_acquire(100));
    // Within the interval nothing is permitted, and the state is unchanged.
    assert!(!limiter.try_acquire(101));
    assert!(!limiter.try_acquire(103));
    // At exactly the interval boundary the next call is permitted.
    assert!(limiter.try_acquire(104));
    assert!(!limiter.try_acquire(107));
}

#[test]
fn test_limiter_interval_secs() {
    assert_eq!(limiter_interval_secs(true), 4);
    assert_eq!(limiter_interval_secs(false), 12);
}

#[test]
fn test_range_filter_year() {
    // 2022-04-15 in seconds.
    assert!(range_filter(1_650_000_000, 2022));
    assert!(!range_filter(1_650_000_000, 2023));
    // The first second of the epoch.
    assert!(range_filter(0, 1970));
}

#[test]
fn test_day_of_timestamp_key() {
    assert_eq!(day_of_timestamp(0), 0);
    assert_eq!(day_of_timestamp(86_399), 0);
    assert_eq!(day_of_timestamp(86_400), 1);
    assert_eq!(day_of_timestamp(1_650_000_000), 19_097);
}

#[test]
fn test_footer_formulas() {
    let row = footer(5);
    assert_eq!(row.len(), 7);
    assert_eq!(row[0].as_str(), "");
    assert_eq!(row[1].as_str(), "");
    assert_eq!(row[2].as_str(), "");
    assert_eq!(row[3].as_str(), "");
    assert_eq!(row[4].as_str(), "=SUM(E2:E5)");
    assert_eq!(row[5].as_str(), "");
    assert_eq!(row[6].as_str(), "=SUM(G2:G5)");
    let wide = footer(1234);
    assert_eq!(wide[4].as_str(), "=SUM(E2:E1234)");
    assert_eq!(wide[6].as_str(), "=SUM(G2:G1234)");
    let signed = footer(-3);
    assert_eq!(signed[4].as_str(), "=SUM(E2:E-3)");
}
