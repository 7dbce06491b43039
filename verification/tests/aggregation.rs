//! Tests of aggregation, the consumer accessor, and the offchain
//! scheduler's decisions.

use data_feed::accessor::DataFeedGet;
use data_feed::feed::DataFeed;
use data_feed::offchain::{offchain_tasks, should_fetch};
use data_feed::runtime::Runtime;
use data_feed::types::{
    DataType, Error, FeededDataInfo, NumberType, OffchainRequestInfo, Operations, RawOrigin,
};

fn setup(number_type: NumberType) -> (DataFeed, Vec<u8>) {
    let mut feed = DataFeed::new();
    let key = b"BTC/USD".to_vec();
    let _ = feed.add_provider(RawOrigin::Root, 1);
    let _ = feed.add_provider(RawOrigin::Root, 2);
    let info = FeededDataInfo { number_type, operation: Operations::Average, schedule: 2 };
    let _ = feed.register_storage_key(RawOrigin::Signed(1), key.clone(), info);
    (feed, key)
}

#[test]
fn aggregate_averages_across_providers() {
    // Ring buffers [2, 4] and [6, 8]: the mean is (2+4+6+8)/4 = 5.
    let (mut feed, key) = setup(NumberType::U128);
    for v in [2u128, 4] {
        assert!(feed.feed_data(RawOrigin::Signed(1), key.clone(), DataType::U128(v)).is_ok());
    }
    for v in [6u128, 8] {
        assert!(feed.feed_data(RawOrigin::Signed(2), key.clone(), DataType::U128(v)).is_ok());
    }
    assert_eq!(feed.aggregate(&key), Ok(Some(DataType::U128(5))));
}

#[test]
fn aggregate_stays_in_fixed_point_domain() {
    // The mean of fixed-point values is the mean of their raw
    // representations, tagged back as fixed-point; division truncates.
    let (mut feed, key) = setup(NumberType::FixedU128);
    for v in [2u128, 4] {
        assert!(feed.feed_data(RawOrigin::Signed(1), key.clone(), DataType::FixedU128(v)).is_ok());
    }
    for v in [6u128, 9] {
        assert!(feed.feed_data(RawOrigin::Signed(2), key.clone(), DataType::FixedU128(v)).is_ok());
    }
    // (2+4+6+9)/4 = 5 remainder 1: truncating mean.
    assert_eq!(feed.aggregate(&key), Ok(Some(DataType::FixedU128(5))));
}

#[test]
fn aggregate_empty_returns_none_and_accessor_defaults() {
    let (feed, key) = setup(NumberType::U128);
    assert_eq!(feed.aggregate(&key), Ok(None));
    let getter = DataFeedGet::new(key, DataType::U128(99));
    assert_eq!(getter.get(&feed), DataType::U128(99));
}

#[test]
fn aggregate_unknown_key_returns_none() {
    let feed = DataFeed::new();
    assert_eq!(feed.aggregate(&b"missing".to_vec()), Ok(None));
}

#[test]
fn aggregate_overflow_is_reported_and_accessor_defaults() {
    let (mut feed, key) = setup(NumberType::U128);
    // One submission pre-fills both slots with the maximum: the sum
    // leaves the u128 domain.
    assert!(feed.feed_data(RawOrigin::Signed(1), key.clone(), DataType::U128(u128::MAX)).is_ok());
    assert_eq!(feed.aggregate(&key), Err(Error::Overflow));
    let getter = DataFeedGet::new(key, DataType::U128(0));
    assert_eq!(getter.get(&feed), DataType::U128(0));
}

#[test]
fn accessor_returns_aggregated_value() {
    let (mut feed, key) = setup(NumberType::U128);
    assert!(feed.feed_data(RawOrigin::Signed(1), key.clone(), DataType::U128(10)).is_ok());
    let getter = DataFeedGet::new(key, DataType::U128(0));
    assert_eq!(getter.get(&feed), DataType::U128(10));
}

#[test]
fn key_removal_cascades() {
    let (mut feed, key) = setup(NumberType::U128);
    assert!(feed.feed_data(RawOrigin::Signed(1), key.clone(), DataType::U128(3)).is_ok());
    let info = OffchainRequestInfo { url: b"https://example.com".to_vec(), key_str: b"v".to_vec() };
    assert!(feed.set_offchain_request_info(RawOrigin::Root, key.clone(), info).is_ok());
    assert!(feed.remove_storage_key(RawOrigin::Signed(1), key.clone()).is_ok());
    // Everything the key owned is gone, and feeding it is refused.
    assert_eq!(feed.aggregate(&key), Ok(None));
    assert_eq!(feed.data_info(&key), None);
    assert_eq!(feed.offchain_request_info(&key), None);
    assert_eq!(feed.feeded_data(&key, 1), None);
    assert_eq!(
        feed.feed_data(RawOrigin::Signed(1), key.clone(), DataType::U128(3)),
        Err(Error::UnknownKey)
    );
}

#[test]
fn provider_removal_is_not_retroactive() {
    let (mut feed, key) = setup(NumberType::U128);
    for v in [2u128, 4] {
        assert!(feed.feed_data(RawOrigin::Signed(1), key.clone(), DataType::U128(v)).is_ok());
    }
    for v in [6u128, 8] {
        assert!(feed.feed_data(RawOrigin::Signed(2), key.clone(), DataType::U128(v)).is_ok());
    }
    assert!(feed.remove_provider(RawOrigin::Root, 1).is_ok());
    // The removed provider's values still contribute, and its history is
    // still stored; only new submissions from it are refused.
    assert_eq!(feed.aggregate(&key), Ok(Some(DataType::U128(5))));
    assert!(feed.feeded_data(&key, 1).is_some());
    assert_eq!(
        feed.feed_data(RawOrigin::Signed(1), key.clone(), DataType::U128(1)),
        Err(Error::NotAuthorized)
    );
}

#[test]
fn should_fetch_follows_the_period() {
    assert!(should_fetch(0, 2));
    assert!(!should_fetch(1, 2));
    assert!(should_fetch(2, 2));
    assert!(!should_fetch(3, 2));
    assert!(should_fetch(4, 2));
    // A zero period never schedules.
    assert!(!should_fetch(0, 0));
    assert!(!should_fetch(7, 0));
}

#[test]
fn offchain_tasks_lists_due_keys_only() {
    let (mut feed, key) = setup(NumberType::U128);
    // No request descriptor yet: nothing is due.
    assert_eq!(offchain_tasks(&feed, 2).len(), 0);
    let info = OffchainRequestInfo {
        url: b"https://min-api.cryptocompare.com/data/price?fsym=BTC&tsyms=USD".to_vec(),
        key_str: b"USD".to_vec(),
    };
    assert!(feed.set_offchain_request_info(RawOrigin::Root, key.clone(), info).is_ok());
    // The declared schedule is 2: due at even blocks only.
    let tasks = offchain_tasks(&feed, 4);
    assert_eq!(tasks.len(), 1);
    assert_eq!(tasks[0].key, key);
    assert_eq!(
        tasks[0].url,
        b"https://min-api.cryptocompare.com/data/price?fsym=BTC&tsyms=USD".to_vec()
    );
    assert_eq!(tasks[0].key_str, b"USD".to_vec());
    assert_eq!(tasks[0].number_type, NumberType::U128);
    assert_eq!(offchain_tasks(&feed, 3).len(), 0);
}

#[test]
fn offchain_skip_retries_only_at_next_period() {
    // A fetch that fails at a due block leaves no state behind: the
    // scheduler's output depends on the block alone, so the next attempt
    // is at the next whole period and not before.
    let (mut feed, key) = setup(NumberType::U128);
    let info = OffchainRequestInfo { url: b"https://example.com".to_vec(), key_str: b"v".to_vec() };
    assert!(feed.set_offchain_request_info(RawOrigin::Root, key.clone(), info).is_ok());
    assert_eq!(offchain_tasks(&feed, 2).len(), 1);
    // The fetch at block 2 failed; nothing was submitted and nothing was
    // recorded.  Block 3 is not a whole period: no attempt.
    assert_eq!(offchain_tasks(&feed, 3).len(), 0);
    // Block 4 is the next whole period: the same fetch is due again.
    assert_eq!(offchain_tasks(&feed, 4).len(), 1);
}

#[test]
fn offchain_period_override_changes_cadence() {
    let (mut feed, key) = setup(NumberType::U128);
    let info = OffchainRequestInfo { url: b"https://example.com".to_vec(), key_str: b"v".to_vec() };
    assert!(feed.set_offchain_request_info(RawOrigin::Root, key.clone(), info).is_ok());
    assert!(feed.set_offchain_period(RawOrigin::Root, key.clone(), Some(3)).is_ok());
    assert_eq!(offchain_tasks(&feed, 2).len(), 0);
    assert_eq!(offchain_tasks(&feed, 3).len(), 1);
    assert_eq!(offchain_tasks(&feed, 6).len(), 1);
    assert_eq!(offchain_tasks(&feed, 4).len(), 0);
}

#[test]
fn runtime_drives_blocks_and_offchain_pass() {
    let mut runtime = Runtime::new();
    assert_eq!(runtime.block_number, 0);
    let key = b"BTC/USD".to_vec();
    assert!(runtime.data_feed.add_provider(RawOrigin::Root, 1).is_ok());
    let info = FeededDataInfo {
        number_type: NumberType::U128,
        operation: Operations::Average,
        schedule: 2,
    };
    assert!(runtime.data_feed.register_storage_key(RawOrigin::Signed(1), key.clone(), info).is_ok());
    let req = OffchainRequestInfo { url: b"https://example.com".to_vec(), key_str: b"v".to_vec() };
    assert!(runtime.data_feed.set_offchain_request_info(RawOrigin::Root, key.clone(), req).is_ok());
    runtime.initialize_block(5);
    assert_eq!(runtime.block_number, 5);
    assert_eq!(runtime.offchain_worker().len(), 0);
    runtime.initialize_block(6);
    let tasks = runtime.offchain_worker();
    assert_eq!(tasks.len(), 1);
    assert_eq!(tasks[0].key, key);
}
