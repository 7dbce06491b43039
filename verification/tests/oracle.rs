//! Tests of the engine's state machine: governance, key registration,
//! feeding, and the error paths.

use data_feed::feed::DataFeed;
use data_feed::types::{
    DataType, Error, FeededDataInfo, NumberType, OffchainRequestInfo, Operations, RawOrigin,
    RING_BUF_LEN,
};

fn add_tmp_provider(feed: &mut DataFeed, provider: u64) {
    let _ = feed.add_provider(RawOrigin::Root, provider);
}

fn add_data_info(feed: &mut DataFeed, key: Vec<u8>, provider: u64) {
    add_tmp_provider(feed, provider);
    let data_info = FeededDataInfo {
        number_type: NumberType::FixedU128,
        operation: Operations::Average,
        schedule: 2,
    };
    let _ = feed.register_storage_key(RawOrigin::Signed(provider), key, data_info);
}

fn storage_key() -> Vec<u8> {
    b":DataFeed:StorageArgument:".to_vec()
}

fn request_info() -> OffchainRequestInfo {
    OffchainRequestInfo {
        url: b"https://min-api.cryptocompare.com/data/price?fsym=BTC&tsyms=USD".to_vec(),
        key_str: b"USD".to_vec(),
    }
}

#[test]
fn it_works() {
    assert_eq!(2 + 2, 4);
}

#[test]
fn benchmark_register_storage_key() {
    let mut feed = DataFeed::new();
    let provider: u64 = 1;
    add_tmp_provider(&mut feed, provider);
    let key = storage_key();
    let data_info = FeededDataInfo {
        number_type: NumberType::FixedU128,
        operation: Operations::Average,
        schedule: 2,
    };
    let r = feed.register_storage_key(RawOrigin::Signed(provider), key.clone(), data_info);
    assert!(r.is_ok());
    assert_eq!(feed.data_info(&key), Some(data_info));
}

#[test]
fn benchmark_remove_storage_key() {
    let mut feed = DataFeed::new();
    let provider: u64 = 1;
    let key = storage_key();
    add_data_info(&mut feed, key.clone(), provider);
    let _ = feed.set_offchain_request_info(RawOrigin::Root, key.clone(), request_info());
    let r = feed.remove_storage_key(RawOrigin::Signed(provider), key.clone());
    assert!(r.is_ok());
    assert_eq!(feed.data_info(&key), None);
}

#[test]
fn benchmark_set_offchain_request_info() {
    let mut feed = DataFeed::new();
    let provider: u64 = 1;
    let key = storage_key();
    add_data_info(&mut feed, key.clone(), provider);
    let info = request_info();
    let r = feed.set_offchain_request_info(RawOrigin::Root, key.clone(), info.clone());
    assert!(r.is_ok());
    assert_eq!(feed.offchain_request_info(&key), Some(info));
}

#[test]
fn benchmark_set_offchain_period() {
    let mut feed = DataFeed::new();
    let provider: u64 = 1;
    let key = storage_key();
    add_data_info(&mut feed, key.clone(), provider);
    let _ = feed.set_offchain_request_info(RawOrigin::Root, key.clone(), request_info());
    let period = Some(100);
    let r = feed.set_offchain_period(RawOrigin::Root, key.clone(), period);
    assert!(r.is_ok());
    assert_eq!(feed.offchain_period(&key), period);
}

#[test]
fn benchmark_feed_data() {
    let mut feed = DataFeed::new();
    let provider: u64 = 1;
    let key = storage_key();
    add_data_info(&mut feed, key.clone(), provider);
    let value = DataType::FixedU128(1);
    let r = feed.feed_data(RawOrigin::Signed(provider), key.clone(), value);
    assert!(r.is_ok());
    assert_eq!(feed.feeded_data(&key, provider), Some(vec![value; RING_BUF_LEN]));
}

#[test]
fn benchmark_add_provider() {
    let mut feed = DataFeed::new();
    let provider: u64 = 1;
    let r = feed.add_provider(RawOrigin::Root, provider);
    assert!(r.is_ok());
    assert!(feed.all_providers().contains(&provider));
}

#[test]
fn benchmark_remove_provider() {
    let mut feed = DataFeed::new();
    let provider: u64 = 1;
    add_tmp_provider(&mut feed, provider);
    let r = feed.remove_provider(RawOrigin::Root, provider);
    assert!(r.is_ok());
    assert!(!feed.all_providers().contains(&provider));
}

#[test]
fn add_provider_is_idempotent() {
    let mut feed = DataFeed::new();
    add_tmp_provider(&mut feed, 7);
    add_tmp_provider(&mut feed, 7);
    assert_eq!(feed.all_providers(), vec![7]);
    assert!(feed.remove_provider(RawOrigin::Root, 9).is_ok());
    assert_eq!(feed.all_providers(), vec![7]);
}

#[test]
fn governance_ops_reject_signed_origin() {
    let mut feed = DataFeed::new();
    let key = storage_key();
    add_data_info(&mut feed, key.clone(), 1);
    assert_eq!(feed.add_provider(RawOrigin::Signed(2), 3), Err(Error::BadOrigin));
    assert_eq!(feed.remove_provider(RawOrigin::Signed(2), 1), Err(Error::BadOrigin));
    assert_eq!(
        feed.set_offchain_request_info(RawOrigin::Signed(1), key.clone(), request_info()),
        Err(Error::BadOrigin)
    );
    assert_eq!(
        feed.set_offchain_period(RawOrigin::Signed(1), key.clone(), Some(4)),
        Err(Error::BadOrigin)
    );
    assert!(feed.all_providers().contains(&1));
    assert_eq!(feed.offchain_request_info(&key), None);
    assert_eq!(feed.offchain_period(&key), None);
}

#[test]
fn feed_data_requires_provider_key_and_tag() {
    let mut feed = DataFeed::new();
    let key = storage_key();
    add_data_info(&mut feed, key.clone(), 1);

    // A root origin is not a signed provider call.
    assert_eq!(
        feed.feed_data(RawOrigin::Root, key.clone(), DataType::FixedU128(1)),
        Err(Error::BadOrigin)
    );
    // Not a provider.
    assert_eq!(
        feed.feed_data(RawOrigin::Signed(2), key.clone(), DataType::FixedU128(1)),
        Err(Error::NotAuthorized)
    );
    // Unknown key.
    assert_eq!(
        feed.feed_data(RawOrigin::Signed(1), b"missing".to_vec(), DataType::FixedU128(1)),
        Err(Error::UnknownKey)
    );
    // Tag mismatch: the key was declared FixedU128.
    assert_eq!(
        feed.feed_data(RawOrigin::Signed(1), key.clone(), DataType::U128(1)),
        Err(Error::TypeMismatch)
    );
    // No rejected call changed anything.
    assert_eq!(feed.feeded_data(&key, 1), None);
    assert_eq!(feed.feeded_data(&key, 2), None);

    // All three conditions met: the call succeeds.
    assert!(feed.feed_data(RawOrigin::Signed(1), key.clone(), DataType::FixedU128(1)).is_ok());
    assert!(feed.feeded_data(&key, 1).is_some());
}

#[test]
fn ring_buffer_overwrites_oldest() {
    let mut feed = DataFeed::new();
    let key = storage_key();
    add_data_info(&mut feed, key.clone(), 1);
    let v = |n: u128| DataType::FixedU128(n);

    // First submission pre-fills every slot.
    assert!(feed.feed_data(RawOrigin::Signed(1), key.clone(), v(1)).is_ok());
    assert_eq!(feed.feeded_data(&key, 1), Some(vec![v(1), v(1)]));
    // Second lands on the next slot.
    assert!(feed.feed_data(RawOrigin::Signed(1), key.clone(), v(2)).is_ok());
    assert_eq!(feed.feeded_data(&key, 1), Some(vec![v(1), v(2)]));
    // With capacity two, the third submission overwrites the first slot;
    // the history never exceeds the capacity.
    assert!(feed.feed_data(RawOrigin::Signed(1), key.clone(), v(3)).is_ok());
    assert_eq!(feed.feeded_data(&key, 1), Some(vec![v(3), v(2)]));
    assert_eq!(feed.feeded_data(&key, 1).unwrap().len(), RING_BUF_LEN);
}

#[test]
fn reregistration_with_same_type_keeps_history() {
    let mut feed = DataFeed::new();
    let key = storage_key();
    add_data_info(&mut feed, key.clone(), 1);
    assert!(feed.feed_data(RawOrigin::Signed(1), key.clone(), DataType::FixedU128(5)).is_ok());
    let info = FeededDataInfo {
        number_type: NumberType::FixedU128,
        operation: Operations::Average,
        schedule: 9,
    };
    assert!(feed.register_storage_key(RawOrigin::Signed(1), key.clone(), info).is_ok());
    assert_eq!(feed.data_info(&key), Some(info));
    assert!(feed.feeded_data(&key, 1).is_some());
}

#[test]
fn reregistration_with_new_type_clears_history() {
    let mut feed = DataFeed::new();
    let key = storage_key();
    add_data_info(&mut feed, key.clone(), 1);
    assert!(feed.feed_data(RawOrigin::Signed(1), key.clone(), DataType::FixedU128(5)).is_ok());
    let info = FeededDataInfo {
        number_type: NumberType::U128,
        operation: Operations::Average,
        schedule: 2,
    };
    assert!(feed.register_storage_key(RawOrigin::Signed(1), key.clone(), info).is_ok());
    assert_eq!(feed.data_info(&key), Some(info));
    assert_eq!(feed.feeded_data(&key, 1), None);
}

#[test]
fn register_requires_provider() {
    let mut feed = DataFeed::new();
    let info = FeededDataInfo {
        number_type: NumberType::U128,
        operation: Operations::Average,
        schedule: 2,
    };
    assert_eq!(
        feed.register_storage_key(RawOrigin::Signed(1), storage_key(), info),
        Err(Error::NotAuthorized)
    );
    assert_eq!(feed.data_info(&storage_key()), None);
}

#[test]
fn remove_storage_key_errors() {
    let mut feed = DataFeed::new();
    let key = storage_key();
    add_data_info(&mut feed, key.clone(), 1);
    assert_eq!(
        feed.remove_storage_key(RawOrigin::Signed(2), key.clone()),
        Err(Error::NotAuthorized)
    );
    assert_eq!(
        feed.remove_storage_key(RawOrigin::Signed(1), b"missing".to_vec()),
        Err(Error::UnknownKey)
    );
    assert!(feed.data_info(&key).is_some());
}

#[test]
fn offchain_setters_require_registered_key() {
    let mut feed = DataFeed::new();
    assert_eq!(
        feed.set_offchain_request_info(RawOrigin::Root, storage_key(), request_info()),
        Err(Error::UnknownKey)
    );
    assert_eq!(
        feed.set_offchain_period(RawOrigin::Root, storage_key(), Some(5)),
        Err(Error::UnknownKey)
    );
}

#[test]
fn offchain_period_none_clears_override() {
    let mut feed = DataFeed::new();
    let key = storage_key();
    add_data_info(&mut feed, key.clone(), 1);
    assert!(feed.set_offchain_period(RawOrigin::Root, key.clone(), Some(8)).is_ok());
    assert_eq!(feed.offchain_period(&key), Some(8));
    assert!(feed.set_offchain_period(RawOrigin::Root, key.clone(), None).is_ok());
    assert_eq!(feed.offchain_period(&key), None);
}

#[test]
fn value_accessors_round_trip() {
    let v = DataType::from_raw(NumberType::U128, 42);
    assert_eq!(v, DataType::U128(42));
    assert_eq!(v.number_type(), NumberType::U128);
    assert_eq!(v.raw(), 42);
    let w = DataType::from_raw(NumberType::FixedU128, 7);
    assert_eq!(w, DataType::FixedU128(7));
    assert_eq!(w.number_type(), NumberType::FixedU128);
    assert_eq!(w.raw(), 7);
}
