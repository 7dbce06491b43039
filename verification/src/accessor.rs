//! The consumer accessor: a read-only binding of one data key to a
//! static default, exposing the key's latest aggregated value to other
//! parts of the host system.

use vstd::prelude::*;
use crate::types::DataType;
use crate::feed::DataFeed;
use crate::aggregate::{spec_agg_ok, spec_agg_value};

verus! {

/// A read-only binding of a fixed key and a configured default value.
pub struct DataFeedGet {
    /// The data key this binding reads.
    pub key: Vec<u8>,
    /// Returned whenever no aggregated value is available.
    pub default: DataType,
}

impl DataFeedGet {
    /// Builds the binding for `key` with fallback `default`.
    pub fn new(key: Vec<u8>, default: DataType) -> (r: DataFeedGet)
        ensures
            r.key@ == key@,
            r.default == default,
    {
        DataFeedGet { key, default }
    }

    /// The latest aggregated value of the bound key, or the default when
    /// none is available (unregistered key, no submissions, or a sum
    /// outside the numeric domain).  Side-effect-free.
    pub fn get(&self, feed: &DataFeed) -> (r: DataType)
        requires
            feed.wf(),
        ensures
            r == (if spec_agg_ok(*feed, self.key@) {
                spec_agg_value(*feed, self.key@)
            } else {
                self.default
            }),
    {
        match feed.aggregate(&self.key) {
            Ok(Some(v)) => v,
            Ok(None) => self.default,
            Err(_) => self.default,
        }
    }
}

} // verus!
