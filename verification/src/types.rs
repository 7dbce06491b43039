//! Plain data the engine works on: accounts, value tags, feed metadata,
//! offchain request descriptors, call origins and error kinds.

use vstd::prelude::*;

verus! {

/// An account identifier of the host chain, reduced to a plain integer.
pub type AccountId = u64;

/// A block number of the host chain.
pub type BlockNumber = u64;

/// Number of slots in each provider's ring buffer.
pub const RING_BUF_LEN: usize = 2;

/// The numeric representation every submission for a key must use.
#[derive(Clone, Copy, Debug, PartialEq, Eq, Structural)]
pub enum NumberType {
    U128,
    FixedU128,
}

/// The reduction applied across all providers' histories of a key.
#[derive(Clone, Copy, Debug, PartialEq, Eq, Structural)]
pub enum Operations {
    Average,
}

/// A submitted value: a numeric union tagged with its representation.
/// `FixedU128` carries the raw (scaled) fixed-point representation, so all
/// arithmetic on it stays in the integers.
#[derive(Clone, Copy, Debug, PartialEq, Eq, Structural)]
pub enum DataType {
    U128(u128),
    FixedU128(u128),
}

/// The representation tag of a value.
pub open spec fn spec_tag(v: DataType) -> NumberType {
    match v {
        DataType::U128(_) => NumberType::U128,
        DataType::FixedU128(_) => NumberType::FixedU128,
    }
}

/// The raw numeric payload of a value.
pub open spec fn spec_inner(v: DataType) -> u128 {
    match v {
        DataType::U128(n) => n,
        DataType::FixedU128(n) => n,
    }
}

/// The value of representation `nt` whose raw payload is `raw`.
pub open spec fn spec_make(nt: NumberType, raw: u128) -> DataType {
    match nt {
        NumberType::U128 => DataType::U128(raw),
        NumberType::FixedU128 => DataType::FixedU128(raw),
    }
}

impl DataType {
    /// The representation tag of this value.
    pub fn number_type(&self) -> (r: NumberType)
        ensures
            r == spec_tag(*self),
    {
        match self {
            DataType::U128(_) => NumberType::U128,
            DataType::FixedU128(_) => NumberType::FixedU128,
        }
    }

    /// The raw numeric payload of this value.
    pub fn raw(&self) -> (r: u128)
        ensures
            r == spec_inner(*self),
    {
        match self {
            DataType::U128(n) => *n,
            DataType::FixedU128(n) => *n,
        }
    }

    /// Builds the value of representation `nt` with raw payload `raw`;
    /// the offchain path uses this to convert a fetched number into the
    /// key's declared representation.
    pub fn from_raw(nt: NumberType, raw: u128) -> (r: DataType)
        ensures
            r == spec_make(nt, raw),
    {
        match nt {
            NumberType::U128 => DataType::U128(raw),
            NumberType::FixedU128 => DataType::FixedU128(raw),
        }
    }
}

/// Aggregation metadata registered for a data key.
#[derive(Clone, Copy, Debug, PartialEq, Eq, Structural)]
pub struct FeededDataInfo {
    /// Representation every submission must carry.
    pub number_type: NumberType,
    /// Reduction combining all histories into one value.
    pub operation: Operations,
    /// Block interval of the offchain fetch schedule.
    pub schedule: BlockNumber,
}

/// Where and how the offchain scheduler fetches a key's external value.
#[derive(Clone, Debug, PartialEq, Eq)]
pub struct OffchainRequestInfo {
    /// Endpoint to fetch from.
    pub url: Vec<u8>,
    /// Field of the fetched document holding the value.
    pub key_str: Vec<u8>,
}

/// Why an operation was rejected.  A rejected operation changes nothing.
#[derive(Clone, Copy, Debug, PartialEq, Eq, Structural)]
pub enum Error {
    /// The caller lacks the required privilege.
    BadOrigin,
    /// The signed caller is not a current provider.
    NotAuthorized,
    /// The operation references an unregistered key.
    UnknownKey,
    /// The submitted value's tag disagrees with the key's declared type.
    TypeMismatch,
    /// Aggregation arithmetic exceeds the numeric domain's range.
    Overflow,
}

/// The verified origin of a call: the privileged governance origin, or an
/// ordinary signed account.
#[derive(Clone, Copy, Debug, PartialEq, Eq, Structural)]
pub enum RawOrigin {
    Root,
    Signed(AccountId),
}

} // verus!
