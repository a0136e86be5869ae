//! How collections, instances and shards are named.

use vstd::prelude::*;

use crate::sql_parser::text::{decimal, decimal_text, no_text};

verus! {

/// The identifier for an item.
#[derive(Debug, Copy, Clone, PartialEq, Eq, Structural)]
pub enum GlobalId {
    /// System namespace.
    System(u64),
    /// User namespace.
    User(u64),
    /// Transient namespace.
    Transient(u64),
    /// Dummy id for a query that is being explained.
    Explain,
}

/// Where an identifier comes in the order of identifiers: by namespace, then by number.
pub open spec fn id_rank(id: GlobalId) -> int {
    match id {
        GlobalId::System(n) => n as int,
        GlobalId::User(n) => 0x1_0000_0000_0000_0000 + n,
        GlobalId::Transient(n) => 0x2_0000_0000_0000_0000 + n,
        GlobalId::Explain => 0x3_0000_0000_0000_0000,
    }
}

/// Two identifiers with the same place in the order are the same.
pub broadcast proof fn lemma_id_rank(a: GlobalId, b: GlobalId)
    ensures
        #![trigger id_rank(a), id_rank(b)]
        id_rank(a) == id_rank(b) ==> a == b,
{
}

/// Where an identifier comes in the order of identifiers.
pub fn rank_of(id: GlobalId) -> (r: u128)
    ensures
        r == id_rank(id),
{
    match id {
        GlobalId::System(n) => n as u128,
        GlobalId::User(n) => 0x1_0000_0000_0000_0000u128 + n as u128,
        GlobalId::Transient(n) => 0x2_0000_0000_0000_0000u128 + n as u128,
        GlobalId::Explain => 0x3_0000_0000_0000_0000u128,
    }
}

/// How an identifier is written.
pub open spec fn id_text(id: GlobalId) -> Seq<char> {
    match id {
        GlobalId::System(n) => no_text() + "s"@ + decimal(n as nat),
        GlobalId::User(n) => no_text() + "u"@ + decimal(n as nat),
        GlobalId::Transient(n) => no_text() + "t"@ + decimal(n as nat),
        GlobalId::Explain => "Explained Query"@,
    }
}

impl GlobalId {
    /// How the identifier is written.
    pub fn to_text(&self) -> (r: String)
        ensures
            r@ == id_text(*self),
    {
        match self {
            GlobalId::System(n) => String::new().concat("s").concat(decimal_text(*n).as_str()),
            GlobalId::User(n) => String::new().concat("u").concat(decimal_text(*n).as_str()),
            GlobalId::Transient(n) => String::new().concat("t").concat(decimal_text(*n).as_str()),
            GlobalId::Explain => String::from_str("Explained Query"),
        }
    }
}

/// Identifies a storage instance.
#[derive(Debug, Copy, Clone, PartialEq, Eq, Structural)]
pub enum StorageInstanceId {
    /// A system instance.
    System(u64),
    /// A user instance.
    User(u64),
}

/// How an instance is written.
pub open spec fn instance_text(id: StorageInstanceId) -> Seq<char> {
    match id {
        StorageInstanceId::System(n) => no_text() + "s"@ + decimal(n as nat),
        StorageInstanceId::User(n) => no_text() + "u"@ + decimal(n as nat),
    }
}

impl StorageInstanceId {
    /// How the instance is written.
    pub fn to_text(&self) -> (r: String)
        ensures
            r@ == instance_text(*self),
    {
        match self {
            StorageInstanceId::System(n) => String::new().concat("s").concat(
                decimal_text(*n).as_str(),
            ),
            StorageInstanceId::User(n) => String::new().concat("u").concat(
                decimal_text(*n).as_str(),
            ),
        }
    }
}

/// Identifies a shard: a universally unique number.
#[derive(Debug, Copy, Clone, PartialEq, Eq, Structural)]
pub struct ShardId(pub u128);

/// A number to the power of another.
pub open spec fn power(base: int, exponent: nat) -> int
    decreases exponent,
{
    if exponent == 0 {
        1
    } else {
        base * power(base, (exponent - 1) as nat)
    }
}

/// A hexadecimal digit.
pub open spec fn hex_digit(d: int) -> char {
    if d < 10 {
        (48 + d) as u8 as char
    } else {
        (87 + d) as u8 as char
    }
}

/// A universally unique number as text: 32 hexadecimal digits in groups of 8, 4, 4, 4 and 12
/// with hyphens between them.
pub open spec fn uuid_text(n: u128) -> Seq<char> {
    Seq::new(
        36,
        |k: int|
            if k == 8 || k == 13 || k == 18 || k == 23 {
                '-'
            } else {
                let place = if k < 8 {
                    31 - k
                } else if k < 13 {
                    32 - k
                } else if k < 18 {
                    33 - k
                } else if k < 23 {
                    34 - k
                } else {
                    35 - k
                };
                hex_digit((n as int / power(16, place as nat)) % 16)
            },
    )
}

/// `uuid::Uuid::from_u128` with its display formatting: lowercase hexadecimal digits, the
/// highest first, with hyphens.
#[verifier::external_body]
fn uuid_string(n: u128) -> (r: String)
    ensures
        r@ == uuid_text(n),
{
    uuid::Uuid::from_u128(n).to_string()
}

/// How a shard is written.
pub open spec fn shard_text(id: ShardId) -> Seq<char> {
    no_text() + "s"@ + uuid_text(id.0)
}

impl ShardId {
    /// How the shard is written.
    pub fn to_text(&self) -> (r: String)
        ensures
            r@ == shard_text(*self),
    {
        String::new().concat("s").concat(uuid_string(self.0).as_str())
    }
}

} // verus!
