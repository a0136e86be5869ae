//! Fencing: which controller may advance a shard.

use vstd::prelude::*;

verus! {

/// The epoch of the controller that holds a shard, or none before any did.
#[derive(Debug, Copy, Clone, PartialEq, Eq, Structural)]
pub struct PersistEpoch(pub Option<i64>);

/// Whether an epoch is one that a controller can have.
pub open spec fn is_epoch(e: PersistEpoch) -> bool {
    e.0 != Some(0i64)
}

/// The number that bytes are in little-endian order.
pub open spec fn le(bytes: Seq<u8>) -> int
    decreases bytes.len(),
{
    if bytes.len() == 0 {
        0
    } else {
        bytes[0] + 256 * le(bytes.drop_first())
    }
}

/// A signed number as an unsigned number with the same bits.
pub open spec fn as_bits(n: int) -> int {
    if n < 0 {
        n + 0x1_0000_0000_0000_0000
    } else {
        n
    }
}

/// The number that stands for an epoch: zero for none.
pub open spec fn epoch_number(e: PersistEpoch) -> int {
    match e.0 {
        Some(n) => n as int,
        None => 0,
    }
}

/// Whether bytes are the encoding of an epoch.
pub open spec fn encodes(bytes: Seq<u8>, e: PersistEpoch) -> bool {
    bytes.len() == 8 && le(bytes) == as_bits(epoch_number(e))
}

proof fn lemma_le_8(b: Seq<u8>)
    requires
        b.len() == 8,
    ensures
        le(b) == b[0] + 0x100 * b[1] + 0x1_0000 * b[2] + 0x100_0000 * b[3] + 0x1_0000_0000 * b[4]
            + 0x100_0000_0000 * b[5] + 0x1_0000_0000_0000 * b[6] + 0x100_0000_0000_0000 * b[7],
{
    reveal_with_fuel(le, 9);
    let c1 = b.drop_first();
    let c2 = c1.drop_first();
    let c3 = c2.drop_first();
    let c4 = c3.drop_first();
    let c5 = c4.drop_first();
    let c6 = c5.drop_first();
    let c7 = c6.drop_first();
    assert(le(c7) == b[7]);
    assert(le(c6) == b[6] + 256 * le(c7));
    assert(le(c5) == b[5] + 256 * le(c6));
    assert(le(c4) == b[4] + 256 * le(c5));
    assert(le(c3) == b[3] + 256 * le(c4));
    assert(le(c2) == b[2] + 256 * le(c3));
    assert(le(c1) == b[1] + 256 * le(c2));
}

/// Eight bytes are determined by the number that they are.
pub proof fn lemma_le_injective(a: Seq<u8>, b: Seq<u8>)
    requires
        a.len() == b.len(),
        le(a) == le(b),
    ensures
        a == b,
    decreases a.len(),
{
    if a.len() > 0 {
        lemma_le_injective(a.drop_first(), b.drop_first());
        assert(a =~= seq![a[0]] + a.drop_first());
        assert(b =~= seq![b[0]] + b.drop_first());
    } else {
        assert(a =~= b);
    }
}

/// An epoch is encoded in one way, and bytes encode one epoch.
pub proof fn law_epoch_encoding(a: Seq<u8>, b: Seq<u8>, d: PersistEpoch, e: PersistEpoch)
    requires
        is_epoch(d),
        is_epoch(e),
        encodes(a, d),
        encodes(b, e),
    ensures
        (a == b) == (d == e),
{
    if d == e {
        lemma_le_injective(a, b);
    }
}

impl PersistEpoch {
    /// The epoch before any controller held the shard.
    pub fn initial() -> (r: PersistEpoch)
        ensures
            r.0 == None::<i64>,
    {
        PersistEpoch(None)
    }

    /// What the encoding is called.
    pub fn codec_name() -> (r: String)
        ensures
            r@ == "PersistEpoch"@,
    {
        String::from_str("PersistEpoch")
    }

    /// The encoding of the epoch.
    pub fn encode(&self) -> (r: [u8; 8])
        requires
            is_epoch(*self),
        ensures
            encodes(r@, *self),
    {
        let n: i64 = match self.0 {
            Some(n) => n,
            None => 0,
        };
        let bits: u64 = if n < 0 {
            (n as i128 + 0x1_0000_0000_0000_0000) as u64
        } else {
            n as u64
        };
        let q1: u64 = bits / 256;
        let d0: u8 = (bits % 256) as u8;
        assert(bits == d0 + 256 * q1);
        let q2: u64 = q1 / 256;
        let d1: u8 = (q1 % 256) as u8;
        assert(q1 == d1 + 256 * q2);
        let q3: u64 = q2 / 256;
        let d2: u8 = (q2 % 256) as u8;
        assert(q2 == d2 + 256 * q3);
        let q4: u64 = q3 / 256;
        let d3: u8 = (q3 % 256) as u8;
        assert(q3 == d3 + 256 * q4);
        let q5: u64 = q4 / 256;
        let d4: u8 = (q4 % 256) as u8;
        assert(q4 == d4 + 256 * q5);
        let q6: u64 = q5 / 256;
        let d5: u8 = (q5 % 256) as u8;
        assert(q5 == d5 + 256 * q6);
        let q7: u64 = q6 / 256;
        let d6: u8 = (q6 % 256) as u8;
        assert(q6 == d6 + 256 * q7);
        let d7: u8 = q7 as u8;
        let r: [u8; 8] = [d0, d1, d2, d3, d4, d5, d6, d7];
        proof {
            lemma_le_8(r@);
        }
        r
    }

    /// The epoch that bytes encode.
    pub fn decode(buf: [u8; 8]) -> (r: PersistEpoch)
        ensures
            is_epoch(r),
            encodes(buf@, r),
    {
        proof {
            lemma_le_8(buf@);
        }
        let bits: u64 = buf[0] as u64 + 0x100 * buf[1] as u64 + 0x1_0000 * buf[2] as u64 + 0x100_0000
            * buf[3] as u64 + 0x1_0000_0000 * buf[4] as u64 + 0x100_0000_0000 * buf[5] as u64
            + 0x1_0000_0000_0000 * buf[6] as u64 + 0x100_0000_0000_0000 * buf[7] as u64;
        let n: i64 = if bits < 0x8000_0000_0000_0000 {
            bits as i64
        } else {
            (bits as i128 - 0x1_0000_0000_0000_0000) as i64
        };
        if n == 0 {
            PersistEpoch(None)
        } else {
            PersistEpoch(Some(n))
        }
    }

    /// The epoch of a controller.
    pub fn from_epoch(epoch: i64) -> (r: PersistEpoch)
        requires
            epoch != 0,
        ensures
            r.0 == Some(epoch),
            is_epoch(r),
    {
        PersistEpoch(Some(epoch))
    }
}

/// Whether a controller may take a shard over: if no controller of a later epoch holds it.
pub fn may_take_over(current: PersistEpoch, ours: i64) -> (r: bool)
    ensures
        r == (current.0 matches Some(e) ==> e <= ours),
{
    match current.0 {
        Some(e) => e <= ours,
        None => true,
    }
}

} // verus!
