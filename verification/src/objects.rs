//! Posted objects and their projections onto the two item schemas.
//!
//! A `SimObject` is immutable once posted: the posting party, a globally
//! unique post counter, and the posting time. The reconciliation trees do not
//! hold objects; they hold fixed-size items. The uniform schema projects an
//! object onto a 30-byte little-endian array (8 bytes of author, 8 bytes of
//! post id, 14 zero bytes); the timestamped schema pairs the posting time with
//! that array.

use vstd::prelude::*;

use crate::time::SimInstant;

verus! {

/// One posted object.
#[derive(Debug, Clone, Copy, PartialEq, Eq, Structural)]
pub struct SimObject {
    /// The party that posted the object.
    pub author: usize,
    /// The value of the global post counter when the object was posted.
    pub post_id: usize,
    /// The minute the object was posted.
    pub timestamp: SimInstant,
}

/// The number of bytes of a uniform item.
pub const ITEM_BYTES: usize = 30;

/// The byte at little-endian position `i` of the 64-bit value `x`.
pub open spec fn le_byte(x: u64, i: int) -> u8 {
    (x / pow256(i)) as u8
}

/// `256^i`, the place value of little-endian byte `i`.
pub open spec fn pow256(i: int) -> u64
    decreases i,
{
    if i <= 0 {
        1
    } else {
        (256 * pow256(i - 1)) as u64
    }
}

/// The uniform item of an object with the given author and post id: author in
/// bytes 0 to 7, post id in bytes 8 to 15, zeroes after.
pub open spec fn uniform_item_bytes(author: u64, post_id: u64) -> Seq<u8> {
    Seq::new(
        ITEM_BYTES as nat,
        |i: int|
            if 0 <= i < 8 {
                le_byte(author, i)
            } else if 8 <= i < 16 {
                le_byte(post_id, i - 8)
            } else {
                0u8
            },
    )
}

/// The timestamped item of an object: the posting minute paired with the
/// uniform item.
pub open spec fn timestamped_item_of(obj: SimObject) -> (u64, Seq<u8>) {
    (obj.timestamp.0, uniform_item_bytes(obj.author as u64, obj.post_id as u64))
}

/// The uniform item of an object.
pub open spec fn uniform_item_of(obj: SimObject) -> Seq<u8> {
    uniform_item_bytes(obj.author as u64, obj.post_id as u64)
}

/// An object as a plain triple: author, post id, posting minute.
pub open spec fn obj_val(obj: SimObject) -> (u64, u64, u64) {
    (obj.author as u64, obj.post_id as u64, obj.timestamp.0)
}

impl SimObject {
    /// The object's author.
    pub fn author(&self) -> (r: usize)
        ensures
            r == self.author,
    {
        self.author
    }

    /// The object's post id.
    pub fn post_id(&self) -> (r: usize)
        ensures
            r == self.post_id,
    {
        self.post_id
    }

    /// The object's posting time (the timestamped schema's primary key).
    pub fn to_timestamp(&self) -> (r: SimInstant)
        ensures
            r == self.timestamp,
    {
        self.timestamp
    }

    /// The object's uniform 30-byte item.
    pub fn to_item_bytes(&self) -> (r: [u8; 30])
        ensures
            r@ == uniform_item_of(*self),
    {
        let author = self.author as u64;
        let post_id = self.post_id as u64;
        let mut buf: [u8; 30] = [0u8; 30];
        let mut i: usize = 0;
        while i < 8
            invariant
                i <= 8,
                buf@.len() == 30,
                forall|j: int| 0 <= j < i ==> buf@[j] == le_byte(author, j),
                forall|j: int| i <= j < 30 ==> buf@[j] == 0u8,
            decreases 8 - i,
        {
            let b = shifted_byte(author, i);
            buf[i] = b;
            i = i + 1;
        }
        let mut k: usize = 0;
        while k < 8
            invariant
                k <= 8,
                buf@.len() == 30,
                forall|j: int| 0 <= j < 8 ==> buf@[j] == le_byte(author, j),
                forall|j: int| 0 <= j < k ==> buf@[j + 8] == le_byte(post_id, j),
                forall|j: int| 8 + k <= j < 30 ==> buf@[j] == 0u8,
            decreases 8 - k,
        {
            let b = shifted_byte(post_id, k);
            buf[k + 8] = b;
            k = k + 1;
        }
        proof {
            assert(buf@ =~= uniform_item_of(*self));
        }
        buf
    }
}

/// The byte at little-endian position `i` of `x`.
fn shifted_byte(x: u64, i: usize) -> (r: u8)
    requires
        i < 8,
    ensures
        r == le_byte(x, i as int),
{
    proof {
        lemma_pow256_shift(i as int);
    }
    let shifted: u64 = x >> ((8 * i) as u64);
    #[verifier::truncate] (shifted as u8)
}

/// `x >> (8 * i)` divides by the byte place value `256^i`.
proof fn lemma_pow256_shift(i: int)
    requires
        0 <= i < 8,
    ensures
        forall|x: u64| #[trigger] (x >> ((8 * i) as u64)) == x / pow256(i),
{
    assert(pow256(0) == 1 && pow256(1) == 256 && pow256(2) == 65536 && pow256(3) == 16777216
        && pow256(4) == 4294967296 && pow256(5) == 1099511627776 && pow256(6) == 281474976710656
        && pow256(7) == 72057594037927936);
    assert forall|x: u64| #[trigger] (x >> ((8 * i) as u64)) == x / pow256(i) by {
        if i == 0 {
            assert(x >> 0u64 == x / 1) by (bit_vector);
        } else if i == 1 {
            assert(x >> 8u64 == x / 256) by (bit_vector);
        } else if i == 2 {
            assert(x >> 16u64 == x / 65536) by (bit_vector);
        } else if i == 3 {
            assert(x >> 24u64 == x / 16777216) by (bit_vector);
        } else if i == 4 {
            assert(x >> 32u64 == x / 4294967296) by (bit_vector);
        } else if i == 5 {
            assert(x >> 40u64 == x / 1099511627776) by (bit_vector);
        } else if i == 6 {
            assert(x >> 48u64 == x / 281474976710656) by (bit_vector);
        } else {
            assert(x >> 56u64 == x / 72057594037927936) by (bit_vector);
        }
    }
}

} // verus!
