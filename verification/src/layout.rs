use vstd::prelude::*;

verus! {

/// Number of bytes of the little-endian header length that opens a safetensors file.
pub const HEADER_PREFIX_LEN: u64 = 8;

/// The largest header that is read, in bytes.
pub const MAX_HEADER_SIZE: usize = 100_000_000;

/// The number that bytes stand for in little-endian order.
pub open spec fn le_value(b: Seq<u8>) -> nat
    decreases b.len(),
{
    if b.len() == 0 {
        0
    } else {
        b[0] as nat + 256 * le_value(b.drop_first())
    }
}

/// `256` to the power `k`: one more than the largest value of `k` bytes.
pub open spec fn byte_range(k: nat) -> nat
    decreases k,
{
    if k == 0 {
        1
    } else {
        256 * byte_range((k - 1) as nat)
    }
}

proof fn lemma_le_value_bound(b: Seq<u8>)
    ensures
        le_value(b) < byte_range(b.len()),
    decreases b.len(),
{
    if b.len() > 0 {
        lemma_le_value_bound(b.drop_first());
    }
}

proof fn lemma_byte_range_grows(j: nat, k: nat)
    requires
        j <= k,
    ensures
        byte_range(j) <= byte_range(k),
    decreases k,
{
    if j < k {
        lemma_byte_range_grows(j, (k - 1) as nat);
    }
}

/// Reads eight bytes as a little-endian unsigned 64-bit number (`u64::from_le_bytes`).
pub fn le_u64(bytes: &[u8]) -> (value: u64)
    requires
        bytes@.len() == 8,
    ensures
        value as nat == le_value(bytes@),
{
    let mut value: u64 = 0;
    let mut i: usize = 8;
    proof {
        assert(bytes@.subrange(8, 8) =~= Seq::<u8>::empty());
        reveal_with_fuel(byte_range, 9);
        assert(byte_range(8) == 0x1_0000_0000_0000_0000);
    }
    while i > 0
        invariant
            bytes@.len() == 8,
            i <= 8,
            value as nat == le_value(bytes@.subrange(i as int, 8)),
            byte_range(8) == 0x1_0000_0000_0000_0000,
        decreases i,
    {
        let ghost rest = bytes@.subrange(i as int, 8);
        let ghost longer = bytes@.subrange(i - 1, 8);
        proof {
            assert(longer.drop_first() =~= rest);
            lemma_le_value_bound(longer);
            lemma_byte_range_grows(longer.len(), 8);
        }
        value = bytes[i - 1] as u64 + 256 * value;
        i = i - 1;
    }
    proof {
        assert(bytes@.subrange(0, 8) =~= bytes@);
    }
    value
}

} // verus!
