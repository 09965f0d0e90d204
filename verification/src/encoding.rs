//! How numbers are written, and that reading them gives them back.

use crate::source::{be_i32, le_i32, le_i32s, le_u32, le_u64, le_u64_pairs, le_u64s};
use vstd::prelude::*;

verus! {

/// The 32-bit pattern of a signed number in two's complement.
pub open spec fn pattern(value: i32) -> int {
    if value < 0 {
        value + 0x1_0000_0000
    } else {
        value as int
    }
}

/// A signed 32-bit number, the highest byte first.
pub open spec fn i32_be(value: i32) -> Seq<u8> {
    seq![
        (pattern(value) / 0x100_0000) as u8,
        (pattern(value) / 0x1_0000 % 0x100) as u8,
        (pattern(value) / 0x100 % 0x100) as u8,
        (pattern(value) % 0x100) as u8,
    ]
}

/// A 32-bit pattern, the lowest byte first.
pub open spec fn u32_le(p: int) -> Seq<u8> {
    seq![
        (p % 0x100) as u8,
        (p / 0x100 % 0x100) as u8,
        (p / 0x1_0000 % 0x100) as u8,
        (p / 0x100_0000) as u8,
    ]
}

/// A signed 32-bit number, the lowest byte first.
pub open spec fn i32_le(value: i32) -> Seq<u8> {
    u32_le(pattern(value))
}

/// An unsigned 64-bit number, the lowest byte first.
pub open spec fn u64_le(value: u64) -> Seq<u8> {
    u32_le(value as int % 0x1_0000_0000) + u32_le(value as int / 0x1_0000_0000)
}

/// Signed 32-bit numbers, one after the other, each the lowest byte first.
pub open spec fn i32s_le(values: Seq<i32>) -> Seq<u8> {
    Seq::new(4 * values.len(), |k: int| i32_le(values[k / 4])[k % 4])
}

/// Unsigned 64-bit numbers, one after the other, each the lowest byte first.
pub open spec fn u64s_le(values: Seq<u64>) -> Seq<u8> {
    Seq::new(8 * values.len(), |k: int| u64_le(values[k / 8])[k % 8])
}

/// The numbers of pairs, one after the other.
pub open spec fn flat(values: Seq<(u64, u64)>) -> Seq<u64> {
    Seq::new(
        2 * values.len(),
        |k: int|
            if k % 2 == 0 {
                values[k / 2].0
            } else {
                values[k / 2].1
            },
    )
}

/// Pairs of unsigned 64-bit numbers, one after the other, each number the lowest byte first.
pub open spec fn pairs_le(values: Seq<(u64, u64)>) -> Seq<u8> {
    u64s_le(flat(values))
}

/// Whether `written` stands in `bytes` from `at` on.
pub open spec fn stands_at(bytes: Seq<u8>, at: int, written: Seq<u8>) -> bool {
    &&& 0 <= at
    &&& at + written.len() <= bytes.len()
    &&& forall|k: int| 0 <= k < written.len() ==> #[trigger] written[k] == bytes[at + k]
}

/// Reading a big-endian number gives the number that was written, and only that.
pub proof fn law_i32_be_reads_back(bytes: Seq<u8>, at: int, value: i32)
    requires
        0 <= at,
        at + 4 <= bytes.len(),
    ensures
        stands_at(bytes, at, i32_be(value)) <==> be_i32(bytes, at) == value,
{
    let w = i32_be(value);
    if stands_at(bytes, at, w) {
        assert(w[0] == bytes[at] && w[1] == bytes[at + 1] && w[2] == bytes[at + 2] && w[3]
            == bytes[at + 3]);
    }
    if be_i32(bytes, at) == value {
        lemma_four_bytes(
            bytes[at + 3],
            bytes[at + 2],
            bytes[at + 1],
            bytes[at],
            pattern(value),
        );
        assert forall|k: int| 0 <= k < w.len() implies #[trigger] w[k] == bytes[at + k] by {
            assert(k == 0 || k == 1 || k == 2 || k == 3);
        }
    }
}

/// The bytes of a 32-bit pattern, the lowest first, are found by division.
proof fn lemma_four_bytes(a: u8, b: u8, c: u8, d: u8, p: int)
    requires
        p == a + b * 0x100 + c * 0x1_0000 + d * 0x100_0000,
    ensures
        p % 0x100 == a,
        p / 0x100 % 0x100 == b,
        p / 0x1_0000 % 0x100 == c,
        p / 0x100_0000 == d,
{
    assert(p / 0x100 == b + c * 0x100 + d * 0x1_0000);
    assert(p / 0x1_0000 == c + d * 0x100);
}

/// Reading a 32-bit pattern gives the pattern that was written, and only that.
pub proof fn law_u32_le_reads_back(bytes: Seq<u8>, at: int, p: int)
    requires
        0 <= at,
        at + 4 <= bytes.len(),
        0 <= p < 0x1_0000_0000,
    ensures
        stands_at(bytes, at, u32_le(p)) <==> le_u32(bytes, at) == p,
{
    let w = u32_le(p);
    if stands_at(bytes, at, w) {
        assert(w[0] == bytes[at] && w[1] == bytes[at + 1] && w[2] == bytes[at + 2] && w[3]
            == bytes[at + 3]);
    }
    if le_u32(bytes, at) == p {
        lemma_four_bytes(bytes[at], bytes[at + 1], bytes[at + 2], bytes[at + 3], p);
        assert forall|k: int| 0 <= k < w.len() implies #[trigger] w[k] == bytes[at + k] by {
            assert(k == 0 || k == 1 || k == 2 || k == 3);
        }
    }
}

/// Reading a little-endian number gives the number that was written, and only that.
pub proof fn law_i32_le_reads_back(bytes: Seq<u8>, at: int, value: i32)
    requires
        0 <= at,
        at + 4 <= bytes.len(),
    ensures
        stands_at(bytes, at, i32_le(value)) <==> le_i32(bytes, at) == value,
{
    law_u32_le_reads_back(bytes, at, pattern(value));
}

/// Reading a 64-bit number gives the number that was written, and only that.
pub proof fn law_u64_le_reads_back(bytes: Seq<u8>, at: int, value: u64)
    requires
        0 <= at,
        at + 8 <= bytes.len(),
    ensures
        stands_at(bytes, at, u64_le(value)) <==> le_u64(bytes, at) == value,
{
    let low = value as int % 0x1_0000_0000;
    let high = value as int / 0x1_0000_0000;
    lemma_pieces_stand(bytes, at, u32_le(low), u32_le(high));
    law_u32_le_reads_back(bytes, at, low);
    law_u32_le_reads_back(bytes, at + 4, high);
    assert(0 <= le_u32(bytes, at) < 0x1_0000_0000);
}

/// Reading a list of 32-bit numbers gives the list that was written, and only that.
pub proof fn law_i32s_read_back(bytes: Seq<u8>, at: int, values: Seq<i32>)
    requires
        0 <= at,
        at + 4 * values.len() <= bytes.len(),
    ensures
        stands_at(bytes, at, i32s_le(values)) <==> le_i32s(bytes, at, values.len() as int)
            == values,
{
    let w = i32s_le(values);
    let n = values.len() as int;
    if stands_at(bytes, at, w) {
        assert forall|i: int| 0 <= i < n implies #[trigger] le_i32s(bytes, at, n)[i]
            == values[i] by {
            let one = i32_le(values[i]);
            assert forall|k: int| 0 <= k < one.len() implies #[trigger] one[k] == bytes[at + 4 * i
                + k] by {
                assert(w[4 * i + k] == bytes[at + (4 * i + k)]);
                assert((4 * i + k) / 4 == i && (4 * i + k) % 4 == k);
            }
            law_i32_le_reads_back(bytes, at + 4 * i, values[i]);
        }
        assert(le_i32s(bytes, at, n) =~= values);
    }
    if le_i32s(bytes, at, n) == values {
        assert forall|k: int| 0 <= k < w.len() implies #[trigger] w[k] == bytes[at + k] by {
            let i = k / 4;
            assert(le_i32s(bytes, at, n)[i] == values[i]);
            law_i32_le_reads_back(bytes, at + 4 * i, le_i32(bytes, at + 4 * i) as i32);
            assert(i32_le(values[i])[k % 4] == bytes[at + 4 * i + k % 4]);
        }
    }
}

/// Reading a list of 64-bit numbers gives the list that was written, and only that.
pub proof fn law_u64s_read_back(bytes: Seq<u8>, at: int, values: Seq<u64>)
    requires
        0 <= at,
        at + 8 * values.len() <= bytes.len(),
    ensures
        stands_at(bytes, at, u64s_le(values)) <==> le_u64s(bytes, at, values.len() as int)
            == values,
{
    let w = u64s_le(values);
    let n = values.len() as int;
    if stands_at(bytes, at, w) {
        assert forall|i: int| 0 <= i < n implies #[trigger] le_u64s(bytes, at, n)[i]
            == values[i] by {
            let one = u64_le(values[i]);
            assert forall|k: int| 0 <= k < one.len() implies #[trigger] one[k] == bytes[at + 8 * i
                + k] by {
                assert(w[8 * i + k] == bytes[at + (8 * i + k)]);
                assert((8 * i + k) / 8 == i && (8 * i + k) % 8 == k);
            }
            law_u64_le_reads_back(bytes, at + 8 * i, values[i]);
        }
        assert(le_u64s(bytes, at, n) =~= values);
    }
    if le_u64s(bytes, at, n) == values {
        assert forall|k: int| 0 <= k < w.len() implies #[trigger] w[k] == bytes[at + k] by {
            let i = k / 8;
            assert(le_u64s(bytes, at, n)[i] == values[i]);
            law_u64_le_reads_back(bytes, at + 8 * i, le_u64(bytes, at + 8 * i) as u64);
            assert(u64_le(values[i])[k % 8] == bytes[at + 8 * i + k % 8]);
        }
    }
}

/// Reading a list of pairs gives the list that was written, and only that.
pub proof fn law_pairs_read_back(bytes: Seq<u8>, at: int, values: Seq<(u64, u64)>)
    requires
        0 <= at,
        at + 16 * values.len() <= bytes.len(),
    ensures
        stands_at(bytes, at, pairs_le(values)) <==> le_u64_pairs(bytes, at, values.len() as int)
            == values,
{
    let n = values.len() as int;
    let numbers = flat(values);
    law_u64s_read_back(bytes, at, numbers);
    let read = le_u64s(bytes, at, 2 * n);
    let pairs = le_u64_pairs(bytes, at, n);
    assert forall|i: int| 0 <= i < n implies (#[trigger] pairs[i]).0 == read[2 * i] && pairs[i].1
        == read[2 * i + 1] by {
        assert(at + 8 * (2 * i) == at + 16 * i);
        assert(at + 8 * (2 * i + 1) == at + 16 * i + 8);
    }
    if read == numbers {
        assert forall|i: int| 0 <= i < n implies #[trigger] pairs[i] == values[i] by {
            assert(numbers[2 * i] == values[i].0);
            assert(numbers[2 * i + 1] == values[i].1);
        }
        assert(pairs =~= values);
    }
    if pairs == values {
        assert forall|k: int| 0 <= k < 2 * n implies #[trigger] read[k] == numbers[k] by {
            let i = k / 2;
            assert(pairs[i] == values[i]);
            assert(k == 2 * i || k == 2 * i + 1);
        }
        assert(read =~= numbers);
    }
}

/// What is written in two pieces stands where both stand, one behind the other.
pub proof fn lemma_pieces_stand(bytes: Seq<u8>, at: int, first: Seq<u8>, second: Seq<u8>)
    requires
        0 <= at,
    ensures
        stands_at(bytes, at, first + second) <==> stands_at(bytes, at, first) && stands_at(
            bytes,
            at + first.len(),
            second,
        ),
{
    let both = first + second;
    if stands_at(bytes, at, both) {
        assert forall|k: int| 0 <= k < first.len() implies #[trigger] first[k] == bytes[at + k] by {
            assert(both[k] == bytes[at + k]);
        }
        assert forall|k: int| 0 <= k < second.len() implies #[trigger] second[k] == bytes[at
            + first.len() + k] by {
            assert(both[first.len() + k] == bytes[at + (first.len() + k)]);
        }
    }
    if stands_at(bytes, at, first) && stands_at(bytes, at + first.len(), second) {
        assert forall|k: int| 0 <= k < both.len() implies #[trigger] both[k] == bytes[at + k] by {
            if k < first.len() {
                assert(first[k] == bytes[at + k]);
            } else {
                assert(second[k - first.len()] == bytes[at + first.len() + (k - first.len())]);
            }
        }
    }
}

} // verus!
