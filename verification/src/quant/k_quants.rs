//! The scales of the Q4_K super-block format.
//!
//! A Q4_K super-block has 8 sub-blocks, each with a 6-bit scale and a 6-bit min:
//! 96 bits in 12 bytes, with no slack.
//!
//! ```text
//!   byte 0..3   bits 0-5 : scale[0..3]        bits 6-7 : scale[4..7] bits 4-5
//!   byte 4..7   bits 0-5 : min[0..3]          bits 6-7 : min[4..7]   bits 4-5
//!   byte 8..11  bits 0-3 : scale[4..7] bits 0-3
//!               bits 4-7 : min[4..7]   bits 0-3
//! ```
use vstd::prelude::*;

verus! {

/// The scale of sub-block `j`.
pub open spec fn scale_k4(j: int, scales: Seq<u8>) -> u8 {
    if j < 4 {
        scales[j] % 64
    } else {
        (scales[j + 4] % 16 + 16 * (scales[j - 4] / 64)) as u8
    }
}

/// The min of sub-block `j`.
pub open spec fn min_k4(j: int, scales: Seq<u8>) -> u8 {
    if j < 4 {
        scales[j + 4] % 64
    } else {
        (scales[j + 4] / 16 + 16 * (scales[j] / 64)) as u8
    }
}

/// Unpack the `j`-th 6-bit scale and min from a Q4_K `scales[12]` array.
pub fn scale_min_k4(j: usize, scales: &[u8; 12]) -> (r: (u8, u8))
    requires
        j < 8,
    ensures
        r.0 == scale_k4(j as int, scales@),
        r.1 == min_k4(j as int, scales@),
        r.0 < 64,
        r.1 < 64,
{
    if j < 4 {
        (scales[j] % 64, scales[j + 4] % 64)
    } else {
        let d: u8 = scales[j + 4] % 16 + 16 * (scales[j - 4] / 64);
        let m: u8 = scales[j + 4] / 16 + 16 * (scales[j] / 64);
        (d, m)
    }
}

/// The twelve bytes of eight scales and mins, each cut to 6 bits.
pub open spec fn packed_k4(scales: Seq<u8>, mins: Seq<u8>) -> Seq<u8> {
    Seq::new(
        12,
        |j: int|
            if j < 4 {
                (scales[j] % 64 + 64 * (scales[j + 4] % 64 / 16)) as u8
            } else if j < 8 {
                (mins[j - 4] % 64 + 64 * (mins[j] % 64 / 16)) as u8
            } else {
                (scales[j - 4] % 16 + 16 * (mins[j - 4] % 16)) as u8
            },
    )
}

proof fn lemma_join_six(a: u8, b: u8)
    ensures
        0 <= a % 64 + 64 * (b % 64 / 16) < 256,
        (a % 64 + 64 * (b % 64 / 16)) % 64 == a % 64,
        (a % 64 + 64 * (b % 64 / 16)) / 64 == b % 64 / 16,
        a % 16 + 16 * (a % 64 / 16) == a % 64,
{
}

proof fn lemma_join_nibbles(a: u8, b: u8)
    ensures
        0 <= a % 16 + 16 * (b % 16) < 256,
        (a % 16 + 16 * (b % 16)) % 16 == a % 16,
        (a % 16 + 16 * (b % 16)) / 16 == b % 16,
{
}

proof fn lemma_split_six(a: u8, b: u8)
    ensures
        0 <= a % 16 + 16 * (b / 64) < 64,
        (a % 16 + 16 * (b / 64)) % 16 == a % 16,
        (a % 16 + 16 * (b / 64)) / 16 == b / 64,
        0 <= a / 16 + 16 * (b / 64) < 64,
        (a / 16 + 16 * (b / 64)) % 16 == a / 16,
        (a / 16 + 16 * (b / 64)) / 16 == b / 64,
        b % 64 + 64 * (b / 64) == b,
        a % 16 + 16 * (a / 16) == a,
{
}

/// Inverse of [`scale_min_k4`]: pack 8 six-bit scales and 8 six-bit mins into 12
/// bytes.  Values above 63 are cut to 6 bits.
pub fn pack_scales_min_k4(scales: &[u8; 8], mins: &[u8; 8]) -> (out: [u8; 12])
    ensures
        out@ == packed_k4(scales@, mins@),
{
    let mut out: [u8; 12] = [0;12];
    let mut j: usize = 0;
    while j < 4
        invariant
            j <= 4,
            forall|k: int|
                0 <= k < j ==> {
                    &&& #[trigger] out@[k] == packed_k4(scales@, mins@)[k]
                    &&& out@[k + 4] == packed_k4(scales@, mins@)[k + 4]
                    &&& out@[k + 8] == packed_k4(scales@, mins@)[k + 8]
                },
        decreases 4 - j,
    {
        let ghost before = out@;
        proof {
            lemma_join_six(scales@[j as int], scales@[j + 4]);
            lemma_join_six(mins@[j as int], mins@[j + 4]);
            lemma_join_nibbles(scales@[j + 4], mins@[j + 4]);
        }
        out[j] = scales[j] % 64 + 64 * (scales[j + 4] % 64 / 16);
        out[j + 4] = mins[j] % 64 + 64 * (mins[j + 4] % 64 / 16);
        out[j + 8] = scales[j + 4] % 16 + 16 * (mins[j + 4] % 16);
        assert forall|k: int| 0 <= k < j + 1 implies {
            &&& #[trigger] out@[k] == packed_k4(scales@, mins@)[k]
            &&& out@[k + 4] == packed_k4(scales@, mins@)[k + 4]
            &&& out@[k + 8] == packed_k4(scales@, mins@)[k + 8]
        } by {
            if k < j {
                assert(before[k] == packed_k4(scales@, mins@)[k]);
            }
        }
        j += 1;
    }
    assert forall|k: int| 0 <= k < 12 implies #[trigger] out@[k] == packed_k4(scales@, mins@)[k] by {
        if k < 4 {
        } else if k < 8 {
            assert(out@[k - 4] == packed_k4(scales@, mins@)[k - 4]);
        } else {
            assert(out@[k - 8] == packed_k4(scales@, mins@)[k - 8]);
        }
    }
    out
}

/// Unpacking undoes packing: every scale and min comes back, cut to 6 bits.
pub proof fn law_unpacking_undoes_packing(scales: Seq<u8>, mins: Seq<u8>, j: int)
    requires
        scales.len() == 8,
        mins.len() == 8,
        0 <= j < 8,
    ensures
        scale_k4(j, packed_k4(scales, mins)) == scales[j] % 64,
        min_k4(j, packed_k4(scales, mins)) == mins[j] % 64,
{
    let p = packed_k4(scales, mins);
    if j < 4 {
        lemma_join_six(scales[j], scales[j + 4]);
        lemma_join_six(mins[j], mins[j + 4]);
        assert(p[j] == scales[j] % 64 + 64 * (scales[j + 4] % 64 / 16));
        assert(p[j + 4] == mins[j] % 64 + 64 * (mins[j + 4] % 64 / 16));
    } else {
        lemma_join_six(scales[j - 4], scales[j]);
        lemma_join_six(mins[j - 4], mins[j]);
        lemma_join_six(scales[j], scales[j]);
        lemma_join_six(mins[j], mins[j]);
        lemma_join_nibbles(scales[j], mins[j]);
        assert(p[j + 4] == scales[j] % 16 + 16 * (mins[j] % 16));
        assert(p[j - 4] == scales[j - 4] % 64 + 64 * (scales[j] % 64 / 16));
        assert(p[j] == mins[j - 4] % 64 + 64 * (mins[j] % 64 / 16));
    }
}

/// Packing undoes unpacking: no bit of the twelve bytes is lost.
pub proof fn law_packing_undoes_unpacking(bytes: Seq<u8>)
    requires
        bytes.len() == 12,
    ensures
        packed_k4(
            Seq::new(8, |j: int| scale_k4(j, bytes)),
            Seq::new(8, |j: int| min_k4(j, bytes)),
        ) == bytes,
{
    let s = Seq::new(8, |j: int| scale_k4(j, bytes));
    let m = Seq::new(8, |j: int| min_k4(j, bytes));
    let p = packed_k4(s, m);
    assert forall|k: int| 0 <= k < 4 implies #[trigger] p[k] == bytes[k] && p[k + 4] == bytes[k + 4]
        && p[k + 8] == bytes[k + 8] by {
        lemma_group_repacks(bytes, k);
    }
    assert forall|k: int| 0 <= k < 12 implies #[trigger] p[k] == bytes[k] by {
        if k >= 8 {
            assert(p[k - 8] == bytes[k - 8]);
        } else if k >= 4 {
            assert(p[k - 4] == bytes[k - 4]);
        }
    }
    assert(p =~= bytes);
}

proof fn lemma_group_repacks(bytes: Seq<u8>, k: int)
    requires
        bytes.len() == 12,
        0 <= k < 4,
    ensures
        ({
            let s = Seq::new(8, |j: int| scale_k4(j, bytes));
            let m = Seq::new(8, |j: int| min_k4(j, bytes));
            let p = packed_k4(s, m);
            p[k] == bytes[k] && p[k + 4] == bytes[k + 4] && p[k + 8] == bytes[k + 8]
        }),
{
    let s = Seq::new(8, |j: int| scale_k4(j, bytes));
    let m = Seq::new(8, |j: int| min_k4(j, bytes));
    let p = packed_k4(s, m);
    let x = bytes[k];
    let y = bytes[k + 4];
    let z = bytes[k + 8];
    lemma_split_six(z, x);
    lemma_split_six(z, y);
    assert(s[k] == x % 64);
    assert(s[k + 4] == z % 16 + 16 * (x / 64));
    assert(m[k] == y % 64);
    assert(m[k + 4] == z / 16 + 16 * (y / 64));
    lemma_join_six(s[k], s[k + 4]);
    lemma_join_six(m[k], m[k + 4]);
    lemma_join_nibbles(s[k + 4], m[k + 4]);
    assert(p[k] == s[k] % 64 + 64 * (s[k + 4] % 64 / 16));
    assert(p[k + 4] == m[k] % 64 + 64 * (m[k + 4] % 64 / 16));
    assert(p[k + 8] == s[k + 4] % 16 + 16 * (m[k + 4] % 16));
}

} // verus!
