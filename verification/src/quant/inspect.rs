//! Taking a block apart into the pieces it is made of.
use super::blocks;
use super::blocks::Scale;
use super::dequant::{QuantError, Weight};
use crate::gguf::ggml_type::GgmlType;
use vstd::prelude::*;

verus! {

/// One block, taken apart:
/// `value[i] == scales[i / group] * quants[i] - mins[i / group]`, exactly.
#[derive(Debug, PartialEq)]
pub struct BlockDecomp {
    /// The stored integer for each element, after any bias is folded in.
    pub quants: Vec<i32>,
    /// Multiplier per scale group.
    pub scales: Vec<Scale>,
    /// Offset per scale group, subtracted.  Zero for every format but Q4_K.
    pub mins: Vec<Scale>,
    /// Elements covered by one scale.
    pub group: usize,
    /// Smallest and largest integer the format can store.
    pub quant_range: (i32, i32),
}

impl Clone for BlockDecomp {
    fn clone(&self) -> (r: Self)
        ensures
            r.quants@ == self.quants@,
            r.scales@ == self.scales@,
            r.mins@ == self.mins@,
            r.group == self.group,
            r.quant_range == self.quant_range,
    {
        let r = BlockDecomp {
            quants: self.quants.clone(),
            scales: self.scales.clone(),
            mins: self.mins.clone(),
            group: self.group,
            quant_range: (self.quant_range.0, self.quant_range.1),
        };
        assert(r.quants@ =~= self.quants@);
        assert(r.scales@ =~= self.scales@);
        assert(r.mins@ =~= self.mins@);
        r
    }
}

impl BlockDecomp {
    /// The groups cover the elements, and each has a scale and a min.
    pub open spec fn wf(&self) -> bool {
        &&& self.group > 0
        &&& self.scales@.len() == self.mins@.len()
        &&& self.quants@.len() <= self.scales@.len() * self.group
    }

    /// The weights of the block.
    pub open spec fn weights(&self) -> Seq<Weight> {
        Seq::new(
            self.quants@.len(),
            |i: int|
                Weight::Scaled {
                    scale: self.scales@[i / self.group as int],
                    quant: self.quants@[i],
                    min: self.mins@[i / self.group as int],
                },
        )
    }

    /// Put the block together again.
    pub fn reconstruct(&self) -> (r: Vec<Weight>)
        requires
            self.wf(),
        ensures
            r@ == self.weights(),
    {
        let mut v: Vec<Weight> = Vec::with_capacity(self.quants.len());
        let mut i: usize = 0;
        while i < self.quants.len()
            invariant
                self.wf(),
                i <= self.quants@.len(),
                v@.len() == i,
                forall|k: int| 0 <= k < i ==> v@[k] == self.weights()[k],
            decreases self.quants.len() - i,
        {
            let g: usize = i / self.group;
            assert(g < self.scales@.len()) by {
                vstd::arithmetic::div_mod::lemma_fundamental_div_mod(i as int, self.group as int);
                assert(g < self.scales@.len()) by (nonlinear_arith)
                    requires
                        i == self.group * g + i % self.group,
                        0 <= i % self.group,
                        i < self.scales@.len() * self.group,
                        self.group > 0,
                ;
            }
            v.push(
                Weight::Scaled {
                    scale: self.scales[g],
                    quant: self.quants[i],
                    min: self.mins[g],
                },
            );
            i += 1;
        }
        assert(v@ =~= self.weights());
        v
    }

    /// Gap between adjacent representable values in a group: the magnitude of its
    /// scale.
    pub fn step(&self, group: usize) -> (r: Scale)
        requires
            group < self.scales@.len(),
            self.scales@[group as int].factor > i32::MIN,
        ensures
            r.d == self.scales@[group as int].d % 0x8000,
            r.factor == if self.scales@[group as int].factor < 0 {
                -self.scales@[group as int].factor
            } else {
                self.scales@[group as int].factor as int
            },
    {
        let s = self.scales[group];
        Scale {
            d: s.d % 0x8000,
            factor: if s.factor < 0 {
                -s.factor
            } else {
                s.factor
            },
        }
    }
}

/// `b` holds the pieces of a block of the given format.
pub open spec fn taken_apart(b: BlockDecomp, ty: GgmlType, src: Seq<u8>) -> bool {
    &&& b.quants@ == Seq::new(
        ty.block_elems() as nat,
        |i: int| blocks::quant(ty, src, i) as i32,
    )
    &&& b.scales@ == Seq::new(blocks::groups(ty) as nat, |g: int| blocks::scale(ty, src, g))
    &&& b.mins@ == Seq::new(blocks::groups(ty) as nat, |g: int| blocks::min(ty, src, g))
    &&& b.group == blocks::group_len(ty)
    &&& b.quant_range.0 == blocks::quant_range(ty).0
    &&& b.quant_range.1 == blocks::quant_range(ty).1
}

/// Decompose one block of `ty` into quants, scales and offsets.
pub fn decompose_block(ty: GgmlType, src: &[u8]) -> (r: Result<BlockDecomp, QuantError>)
    ensures
        match r {
            Ok(b) => src@.len() == ty.block_bytes() && blocks::is_block_format(ty) && taken_apart(
                b,
                ty,
                src@,
            ) && b.wf(),
            Err(e) => if src@.len() != ty.block_bytes() {
                e == (QuantError::BadSourceLength {
                    ty,
                    got: src@.len() as usize,
                    want: ty.block_bytes(),
                })
            } else {
                !blocks::is_block_format(ty) && e == QuantError::UnsupportedType(ty)
            },
        },
{
    if src.len() != ty.block_bytes() {
        return Err(
            QuantError::BadSourceLength { ty, got: src.len(), want: ty.block_bytes() },
        );
    }
    let quant_range: (i32, i32) = match ty {
        GgmlType::Q8_0 => (-128, 127),
        GgmlType::Q4_0 => (-8, 7),
        GgmlType::Q5_0 => (-16, 15),
        GgmlType::Q4_K => (0, 15),
        GgmlType::Q6_K => (-32, 31),
        other => return Err(QuantError::UnsupportedType(other)),
    };
    let group: usize = blocks::group_len_of(ty);
    let n: usize = ty.block_elems();
    let mut quants: Vec<i32> = Vec::with_capacity(n);
    let mut i: usize = 0;
    while i < n
        invariant
            blocks::is_block_format(ty),
            src@.len() == ty.block_bytes(),
            i <= n == ty.block_elems(),
            quants@.len() == i,
            forall|k: int| 0 <= k < i ==> quants@[k] == blocks::quant(ty, src@, k),
        decreases n - i,
    {
        quants.push(blocks::quant_at(ty, src, i) as i32);
        i += 1;
    }
    let mut scales: Vec<Scale> = Vec::new();
    let mut mins: Vec<Scale> = Vec::new();
    let n_groups: usize = n / group;
    let mut g: usize = 0;
    while g < n_groups
        invariant
            blocks::is_block_format(ty),
            src@.len() == ty.block_bytes(),
            g <= n_groups == blocks::groups(ty),
            scales@.len() == g,
            mins@.len() == g,
            forall|k: int| 0 <= k < g ==> scales@[k] == blocks::scale(ty, src@, k),
            forall|k: int| 0 <= k < g ==> mins@[k] == blocks::min(ty, src@, k),
        decreases n_groups - g,
    {
        scales.push(blocks::scale_at(ty, src, g));
        mins.push(blocks::min_at(ty, src, g));
        g += 1;
    }
    assert(quants@ =~= Seq::new(
        ty.block_elems() as nat,
        |i: int| blocks::quant(ty, src@, i) as i32,
    ));
    assert(scales@ =~= Seq::new(blocks::groups(ty) as nat, |g: int| blocks::scale(ty, src@, g)));
    assert(mins@ =~= Seq::new(blocks::groups(ty) as nat, |g: int| blocks::min(ty, src@, g)));
    proof {
        let be = ty.block_elems() as int;
        assert(be % (group as int) == 0);
        vstd::arithmetic::div_mod::lemma_fundamental_div_mod(be, group as int);
        assert(quants@.len() == scales@.len() * group) by (nonlinear_arith)
            requires
                quants@.len() == group * (scales@.len() as int),
        ;
    }
    Ok(BlockDecomp { quants, scales, mins, group, quant_range })
}

} // verus!
