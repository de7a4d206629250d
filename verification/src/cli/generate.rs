//! What `generate`, `bench-kv` and `dequant` decide.
use crate::gguf::file::TensorInfo;
use vstd::arithmetic::power2::*;
use vstd::prelude::*;

verus! {

/// How many positions to make room for: a power of two, at least 64, that holds the
/// prompt, what is to be generated, and eight more.
pub fn room_for(n_tokens: usize, n_gen: usize) -> (r: usize)
    requires
        n_tokens + n_gen + 8 <= usize::MAX / 2 + 1,
    ensures
        exists|k: nat| r == pow2(k),
        r >= 64,
        r >= n_tokens + n_gen + 8,
        r == 64 || r < 2 * (n_tokens + n_gen + 8),
{
    let needed: usize = n_tokens + n_gen + 8;
    let mut r: usize = 64;
    proof {
        lemma2_to64();
    }
    let ghost mut k: nat = 6;
    while r < needed
        invariant
            r == pow2(k),
            r >= 64,
            needed <= usize::MAX / 2 + 1,
            r == 64 || r < 2 * needed,
        decreases 2 * needed - r,
    {
        proof {
            lemma_pow2_unfold(k + 1);
            k = k + 1;
        }
        r = 2 * r;
    }
    r
}

/// What to do with a token that was sampled.
#[derive(Debug, Clone, Copy, PartialEq, Eq, Structural)]
pub enum Offer {
    /// It ends the text and is not part of it.
    End,
    /// It is the last of the text.
    Last,
    /// It is part of the text; it is fed to the model for the next one.
    Feed,
}

/// A text that is being generated.
#[derive(Debug)]
pub struct Generation {
    ids: Vec<u32>,
    n_gen: usize,
    max_seq: usize,
    eos: Option<u32>,
}

impl Generation {
    /// The tokens so far.
    pub closed spec fn view(&self) -> Seq<u32> {
        self.ids@
    }

    /// The most tokens that it will have.
    pub closed spec fn limit(&self) -> nat {
        self.n_gen as nat
    }

    /// How many positions the model has room for.
    pub closed spec fn room(&self) -> nat {
        self.max_seq as nat
    }

    /// The token that ends it.
    pub closed spec fn end(&self) -> Option<u32> {
        self.eos
    }

    #[verifier::type_invariant]
    closed spec fn inv(&self) -> bool {
        &&& self.ids@.len() <= self.n_gen
        &&& forall|i: int| 0 <= i < self.ids@.len() ==> Some(#[trigger] self.ids@[i]) != self.eos
    }

    pub fn new(n_gen: usize, max_seq: usize, eos: Option<u32>) -> (r: Self)
        ensures
            r@ == Seq::<u32>::empty(),
            r.limit() == n_gen,
            r.room() == max_seq,
            r.end() == eos,
    {
        Generation { ids: Vec::new(), n_gen, max_seq, eos }
    }

    /// Take a sampled token, where the model has seen `seen` positions.
    pub fn offer(&mut self, next: u32, seen: usize) -> (r: Offer)
        ensures
            final(self).limit() == old(self).limit(),
            final(self).room() == old(self).room(),
            final(self).end() == old(self).end(),
            (r is End) == (old(self)@.len() >= old(self).limit() || old(self).end() == Some(next)),
            r is End ==> final(self)@ == old(self)@,
            r !is End ==> final(self)@ == old(self)@.push(next),
            r !is End ==> (r is Last) == (seen >= old(self).room()),
    {
        proof {
            use_type_invariant(&*self);
        }
        if self.ids.len() >= self.n_gen {
            return Offer::End;
        }
        if let Some(e) = self.eos {
            if e == next {
                return Offer::End;
            }
        }
        let mut ids: Vec<u32> = Vec::new();
        std::mem::swap(&mut ids, &mut self.ids);
        ids.push(next);
        self.ids = ids;
        if seen >= self.max_seq {
            Offer::Last
        } else {
            Offer::Feed
        }
    }

    /// The tokens: no more than asked for, and none that ends a text.
    pub fn ids(&self) -> (r: &[u32])
        ensures
            r@ == self@,
            r@.len() <= self.limit(),
            forall|i: int| 0 <= i < r@.len() ==> Some(#[trigger] r@[i]) != self.end(),
    {
        proof {
            use_type_invariant(self);
        }
        self.ids.as_slice()
    }
}

/// How often a pass over `seq` positions is repeated to be timed.
pub fn repetitions(seq: usize) -> (r: usize)
    requires
        seq > 0,
    ensures
        r == if 2_000_000int / seq as int >= 4 {
            2_000_000int / seq as int
        } else {
            4
        },
{
    let n: usize = 2_000_000 / seq;
    if n > 4 {
        n
    } else {
        4
    }
}

/// A front part of a tensor, in whole blocks.
#[derive(Debug, Clone, Copy, PartialEq, Eq)]
pub struct FrontPart {
    pub blocks: usize,
    pub elements: usize,
    pub bytes: usize,
    /// How many blocks the whole tensor has.
    pub total_blocks: u64,
}

/// The first `wanted` blocks of a tensor, or all where it has fewer.
pub fn front_part(t: &TensorInfo, wanted: usize) -> (r: FrontPart)
    requires
        t@.sound(),
        t@.byte_size <= usize::MAX,
        t@.elements() <= usize::MAX,
    ensures
        r.total_blocks == t@.elements() / t.ggml_type.spec_block_elems() as nat,
        r.blocks == if wanted <= r.total_blocks {
            wanted as int
        } else {
            r.total_blocks as int
        },
        r.elements == r.blocks * t.ggml_type.spec_block_elems(),
        r.bytes == r.blocks * t.ggml_type.spec_block_bytes(),
        r.elements <= t@.elements(),
        r.bytes <= t@.byte_size,
{
    let be: usize = t.ggml_type.block_elems();
    let bb: usize = t.ggml_type.block_bytes();
    let n: u64 = t.n_elements();
    let total: u64 = n / be as u64;
    proof {
        assert(be > 0);
        assert(total <= n) by (nonlinear_arith)
            requires
                total == n / be as u64,
                be > 0,
        ;
    }
    let blocks: usize = if (wanted as u64) < total {
        wanted
    } else {
        total as usize
    };
    proof {
        assert(blocks * be <= n) by (nonlinear_arith)
            requires
                blocks <= total,
                total == n / be as u64,
                be > 0,
        ;
        assert(blocks * bb <= total * bb) by (nonlinear_arith)
            requires
                blocks <= total,
        ;
    }
    FrontPart { blocks, elements: blocks * be, bytes: blocks * bb, total_blocks: total }
}

} // verus!
