//! The cache of keys and values.
use crate::gguf::ModelConfig;
use vstd::prelude::*;

verus! {

/// How the cache orders its axes.
///
/// Both hold the same numbers; they differ only in which access pattern is
/// contiguous.
#[derive(Debug, Clone, Copy, PartialEq, Eq, Structural)]
pub enum KvLayout {
    /// `[layer][position][kv_head][head_dim]`: a whole projected vector is one
    /// contiguous write.
    PositionMajor,
    /// `[layer][kv_head][position][head_dim]`: one head's history is contiguous,
    /// which is what the score loop wants.
    HeadMajor,
}

/// The axes of a cache.
#[derive(Debug, Clone, Copy, PartialEq, Eq, Structural)]
pub struct KvShape {
    pub n_layers: usize,
    pub n_kv_heads: usize,
    pub head_dim: usize,
    pub max_seq: usize,
    pub layout: KvLayout,
}

impl KvShape {
    /// One head of one layer at one position.
    pub open spec fn holds(self, layer: int, pos: int, kv_head: int) -> bool {
        &&& 0 <= layer < self.n_layers
        &&& 0 <= pos < self.max_seq
        &&& 0 <= kv_head < self.n_kv_heads
    }

    /// The place of a cell among the cells.
    pub open spec fn slot(self, layer: int, pos: int, kv_head: int) -> int {
        match self.layout {
            KvLayout::PositionMajor => (layer * self.max_seq + pos) * self.n_kv_heads + kv_head,
            KvLayout::HeadMajor => (layer * self.n_kv_heads + kv_head) * self.max_seq + pos,
        }
    }

    /// Where a cell's first number stands.
    pub open spec fn start(self, layer: int, pos: int, kv_head: int) -> int {
        self.slot(layer, pos, kv_head) * self.head_dim
    }

    /// Where one head's history starts, and how far apart consecutive positions are.
    pub open spec fn span(self, layer: int, kv_head: int) -> (int, int) {
        match self.layout {
            KvLayout::PositionMajor => (
                layer * self.max_seq * (self.n_kv_heads * self.head_dim) + kv_head
                    * self.head_dim,
                self.n_kv_heads * self.head_dim,
            ),
            KvLayout::HeadMajor => (
                (layer * self.n_kv_heads + kv_head) * self.max_seq * self.head_dim,
                self.head_dim as int,
            ),
        }
    }

    /// A row of a layer can be written from a slice of `n` numbers: position-major, the
    /// slice is the row; head-major, the heads are taken from its front.
    pub open spec fn takes(self, n: int) -> bool {
        match self.layout {
            KvLayout::PositionMajor => n == self.n_kv_heads * self.head_dim,
            KvLayout::HeadMajor => n >= self.n_kv_heads * self.head_dim,
        }
    }

    /// The histories can be counted, also where they hold no numbers.
    pub open spec fn countable(self) -> bool {
        self.max_seq > 0 && self.head_dim > 0 || self.n_layers * self.n_kv_heads <= usize::MAX
            && self.n_layers * self.n_kv_heads * self.max_seq <= usize::MAX
    }

    /// How many numbers one of the two halves holds.
    pub open spec fn numbers(self) -> int {
        self.n_layers * self.max_seq * (self.n_kv_heads * self.head_dim)
    }
}

/// `a * n + b` names a pair with `b < n`.
proof fn lemma_pair(a: int, b: int, c: int, d: int, n: int)
    requires
        0 <= b < n,
        0 <= d < n,
        a * n + b == c * n + d,
    ensures
        a == c && b == d,
{
    assert(a == c) by (nonlinear_arith)
        requires
            0 <= b < n,
            0 <= d < n,
            a * n + b == c * n + d,
    ;
}

proof fn lemma_pair_bound(a: int, b: int, m: int, n: int)
    requires
        0 <= a < m,
        0 <= b < n,
    ensures
        0 <= a * n + b < m * n,
{
    assert(0 <= a * n + b < m * n) by (nonlinear_arith)
        requires
            0 <= a < m,
            0 <= b < n,
    ;
}

/// Every cell lies inside the cache.
pub proof fn law_cells_lie_inside(s: KvShape, layer: int, pos: int, kv_head: int)
    requires
        s.holds(layer, pos, kv_head),
    ensures
        0 <= s.start(layer, pos, kv_head),
        s.start(layer, pos, kv_head) + s.head_dim <= s.numbers(),
{
    let l = s.n_layers as int;
    let p = s.max_seq as int;
    let h = s.n_kv_heads as int;
    let d = s.head_dim as int;
    let k = s.slot(layer, pos, kv_head);
    match s.layout {
        KvLayout::PositionMajor => {
            lemma_pair_bound(layer, pos, l, p);
            lemma_pair_bound(layer * p + pos, kv_head, l * p, h);
            assert(0 <= k < l * p * h);
        },
        KvLayout::HeadMajor => {
            lemma_pair_bound(layer, kv_head, l, h);
            lemma_pair_bound(layer * h + kv_head, pos, l * h, p);
            assert(l * h * p == l * p * h) by (nonlinear_arith);
        },
    }
    assert(0 <= k * d && k * d + d <= l * p * (h * d)) by (nonlinear_arith)
        requires
            0 <= k < l * p * h,
            d >= 0,
    ;
}

/// No two cells share a place.
pub proof fn law_cells_are_distinct(
    s: KvShape,
    layer: int,
    pos: int,
    kv_head: int,
    layer2: int,
    pos2: int,
    kv_head2: int,
)
    requires
        s.holds(layer, pos, kv_head),
        s.holds(layer2, pos2, kv_head2),
        (layer, pos, kv_head) != (layer2, pos2, kv_head2),
    ensures
        s.slot(layer, pos, kv_head) != s.slot(layer2, pos2, kv_head2),
        s.start(layer, pos, kv_head) + s.head_dim <= s.start(layer2, pos2, kv_head2) || s.start(
            layer2,
            pos2,
            kv_head2,
        ) + s.head_dim <= s.start(layer, pos, kv_head),
{
    let p = s.max_seq as int;
    let h = s.n_kv_heads as int;
    let d = s.head_dim as int;
    let a = s.slot(layer, pos, kv_head);
    let b = s.slot(layer2, pos2, kv_head2);
    if a == b {
        match s.layout {
            KvLayout::PositionMajor => {
                lemma_pair(layer * p + pos, kv_head, layer2 * p + pos2, kv_head2, h);
                lemma_pair(layer, pos, layer2, pos2, p);
            },
            KvLayout::HeadMajor => {
                lemma_pair(layer * h + kv_head, pos, layer2 * h + kv_head2, pos2, p);
                lemma_pair(layer, kv_head, layer2, kv_head2, h);
            },
        }
    }
    assert(a * d + d <= b * d || b * d + d <= a * d) by (nonlinear_arith)
        requires
            a != b,
            d >= 0,
    ;
}

/// One head's history starts at a cell and goes on in equal steps.
proof fn lemma_history(s: KvShape, layer: int, kv_head: int, pos: int)
    ensures
        s.span(layer, kv_head).0 + pos * s.span(layer, kv_head).1 == s.start(layer, pos, kv_head),
{
    let p = s.max_seq as int;
    let h = s.n_kv_heads as int;
    let d = s.head_dim as int;
    assert(((layer * p + pos) * h + kv_head) * d == layer * p * (h * d) + kv_head * d + pos * (h
        * d)) by (nonlinear_arith);
    assert(((layer * h + kv_head) * p + pos) * d == (layer * h + kv_head) * p * d + pos * d)
        by (nonlinear_arith);
}

/// The histories of a cache that can be counted.
proof fn lemma_countable(s: KvShape)
    requires
        s.countable(),
        s.numbers() <= usize::MAX,
    ensures
        s.n_layers * s.n_kv_heads <= usize::MAX,
        s.n_layers * s.n_kv_heads * s.max_seq <= usize::MAX,
        s.n_layers * s.n_kv_heads * s.max_seq * s.head_dim == s.numbers(),
{
    let l = s.n_layers as int;
    let p = s.max_seq as int;
    let h = s.n_kv_heads as int;
    let d = s.head_dim as int;
    assert(l * h * p * d == l * p * (h * d)) by (nonlinear_arith);
    if p > 0 && d > 0 {
        let a = l * h;
        assert(0 <= a) by (nonlinear_arith)
            requires
                a == l * h,
                l >= 0,
                h >= 0,
        ;
        assert(a <= a * p && a * p <= a * p * d) by (nonlinear_arith)
            requires
                0 <= a,
                p > 0,
                d > 0,
        ;
    }
}

/// Preallocated keys and values for every layer and position.
///
/// Allocated once at load and never resized.
#[derive(Debug)]
pub struct KvCache<T> {
    k: Vec<T>,
    v: Vec<T>,
    shape: KvShape,
    kv_dim: usize,
    /// Number of positions written so far.
    len: usize,
}

/// Overwrite `n` numbers from `at` on with those of `src` from `from` on.
pub fn overwrite<T: Copy>(dst: &mut Vec<T>, at: usize, src: &[T], from: usize, n: usize)
    requires
        at + n <= old(dst)@.len(),
        from + n <= src@.len(),
    ensures
        final(dst)@.len() == old(dst)@.len(),
        forall|i: int|
            0 <= i < old(dst)@.len() ==> #[trigger] final(dst)@[i] == if at <= i < at + n {
                src@[from + i - at]
            } else {
                old(dst)@[i]
            },
{
    let room: usize = dst.len();
    let given: usize = src.len();
    let mut j: usize = 0;
    while j < n
        invariant
            j <= n,
            at + n <= room,
            from + n <= given,
            room == dst@.len(),
            given == src@.len(),
            dst@.len() == old(dst)@.len(),
            forall|i: int|
                0 <= i < old(dst)@.len() ==> #[trigger] dst@[i] == if at <= i < at + j {
                    src@[from + i - at]
                } else {
                    old(dst)@[i]
                },
        decreases n - j,
    {
        let x = src[from + j];
        dst.set(at + j, x);
        j += 1;
    }
}

impl<T> KvCache<T> {
    pub closed spec fn shape(&self) -> KvShape {
        self.shape
    }

    /// Both halves have the size of the axes, and no position beyond the last was
    /// written.
    pub closed spec fn wf(&self) -> bool {
        &&& self.k@.len() == self.shape.numbers()
        &&& self.v@.len() == self.shape.numbers()
        &&& self.kv_dim == self.shape.n_kv_heads * self.shape.head_dim
        &&& self.shape.n_layers * self.shape.max_seq <= usize::MAX
        &&& self.len <= self.shape.max_seq
    }

    pub closed spec fn spec_len(&self) -> usize {
        self.len
    }

    /// A head's key at a position.
    pub closed spec fn key_at(&self, layer: int, pos: int, kv_head: int) -> Seq<T> {
        let start = self.shape.start(layer, pos, kv_head);
        self.k@.subrange(start, start + self.shape.head_dim)
    }

    /// A head's value at a position.
    pub closed spec fn value_at(&self, layer: int, pos: int, kv_head: int) -> Seq<T> {
        let start = self.shape.start(layer, pos, kv_head);
        self.v@.subrange(start, start + self.shape.head_dim)
    }

    /// All of the keys, as they are stored.
    pub closed spec fn keys(&self) -> Seq<T> {
        self.k@
    }

    /// All of the values, as they are stored.
    pub closed spec fn values(&self) -> Seq<T> {
        self.v@
    }

    /// Positions currently held.
    #[verifier::when_used_as_spec(spec_len)]
    pub fn len(&self) -> (r: usize)
        ensures
            r == self.len(),
            self.wf() ==> r <= self.shape().max_seq,
    {
        self.len
    }

    pub fn is_empty(&self) -> (r: bool)
        ensures
            r == (self.len() == 0),
    {
        self.len == 0
    }

    pub fn max_seq(&self) -> (r: usize)
        ensures
            r == self.shape().max_seq,
    {
        self.shape.max_seq
    }

    pub fn n_layers(&self) -> (r: usize)
        ensures
            r == self.shape().n_layers,
    {
        self.shape.n_layers
    }

    pub fn layout(&self) -> (r: KvLayout)
        ensures
            r == self.shape().layout,
    {
        self.shape.layout
    }

    /// Bytes held, at four to a number.
    pub fn byte_len(&self) -> (r: usize)
        requires
            self.wf(),
            2 * self.shape().numbers() * 4 <= usize::MAX,
        ensures
            r == 2 * self.shape().numbers() * 4,
    {
        (self.k.len() + self.v.len()) * 4
    }

    /// Forget everything, without touching the allocator.
    pub fn reset(&mut self)
        requires
            old(self).wf(),
        ensures
            final(self).wf(),
            final(self).shape() == old(self).shape(),
            final(self).len() == 0,
            final(self).keys() == old(self).keys(),
            final(self).values() == old(self).values(),
    {
        self.len = 0;
    }

    /// Note that the first `n` positions are written.
    pub fn advance(&mut self, n: usize)
        requires
            old(self).wf(),
            n <= old(self).shape().max_seq,
        ensures
            final(self).wf(),
            final(self).shape() == old(self).shape(),
            final(self).len() == if old(self).len() >= n {
                old(self).len()
            } else {
                n
            },
            final(self).keys() == old(self).keys(),
            final(self).values() == old(self).values(),
    {
        if self.len < n {
            self.len = n;
        }
    }

    /// Where one head's history starts, and how far apart consecutive positions are.
    fn head_span(&self, layer: usize, kv_head: usize) -> (r: (usize, usize))
        requires
            self.wf(),
            self.shape().countable(),
            layer < self.shape().n_layers,
            kv_head < self.shape().n_kv_heads,
        ensures
            (r.0 as int, r.1 as int) == self.shape().span(layer as int, kv_head as int),
    {
        let s = self.shape;
        proof {
            assert(self.k.len() == self.k@.len());
            let kd = self.kv_dim as int;
            let n = s.n_layers as int;
            let h = s.n_kv_heads as int;
            let p = s.max_seq as int;
            let d = s.head_dim as int;
            assert(0 <= kv_head * d && kv_head * d <= h * d) by (nonlinear_arith)
                requires
                    0 <= kv_head < h,
                    d >= 0,
            ;
            lemma_countable(s);
            lemma_pair_bound(layer as int, kv_head as int, n, h);
            let a = layer * p;
            let b = layer * h + kv_head;
            assert(0 <= layer * h) by (nonlinear_arith)
                requires
                    0 <= layer,
                    0 <= h,
            ;
            assert(0 <= a && a <= n * p && 0 <= a * kd && a * kd <= n * p * kd)
                by (nonlinear_arith)
                requires
                    a == layer * p,
                    0 <= layer <= n,
                    p >= 0,
                    kd >= 0,
            ;
            assert(0 <= b * p && b * p <= n * h * p && 0 <= b * p * d && b * p * d <= n * h * p
                * d) by (nonlinear_arith)
                requires
                    0 <= b < n * h,
                    p >= 0,
                    d >= 0,
            ;
            if p > 0 {
                law_cells_lie_inside(s, layer as int, 0, kv_head as int);
                lemma_history(s, layer as int, kv_head as int, 0);
            } else {
                assert(layer * p == 0) by (nonlinear_arith)
                    requires
                        p == 0,
                ;
                assert(0 * kd == 0);
            }
        }
        match s.layout {
            KvLayout::PositionMajor => (
                layer * s.max_seq * self.kv_dim + kv_head * s.head_dim,
                self.kv_dim,
            ),
            KvLayout::HeadMajor => (
                (layer * s.n_kv_heads + kv_head) * s.max_seq * s.head_dim,
                s.head_dim,
            ),
        }
    }
}

/// What is read of `buf` at a cell.
spec fn cell<T>(s: KvShape, buf: Seq<T>, layer: int, pos: int, kv_head: int) -> Seq<T> {
    let start = s.start(layer, pos, kv_head);
    buf.subrange(start, start + s.head_dim)
}

/// The part of a projected vector that belongs to a head.
pub open spec fn head_part<T>(x: Seq<T>, kv_head: int, head_dim: int) -> Seq<T> {
    x.subrange(kv_head * head_dim, (kv_head + 1) * head_dim)
}

/// `after` is `before` with one position of one layer replaced.
pub open spec fn stores<T>(
    before: KvCache<T>,
    after: KvCache<T>,
    layer: int,
    pos: int,
    k: Seq<T>,
    v: Seq<T>,
) -> bool {
    let s = before.shape();
    &&& after.shape() == s
    &&& forall|l: int, p: int, h: int|
        #![trigger after.key_at(l, p, h)]
        #![trigger after.value_at(l, p, h)]
        s.holds(l, p, h) ==> if l == layer && p == pos {
            &&& after.key_at(l, p, h) == head_part(k, h, s.head_dim as int)
            &&& after.value_at(l, p, h) == head_part(v, h, s.head_dim as int)
        } else {
            &&& after.key_at(l, p, h) == before.key_at(l, p, h)
            &&& after.value_at(l, p, h) == before.value_at(l, p, h)
        }
}

/// Two caches of one size, whatever their layouts, with the same in every cell.
pub open spec fn hold_the_same<T>(a: KvCache<T>, b: KvCache<T>) -> bool {
    &&& a.shape().n_layers == b.shape().n_layers
    &&& a.shape().max_seq == b.shape().max_seq
    &&& a.shape().n_kv_heads == b.shape().n_kv_heads
    &&& a.shape().head_dim == b.shape().head_dim
    &&& forall|l: int, p: int, h: int|
        a.shape().holds(l, p, h) ==> #[trigger] a.key_at(l, p, h) == b.key_at(l, p, h)
            && a.value_at(l, p, h) == b.value_at(l, p, h)
}

/// Overwriting one cell changes what is read there, and nowhere else.
proof fn lemma_overwritten<T>(
    s: KvShape,
    before: Seq<T>,
    after: Seq<T>,
    layer: int,
    pos: int,
    kv_head: int,
    x: Seq<T>,
)
    requires
        s.holds(layer, pos, kv_head),
        before.len() == s.numbers(),
        after.len() == s.numbers(),
        x.len() >= s.n_kv_heads * s.head_dim,
        ({
            let start = s.start(layer, pos, kv_head);
            forall|i: int|
                0 <= i < before.len() ==> #[trigger] after[i] == if start <= i < start
                    + s.head_dim {
                    x[kv_head * s.head_dim + i - start]
                } else {
                    before[i]
                }
        }),
    ensures
        forall|l: int, p: int, h: int|
            #![trigger cell(s, after, l, p, h)]
            s.holds(l, p, h) ==> cell(s, after, l, p, h) == if l == layer && p == pos && h
                == kv_head {
                head_part(x, h, s.head_dim as int)
            } else {
                cell(s, before, l, p, h)
            },
{
    let d = s.head_dim as int;
    assert forall|l: int, p: int, h: int|
        #![trigger cell(s, after, l, p, h)]
        s.holds(l, p, h) implies cell(s, after, l, p, h) == if l == layer && p == pos && h
        == kv_head {
        head_part(x, h, d)
    } else {
        cell(s, before, l, p, h)
    } by {
        law_cells_lie_inside(s, l, p, h);
        if l == layer && p == pos && h == kv_head {
            assert(h * d >= 0 && (h + 1) * d == h * d + d && (h + 1) * d <= s.n_kv_heads * d)
                by (nonlinear_arith)
                requires
                    0 <= h < s.n_kv_heads,
                    d >= 0,
            ;
            assert(cell(s, after, l, p, h) =~= head_part(x, h, d));
        } else {
            law_cells_are_distinct(s, l, p, h, layer, pos, kv_head);
            assert(cell(s, after, l, p, h) =~= cell(s, before, l, p, h));
        }
    }
}

impl<T: Copy> KvCache<T> {
    /// A cache of zeros, head-major.
    pub fn new(config: &ModelConfig, max_seq: usize, zero: T) -> (r: Self)
        requires
            config.head_count_kv * config.head_dim <= usize::MAX,
            config.block_count * max_seq <= usize::MAX,
            config.block_count * max_seq * (config.head_count_kv * config.head_dim) <= usize::MAX,
        ensures
            r.wf(),
            r.len() == 0,
            r.shape() == (KvShape {
                n_layers: config.block_count,
                n_kv_heads: config.head_count_kv,
                head_dim: config.head_dim,
                max_seq,
                layout: KvLayout::HeadMajor,
            }),
            r.keys() == Seq::new(r.shape().numbers() as nat, |i: int| zero),
            r.values() == Seq::new(r.shape().numbers() as nat, |i: int| zero),
    {
        Self::with_layout(config, max_seq, KvLayout::HeadMajor, zero)
    }

    /// A cache of zeros.
    pub fn with_layout(config: &ModelConfig, max_seq: usize, layout: KvLayout, zero: T) -> (r: Self)
        requires
            config.head_count_kv * config.head_dim <= usize::MAX,
            config.block_count * max_seq <= usize::MAX,
            config.block_count * max_seq * (config.head_count_kv * config.head_dim) <= usize::MAX,
        ensures
            r.wf(),
            r.len() == 0,
            r.shape() == (KvShape {
                n_layers: config.block_count,
                n_kv_heads: config.head_count_kv,
                head_dim: config.head_dim,
                max_seq,
                layout,
            }),
            r.keys() == Seq::new(r.shape().numbers() as nat, |i: int| zero),
            r.values() == Seq::new(r.shape().numbers() as nat, |i: int| zero),
    {
        let kv_dim: usize = config.kv_dim();
        let n: usize = config.block_count * max_seq * kv_dim;
        let shape = KvShape {
            n_layers: config.block_count,
            n_kv_heads: config.head_count_kv,
            head_dim: config.head_dim,
            max_seq,
            layout,
        };
        let k = filled(zero, n);
        let v = filled(zero, n);
        KvCache { k, v, shape, kv_dim, len: 0 }
    }

    /// Store the keys and values of every head of a layer at a position.
    pub fn write(&mut self, layer: usize, pos: usize, k: &[T], v: &[T])
        requires
            old(self).wf(),
            layer < old(self).shape().n_layers,
            pos < old(self).shape().max_seq,
            old(self).shape().countable(),
            old(self).shape().takes(k@.len() as int),
            old(self).shape().takes(v@.len() as int),
        ensures
            final(self).wf(),
            final(self).len() == old(self).len(),
            stores(*old(self), *final(self), layer as int, pos as int, k@, v@),
    {
        let s = self.shape;
        let hd: usize = s.head_dim;
        let mut h: usize = 0;
        while h < s.n_kv_heads
            invariant
                h <= s.n_kv_heads,
                hd == s.head_dim,
                self.wf(),
                self.shape == s,
                s == old(self).shape,
                self.len == old(self).len,
                layer < s.n_layers,
                pos < s.max_seq,
                s.countable(),
                s.takes(k@.len() as int),
                s.takes(v@.len() as int),
                forall|l: int, p: int, g: int|
                    #![trigger cell(s, self.k@, l, p, g)]
                    s.holds(l, p, g) ==> cell(s, self.k@, l, p, g) == if l == layer && p == pos
                        && g < h {
                        head_part(k@, g, hd as int)
                    } else {
                        cell(s, old(self).k@, l, p, g)
                    },
                forall|l: int, p: int, g: int|
                    #![trigger cell(s, self.v@, l, p, g)]
                    s.holds(l, p, g) ==> cell(s, self.v@, l, p, g) == if l == layer && p == pos
                        && g < h {
                        head_part(v@, g, hd as int)
                    } else {
                        cell(s, old(self).v@, l, p, g)
                    },
            decreases s.n_kv_heads - h,
        {
            let (base, stride) = self.head_span(layer, h);
            let ghost before_k = self.k@;
            let ghost before_v = self.v@;
            proof {
                law_cells_lie_inside(s, layer as int, pos as int, h as int);
                lemma_history(s, layer as int, h as int, pos as int);
                assert(k.len() == k@.len() && self.k.len() == self.k@.len());
                assert(0 <= pos * stride) by (nonlinear_arith);
                assert(0 <= h * hd && h * hd + hd <= s.n_kv_heads * hd) by (nonlinear_arith)
                    requires
                        h < s.n_kv_heads,
                ;
            }
            let o: usize = base + pos * stride;
            overwrite(&mut self.k, o, k, h * hd, hd);
            overwrite(&mut self.v, o, v, h * hd, hd);
            proof {
                lemma_overwritten(
                    s,
                    before_k,
                    self.k@,
                    layer as int,
                    pos as int,
                    h as int,
                    k@,
                );
                lemma_overwritten(
                    s,
                    before_v,
                    self.v@,
                    layer as int,
                    pos as int,
                    h as int,
                    v@,
                );
                assert forall|l: int, p: int, g: int|
                    #![trigger cell(s, self.k@, l, p, g)]
                    s.holds(l, p, g) implies cell(s, self.k@, l, p, g) == if l == layer && p
                    == pos && g < h + 1 {
                    head_part(k@, g, hd as int)
                } else {
                    cell(s, old(self).k@, l, p, g)
                } by {
                    assert(s.holds(l, p, g) ==> cell(s, before_k, l, p, g) == if l == layer && p
                        == pos && g < h {
                        head_part(k@, g, hd as int)
                    } else {
                        cell(s, old(self).k@, l, p, g)
                    });
                }
                assert forall|l: int, p: int, g: int|
                    #![trigger cell(s, self.v@, l, p, g)]
                    s.holds(l, p, g) implies cell(s, self.v@, l, p, g) == if l == layer && p
                    == pos && g < h + 1 {
                    head_part(v@, g, hd as int)
                } else {
                    cell(s, old(self).v@, l, p, g)
                } by {
                    assert(s.holds(l, p, g) ==> cell(s, before_v, l, p, g) == if l == layer && p
                        == pos && g < h {
                        head_part(v@, g, hd as int)
                    } else {
                        cell(s, old(self).v@, l, p, g)
                    });
                }
            }
            h += 1;
        }
        proof {
            assert forall|l: int, p: int, g: int|
                #![trigger self.key_at(l, p, g)]
                s.holds(l, p, g) implies self.key_at(l, p, g) == if l == layer && p == pos {
                head_part(k@, g, hd as int)
            } else {
                old(self).key_at(l, p, g)
            } by {
                assert(self.key_at(l, p, g) == cell(s, self.k@, l, p, g));
                assert(old(self).key_at(l, p, g) == cell(s, old(self).k@, l, p, g));
            }
            assert forall|l: int, p: int, g: int|
                #![trigger self.value_at(l, p, g)]
                s.holds(l, p, g) implies self.value_at(l, p, g) == if l == layer && p == pos {
                head_part(v@, g, hd as int)
            } else {
                old(self).value_at(l, p, g)
            } by {
                assert(self.value_at(l, p, g) == cell(s, self.v@, l, p, g));
                assert(old(self).value_at(l, p, g) == cell(s, old(self).v@, l, p, g));
            }
        }
    }

    /// As [`Self::write`], noting the position as written: for benchmarks that drive
    /// the cache directly.
    pub fn fill_for_bench(&mut self, layer: usize, pos: usize, k: &[T], v: &[T])
        requires
            old(self).wf(),
            layer < old(self).shape().n_layers,
            pos < old(self).shape().max_seq,
            old(self).shape().countable(),
            old(self).shape().takes(k@.len() as int),
            old(self).shape().takes(v@.len() as int),
        ensures
            final(self).wf(),
            final(self).shape() == old(self).shape(),
            final(self).len() == if old(self).len() >= pos + 1 {
                old(self).len()
            } else {
                (pos + 1) as usize
            },
            stores(*old(self), *final(self), layer as int, pos as int, k@, v@),
    {
        self.write(layer, pos, k, v);
        let ghost written = *self;
        self.advance(pos + 1);
        proof {
            assert forall|l: int, p: int, h: int|
                #![trigger self.key_at(l, p, h)]
                self.key_at(l, p, h) == written.key_at(l, p, h) by {}
            assert forall|l: int, p: int, h: int|
                #![trigger self.value_at(l, p, h)]
                self.value_at(l, p, h) == written.value_at(l, p, h) by {}
        }
    }

    /// One head's key vector at a position.
    pub fn key(&self, layer: usize, pos: usize, kv_head: usize) -> (r: &[T])
        requires
            self.wf(),
            self.shape().countable(),
            self.shape().holds(layer as int, pos as int, kv_head as int),
        ensures
            r@ == self.key_at(layer as int, pos as int, kv_head as int),
            r@.len() == self.shape().head_dim,
    {
        let (base, stride) = self.head_span(layer, kv_head);
        proof {
            assert(self.k.len() == self.k@.len());
            law_cells_lie_inside(self.shape, layer as int, pos as int, kv_head as int);
            lemma_history(self.shape, layer as int, kv_head as int, pos as int);
            assert(0 <= pos * stride) by (nonlinear_arith);
        }
        let o: usize = base + pos * stride;
        vstd::slice::slice_subrange(self.k.as_slice(), o, o + self.shape.head_dim)
    }

    /// One head's value vector at a position.
    pub fn value(&self, layer: usize, pos: usize, kv_head: usize) -> (r: &[T])
        requires
            self.wf(),
            self.shape().countable(),
            self.shape().holds(layer as int, pos as int, kv_head as int),
        ensures
            r@ == self.value_at(layer as int, pos as int, kv_head as int),
            r@.len() == self.shape().head_dim,
    {
        let (base, stride) = self.head_span(layer, kv_head);
        proof {
            assert(self.v.len() == self.v@.len());
            law_cells_lie_inside(self.shape, layer as int, pos as int, kv_head as int);
            lemma_history(self.shape, layer as int, kv_head as int, pos as int);
            assert(0 <= pos * stride) by (nonlinear_arith);
        }
        let o: usize = base + pos * stride;
        vstd::slice::slice_subrange(self.v.as_slice(), o, o + self.shape.head_dim)
    }

    /// The stored keys with one head's start and step: its key at a position is
    /// `head_dim` numbers from `start + position * step` on.
    pub fn k_span(&self, layer: usize, kv_head: usize) -> (r: (&[T], usize, usize))
        requires
            self.wf(),
            self.shape().countable(),
            layer < self.shape().n_layers,
            kv_head < self.shape().n_kv_heads,
        ensures
            (r.1 as int, r.2 as int) == self.shape().span(layer as int, kv_head as int),
            r.0@ == self.keys(),
            forall|pos: int|
                #![trigger self.key_at(layer as int, pos, kv_head as int)]
                0 <= pos < self.shape().max_seq ==> ({
                    let start = self.shape().start(layer as int, pos, kv_head as int);
                    &&& r.1 + pos * r.2 == start
                    &&& 0 <= start
                    &&& start + self.shape().head_dim <= r.0@.len()
                    &&& r.0@.subrange(start, start + self.shape().head_dim) == self.key_at(
                        layer as int,
                        pos,
                        kv_head as int,
                    )
                }),
    {
        let (base, stride) = self.head_span(layer, kv_head);
        proof {
            assert forall|pos: int| 0 <= pos < self.shape.max_seq implies {
                let start = #[trigger] self.shape.start(layer as int, pos, kv_head as int);
                &&& base + pos * stride == start
                &&& 0 <= start
                &&& start + self.shape.head_dim <= self.shape.numbers()
            } by {
                law_cells_lie_inside(self.shape, layer as int, pos, kv_head as int);
                lemma_history(self.shape, layer as int, kv_head as int, pos);
            }
        }
        (self.k.as_slice(), base, stride)
    }

    /// The stored values with one head's start and step.
    pub fn v_span(&self, layer: usize, kv_head: usize) -> (r: (&[T], usize, usize))
        requires
            self.wf(),
            self.shape().countable(),
            layer < self.shape().n_layers,
            kv_head < self.shape().n_kv_heads,
        ensures
            (r.1 as int, r.2 as int) == self.shape().span(layer as int, kv_head as int),
            r.0@ == self.values(),
            forall|pos: int|
                #![trigger self.value_at(layer as int, pos, kv_head as int)]
                0 <= pos < self.shape().max_seq ==> ({
                    let start = self.shape().start(layer as int, pos, kv_head as int);
                    &&& r.1 + pos * r.2 == start
                    &&& 0 <= start
                    &&& start + self.shape().head_dim <= r.0@.len()
                    &&& r.0@.subrange(start, start + self.shape().head_dim) == self.value_at(
                        layer as int,
                        pos,
                        kv_head as int,
                    )
                }),
    {
        let (base, stride) = self.head_span(layer, kv_head);
        proof {
            assert forall|pos: int| 0 <= pos < self.shape.max_seq implies {
                let start = #[trigger] self.shape.start(layer as int, pos, kv_head as int);
                &&& base + pos * stride == start
                &&& 0 <= start
                &&& start + self.shape.head_dim <= self.shape.numbers()
            } by {
                law_cells_lie_inside(self.shape, layer as int, pos, kv_head as int);
                lemma_history(self.shape, layer as int, kv_head as int, pos);
            }
        }
        (self.v.as_slice(), base, stride)
    }
}

/// `n` copies of a number.
pub fn filled<T: Copy>(x: T, n: usize) -> (r: Vec<T>)
    ensures
        r@ == Seq::new(n as nat, |i: int| x),
{
    let mut v: Vec<T> = Vec::with_capacity(n);
    let mut i: usize = 0;
    while i < n
        invariant
            i <= n,
            v@ == Seq::new(i as nat, |j: int| x),
        decreases n - i,
    {
        v.push(x);
        i += 1;
        assert(v@ =~= Seq::new(i as nat, |j: int| x));
    }
    v
}

/// The layout makes no difference to what a cache holds: where two caches of one size
/// hold the same and have the same stored in them, they still hold the same.
pub proof fn law_layouts_hold_the_same<T>(
    a: KvCache<T>,
    b: KvCache<T>,
    a2: KvCache<T>,
    b2: KvCache<T>,
    layer: int,
    pos: int,
    k: Seq<T>,
    v: Seq<T>,
)
    requires
        hold_the_same(a, b),
        stores(a, a2, layer, pos, k, v),
        stores(b, b2, layer, pos, k, v),
    ensures
        hold_the_same(a2, b2),
{
    assert forall|l: int, p: int, h: int| a2.shape().holds(l, p, h) implies #[trigger] a2.key_at(
        l,
        p,
        h,
    ) == b2.key_at(l, p, h) && a2.value_at(l, p, h) == b2.value_at(l, p, h) by {
        assert(a.key_at(l, p, h) == b.key_at(l, p, h));
        assert(b2.key_at(l, p, h) == b2.key_at(l, p, h));
    }
}

/// What is written is read back: behind a write, a head's key at the position is its own part
/// of the row that was written, number by number, and so is its value; every other cell is
/// what it was.
pub proof fn law_a_write_is_read_back<T>(
    before: KvCache<T>,
    after: KvCache<T>,
    layer: int,
    pos: int,
    k: Seq<T>,
    v: Seq<T>,
    h: int,
    i: int,
)
    requires
        stores(before, after, layer, pos, k, v),
        before.shape().holds(layer, pos, h),
        before.shape().takes(k.len() as int),
        before.shape().takes(v.len() as int),
        0 <= i < before.shape().head_dim,
    ensures
        after.key_at(layer, pos, h)[i] == k[h * before.shape().head_dim + i],
        after.value_at(layer, pos, h)[i] == v[h * before.shape().head_dim + i],
        forall|l: int, p: int, g: int|
            before.shape().holds(l, p, g) && !(l == layer && p == pos) ==> #[trigger] after.key_at(
                l,
                p,
                g,
            ) == before.key_at(l, p, g) && after.value_at(l, p, g) == before.value_at(l, p, g),
{
    let s = before.shape();
    let d = s.head_dim as int;
    assert(0 <= h * d && (h + 1) * d == h * d + d && (h + 1) * d <= s.n_kv_heads * d)
        by (nonlinear_arith)
        requires
            0 <= h < s.n_kv_heads,
            0 <= d,
    ;
    assert(after.key_at(layer, pos, h) == head_part(k, h, d));
}

/// A cache takes as many bytes as its configuration says: two numbers of four bytes for each
/// layer, position, key/value head and component.
pub proof fn law_caches_take_the_stated_bytes(c: ModelConfig, s: KvShape)
    requires
        s.n_layers == c.block_count,
        s.n_kv_heads == c.head_count_kv,
        s.head_dim == c.head_dim,
    ensures
        2 * s.numbers() * 4 == c.cache_bytes(s.max_seq as int),
        c.cache_bytes(s.max_seq as int) == 8 * (s.n_layers * (s.max_seq * (s.n_kv_heads
            * s.head_dim))),
{
    let l = s.n_layers as int;
    let n = s.max_seq as int;
    let h = s.n_kv_heads as int;
    let d = s.head_dim as int;
    assert(l * n * (h * d) == l * (n * (h * d))) by (nonlinear_arith);
    assert(2 * l * h * n * d * 4 == 8 * (l * (n * (h * d)))) by (nonlinear_arith);
}

} // verus!
