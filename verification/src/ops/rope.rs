//! Rotary position embeddings.
//!
//! Each head's vector is rotated in independent planes.  The angles are unambiguous;
//! which pairs of components form a plane is a convention, and there are two.
use vstd::prelude::*;
use vstd::slice::slice_to_vec;

verus! {

/// Which components pair up to form each rotation plane.
#[derive(Debug, Clone, Copy, PartialEq, Eq, Structural)]
pub enum RopeKind {
    /// `(x[i], x[i + d/2])`.
    SplitHalf,
    /// `(x[2i], x[2i + 1])`.
    Adjacent,
}

/// The components that form plane `i` of `n`.
pub open spec fn plane(kind: RopeKind, n: int, i: int) -> (int, int) {
    match kind {
        RopeKind::SplitHalf => (i, i + n),
        RopeKind::Adjacent => (2 * i, 2 * i + 1),
    }
}

/// The plane to which a component belongs.
pub open spec fn plane_of(kind: RopeKind, n: int, j: int) -> int {
    match kind {
        RopeKind::SplitHalf => if j < n {
            j
        } else {
            j - n
        },
        RopeKind::Adjacent => j / 2,
    }
}

/// Every rotated component belongs to exactly one plane, whose two components differ.
pub proof fn law_planes_partition_the_components(kind: RopeKind, n: int, j: int, i: int)
    requires
        0 <= j < 2 * n,
        0 <= i < n,
    ensures
        0 <= plane_of(kind, n, j) < n,
        plane(kind, n, i).0 != plane(kind, n, i).1,
        0 <= plane(kind, n, i).0 < 2 * n,
        0 <= plane(kind, n, i).1 < 2 * n,
        (plane(kind, n, i).0 == j || plane(kind, n, i).1 == j) <==> i == plane_of(kind, n, j),
{
}

/// A rotation in the plane of components `a` and `b`.
#[derive(Debug, Clone, Copy, PartialEq, Eq)]
pub struct Rotation<T> {
    pub a: usize,
    pub b: usize,
    pub cos: T,
    pub sin: T,
}

/// The cosine and sine of every position and plane.
///
/// Only the first `rope_dim` components of each head are rotated; the others pass
/// through untouched.
#[derive(Debug)]
pub struct RopeTable<T> {
    /// `[max_seq][n_planes]`, row-major.
    cos: Vec<T>,
    sin: Vec<T>,
    head_dim: usize,
    rope_dim: usize,
    max_seq: usize,
    kind: RopeKind,
}

/// What a [`RopeTable`] holds.
pub struct RopeView<T> {
    pub cos: Seq<T>,
    pub sin: Seq<T>,
    pub head_dim: int,
    pub rope_dim: int,
    pub max_seq: int,
    pub kind: RopeKind,
}

impl<T> View for RopeTable<T> {
    type V = RopeView<T>;

    closed spec fn view(&self) -> RopeView<T> {
        RopeView {
            cos: self.cos@,
            sin: self.sin@,
            head_dim: self.head_dim as int,
            rope_dim: self.rope_dim as int,
            max_seq: self.max_seq as int,
            kind: self.kind,
        }
    }
}

impl<T> RopeView<T> {
    pub open spec fn n_planes(self) -> int {
        self.rope_dim / 2
    }

    /// The rotation of a plane at a position.
    pub open spec fn rotation(self, pos: int, i: int) -> (int, int, T, T) {
        let (a, b) = plane(self.kind, self.n_planes(), i);
        let k = pos * self.n_planes() + i;
        (a, b, self.cos[k], self.sin[k])
    }
}

/// The rotations of a position use the row of that position, whole and in order: the
/// cosines of its planes are `n` numbers in a row of the table, from `pos * n` on, and so are
/// the sines.
pub proof fn law_a_position_turns_by_its_row<T>(v: RopeView<T>, pos: int)
    requires
        0 <= v.rope_dim,
        0 <= pos < v.max_seq,
        v.cos.len() == v.max_seq * (v.rope_dim / 2),
        v.sin.len() == v.max_seq * (v.rope_dim / 2),
    ensures
        ({
            let n = v.rope_dim / 2;
            &&& 0 <= pos * n
            &&& pos * n + n <= v.cos.len()
            &&& v.cos.subrange(pos * n, pos * n + n) == Seq::new(
                n as nat,
                |i: int| v.rotation(pos, i).2,
            )
            &&& v.sin.subrange(pos * n, pos * n + n) == Seq::new(
                n as nat,
                |i: int| v.rotation(pos, i).3,
            )
        }),
{
    let n = v.rope_dim / 2;
    assert(0 <= pos * n && pos * n + n <= v.max_seq * n) by (nonlinear_arith)
        requires
            0 <= pos < v.max_seq,
            0 <= n,
    ;
    assert(v.cos.subrange(pos * n, pos * n + n) =~= Seq::new(
        n as nat,
        |i: int| v.rotation(pos, i).2,
    ));
    assert(v.sin.subrange(pos * n, pos * n + n) =~= Seq::new(
        n as nat,
        |i: int| v.rotation(pos, i).3,
    ));
}

/// Every number of the table turns exactly one plane at exactly one position: the number at
/// `k` is that of plane `k % n` at position `k / n`.
pub proof fn law_every_angle_has_its_place<T>(v: RopeView<T>, k: int)
    requires
        2 <= v.rope_dim,
        0 <= k < v.max_seq * (v.rope_dim / 2),
    ensures
        ({
            let n = v.rope_dim / 2;
            &&& 0 <= k / n < v.max_seq
            &&& 0 <= k % n < n
            &&& v.rotation(k / n, k % n).2 == v.cos[k]
            &&& v.rotation(k / n, k % n).3 == v.sin[k]
        }),
{
    let n = v.rope_dim / 2;
    vstd::arithmetic::div_mod::lemma_fundamental_div_mod(k, n);
    let q = k / n;
    assert(0 <= q < v.max_seq) by (nonlinear_arith)
        requires
            k == n * q + k % n,
            0 <= k % n < n,
            0 <= k < v.max_seq * n,
    ;
    assert(q * n == n * q) by (nonlinear_arith);
}

/// Which components a plane turns: half a head apart, or side by side.
pub proof fn law_planes_pair_components<T>(v: RopeView<T>, pos: int, i: int)
    ensures
        v.kind == RopeKind::SplitHalf ==> v.rotation(pos, i).0 == i && v.rotation(pos, i).1 == i
            + v.rope_dim / 2,
        v.kind == RopeKind::Adjacent ==> v.rotation(pos, i).0 == 2 * i && v.rotation(pos, i).1 == 2
            * i + 1,
{
}

impl<T> RopeTable<T> {
    #[verifier::type_invariant]
    spec fn inv(self) -> bool {
        &&& self.rope_dim <= self.head_dim
        &&& self.rope_dim % 2 == 0
        &&& self.cos@.len() == self.max_seq * (self.rope_dim as int / 2)
        &&& self.sin@.len() == self.max_seq * (self.rope_dim as int / 2)
    }
}

impl<T: Copy> Clone for RopeTable<T> {
    fn clone(&self) -> (r: Self)
        ensures
            r@ == self@,
    {
        proof {
            use_type_invariant(self);
        }
        RopeTable {
            cos: slice_to_vec(self.cos.as_slice()),
            sin: slice_to_vec(self.sin.as_slice()),
            head_dim: self.head_dim,
            rope_dim: self.rope_dim,
            max_seq: self.max_seq,
            kind: self.kind,
        }
    }
}

impl<T: Copy> RopeTable<T> {
    /// A table of given cosines and sines, position by position.
    pub fn new(
        head_dim: usize,
        rope_dim: usize,
        max_seq: usize,
        kind: RopeKind,
        cos: Vec<T>,
        sin: Vec<T>,
    ) -> (r: Self)
        requires
            rope_dim <= head_dim,
            rope_dim % 2 == 0,
            cos@.len() == max_seq * (rope_dim as int / 2),
            sin@.len() == max_seq * (rope_dim as int / 2),
        ensures
            r@ == (RopeView {
                cos: cos@,
                sin: sin@,
                head_dim: head_dim as int,
                rope_dim: rope_dim as int,
                max_seq: max_seq as int,
                kind,
            }),
    {
        RopeTable { cos, sin, head_dim, rope_dim, max_seq, kind }
    }

    pub fn max_seq(&self) -> (r: usize)
        ensures
            r == self@.max_seq,
    {
        self.max_seq
    }

    pub fn head_dim(&self) -> (r: usize)
        ensures
            r == self@.head_dim,
    {
        self.head_dim
    }

    pub fn rope_dim(&self) -> (r: usize)
        ensures
            r == self@.rope_dim,
    {
        self.rope_dim
    }

    pub fn kind(&self) -> (r: RopeKind)
        ensures
            r == self@.kind,
    {
        self.kind
    }

    pub fn n_planes(&self) -> (r: usize)
        ensures
            r == self@.n_planes(),
    {
        self.rope_dim / 2
    }

    /// Bytes held by the table, at four to a number.
    pub fn byte_len(&self) -> (r: usize)
        requires
            2 * (self@.max_seq * self@.n_planes()) * 4 <= usize::MAX,
        ensures
            r == 2 * (self@.max_seq * self@.n_planes()) * 4,
    {
        proof {
            use_type_invariant(self);
        }
        (self.cos.len() + self.sin.len()) * 4
    }

    /// The rotations that a head's vector takes at a position, plane by plane.
    /// Components at or above `rope_dim` are in none of them.
    pub fn rotations(&self, pos: usize) -> (r: Vec<Rotation<T>>)
        requires
            pos < self@.max_seq,
        ensures
            r@.len() == self@.n_planes(),
            forall|i: int|
                #![trigger r@[i]]
                0 <= i < r@.len() ==> (r@[i].a as int, r@[i].b as int, r@[i].cos, r@[i].sin)
                    == self@.rotation(pos as int, i) && r@[i].a < self@.rope_dim && r@[i].b
                    < self@.rope_dim,
            self@.rope_dim <= self@.head_dim,
            // Plane `i` turns by entry `i` of the position's row, and by no other.
            r@.len() == self@.rope_dim / 2,
            forall|i: int|
                #![trigger r@[i]]
                0 <= i < self@.rope_dim / 2 ==> {
                    &&& 0 <= pos * (self@.rope_dim / 2) + i < self@.cos.len()
                    &&& r@[i].cos == self@.cos[pos * (self@.rope_dim / 2) + i]
                    &&& r@[i].sin == self@.sin[pos * (self@.rope_dim / 2) + i]
                    &&& self@.kind == RopeKind::SplitHalf ==> r@[i].a == i && r@[i].b == i
                        + self@.rope_dim / 2
                    &&& self@.kind == RopeKind::Adjacent ==> r@[i].a == 2 * i && r@[i].b == 2 * i
                        + 1
                },
    {
        proof {
            use_type_invariant(self);
        }
        let n: usize = self.rope_dim / 2;
        let total: usize = self.cos.len();
        proof {
            assert(0 <= pos * n && pos * n + n <= self.max_seq * n) by (nonlinear_arith)
                requires
                    pos < self.max_seq,
            ;
        }
        let base: usize = pos * n;
        let mut out: Vec<Rotation<T>> = Vec::with_capacity(n);
        let mut i: usize = 0;
        while i < n
            invariant
                i <= n,
                n == self.rope_dim / 2,
                base == pos * n,
                base + n <= total,
                total == self.cos@.len() == self.sin@.len(),
                out@.len() == i,
                forall|k: int|
                    #![trigger out@[k]]
                    0 <= k < i ==> (out@[k].a as int, out@[k].b as int, out@[k].cos, out@[k].sin)
                        == self@.rotation(pos as int, k) && out@[k].a < self@.rope_dim && out@[k].b
                        < self@.rope_dim,
            decreases n - i,
        {
            let (a, b): (usize, usize) = match self.kind {
                RopeKind::SplitHalf => (i, i + n),
                RopeKind::Adjacent => (2 * i, 2 * i + 1),
            };
            out.push(Rotation { a, b, cos: self.cos[base + i], sin: self.sin[base + i] });
            i += 1;
        }
        out
    }

    /// Where a head's vector stands in a projection of `n_heads` heads.
    pub fn head_range(&self, n_heads: usize, h: usize) -> (r: (usize, usize))
        requires
            h < n_heads,
            n_heads * self@.head_dim <= usize::MAX,
        ensures
            r.0 == h * self@.head_dim,
            r.1 == r.0 + self@.head_dim,
            r.1 <= n_heads * self@.head_dim,
    {
        assert(0 <= h * self.head_dim && h * self.head_dim + self.head_dim <= n_heads
            * self.head_dim) by (nonlinear_arith)
            requires
                h < n_heads,
        ;
        let start: usize = h * self.head_dim;
        (start, start + self.head_dim)
    }
}

} // verus!
