//! A bounds-checked little-endian cursor over the raw file bytes.
//!
//! Two rules hold here: no read ever indexes past the buffer, and file-supplied
//! `u64` lengths are compared against the bytes that remain *before* they are
//! narrowed to `usize`.
use super::error::{GgufError, GgufErrorView};
use crate::bits::{F32Bits, F64Bits};
use crate::text;
use vstd::prelude::*;
use vstd::utf8::*;

verus! {

/// The number that bytes stand for, least significant byte first.
pub open spec fn le_nat(b: Seq<u8>) -> nat
    decreases b.len(),
{
    if b.len() == 0 {
        0
    } else {
        b[0] as nat + 256 * le_nat(b.drop_first())
    }
}

/// `n` bytes from `pos` on, and the position behind them.
pub open spec fn spec_take(file: Seq<u8>, pos: int, n: int) -> Result<
    (Seq<u8>, int),
    GgufErrorView,
> {
    if n > file.len() - pos {
        Err(
            GgufErrorView::UnexpectedEof { at: pos, needed: n, remaining: file.len() - pos },
        )
    } else {
        Ok((file.subrange(pos, pos + n), pos + n))
    }
}

/// An unsigned number of `width` bytes, and the position behind it.
pub open spec fn spec_uint(file: Seq<u8>, pos: int, width: int) -> Result<
    (nat, int),
    GgufErrorView,
> {
    match spec_take(file, pos, width) {
        Ok((b, p)) => Ok((le_nat(b), p)),
        Err(e) => Err(e),
    }
}

/// The signed number that `v` stands for in two's complement, where `half` is the
/// weight of the sign bit.
pub open spec fn signed(v: nat, half: nat) -> int {
    if v < half {
        v as int
    } else {
        v - 2 * half
    }
}

/// A `u64` count of items of at least `size` bytes each, all of which fit in what
/// is left of the file.
pub open spec fn spec_len(file: Seq<u8>, pos: int, what: Seq<char>, size: nat) -> Result<
    (nat, int),
    GgufErrorView,
> {
    match spec_uint(file, pos, 8) {
        Err(e) => Err(e),
        Ok((n, p)) => if n * size <= file.len() - p {
            Ok((n, p))
        } else {
            Err(
                GgufErrorView::ImplausibleCount {
                    what,
                    count: n,
                    remaining: file.len() - p,
                },
            )
        },
    }
}

/// Where a count leaves the position, be it refused or not: behind its 8 bytes, if they
/// are there.
pub open spec fn after_count(file: Seq<u8>, pos: int) -> int {
    if pos + 8 <= file.len() {
        pos + 8
    } else {
        pos
    }
}

/// Where a text that is refused leaves the position: behind its length, and behind its
/// bytes where these are no text.
pub open spec fn after_bad_str(file: Seq<u8>, pos: int) -> int {
    match spec_len(file, pos, "string length"@, 1) {
        Err(e) => after_count(file, pos),
        Ok((n, p)) => p + n,
    }
}

/// A `u64` length followed by that many bytes of UTF-8.
pub open spec fn spec_str(file: Seq<u8>, pos: int) -> Result<(Seq<char>, int), GgufErrorView> {
    match spec_len(file, pos, "string length"@, 1) {
        Err(e) => Err(e),
        Ok((n, p)) => {
            let bytes = file.subrange(p, p + n);
            if valid_utf8(bytes) {
                Ok((decode_utf8(bytes), p + n))
            } else {
                Err(GgufErrorView::InvalidUtf8 { at: p })
            }
        },
    }
}

proof fn lemma_le_nat_1(b: Seq<u8>)
    requires
        b.len() == 1,
    ensures
        le_nat(b) == b[0],
{
    reveal_with_fuel(le_nat, 2);
}

proof fn lemma_le_nat_2(b: Seq<u8>)
    requires
        b.len() == 2,
    ensures
        le_nat(b) == b[0] + 256 * b[1],
{
    reveal_with_fuel(le_nat, 3);
}

proof fn lemma_le_nat_4(b: Seq<u8>)
    requires
        b.len() == 4,
    ensures
        le_nat(b) == b[0] + 256 * b[1] + 65536 * b[2] + 16777216 * b[3],
{
    reveal_with_fuel(le_nat, 5);
}

proof fn lemma_le_nat_8(b: Seq<u8>)
    requires
        b.len() == 8,
    ensures
        le_nat(b) == b[0] + 256 * b[1] + 65536 * b[2] + 16777216 * b[3] + 4294967296 * (b[4] + 256
            * b[5] + 65536 * b[6] + 16777216 * b[7]),
{
    reveal_with_fuel(le_nat, 9);
}

/// A position in a file.
pub struct Reader<'a> {
    pub buf: &'a [u8],
    pub pos: usize,
}

impl<'a> Reader<'a> {
    /// The position lies inside the file or at its end.
    pub open spec fn wf(&self) -> bool {
        self.pos <= self.buf@.len()
    }

    pub fn new(buf: &'a [u8]) -> (r: Self)
        ensures
            r.wf(),
            r.buf@ == buf@,
            r.pos == 0,
    {
        Self { buf, pos: 0 }
    }

    pub fn pos(&self) -> (r: usize)
        ensures
            r == self.pos,
    {
        self.pos
    }

    pub fn remaining(&self) -> (r: usize)
        requires
            self.wf(),
        ensures
            r == self.buf@.len() - self.pos,
    {
        self.buf.len() - self.pos
    }

    pub fn take(&mut self, n: usize) -> (r: Result<&'a [u8], GgufError>)
        requires
            old(self).wf(),
        ensures
            final(self).wf(),
            final(self).buf@ == old(self).buf@,
            r is Err ==> final(self).pos == old(self).pos,
            match r {
                Ok(b) => spec_take(old(self).buf@, old(self).pos as int, n as int) == Ok::<
                    (Seq<u8>, int),
                    GgufErrorView,
                >((b@, final(self).pos as int)),
                Err(e) => spec_take(old(self).buf@, old(self).pos as int, n as int) == Err::<
                    (Seq<u8>, int),
                    GgufErrorView,
                >(e@),
            },
    {
        let remaining: usize = self.buf.len() - self.pos;
        if n > remaining {
            return Err(GgufError::UnexpectedEof { at: self.pos, needed: n, remaining });
        }
        let end: usize = self.pos + n;
        let s = vstd::slice::slice_subrange(self.buf, self.pos, end);
        self.pos = end;
        Ok(s)
    }

    pub fn read_u8(&mut self) -> (r: Result<u8, GgufError>)
        requires
            old(self).wf(),
        ensures
            final(self).wf(),
            final(self).buf@ == old(self).buf@,
            r is Err ==> final(self).pos == old(self).pos,
            match r {
                Ok(v) => spec_uint(old(self).buf@, old(self).pos as int, 1)
                    matches Ok((n, p)) && v == n
                    && p == final(self).pos,
                Err(e) => spec_uint(old(self).buf@, old(self).pos as int, 1) == Err::<
                    (nat, int),
                    GgufErrorView,
                >(e@),
            },
    {
        match self.take(1) {
            Ok(b) => {
                proof {
                    lemma_le_nat_1(b@);
                }
                Ok(b[0])
            },
            Err(e) => Err(e),
        }
    }

    pub fn read_u16(&mut self) -> (r: Result<u16, GgufError>)
        requires
            old(self).wf(),
        ensures
            final(self).wf(),
            final(self).buf@ == old(self).buf@,
            r is Err ==> final(self).pos == old(self).pos,
            match r {
                Ok(v) => spec_uint(old(self).buf@, old(self).pos as int, 2)
                    matches Ok((n, p)) && v == n
                    && p == final(self).pos,
                Err(e) => spec_uint(old(self).buf@, old(self).pos as int, 2) == Err::<
                    (nat, int),
                    GgufErrorView,
                >(e@),
            },
    {
        match self.take(2) {
            Ok(b) => {
                proof {
                    lemma_le_nat_2(b@);
                }
                Ok(b[0] as u16 + 256 * (b[1] as u16))
            },
            Err(e) => Err(e),
        }
    }

    pub fn read_u32(&mut self) -> (r: Result<u32, GgufError>)
        requires
            old(self).wf(),
        ensures
            final(self).wf(),
            final(self).buf@ == old(self).buf@,
            r is Err ==> final(self).pos == old(self).pos,
            match r {
                Ok(v) => spec_uint(old(self).buf@, old(self).pos as int, 4)
                    matches Ok((n, p)) && v == n
                    && p == final(self).pos,
                Err(e) => spec_uint(old(self).buf@, old(self).pos as int, 4) == Err::<
                    (nat, int),
                    GgufErrorView,
                >(e@),
            },
    {
        match self.take(4) {
            Ok(b) => {
                proof {
                    lemma_le_nat_4(b@);
                }
                Ok(b[0] as u32 + 256 * (b[1] as u32) + 65536 * (b[2] as u32) + 16777216 * (b[3] as u32))
            },
            Err(e) => Err(e),
        }
    }

    pub fn read_u64(&mut self) -> (r: Result<u64, GgufError>)
        requires
            old(self).wf(),
        ensures
            final(self).wf(),
            final(self).buf@ == old(self).buf@,
            r is Err ==> final(self).pos == old(self).pos,
            match r {
                Ok(v) => spec_uint(old(self).buf@, old(self).pos as int, 8)
                    matches Ok((n, p)) && v == n
                    && p == final(self).pos,
                Err(e) => spec_uint(old(self).buf@, old(self).pos as int, 8) == Err::<
                    (nat, int),
                    GgufErrorView,
                >(e@),
            },
    {
        match self.take(8) {
            Ok(b) => {
                proof {
                    lemma_le_nat_8(b@);
                }
                Ok(b[0] as u64 + 256 * (b[1] as u64) + 65536 * (b[2] as u64) + 16777216 * (b[3] as u64)
                    + 4294967296 * (b[4] as u64 + 256 * (b[5] as u64) + 65536 * (b[6] as u64)
                    + 16777216 * (b[7] as u64)))
            },
            Err(e) => Err(e),
        }
    }

    pub fn read_i8(&mut self) -> (r: Result<i8, GgufError>)
        requires
            old(self).wf(),
        ensures
            final(self).wf(),
            final(self).buf@ == old(self).buf@,
            r is Err ==> final(self).pos == old(self).pos,
            match r {
                Ok(v) => spec_uint(old(self).buf@, old(self).pos as int, 1)
                    matches Ok((n, p)) && v == signed(n, 0x80)
                    && p == final(self).pos,
                Err(e) => spec_uint(old(self).buf@, old(self).pos as int, 1) == Err::<
                    (nat, int),
                    GgufErrorView,
                >(e@),
            },
    {
        match self.read_u8() {
            Ok(v) => if v < 0x80 {
                Ok(v as i8)
            } else {
                Ok((v - 0x80) as i8 + i8::MIN)
            },
            Err(e) => Err(e),
        }
    }

    pub fn read_i16(&mut self) -> (r: Result<i16, GgufError>)
        requires
            old(self).wf(),
        ensures
            final(self).wf(),
            final(self).buf@ == old(self).buf@,
            r is Err ==> final(self).pos == old(self).pos,
            match r {
                Ok(v) => spec_uint(old(self).buf@, old(self).pos as int, 2)
                    matches Ok((n, p)) && v == signed(n, 0x8000)
                    && p == final(self).pos,
                Err(e) => spec_uint(old(self).buf@, old(self).pos as int, 2) == Err::<
                    (nat, int),
                    GgufErrorView,
                >(e@),
            },
    {
        match self.read_u16() {
            Ok(v) => if v < 0x8000 {
                Ok(v as i16)
            } else {
                Ok((v - 0x8000) as i16 + i16::MIN)
            },
            Err(e) => Err(e),
        }
    }

    pub fn read_i32(&mut self) -> (r: Result<i32, GgufError>)
        requires
            old(self).wf(),
        ensures
            final(self).wf(),
            final(self).buf@ == old(self).buf@,
            r is Err ==> final(self).pos == old(self).pos,
            match r {
                Ok(v) => spec_uint(old(self).buf@, old(self).pos as int, 4)
                    matches Ok((n, p)) && v == signed(n, 0x8000_0000)
                    && p == final(self).pos,
                Err(e) => spec_uint(old(self).buf@, old(self).pos as int, 4) == Err::<
                    (nat, int),
                    GgufErrorView,
                >(e@),
            },
    {
        match self.read_u32() {
            Ok(v) => if v < 0x8000_0000 {
                Ok(v as i32)
            } else {
                Ok((v - 0x8000_0000) as i32 + i32::MIN)
            },
            Err(e) => Err(e),
        }
    }

    pub fn read_i64(&mut self) -> (r: Result<i64, GgufError>)
        requires
            old(self).wf(),
        ensures
            final(self).wf(),
            final(self).buf@ == old(self).buf@,
            r is Err ==> final(self).pos == old(self).pos,
            match r {
                Ok(v) => spec_uint(old(self).buf@, old(self).pos as int, 8)
                    matches Ok((n, p)) && v == signed(n, 0x8000_0000_0000_0000)
                    && p == final(self).pos,
                Err(e) => spec_uint(old(self).buf@, old(self).pos as int, 8) == Err::<
                    (nat, int),
                    GgufErrorView,
                >(e@),
            },
    {
        match self.read_u64() {
            Ok(v) => if v < 0x8000_0000_0000_0000 {
                Ok(v as i64)
            } else {
                Ok((v - 0x8000_0000_0000_0000) as i64 + i64::MIN)
            },
            Err(e) => Err(e),
        }
    }

    pub fn read_f32(&mut self) -> (r: Result<F32Bits, GgufError>)
        requires
            old(self).wf(),
        ensures
            final(self).wf(),
            final(self).buf@ == old(self).buf@,
            r is Err ==> final(self).pos == old(self).pos,
            match r {
                Ok(v) => spec_uint(old(self).buf@, old(self).pos as int, 4)
                    matches Ok((n, p)) && v.0 == n
                    && p == final(self).pos,
                Err(e) => spec_uint(old(self).buf@, old(self).pos as int, 4) == Err::<
                    (nat, int),
                    GgufErrorView,
                >(e@),
            },
    {
        match self.read_u32() {
            Ok(v) => Ok(F32Bits(v)),
            Err(e) => Err(e),
        }
    }

    pub fn read_f64(&mut self) -> (r: Result<F64Bits, GgufError>)
        requires
            old(self).wf(),
        ensures
            final(self).wf(),
            final(self).buf@ == old(self).buf@,
            r is Err ==> final(self).pos == old(self).pos,
            match r {
                Ok(v) => spec_uint(old(self).buf@, old(self).pos as int, 8)
                    matches Ok((n, p)) && v.0 == n
                    && p == final(self).pos,
                Err(e) => spec_uint(old(self).buf@, old(self).pos as int, 8) == Err::<
                    (nat, int),
                    GgufErrorView,
                >(e@),
            },
    {
        match self.read_u64() {
            Ok(v) => Ok(F64Bits(v)),
            Err(e) => Err(e),
        }
    }

    /// A bool is one byte; anything non-zero is true.
    pub fn read_bool(&mut self) -> (r: Result<bool, GgufError>)
        requires
            old(self).wf(),
        ensures
            final(self).wf(),
            final(self).buf@ == old(self).buf@,
            r is Err ==> final(self).pos == old(self).pos,
            match r {
                Ok(b) => spec_uint(old(self).buf@, old(self).pos as int, 1) matches Ok((v, p)) && (v
                    != 0) == b && p == final(self).pos,
                Err(e) => spec_uint(old(self).buf@, old(self).pos as int, 1) == Err::<
                    (nat, int),
                    GgufErrorView,
                >(e@),
            },
    {
        match self.read_u8() {
            Ok(v) => Ok(v != 0),
            Err(e) => Err(e),
        }
    }

    /// A `u64` length followed by that many bytes of UTF-8.  Borrowed, never copied.
    pub fn read_str(&mut self) -> (r: Result<&'a str, GgufError>)
        requires
            old(self).wf(),
        ensures
            final(self).wf(),
            final(self).buf@ == old(self).buf@,
            r is Err ==> final(self).pos == after_bad_str(old(self).buf@, old(self).pos as int),
            match r {
                Ok(s) => spec_str(old(self).buf@, old(self).pos as int) == Ok::<
                    (Seq<char>, int),
                    GgufErrorView,
                >((s@, final(self).pos as int)),
                Err(e) => spec_str(old(self).buf@, old(self).pos as int) == Err::<
                    (Seq<char>, int),
                    GgufErrorView,
                >(e@),
            },
    {
        let len: usize = match self.read_len("string length") {
            Ok(n) => n,
            Err(e) => return Err(e),
        };
        let at: usize = self.pos;
        let bytes = match self.take(len) {
            Ok(b) => b,
            Err(e) => return Err(e),
        };
        match text::utf8_text(bytes) {
            Some(s) => {
                proof {
                    encode_utf8_decode_utf8(s@);
                }
                Ok(s)
            },
            None => Err(GgufError::InvalidUtf8 { at }),
        }
    }

    /// A `u64` count that could fit in the rest of the file.  Every allocation of
    /// the parser is sized by a value that has passed through here or through
    /// [`Self::read_len_scaled`].
    pub fn read_len(&mut self, what: &'static str) -> (r: Result<usize, GgufError>)
        requires
            old(self).wf(),
        ensures
            final(self).wf(),
            final(self).buf@ == old(self).buf@,
            final(self).pos == after_count(old(self).buf@, old(self).pos as int),
            match r {
                Ok(n) => spec_len(old(self).buf@, old(self).pos as int, what@, 1) == Ok::<
                    (nat, int),
                    GgufErrorView,
                >((n as nat, final(self).pos as int)),
                Err(e) => spec_len(old(self).buf@, old(self).pos as int, what@, 1) == Err::<
                    (nat, int),
                    GgufErrorView,
                >(e@),
            },
    {
        let n: u64 = match self.read_u64() {
            Ok(n) => n,
            Err(e) => return Err(e),
        };
        if n > self.remaining() as u64 {
            return Err(
                GgufError::ImplausibleCount { what, count: n, remaining: self.remaining() },
            );
        }
        Ok(n as usize)
    }

    /// As [`Self::read_len`], but for arrays whose elements are `elem_size` bytes
    /// each, so that `count * elem_size` is bounded rather than just `count`.
    pub fn read_len_scaled(&mut self, what: &'static str, elem_size: usize) -> (r: Result<
        usize,
        GgufError,
    >)
        requires
            old(self).wf(),
            elem_size > 0,
        ensures
            final(self).wf(),
            final(self).buf@ == old(self).buf@,
            final(self).pos == after_count(old(self).buf@, old(self).pos as int),
            match r {
                Ok(n) => spec_len(old(self).buf@, old(self).pos as int, what@, elem_size as nat)
                    == Ok::<(nat, int), GgufErrorView>((n as nat, final(self).pos as int)),
                Err(e) => spec_len(old(self).buf@, old(self).pos as int, what@, elem_size as nat)
                    == Err::<(nat, int), GgufErrorView>(e@),
            },
    {
        let n: u64 = match self.read_u64() {
            Ok(n) => n,
            Err(e) => return Err(e),
        };
        match n.checked_mul(elem_size as u64) {
            Some(need) => {
                if need <= self.remaining() as u64 {
                    assert(n <= n * elem_size) by (nonlinear_arith)
                        requires
                            elem_size >= 1,
                    ;
                    return Ok(n as usize);
                }
            },
            None => {},
        }
        Err(GgufError::ImplausibleCount { what, count: n, remaining: self.remaining() })
    }
}

} // verus!
