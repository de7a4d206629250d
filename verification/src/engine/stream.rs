//! Text that arrives in pieces of bytes.
//!
//! A token can be a part of a character, so bytes are held back until they form text.
use crate::text;
use vstd::prelude::*;
use vstd::utf8::*;

verus! {

/// How many bytes a character takes, by its first byte; 0 where none starts with it.
pub open spec fn width_of(first: u8) -> int {
    if first <= 0x7f {
        1
    } else if 0xc2 <= first <= 0xdf {
        2
    } else if 0xe0 <= first <= 0xef {
        3
    } else if 0xf0 <= first <= 0xf4 {
        4
    } else {
        0
    }
}

/// A byte that can follow the first of a character.
pub open spec fn second_fits(first: u8, second: u8) -> bool {
    if first == 0xe0 {
        0xa0 <= second <= 0xbf
    } else if first == 0xed {
        0x80 <= second <= 0x9f
    } else if first == 0xf0 {
        0x90 <= second <= 0xbf
    } else if first == 0xf4 {
        0x80 <= second <= 0x8f
    } else {
        0x80 <= second <= 0xbf
    }
}

/// What stands at the front of some bytes.
#[derive(Debug, Clone, Copy, PartialEq, Eq, Structural)]
pub enum Front {
    /// A character of so many bytes.
    Char(usize),
    /// The beginning of a character, and nothing behind it.
    Incomplete,
    /// So many bytes that begin no character.
    Bad(usize),
}

/// What stands at the front of some bytes.
pub open spec fn front(b: Seq<u8>) -> Front {
    let w = width_of(b[0]);
    if w == 0 {
        Front::Bad(1)
    } else if w == 1 {
        Front::Char(1)
    } else if b.len() < 2 {
        Front::Incomplete
    } else if !second_fits(b[0], b[1]) {
        Front::Bad(1)
    } else if w == 2 {
        Front::Char(2)
    } else if b.len() < 3 {
        Front::Incomplete
    } else if !is_continuation_byte(b[2]) {
        Front::Bad(2)
    } else if w == 3 {
        Front::Char(3)
    } else if b.len() < 4 {
        Front::Incomplete
    } else if !is_continuation_byte(b[3]) {
        Front::Bad(3)
    } else {
        Front::Char(4)
    }
}

/// A character stands at the front exactly where the bytes start with an encoded one.
proof fn lemma_front(b: Seq<u8>)
    requires
        b.len() > 0,
    ensures
        valid_first_scalar(b) <==> front(b) is Char,
        front(b) matches Front::Char(n) ==> n == length_of_first_scalar(b) && n <= b.len(),
{
    let x = b[0];
    if is_leading_byte_width_1(x) {
        assert((x & 0x7f) < 0x80) by (bit_vector);
    } else if is_leading_byte_width_2(x) {
        if b.len() >= 2 && is_continuation_byte(b[1]) {
            let y = b[1];
            let p = codepoint_width_2(x, y);
            assert((((x & 0x1f) as u32) << 6) | ((y & 0x3f) as u32) >= 0x80 <==> x >= 0xc2)
                by (bit_vector)
                requires
                    0xc0 <= x <= 0xdf,
                    0x80 <= y <= 0xbf,
            ;
            assert((((x & 0x1f) as u32) << 6) | ((y & 0x3f) as u32) < 0x800) by (bit_vector);
        }
    } else if is_leading_byte_width_3(x) {
        if b.len() >= 3 && is_continuation_byte(b[1]) && is_continuation_byte(b[2]) {
            let y = b[1];
            let z = b[2];
            assert({
                let p = (((x & 0x0f) as u32) << 12) | (((y & 0x3f) as u32) << 6) | ((z & 0x3f) as u32);
                (p >= 0x800 <==> !(x == 0xe0 && y < 0xa0)) && ((0xd800 <= p <= 0xdfff) <==> (x
                    == 0xed && y > 0x9f))
            }) by (bit_vector)
                requires
                    0xe0 <= x <= 0xef,
                    0x80 <= y <= 0xbf,
                    0x80 <= z <= 0xbf,
            ;
        }
    } else if is_leading_byte_width_4(x) {
        if b.len() >= 4 && is_continuation_byte(b[1]) && is_continuation_byte(b[2])
            && is_continuation_byte(b[3]) {
            let y = b[1];
            let z = b[2];
            let w = b[3];
            assert({
                let p = (((x & 0x07) as u32) << 18) | (((y & 0x3f) as u32) << 12) | (((z & 0x3f) as u32)
                    << 6) | ((w & 0x3f) as u32);
                ((0x10000 <= p <= 0x10ffff) <==> (x <= 0xf4 && !(x == 0xf0 && y < 0x90) && !(x
                    == 0xf4 && y > 0x8f))) && (p >= 0x10000 ==> !(0xd800 <= p <= 0xdfff))
            }) by (bit_vector)
                requires
                    0xf0 <= x <= 0xf7,
                    0x80 <= y <= 0xbf,
                    0x80 <= z <= 0xbf,
                    0x80 <= w <= 0xbf,
            ;
        }
    }
}

/// How many bytes at the front are text.
pub open spec fn text_len(b: Seq<u8>) -> nat
    decreases b.len(),
{
    if b.len() == 0 {
        0
    } else {
        match front(b) {
            Front::Char(n) => if 0 < n <= b.len() {
                n as nat + text_len(b.skip(n as int))
            } else {
                0
            },
            _ => 0,
        }
    }
}

proof fn lemma_text_len(b: Seq<u8>)
    ensures
        text_len(b) <= b.len(),
        valid_utf8(b.take(text_len(b) as int)),
        text_len(b) < b.len() ==> !(front(b.skip(text_len(b) as int)) is Char),
    decreases b.len(),
{
    if b.len() == 0 {
        assert(b.take(0).len() == 0);
    } else {
        lemma_front(b);
        match front(b) {
            Front::Char(n) => {
                let rest = b.skip(n as int);
                lemma_text_len(rest);
                let m = text_len(rest) as int;
                let whole = b.take(n + m);
                lemma_front(whole);
                assert(front(whole) == front(b));
                assert(pop_first_scalar(whole) =~= rest.take(m));
                assert(b.skip(n + m) =~= rest.skip(m));
            },
            _ => {
                assert(b.take(0).len() == 0);
                assert(b.skip(0) =~= b);
            },
        }
    }
}

/// No longer piece at the front is text.
pub proof fn law_the_longest_text_is_taken(b: Seq<u8>, n: int)
    requires
        0 <= n <= b.len(),
        valid_utf8(b.take(n)),
    ensures
        n <= text_len(b) <= b.len(),
        valid_utf8(b.take(text_len(b) as int)),
    decreases b.len(),
{
    lemma_text_len(b);
    if n > 0 {
        let t = b.take(n);
        lemma_front(t);
        let k = length_of_first_scalar(t);
        assert(front(b) == front(t));
        assert(pop_first_scalar(t) =~= b.skip(k).take(n - k));
        law_the_longest_text_is_taken(b.skip(k), n - k);
    }
}

/// What is held back of some bytes: the beginning of a character, or what stands behind
/// bytes that begin none.
pub open spec fn held_back(b: Seq<u8>) -> Seq<u8> {
    let rest = b.skip(text_len(b) as int);
    if rest.len() == 0 {
        rest
    } else {
        match front(rest) {
            Front::Bad(n) => rest.skip(n as int),
            _ => rest,
        }
    }
}

/// Bytes that are not text yet.
#[derive(Debug)]
pub struct TextStream {
    pending: Vec<u8>,
}

impl View for TextStream {
    type V = Seq<u8>;

    closed spec fn view(&self) -> Seq<u8> {
        self.pending@
    }
}

fn front_of(b: &[u8]) -> (r: Front)
    requires
        b@.len() > 0,
    ensures
        r == front(b@),
{
    let x: u8 = b[0];
    if x <= 0x7f {
        return Front::Char(1);
    }
    let w: usize = if 0xc2 <= x && x <= 0xdf {
        2
    } else if 0xe0 <= x && x <= 0xef {
        3
    } else if 0xf0 <= x && x <= 0xf4 {
        4
    } else {
        return Front::Bad(1);
    };
    if b.len() < 2 {
        return Front::Incomplete;
    }
    let y: u8 = b[1];
    let low: u8 = if x == 0xe0 {
        0xa0
    } else if x == 0xf0 {
        0x90
    } else {
        0x80
    };
    let high: u8 = if x == 0xed {
        0x9f
    } else if x == 0xf4 {
        0x8f
    } else {
        0xbf
    };
    if y < low || y > high {
        return Front::Bad(1);
    }
    if w == 2 {
        return Front::Char(2);
    }
    if b.len() < 3 {
        return Front::Incomplete;
    }
    if b[2] < 0x80 || b[2] > 0xbf {
        return Front::Bad(2);
    }
    if w == 3 {
        return Front::Char(3);
    }
    if b.len() < 4 {
        return Front::Incomplete;
    }
    if b[3] < 0x80 || b[3] > 0xbf {
        return Front::Bad(3);
    }
    Front::Char(4)
}

/// How many bytes at the front are text.
fn count_text(b: &[u8]) -> (r: usize)
    ensures
        r == text_len(b@),
{
    let mut i: usize = 0;
    assert(b@.skip(0) =~= b@);
    while i < b.len()
        invariant
            i <= b@.len(),
            text_len(b@) == i + text_len(b@.skip(i as int)),
        decreases b.len() - i,
    {
        let rest = vstd::slice::slice_subrange(b, i, b.len());
        assert(rest@ =~= b@.skip(i as int));
        proof {
            lemma_front(rest@);
        }
        match front_of(rest) {
            Front::Char(n) => {
                assert(rest@.skip(n as int) =~= b@.skip(i + n));
                i = i + n;
            },
            _ => {
                return i;
            },
        }
    }
    i
}

/// A copy of `b[from..]`.
fn tail(b: &[u8], from: usize) -> (r: Vec<u8>)
    requires
        from <= b@.len(),
    ensures
        r@ == b@.skip(from as int),
{
    let mut v: Vec<u8> = Vec::new();
    let mut i: usize = from;
    while i < b.len()
        invariant
            from <= i <= b@.len(),
            v@ == b@.subrange(from as int, i as int),
        decreases b.len() - i,
    {
        v.push(b[i]);
        i += 1;
        assert(v@ =~= b@.subrange(from as int, i as int));
    }
    assert(v@ =~= b@.skip(from as int));
    v
}

impl TextStream {
    pub fn new() -> (r: Self)
        ensures
            r@.len() == 0,
    {
        TextStream { pending: Vec::new() }
    }

    /// Forget what is held back.
    pub fn clear(&mut self)
        ensures
            final(self)@.len() == 0,
    {
        self.pending = Vec::new();
    }

    /// Take bytes, and give the text that is complete.
    ///
    /// Often that is empty: a token can be a part of a character.  Bytes that can begin
    /// no character are dropped, or nothing behind them would ever come out.
    pub fn push(&mut self, bytes: &[u8]) -> (r: String)
        requires
            old(self)@.len() + bytes@.len() <= usize::MAX,
        ensures
            ({
                let all = old(self)@ + bytes@;
                &&& encode_utf8(r@) == all.take(text_len(all) as int)
                &&& final(self)@ == held_back(all)
            }),
    {
        let ghost all = self@ + bytes@;
        let mut i: usize = 0;
        assert(self.pending@ =~= self@ + bytes@.take(0));
        while i < bytes.len()
            invariant
                i <= bytes@.len(),
                self.pending@ == old(self)@ + bytes@.take(i as int),
            decreases bytes.len() - i,
        {
            self.pending.push(bytes[i]);
            i += 1;
            assert(self.pending@ =~= old(self)@ + bytes@.take(i as int));
        }
        assert(self.pending@ =~= all);
        let n: usize = count_text(self.pending.as_slice());
        proof {
            lemma_text_len(all);
        }
        let out = match text::utf8_text(
            vstd::slice::slice_subrange(self.pending.as_slice(), 0, n),
        ) {
            Some(t) => t.to_owned(),
            None => String::new(),
        };
        let rest = tail(self.pending.as_slice(), n);
        let dropped: usize = if rest.len() == 0 {
            0
        } else {
            match front_of(rest.as_slice()) {
                Front::Bad(k) => k,
                _ => 0,
            }
        };
        assert(rest@.skip(0) =~= rest@);
        self.pending = tail(rest.as_slice(), dropped);
        out
    }
}

/// What a stream has given and what it holds back, after the first `n` pieces.
pub open spec fn streamed(pieces: Seq<Seq<u8>>, n: nat) -> (Seq<u8>, Seq<u8>)
    decreases n,
{
    if n == 0 {
        (Seq::empty(), Seq::empty())
    } else {
        let (given, held) = streamed(pieces, (n - 1) as nat);
        let all = held + pieces[n - 1];
        (given + all.take(text_len(all) as int), held_back(all))
    }
}

/// The first `n` pieces in a row.
pub open spec fn joined(pieces: Seq<Seq<u8>>, n: nat) -> Seq<u8>
    decreases n,
{
    if n == 0 {
        Seq::empty()
    } else {
        joined(pieces, (n - 1) as nat) + pieces[n - 1]
    }
}

/// The front of text is text, up to an incomplete character.
proof fn lemma_front_of_text(whole: Seq<u8>, n: int)
    requires
        valid_utf8(whole),
        0 <= n <= whole.len(),
    ensures
        held_back(whole.take(n)) == whole.take(n).skip(text_len(whole.take(n)) as int),
        n == whole.len() ==> text_len(whole.take(n)) == n,
        text_len(whole.take(n)) <= n,
        valid_utf8(whole.skip(text_len(whole.take(n)) as int)),
        text_len(whole.take(n)) < n ==> n - text_len(whole.take(n)) < length_of_first_scalar(
            whole.skip(text_len(whole.take(n)) as int),
        ),
    decreases whole.len(),
{
    let b = whole.take(n);
    if n > 0 {
        lemma_front(whole);
        lemma_front(b);
        let k = length_of_first_scalar(whole);
        if k <= n {
            assert(front(b) == front(whole));
            let rest = pop_first_scalar(whole);
            lemma_front_of_text(rest, n - k);
            assert(rest.take(n - k) =~= b.skip(k));
            lemma_text_len(b.skip(k));
            let m = text_len(b.skip(k)) as int;
            assert(text_len(b) == k + m);
            assert(b.skip(k).skip(m) =~= b.skip(k + m));
            assert(rest.skip(m) =~= whole.skip(k + m));
        } else {
            assert(front(b) == Front::Incomplete);
            assert(text_len(b) == 0);
            assert(b.skip(0) =~= b);
            assert(whole.skip(0) =~= whole);
        }
    } else {
        assert(whole.skip(0) =~= whole);
    }
}

/// Where the text taken from the front ends, taking goes on.
proof fn lemma_text_goes_on(a: Seq<u8>, more: Seq<u8>)
    requires
        held_back(a) == a.skip(text_len(a) as int),
    ensures
        text_len(a + more) == text_len(a) + text_len(held_back(a) + more),
        (a + more).skip(text_len(a) as int) == held_back(a) + more,
    decreases a.len(),
{
    lemma_text_len(a);
    assert((a + more).skip(text_len(a) as int) =~= a.skip(text_len(a) as int) + more);
    if a.len() == 0 {
        assert(a + more =~= held_back(a) + more);
    } else {
        lemma_front(a);
        match front(a) {
            Front::Char(n) => {
                let rest = a.skip(n as int);
                lemma_text_len(rest);
                assert(rest.skip(text_len(rest) as int) =~= a.skip(text_len(a) as int));
                assert(held_back(rest) == held_back(a));
                lemma_text_goes_on(rest, more);
                assert(front(a + more) == front(a));
                assert((a + more).skip(n as int) =~= rest + more);
            },
            _ => {
                assert(text_len(a) == 0);
                assert(a.skip(0) =~= a);
            },
        }
    }
}

/// Text that arrives in pieces comes out whole, however it was cut: nothing is lost,
/// nothing is held back at the end, and nothing comes out of order.
pub proof fn law_streamed_text_is_the_text(pieces: Seq<Seq<u8>>, n: nat)
    requires
        n <= pieces.len(),
        valid_utf8(joined(pieces, n)),
    ensures
        streamed(pieces, n) == (joined(pieces, n), Seq::<u8>::empty()),
{
    let whole = joined(pieces, n);
    lemma_streamed(pieces, whole, n, n);
    lemma_front_of_text(whole, whole.len() as int);
    assert(whole.take(whole.len() as int) =~= whole);
    assert(whole.skip(whole.len() as int) =~= Seq::empty());
}

/// The beginning of a character, and not all of it.
pub open spec fn begins_a_char(b: Seq<u8>) -> bool {
    exists|c: char|
        b.len() < encode_utf8(seq![c]).len() && #[trigger] encode_utf8(seq![c]).take(
            b.len() as int,
        ) == b
}

/// After each piece of text, what was given is text, and together with what is held back
/// it is what has arrived; and at most three bytes are held back, the beginning of one
/// character.
pub proof fn law_nothing_is_lost_on_the_way(pieces: Seq<Seq<u8>>, m: nat, n: nat)
    requires
        m <= n <= pieces.len(),
        valid_utf8(joined(pieces, n)),
    ensures
        ({
            let (given, held) = streamed(pieces, m);
            &&& given + held == joined(pieces, m)
            &&& valid_utf8(given)
            &&& held.len() <= 3
            &&& held.len() > 0 ==> begins_a_char(held)
        }),
{
    let whole = joined(pieces, n);
    let b = joined(pieces, m);
    let t = text_len(b) as int;
    lemma_streamed(pieces, whole, m, n);
    lemma_joined_is_a_prefix(pieces, m, n);
    lemma_front_of_text(whole, b.len() as int);
    lemma_text_len(b);
    let held = b.skip(t);
    assert(b.take(t) + held =~= b);
    if held.len() > 0 {
        let rest = whole.skip(t);
        lemma_front(rest);
        let k = length_of_first_scalar(rest);
        lemma_first_char(rest);
        let c = decode_utf8(rest)[0];
        assert(encode_utf8(seq![c]) == rest.take(k));
        assert(rest.take(k).take(held.len() as int) =~= held);
    }
}

/// The first character of text, and its bytes.
proof fn lemma_first_char(b: Seq<u8>)
    requires
        valid_utf8(b),
        b.len() > 0,
    ensures
        encode_utf8(seq![decode_utf8(b)[0]]) == b.take(length_of_first_scalar(b)),
        length_of_first_scalar(b) <= 4,
{
    let c = decode_utf8(b)[0];
    decode_utf8_first_scalar(b);
    reveal_with_fuel(encode_utf8, 2);
    assert(seq![c].drop_first() =~= Seq::empty());
    assert(encode_utf8(seq![c]) =~= encode_scalar(c as u32));
    assert(take_first_scalar(b) =~= b.take(length_of_first_scalar(b)));
}

proof fn lemma_joined_is_a_prefix(pieces: Seq<Seq<u8>>, m: nat, n: nat)
    requires
        m <= n,
    ensures
        joined(pieces, m).len() <= joined(pieces, n).len(),
        joined(pieces, n).take(joined(pieces, m).len() as int) == joined(pieces, m),
    decreases n,
{
    if m < n {
        lemma_joined_is_a_prefix(pieces, m, (n - 1) as nat);
    }
    assert(joined(pieces, n).take(joined(pieces, m).len() as int) =~= joined(pieces, m));
}

proof fn lemma_streamed(pieces: Seq<Seq<u8>>, whole: Seq<u8>, m: nat, n: nat)
    requires
        m <= n,
        whole == joined(pieces, n),
        valid_utf8(whole),
    ensures
        ({
            let b = joined(pieces, m);
            streamed(pieces, m) == (b.take(text_len(b) as int), b.skip(text_len(b) as int))
        }),
    decreases m,
{
    if m == 0 {
        assert(joined(pieces, 0).take(0) =~= Seq::empty());
        assert(joined(pieces, 0).skip(0) =~= Seq::empty());
    } else {
        let a = joined(pieces, (m - 1) as nat);
        let b = joined(pieces, m);
        lemma_streamed(pieces, whole, (m - 1) as nat, n);
        lemma_joined_is_a_prefix(pieces, (m - 1) as nat, n);
        lemma_joined_is_a_prefix(pieces, m, n);
        lemma_front_of_text(whole, a.len() as int);
        lemma_front_of_text(whole, b.len() as int);
        lemma_text_goes_on(a, pieces[m - 1]);
        lemma_text_len(a);
        lemma_text_len(b);
        let all = held_back(a) + pieces[m - 1];
        lemma_text_len(all);
        let k = text_len(a) as int;
        let j = text_len(all) as int;
        assert(b.skip(k) == all);
        assert(b.take(k + j) =~= a.take(k) + all.take(j));
        assert(b.skip(k + j) =~= all.skip(j));
        lemma_held_of_rest(b, k);
    }
}

/// What is held back depends on what is left alone.
proof fn lemma_held_of_rest(b: Seq<u8>, k: int)
    requires
        0 <= k <= text_len(b) <= b.len(),
        text_len(b) == k + text_len(b.skip(k)),
    ensures
        held_back(b) == held_back(b.skip(k)),
{
    let j = text_len(b.skip(k)) as int;
    assert(b.skip(k).skip(j) =~= b.skip(k + j));
}

/// The bytes that complete the beginning of a character.
spec fn completion(b: Seq<u8>) -> Seq<u8> {
    let w = width_of(b[0]);
    let second = if b[0] == 0xe0 {
        0xa0u8
    } else if b[0] == 0xf0 {
        0x90u8
    } else {
        0x80u8
    };
    Seq::new(
        w as nat,
        |i: int|
            if i < b.len() {
                b[i]
            } else if i == 1 {
                second
            } else {
                0x80u8
            },
    )
}

/// Bytes wait for more exactly where they are the beginning of a character.
proof fn lemma_waiting(b: Seq<u8>)
    requires
        b.len() > 0,
    ensures
        begins_a_char(b) <==> front(b) is Incomplete,
        begins_a_char(b) ==> b.len() <= 3,
{
    if begins_a_char(b) {
        let c = choose|c: char|
            b.len() < encode_utf8(seq![c]).len() && #[trigger] encode_utf8(seq![c]).take(
                b.len() as int,
            ) == b;
        let whole = encode_utf8(seq![c]);
        lemma_encoded_front(c);
        assert(whole.take(b.len() as int)[0] == whole[0]);
        if b.len() >= 2 {
            assert(whole.take(b.len() as int)[1] == whole[1]);
        }
        if b.len() >= 3 {
            assert(whole.take(b.len() as int)[2] == whole[2]);
        }
    }
    if front(b) is Incomplete {
        let whole = completion(b);
        assert(whole.take(b.len() as int) =~= b);
        assert(front(whole) is Char);
        lemma_front(whole);
        assert(pop_first_scalar(whole).len() == 0);
        assert(valid_utf8(whole)) by {
            reveal_with_fuel(valid_utf8, 2);
        }
        lemma_first_char(whole);
        let c = decode_utf8(whole)[0];
        assert(whole.take(length_of_first_scalar(whole)) =~= whole);
        assert(encode_utf8(seq![c]).take(b.len() as int) == b);
    }
}

/// What stands at the front of a character's bytes.
proof fn lemma_encoded_front(c: char)
    ensures
        encode_utf8(seq![c]).len() > 0,
        front(encode_utf8(seq![c])) == Front::Char(encode_utf8(seq![c]).len() as usize),
        encode_utf8(seq![c]).len() <= 4,
{
    let whole = encode_utf8(seq![c]);
    encode_utf8_valid_utf8(seq![c]);
    encode_utf8_decode_utf8(seq![c]);
    reveal_with_fuel(encode_utf8, 2);
    assert(seq![c].drop_first() =~= Seq::empty());
    assert(whole =~= encode_scalar(c as u32));
    lemma_first_char(whole);
    assert(decode_utf8(whole)[0] == c);
    lemma_front(whole);
    assert(whole.take(length_of_first_scalar(whole)) == whole);
}

/// Behind the text, the beginning of a character is held back.  Where something else stands
/// there, the longest part of it that begins a character is dropped, and one byte where none
/// does; the rest is held back.
pub proof fn law_bytes_that_begin_nothing_are_dropped(b: Seq<u8>) -> (dropped: int)
    ensures
        ({
            let rest = b.skip(text_len(b) as int);
            &&& held_back(b) == rest.skip(dropped)
            &&& 0 <= dropped <= 3
            &&& dropped <= rest.len()
            &&& dropped == 0 <==> rest.len() == 0 || begins_a_char(rest)
            &&& dropped > 1 ==> begins_a_char(rest.take(dropped))
            &&& dropped > 0 ==> forall|j: int|
                0 < j <= rest.len() && #[trigger] begins_a_char(rest.take(j)) ==> j <= dropped
        }),
{
    lemma_text_len(b);
    let rest = b.skip(text_len(b) as int);
    if rest.len() == 0 {
        assert(rest.skip(0) =~= rest);
        0
    } else {
        lemma_waiting(rest);
        match front(rest) {
            Front::Bad(n) => {
                if n > 1 {
                    lemma_waiting(rest.take(n as int));
                }
                assert forall|j: int| 0 < j <= rest.len() && #[trigger] begins_a_char(
                    rest.take(j),
                ) implies j <= n by {
                    lemma_waiting(rest.take(j));
                }
                n as int
            },
            _ => {
                assert(rest.skip(0) =~= rest);
                0
            },
        }
    }
}

} // verus!
