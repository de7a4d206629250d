//! The mapping of all 256 byte values onto printable characters.
//!
//! Bytes that are printable ASCII or Latin-1 stand for themselves; the other 68
//! are moved up, in ascending order, to U+0100 and onwards.  Every token string of
//! a vocabulary is written in this alphabet, so text is mapped into it before any
//! lookup and out of it after decoding.
use super::classes;
use crate::text;
use vstd::prelude::*;
use vstd::utf8::*;

verus! {

/// The bytes that stand for themselves.
pub open spec fn passthrough(b: u8) -> bool {
    0x21 <= b <= 0x7e || 0xa1 <= b <= 0xac || 0xae <= b
}

/// The code point that stands for a byte.
pub open spec fn mapped_point(b: u8) -> u32 {
    if passthrough(b) {
        b as u32
    } else if b <= 0x20 {
        (0x100 + b) as u32
    } else if b <= 0xa0 {
        (0x121 + (b - 0x7f)) as u32
    } else {
        0x143
    }
}

/// The character that stands for a byte.
pub open spec fn mapped(b: u8) -> char {
    mapped_point(b) as char
}

/// The byte that a character stands for, if it stands for one.
pub open spec fn unmapped(c: char) -> Option<u8> {
    let p = c as u32;
    if p <= 0xff && passthrough(p as u8) {
        Some(p as u8)
    } else if 0x100 <= p <= 0x120 {
        Some((p - 0x100) as u8)
    } else if 0x121 <= p <= 0x142 {
        Some((p - 0x121 + 0x7f) as u8)
    } else if p == 0x143 {
        Some(0xadu8)
    } else {
        None
    }
}

/// Bytes in the mapped alphabet.
pub open spec fn map_bytes(bytes: Seq<u8>) -> Seq<char> {
    Seq::new(bytes.len(), |i: int| mapped(bytes[i]))
}

/// The bytes that characters stand for; characters that stand for none are left out.
pub open spec fn unmap_chars(s: Seq<char>) -> Seq<u8>
    decreases s.len(),
{
    if s.len() == 0 {
        Seq::empty()
    } else {
        let rest = unmap_chars(s.drop_last());
        match unmapped(s.last()) {
            Some(b) => rest.push(b),
            None => rest,
        }
    }
}

/// Every character stands for a byte.
pub open spec fn all_mapped(s: Seq<char>) -> bool {
    forall|i: int| 0 <= i < s.len() ==> unmapped(#[trigger] s[i]) is Some
}

/// The mapping is a bijection: a character stands for a byte exactly when the byte
/// maps to it.
pub proof fn law_mapping_is_a_bijection(b: u8, c: char)
    ensures
        unmapped(c) == Some(b) <==> mapped(b) == c,
{
    char_is_scalar(c);
    assert(mapped(b) as u32 == mapped_point(b));
}

/// Printable ASCII, and printable Latin-1 without the soft hyphen.
pub open spec fn printable(b: int) -> bool {
    33 <= b <= 126 || 161 <= b <= 172 || 174 <= b <= 255
}

/// How many of the bytes below `n` are not printable.
pub open spec fn moved_below(n: nat) -> nat
    decreases n,
{
    if n == 0 {
        0
    } else {
        moved_below((n - 1) as nat) + (if printable(n - 1) {
            0nat
        } else {
            1nat
        })
    }
}

proof fn lemma_moved_below(n: nat)
    requires
        n <= 256,
    ensures
        moved_below(n) == (if n <= 33 {
            n as int
        } else if n <= 127 {
            33
        } else if n <= 161 {
            n - 94
        } else if n <= 173 {
            67
        } else {
            68
        }),
    decreases n,
{
    if n > 0 {
        lemma_moved_below((n - 1) as nat);
    }
}

/// A printable byte stands for itself; the others are moved up in ascending order, to U+0100
/// and onwards.
pub proof fn law_other_bytes_are_moved_up_in_order(b: u8)
    ensures
        mapped(b) as int == (if printable(b as int) {
            b as int
        } else {
            0x100 + moved_below(b as nat) as int
        }),
{
    lemma_moved_below(b as nat);
    assert(mapped(b) as u32 == mapped_point(b));
}

/// No mapped character is white space.
pub proof fn law_mapped_is_not_whitespace(b: u8)
    ensures
        !classes::whitespace(mapped(b)),
{
    reveal(classes::spaces);
    assert(mapped(b) as u32 == mapped_point(b));
    let t = classes::spaces();
    assert forall|k: int| 0 <= k < t.len() implies !((#[trigger] t[k]).0 <= mapped_point(b) <= t[k].1) by {}
}

/// Unmapping goes through a text piece by piece.
pub proof fn lemma_unmap_concat(a: Seq<char>, b: Seq<char>)
    ensures
        unmap_chars(a + b) == unmap_chars(a) + unmap_chars(b),
    decreases b.len(),
{
    if b.len() == 0 {
        assert(a + b =~= a);
    } else {
        lemma_unmap_concat(a, b.drop_last());
        assert((a + b).drop_last() =~= a + b.drop_last());
    }
}

/// Unmapping undoes mapping.
pub proof fn law_unmap_undoes_map(bytes: Seq<u8>)
    ensures
        unmap_chars(map_bytes(bytes)) == bytes,
        all_mapped(map_bytes(bytes)),
    decreases bytes.len(),
{
    if bytes.len() > 0 {
        law_unmap_undoes_map(bytes.drop_last());
        assert(map_bytes(bytes).drop_last() =~= map_bytes(bytes.drop_last()));
        law_mapping_is_a_bijection(bytes.last(), mapped(bytes.last()));
        assert(bytes =~= bytes.drop_last().push(bytes.last()));
    }
    assert forall|i: int| 0 <= i < bytes.len() implies unmapped(
        #[trigger] map_bytes(bytes)[i],
    ) is Some by {
        law_mapping_is_a_bijection(bytes[i], mapped(bytes[i]));
    }
}

/// Map one byte to its stand-in character.
pub fn byte_to_char(b: u8) -> (r: char)
    ensures
        r == mapped(b),
{
    if (0x21 <= b && b <= 0x7e) || (0xa1 <= b && b <= 0xac) || 0xae <= b {
        return b as char;
    }
    let p: u32 = if b <= 0x20 {
        0x100 + b as u32
    } else if b <= 0xa0 {
        0x121 + (b as u32 - 0x7f)
    } else {
        0x143
    };
    match char::from_u32(p) {
        Some(c) => {
            proof {
                char_u32_cast(c, p);
            }
            c
        },
        None => '?',
    }
}

/// Map a stand-in character back to its byte, if it is one.
pub fn char_to_byte(c: char) -> (r: Option<u8>)
    ensures
        r == unmapped(c),
{
    let p: u32 = c as u32;
    if (0x21 <= p && p <= 0x7e) || (0xa1 <= p && p <= 0xac) || (0xae <= p && p <= 0xff) {
        Some(p as u8)
    } else if 0x100 <= p && p <= 0x120 {
        Some((p - 0x100) as u8)
    } else if 0x121 <= p && p <= 0x142 {
        Some((p - 0x121 + 0x7f) as u8)
    } else if p == 0x143 {
        Some(0xad)
    } else {
        None
    }
}

/// Encode raw bytes into the mapped alphabet, appending to `out`.
pub fn encode_into(bytes: &[u8], out: &mut String)
    ensures
        final(out)@ == old(out)@ + map_bytes(bytes@),
{
    let ghost start = out@;
    let mut i: usize = 0;
    assert(out@ =~= start + map_bytes(bytes@.take(0)));
    while i < bytes.len()
        invariant
            i <= bytes@.len(),
            start == old(out)@,
            out@ == start + map_bytes(bytes@.take(i as int)),
        decreases bytes.len() - i,
    {
        out.push(byte_to_char(bytes[i]));
        i += 1;
        assert(out@ =~= start + map_bytes(bytes@.take(i as int)));
    }
    assert(bytes@.take(i as int) =~= bytes@);
}

/// Decode mapped characters back to raw bytes, appending to `out`.
///
/// Returns `false` if any character was not part of the mapping.
pub fn decode_into(s: &str, out: &mut Vec<u8>) -> (ok: bool)
    ensures
        final(out)@ == old(out)@ + unmap_chars(s@),
        ok == all_mapped(s@),
{
    let cs = text::chars_of(s);
    let ghost start = out@;
    let mut ok = true;
    let mut i: usize = 0;
    assert(out@ =~= start + unmap_chars(cs@.take(0)));
    while i < cs.len()
        invariant
            i <= cs@.len(),
            start == old(out)@,
            cs@ == s@,
            out@ == start + unmap_chars(cs@.take(i as int)),
            ok == all_mapped(cs@.take(i as int)),
        decreases cs.len() - i,
    {
        let ghost t = cs@.take(i + 1);
        assert(t.drop_last() =~= cs@.take(i as int));
        assert(t.last() == cs@[i as int]);
        match char_to_byte(cs[i]) {
            Some(b) => {
                out.push(b);
            },
            None => {
                ok = false;
                assert(unmapped(t[i as int]) is None);
            },
        }
        assert(ok == all_mapped(t)) by {
            if ok {
                assert forall|k: int| 0 <= k < t.len() implies unmapped(#[trigger] t[k]) is Some by {
                    if k < i {
                        assert(t[k] == cs@.take(i as int)[k]);
                    }
                }
            } else if unmapped(t[i as int]) is Some {
                let k = choose|k: int|
                    0 <= k < i && unmapped(#[trigger] cs@.take(i as int)[k]) is None;
                assert(unmapped(t[k]) is None);
            }
        }
        assert(out@ =~= start + unmap_chars(t));
        i += 1;
    }
    assert(cs@.take(i as int) =~= cs@);
    ok
}

} // verus!
