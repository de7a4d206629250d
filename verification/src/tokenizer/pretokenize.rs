//! The pre-tokenizer: it splits text into the pieces that merges may not cross.
//!
//! ```text
//! (?i:'s|'t|'re|'ve|'m|'ll|'d)
//! | [^\r\n\p{L}\p{N}]?\p{L}+
//! | \p{N}
//! | ?[^\s\p{L}\p{N}]+[\r\n]*
//! | \s*[\r\n]+
//! | \s+(?!\S)
//! | \s+
//! ```
//!
//! At each position the first alternative that matches wins, and each is greedy
//! within itself.
use super::classes;
use super::classes::{is_letter, is_number, is_whitespace};
use crate::text;
use core::ops::Range;
use vstd::prelude::*;
use vstd::utf8::*;

verus! {

/// A line break character.
pub open spec fn crlf(c: char) -> bool {
    c == '\r' || c == '\n'
}

/// `[^\s\p{L}\p{N}]`: punctuation and symbols.
pub open spec fn other(c: char) -> bool {
    !classes::whitespace(c) && !classes::letter(c) && !classes::number(c)
}

/// The end of the longest run from `i` on of characters of a class.
pub open spec fn run_end(cs: Seq<char>, i: int, class: spec_fn(char) -> bool) -> int
    decreases cs.len() - i,
{
    if 0 <= i < cs.len() && class(cs[i]) {
        run_end(cs, i + 1, class)
    } else {
        i
    }
}

/// One past the last line break in `cs[i..end]`, or `i` where there is none.
pub open spec fn last_break_end(cs: Seq<char>, i: int, end: int) -> int
    decreases end - i,
{
    if end <= i {
        i
    } else if crlf(cs[end - 1]) {
        end
    } else {
        last_break_end(cs, i, end - 1)
    }
}

/// `c` is the given ASCII letter, in lower or upper case.
pub open spec fn same_letter(c: char, lower: char, upper: char) -> bool {
    c == lower || c == upper
}

/// `(?i:'s|'t|'re|'ve|'m|'ll|'d)`: where it ends, or `i` where it does not match.
pub open spec fn contraction_end(cs: Seq<char>, i: int) -> int {
    if cs[i] != '\'' || i + 1 >= cs.len() {
        i
    } else {
        let c = cs[i + 1];
        if same_letter(c, 's', 'S') || same_letter(c, 't', 'T') || same_letter(c, 'm', 'M')
            || same_letter(c, 'd', 'D') {
            i + 2
        } else if i + 2 < cs.len() && ((same_letter(c, 'r', 'R') || same_letter(c, 'v', 'V'))
            && same_letter(cs[i + 2], 'e', 'E') || same_letter(c, 'l', 'L') && same_letter(
            cs[i + 2],
            'l',
            'L',
        )) {
            i + 3
        } else {
            i
        }
    }
}

/// `[^\r\n\p{L}\p{N}]?\p{L}+`: where it ends, or `i` where it does not match.
pub open spec fn word_end(cs: Seq<char>, i: int) -> int {
    if !crlf(cs[i]) && !classes::letter(cs[i]) && !classes::number(cs[i]) && i + 1 < cs.len()
        && classes::letter(cs[i + 1]) {
        run_end(cs, i + 1, |c: char| classes::letter(c))
    } else {
        run_end(cs, i, |c: char| classes::letter(c))
    }
}

/// ` ?[^\s\p{L}\p{N}]+[\r\n]*`: where it ends, or `i` where it does not match.
pub open spec fn punctuation_end(cs: Seq<char>, i: int) -> int {
    let body = if cs[i] == ' ' {
        i + 1
    } else {
        i
    };
    let end = run_end(cs, body, |c: char| other(c));
    if end > body {
        run_end(cs, end, |c: char| crlf(c))
    } else {
        i
    }
}

/// `\s*[\r\n]+|\s+(?!\S)|\s+`: a run of white space ends behind its last line
/// break; without one it runs to the end of the text, or leaves its last character
/// to the word that follows, if it has more than one.
pub open spec fn space_end(cs: Seq<char>, i: int) -> int {
    let end = run_end(cs, i, |c: char| classes::whitespace(c));
    let lines = last_break_end(cs, i, end);
    if lines > i {
        lines
    } else if end == cs.len() || end - 1 <= i {
        end
    } else {
        end - 1
    }
}

/// Where the piece that starts at `i` ends.
pub open spec fn piece_end(cs: Seq<char>, i: int) -> int {
    if contraction_end(cs, i) > i {
        contraction_end(cs, i)
    } else if word_end(cs, i) > i {
        word_end(cs, i)
    } else if classes::number(cs[i]) {
        i + 1
    } else if punctuation_end(cs, i) > i {
        punctuation_end(cs, i)
    } else {
        space_end(cs, i)
    }
}

/// The pieces of `cs[i..]`, as pairs of start and end.
pub open spec fn pieces_from(cs: Seq<char>, i: int) -> Seq<(int, int)>
    decreases cs.len() - i,
{
    if 0 <= i < cs.len() {
        proof {
            lemma_piece_end(cs, i);
        }
        seq![(i, piece_end(cs, i))] + pieces_from(cs, piece_end(cs, i))
    } else {
        Seq::empty()
    }
}

/// The pieces of a text, as pairs of start and end.
pub open spec fn pieces(cs: Seq<char>) -> Seq<(int, int)> {
    pieces_from(cs, 0)
}

proof fn lemma_run_end(cs: Seq<char>, i: int, class: spec_fn(char) -> bool)
    requires
        0 <= i <= cs.len(),
    ensures
        i <= run_end(cs, i, class) <= cs.len(),
        i < cs.len() && class(cs[i]) ==> i < run_end(cs, i, class),
    decreases cs.len() - i,
{
    if i < cs.len() && class(cs[i]) {
        lemma_run_end(cs, i + 1, class);
    }
}

proof fn lemma_last_break_end(cs: Seq<char>, i: int, end: int)
    ensures
        last_break_end(cs, i, end) == i || i < last_break_end(cs, i, end) <= end,
    decreases end - i,
{
    if end > i && !crlf(cs[end - 1]) {
        lemma_last_break_end(cs, i, end - 1);
    }
}

/// Every piece holds at least one character and ends inside the text.
pub proof fn lemma_piece_end(cs: Seq<char>, i: int)
    requires
        0 <= i < cs.len(),
    ensures
        i < piece_end(cs, i) <= cs.len(),
{
    let letters = |c: char| classes::letter(c);
    let others = |c: char| other(c);
    let breaks = |c: char| crlf(c);
    let spaces = |c: char| classes::whitespace(c);
    lemma_run_end(cs, i, letters);
    if i + 1 <= cs.len() {
        lemma_run_end(cs, i + 1, letters);
        lemma_run_end(cs, i + 1, others);
        lemma_run_end(cs, run_end(cs, i + 1, others), breaks);
    }
    lemma_run_end(cs, i, others);
    lemma_run_end(cs, run_end(cs, i, others), breaks);
    lemma_run_end(cs, i, spaces);
    lemma_last_break_end(cs, i, run_end(cs, i, spaces));
    if cs[i] == ' ' {
        assert(classes::whitespace(' ')) by {
            reveal(classes::spaces);
            assert(classes::spaces()[1] == (0x20u32, 0x20u32));
        }
    }
}

/// The pieces cover the text exactly once: each starts where the one before it
/// ended, the first at the start of the text and the last ending with it, and none
/// is empty.
pub proof fn law_pieces_cover_the_text(cs: Seq<char>)
    ensures
        cs.len() > 0 ==> pieces(cs).len() > 0 && pieces(cs)[0].0 == 0 && pieces(cs).last().1
            == cs.len(),
        cs.len() == 0 ==> pieces(cs).len() == 0,
        forall|k: int|
            0 <= k < pieces(cs).len() ==> 0 <= (#[trigger] pieces(cs)[k]).0 < pieces(cs)[k].1
                <= cs.len(),
        forall|k: int, l: int|
            0 <= k < l < pieces(cs).len() && l == k + 1 ==> (#[trigger] pieces(cs)[k]).1 == (
            #[trigger] pieces(cs)[l]).0,
{
    lemma_pieces_cover(cs, 0);
}

proof fn lemma_pieces_cover(cs: Seq<char>, i: int)
    requires
        0 <= i <= cs.len(),
    ensures
        ({
            let p = pieces_from(cs, i);
            &&& i < cs.len() ==> p.len() > 0 && p[0].0 == i && p.last().1 == cs.len()
            &&& i == cs.len() ==> p.len() == 0
            &&& forall|k: int| 0 <= k < p.len() ==> i <= (#[trigger] p[k]).0 < p[k].1 <= cs.len()
            &&& forall|k: int, l: int|
                0 <= k < l < p.len() && l == k + 1 ==> (#[trigger] p[k]).1 == (#[trigger] p[l]).0
        }),
    decreases cs.len() - i,
{
    if i < cs.len() {
        lemma_piece_end(cs, i);
        let e = piece_end(cs, i);
        lemma_pieces_cover(cs, e);
        let rest = pieces_from(cs, e);
        let p = pieces_from(cs, i);
        assert(p =~= seq![(i, e)] + rest);
        assert forall|k: int| 0 <= k < p.len() implies i <= (#[trigger] p[k]).0 < p[k].1
            <= cs.len() by {
            if k > 0 {
                assert(p[k] == rest[k - 1]);
            }
        }
        assert forall|k: int, l: int| 0 <= k < l < p.len() && l == k + 1 implies (
        #[trigger] p[k]).1 == (#[trigger] p[l]).0 by {
            assert(p[l] == rest[k]);
            if k > 0 {
                assert(p[k] == rest[k - 1]);
                assert(rest[k - 1].1 == rest[k].0);
            }
        }
        if rest.len() > 0 {
            assert(p.last() == rest.last());
        }
    }
}

fn is_crlf(c: char) -> (r: bool)
    ensures
        r == crlf(c),
{
    c == '\r' || c == '\n'
}

/// True for `[^\s\p{L}\p{N}]` -- the "punctuation and symbols" class.
fn is_other(c: char) -> (r: bool)
    ensures
        r == other(c),
{
    !is_whitespace(c) && !is_letter(c) && !is_number(c)
}

/// The end of the run of letters from `i` on.
fn letters_end(cs: &[char], i: usize) -> (r: usize)
    requires
        i <= cs@.len(),
    ensures
        r == run_end(cs@, i as int, |c: char| classes::letter(c)),
        i <= r <= cs@.len(),
{
    let ghost class = |c: char| classes::letter(c);
    let mut j: usize = i;
    while j < cs.len() && is_letter(cs[j])
        invariant
            i <= j <= cs@.len(),
            class == (|c: char| classes::letter(c)),
            run_end(cs@, i as int, class) == run_end(cs@, j as int, class),
        decreases cs.len() - j,
    {
        j += 1;
    }
    j
}

/// The end of the run of punctuation and symbols from `i` on.
fn others_end(cs: &[char], i: usize) -> (r: usize)
    requires
        i <= cs@.len(),
    ensures
        r == run_end(cs@, i as int, |c: char| other(c)),
        i <= r <= cs@.len(),
{
    let ghost class = |c: char| other(c);
    let mut j: usize = i;
    while j < cs.len() && is_other(cs[j])
        invariant
            i <= j <= cs@.len(),
            class == (|c: char| other(c)),
            run_end(cs@, i as int, class) == run_end(cs@, j as int, class),
        decreases cs.len() - j,
    {
        j += 1;
    }
    j
}

/// The end of the run of line breaks from `i` on.
fn breaks_end(cs: &[char], i: usize) -> (r: usize)
    requires
        i <= cs@.len(),
    ensures
        r == run_end(cs@, i as int, |c: char| crlf(c)),
        i <= r <= cs@.len(),
{
    let ghost class = |c: char| crlf(c);
    let mut j: usize = i;
    while j < cs.len() && is_crlf(cs[j])
        invariant
            i <= j <= cs@.len(),
            class == (|c: char| crlf(c)),
            run_end(cs@, i as int, class) == run_end(cs@, j as int, class),
        decreases cs.len() - j,
    {
        j += 1;
    }
    j
}

/// The end of the run of white space from `i` on.
fn spaces_end(cs: &[char], i: usize) -> (r: usize)
    requires
        i <= cs@.len(),
    ensures
        r == run_end(cs@, i as int, |c: char| classes::whitespace(c)),
        i <= r <= cs@.len(),
{
    let ghost class = |c: char| classes::whitespace(c);
    let mut j: usize = i;
    while j < cs.len() && is_whitespace(cs[j])
        invariant
            i <= j <= cs@.len(),
            class == (|c: char| classes::whitespace(c)),
            run_end(cs@, i as int, class) == run_end(cs@, j as int, class),
        decreases cs.len() - j,
    {
        j += 1;
    }
    j
}

/// Index one past the end of the piece that starts at `i`.
pub fn next_end(cs: &[char], i: usize) -> (r: usize)
    requires
        i < cs@.len(),
    ensures
        r == piece_end(cs@, i as int),
        i < r <= cs@.len(),
{
    proof {
        lemma_piece_end(cs@, i as int);
    }
    let n: usize = cs.len();
    let c = cs[i];
    // Contractions.  Only the ASCII letters are matched in either case.
    if c == '\'' && i + 1 < n {
        let c1 = cs[i + 1];
        if c1 == 's' || c1 == 'S' || c1 == 't' || c1 == 'T' || c1 == 'm' || c1 == 'M' || c1 == 'd'
            || c1 == 'D' {
            return i + 2;
        }
        if i + 2 < n {
            let c2 = cs[i + 2];
            if (c1 == 'r' || c1 == 'R' || c1 == 'v' || c1 == 'V') && (c2 == 'e' || c2 == 'E') {
                return i + 3;
            }
            if (c1 == 'l' || c1 == 'L') && (c2 == 'l' || c2 == 'L') {
                return i + 3;
            }
        }
    }
    assert(contraction_end(cs@, i as int) == i);
    // An optional prefix, then letters.
    if !is_crlf(c) && !is_letter(c) && !is_number(c) && i + 1 < n && is_letter(cs[i + 1]) {
        proof {
            lemma_run_end(cs@, i + 1, |c: char| classes::letter(c));
        }
        return letters_end(cs, i + 1);
    }
    let word: usize = letters_end(cs, i);
    if word > i {
        return word;
    }
    // Exactly one digit.
    if is_number(c) {
        return i + 1;
    }
    // Punctuation, after at most one space, with the line breaks behind it.
    let body: usize = if c == ' ' {
        i + 1
    } else {
        i
    };
    let end: usize = others_end(cs, body);
    if end > body {
        return breaks_end(cs, end);
    }
    // Everything left starts with white space.
    let ws_end: usize = spaces_end(cs, i);
    let mut lines: usize = ws_end;
    while lines > i && !is_crlf(cs[lines - 1])
        invariant
            i <= lines <= ws_end <= cs@.len(),
            last_break_end(cs@, i as int, ws_end as int) == last_break_end(
                cs@,
                i as int,
                lines as int,
            ),
        decreases lines,
    {
        lines -= 1;
    }
    if lines > i {
        return lines;
    }
    if ws_end == n || ws_end - 1 <= i {
        ws_end
    } else {
        ws_end - 1
    }
}

/// How many bytes of UTF-8 the first `i` characters take.
pub open spec fn byte_offset(cs: Seq<char>, i: int) -> int {
    encode_utf8(cs.take(i)).len() as int
}

/// Split `text` into the byte ranges of its pieces.
pub fn pretokenize(text: &str) -> (r: Vec<Range<usize>>)
    ensures
        r@.len() == pieces(text@).len(),
        forall|k: int|
            0 <= k < r@.len() ==> (#[trigger] r@[k]).start == byte_offset(
                text@,
                pieces(text@)[k].0,
            ) && r@[k].end == byte_offset(text@, pieces(text@)[k].1),
{
    let cs = text::chars_of(text);
    let total: usize = text.as_bytes().len();
    let n: usize = cs.len();
    let mut out: Vec<Range<usize>> = Vec::new();
    let mut i: usize = 0;
    let mut start: usize = 0;
    let ghost mut done: Seq<(int, int)> = Seq::empty();
    assert(done + pieces_from(cs@, 0) =~= pieces(cs@));
    assert(cs@.take(0) =~= Seq::empty());
    while i < n
        invariant
            i <= n == cs@.len(),
            cs@ == text@,
            total == encode_utf8(cs@).len(),
            start == byte_offset(cs@, i as int),
            done + pieces_from(cs@, i as int) == pieces(cs@),
            out@.len() == done.len(),
            forall|k: int|
                0 <= k < done.len() ==> (#[trigger] out@[k]).start == byte_offset(cs@, done[k].0)
                    && out@[k].end == byte_offset(cs@, done[k].1),
        decreases n - i,
    {
        let e: usize = next_end(cs.as_slice(), i);
        let mut end: usize = start;
        let mut j: usize = i;
        while j < e
            invariant
                i <= j <= e <= cs@.len(),
                total == encode_utf8(cs@).len(),
                end == byte_offset(cs@, j as int),
            decreases e - j,
        {
            proof {
                text::lemma_utf8_take(cs@, j as int);
                text::lemma_utf8_take_bound(cs@, j + 1);
            }
            end = end + text::utf8_width(cs[j]);
            j += 1;
        }
        proof {
            let step = seq![(i as int, e as int)];
            assert(pieces_from(cs@, i as int) == step + pieces_from(cs@, e as int));
            assert((done + step) + pieces_from(cs@, e as int) =~= pieces(cs@));
            done = done + step;
        }
        out.push(start..end);
        start = end;
        i = e;
    }
    assert(pieces_from(cs@, i as int) =~= Seq::empty());
    assert(done =~= pieces(cs@));
    out
}

/// The bytes between two places of a text are those of the characters between them.
pub proof fn law_ranges_cut_whole_characters(cs: Seq<char>, i: int, j: int)
    requires
        0 <= i <= j <= cs.len(),
    ensures
        0 <= byte_offset(cs, i) <= byte_offset(cs, j) <= encode_utf8(cs).len(),
        encode_utf8(cs).subrange(byte_offset(cs, i), byte_offset(cs, j)) == encode_utf8(
            cs.subrange(i, j),
        ),
        byte_offset(cs, 0) == 0,
        byte_offset(cs, cs.len() as int) == encode_utf8(cs).len(),
{
    let a = cs.take(i);
    let b = cs.subrange(i, j);
    let c = cs.skip(j);
    assert(cs.take(j) =~= a + b);
    assert(cs =~= a + b + c);
    text::lemma_utf8_concat(a, b);
    text::lemma_utf8_concat(a + b, c);
    assert(encode_utf8(cs).subrange(byte_offset(cs, i), byte_offset(cs, j)) =~= encode_utf8(b));
    assert(cs.take(0) =~= Seq::empty());
    assert(cs.take(cs.len() as int) =~= cs);
}

} // verus!
