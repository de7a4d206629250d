//! Character classes.
use super::unicode_tables::{
    LETTER, LETTERS_BELOW_NUMBER, LETTERS_BELOW_WHITESPACE, NUMBER, NUMBERS_BELOW_WHITESPACE,
    WHITESPACE,
};
use vstd::prelude::*;

verus! {

/// The ranges are not reversed, stand in ascending order and do not overlap.
pub open spec fn ordered(table: Seq<(u32, u32)>) -> bool {
    &&& forall|i: int| 0 <= i < table.len() ==> (#[trigger] table[i]).0 <= table[i].1
    &&& forall|i: int, j: int|
        0 <= i < j < table.len() ==> (#[trigger] table[i]).1 < (#[trigger] table[j]).0
}

/// Some range of the table holds the code point.
pub open spec fn within(table: Seq<(u32, u32)>, cp: u32) -> bool {
    exists|k: int| 0 <= k < table.len() && (#[trigger] table[k]).0 <= cp <= table[k].1
}

/// The ranges of letters.
#[verifier::opaque]
pub open spec fn letters() -> Seq<(u32, u32)> {
    LETTER@
}

/// The ranges of numbers.
#[verifier::opaque]
pub open spec fn numbers() -> Seq<(u32, u32)> {
    NUMBER@
}

/// The ranges of white space.
#[verifier::opaque]
pub open spec fn spaces() -> Seq<(u32, u32)> {
    WHITESPACE@
}

/// `\p{L}`: a letter.
pub open spec fn letter(c: char) -> bool {
    within(letters(), c as u32)
}

/// `\p{N}`: a number.
pub open spec fn number(c: char) -> bool {
    within(numbers(), c as u32)
}

/// `\s`: white space.
pub open spec fn whitespace(c: char) -> bool {
    within(spaces(), c as u32)
}

/// No range is reversed, and each ends below the next.
spec fn ordered_neighbours(t: Seq<(u32, u32)>) -> bool {
    &&& forall|k: int| 0 <= k < t.len() ==> (#[trigger] t[k]).0 <= t[k].1
    &&& forall|k: int| 0 <= k < t.len() - 1 ==> (#[trigger] t[k]).1 < t[k + 1].0
}

proof fn lemma_neighbours(t: Seq<(u32, u32)>, i: int, j: int)
    requires
        ordered_neighbours(t),
        0 <= i < j < t.len(),
    ensures
        t[i].1 < t[j].0,
    decreases j - i,
{
    if i + 1 < j {
        lemma_neighbours(t, i, j - 1);
        assert(t[j - 1].1 < t[j - 1 + 1].0);
    }
}

proof fn lemma_ordered(t: Seq<(u32, u32)>)
    requires
        ordered_neighbours(t),
    ensures
        ordered(t),
{
    assert forall|i: int, j: int| 0 <= i < j < t.len() implies (#[trigger] t[i]).1 < (
    #[trigger] t[j]).0 by {
        lemma_neighbours(t, i, j);
    }
}

#[verifier::rlimit(60)]
proof fn lemma_letter_neighbours()
    ensures
        ordered_neighbours(letters()),
{
    reveal(letters);
}

proof fn lemma_number_neighbours()
    ensures
        ordered_neighbours(numbers()),
{
    reveal(numbers);
}

proof fn lemma_whitespace_neighbours()
    ensures
        ordered_neighbours(spaces()),
{
    reveal(spaces);
}

/// The three tables can be searched by halving.
pub proof fn lemma_tables_ordered()
    ensures
        ordered(letters()),
        ordered(numbers()),
        ordered(spaces()),
{
    lemma_letter_neighbours();
    lemma_ordered(letters());
    lemma_number_neighbours();
    lemma_ordered(numbers());
    lemma_whitespace_neighbours();
    lemma_ordered(spaces());
}

/// Binary search of a table of ranges.
pub fn in_ranges(table: &[(u32, u32)], cp: u32) -> (r: bool)
    requires
        ordered(table@),
    ensures
        r == within(table@, cp),
{
    let mut lo: usize = 0;
    let mut hi: usize = table.len();
    while lo < hi
        invariant
            lo <= hi <= table@.len(),
            ordered(table@),
            forall|k: int| 0 <= k < lo ==> (#[trigger] table@[k]).1 < cp,
            forall|k: int| hi <= k < table@.len() ==> cp < (#[trigger] table@[k]).0,
        decreases hi - lo,
    {
        let mid: usize = lo + (hi - lo) / 2;
        let range = table[mid];
        if cp < range.0 {
            assert forall|k: int| mid <= k < table@.len() implies cp < (#[trigger] table@[k]).0 by {
                assert(table@[mid as int].0 <= table@[k].0);
            }
            hi = mid;
        } else if cp > range.1 {
            assert forall|k: int| 0 <= k <= mid implies (#[trigger] table@[k]).1 < cp by {
                assert(table@[k].1 <= table@[mid as int].1);
            }
            lo = mid + 1;
        } else {
            assert(table@[mid as int].0 <= cp <= table@[mid as int].1);
            return true;
        }
    }
    false
}

/// `\p{L}` -- Unicode categories Lu, Ll, Lt, Lm, Lo.
pub fn is_letter(c: char) -> (r: bool)
    ensures
        r == letter(c),
{
    proof {
        lemma_tables_ordered();
        reveal(letters);
    }
    in_ranges(LETTER.as_slice(), c as u32)
}

/// `\p{N}` -- Unicode categories Nd, Nl, No.
pub fn is_number(c: char) -> (r: bool)
    ensures
        r == number(c),
{
    proof {
        lemma_tables_ordered();
        reveal(numbers);
    }
    in_ranges(NUMBER.as_slice(), c as u32)
}

/// `\s` -- the Unicode White_Space property.
pub fn is_whitespace(c: char) -> (r: bool)
    ensures
        r == whitespace(c),
{
    proof {
        lemma_tables_ordered();
        reveal(spaces);
    }
    in_ranges(WHITESPACE.as_slice(), c as u32)
}

/// Each range of `u` lies between two neighbouring ranges of `t`.
spec fn apart(t: Seq<(u32, u32)>, u: Seq<(u32, u32)>, below: Seq<usize>) -> bool {
    &&& below.len() == u.len()
    &&& forall|j: int|
        0 <= j < u.len() ==> {
            let b = (#[trigger] below[j]) as int;
            &&& b <= t.len()
            &&& b > 0 ==> t[b - 1].1 < u[j].0
            &&& b < t.len() ==> u[j].1 < t[b].0
        }
}

proof fn lemma_apart(t: Seq<(u32, u32)>, u: Seq<(u32, u32)>, below: Seq<usize>, cp: u32)
    requires
        ordered(t),
        apart(t, u, below),
        within(u, cp),
    ensures
        !within(t, cp),
{
    let j = choose|j: int| 0 <= j < u.len() && (#[trigger] u[j]).0 <= cp <= u[j].1;
    let b = below[j] as int;
    assert forall|k: int| 0 <= k < t.len() implies !((#[trigger] t[k]).0 <= cp <= t[k].1) by {
        if k < b {
            if k < b - 1 {
                assert(t[k].1 < t[b - 1].0);
            }
        } else if k > b {
            assert(t[b].1 < t[k].0);
        }
    }
}

proof fn lemma_letter_number_apart()
    ensures
        apart(letters(), numbers(), LETTERS_BELOW_NUMBER@),
{
    reveal(letters);
    reveal(numbers);
}

proof fn lemma_letter_whitespace_apart()
    ensures
        apart(letters(), spaces(), LETTERS_BELOW_WHITESPACE@),
{
    reveal(letters);
    reveal(spaces);
}

proof fn lemma_number_whitespace_apart()
    ensures
        apart(numbers(), spaces(), NUMBERS_BELOW_WHITESPACE@),
{
    reveal(numbers);
    reveal(spaces);
}

/// Letters, numbers and white space share no character.
pub proof fn law_classes_are_disjoint(c: char)
    ensures
        !(letter(c) && number(c)),
        !(letter(c) && whitespace(c)),
        !(number(c) && whitespace(c)),
{
    lemma_tables_ordered();
    let cp = c as u32;
    if number(c) {
        lemma_letter_number_apart();
        lemma_apart(letters(), numbers(), LETTERS_BELOW_NUMBER@, cp);
    }
    if whitespace(c) {
        lemma_letter_whitespace_apart();
        lemma_apart(letters(), spaces(), LETTERS_BELOW_WHITESPACE@, cp);
        lemma_number_whitespace_apart();
        lemma_apart(numbers(), spaces(), NUMBERS_BELOW_WHITESPACE@, cp);
    }
}

/// The first ranges of the tables.
proof fn lemma_first_ranges()
    ensures
        letters().len() > 2,
        letters()[0] == (0x41u32, 0x5au32),
        letters()[1] == (0x61u32, 0x7au32),
        letters()[2] == (0xaau32, 0xaau32),
        numbers().len() > 1,
        numbers()[0] == (0x30u32, 0x39u32),
        numbers()[1] == (0xb2u32, 0xb3u32),
{
    reveal(letters);
    reveal(numbers);
}

/// Of the ASCII characters, `A` to `Z` and `a` to `z` are the letters, and `0` to `9` the
/// numbers.
pub proof fn law_ascii_letters_and_digits(c: char)
    requires
        c as u32 <= 0x7f,
    ensures
        letter(c) <==> 'A' <= c <= 'Z' || 'a' <= c <= 'z',
        number(c) <==> '0' <= c <= '9',
{
    lemma_tables_ordered();
    lemma_first_ranges();
    let cp = c as u32;
    let (l, n) = (letters(), numbers());
    if letter(c) {
        let k = choose|k: int| 0 <= k < l.len() && (#[trigger] l[k]).0 <= cp <= l[k].1;
        if k > 2 {
            assert(l[2].1 < l[k].0);
        }
    }
    if 'A' <= c <= 'Z' {
        assert(l[0].0 <= cp <= l[0].1);
    }
    if 'a' <= c <= 'z' {
        assert(l[1].0 <= cp <= l[1].1);
    }
    if number(c) {
        let k = choose|k: int| 0 <= k < n.len() && (#[trigger] n[k]).0 <= cp <= n[k].1;
        if k > 1 {
            assert(n[1].1 < n[k].0);
        }
    }
    if '0' <= c <= '9' {
        assert(n[0].0 <= cp <= n[0].1);
    }
}

/// White space is what has the `White_Space` property: the five controls from tab to
/// carriage return, the space, and eight more ranges above ASCII.
pub proof fn law_white_space(c: char)
    ensures
        whitespace(c) <==> {
            ||| '\t' <= c <= '\r'
            ||| c == ' '
            ||| c == '\u{85}'
            ||| c == '\u{a0}'
            ||| c == '\u{1680}'
            ||| '\u{2000}' <= c <= '\u{200a}'
            ||| c == '\u{2028}'
            ||| c == '\u{2029}'
            ||| c == '\u{202f}'
            ||| c == '\u{205f}'
            ||| c == '\u{3000}'
        },
{
    reveal(spaces);
    let s = spaces();
    let cp = c as u32;
    assert(whitespace(c) <==> {
        ||| s[0].0 <= cp <= s[0].1
        ||| s[1].0 <= cp <= s[1].1
        ||| s[2].0 <= cp <= s[2].1
        ||| s[3].0 <= cp <= s[3].1
        ||| s[4].0 <= cp <= s[4].1
        ||| s[5].0 <= cp <= s[5].1
        ||| s[6].0 <= cp <= s[6].1
        ||| s[7].0 <= cp <= s[7].1
        ||| s[8].0 <= cp <= s[8].1
        ||| s[9].0 <= cp <= s[9].1
    });
}

/// An ASCII character is punctuation or a control, in no class, unless it is a letter, a
/// digit or white space.
pub proof fn law_ascii_classes(c: char)
    requires
        c as u32 <= 0x7f,
    ensures
        letter(c) || number(c) || whitespace(c) <==> {
            ||| 'A' <= c <= 'Z'
            ||| 'a' <= c <= 'z'
            ||| '0' <= c <= '9'
            ||| '\t' <= c <= '\r'
            ||| c == ' '
        },
{
    law_ascii_letters_and_digits(c);
    law_white_space(c);
}

/// The letters of Latin-1, of Cyrillic from U+0400 to U+0481, of Hiragana, of the CJK
/// ideographs and of the Hangul syllables are letters, and so neither numbers nor white
/// space.
pub proof fn law_letters_of_other_scripts(c: char)
    requires
        ({
            ||| '\u{c0}' <= c <= '\u{d6}'
            ||| '\u{d8}' <= c <= '\u{f6}'
            ||| '\u{f8}' <= c <= '\u{ff}'
            ||| '\u{400}' <= c <= '\u{481}'
            ||| '\u{3041}' <= c <= '\u{3096}'
            ||| '\u{4e00}' <= c <= '\u{9fff}'
            ||| '\u{ac00}' <= c <= '\u{d7a3}'
        }),
    ensures
        letter(c),
        !number(c),
        !whitespace(c),
{
    reveal(letters);
    let l = letters();
    let cp = c as u32;
    assert({
        ||| l[5].0 <= cp <= l[5].1
        ||| l[6].0 <= cp <= l[6].1
        ||| l[7].0 <= cp <= l[7].1
        ||| l[21].0 <= cp <= l[21].1
        ||| l[290].0 <= cp <= l[290].1
        ||| l[299].0 <= cp <= l[299].1
        ||| l[352].0 <= cp <= l[352].1
    });
    law_classes_are_disjoint(c);
}

} // verus!
