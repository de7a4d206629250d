//! The pre-tokenizer splits as its pattern says.
//!
//! ```text
//! (?i:'s|'t|'re|'ve|'m|'ll|'d)
//! | [^\r\n\p{L}\p{N}]?\p{L}+
//! | \p{N}
//! | ?[^\s\p{L}\p{N}]+[\r\n]*
//! | \s*[\r\n]+
//! | \s+(?!\S)
//! | \s+
//! ```
//!
//! Each alternative is stated by what it matches, apart from how a match is found: which
//! characters stand in it, and that nothing longer matches.
use super::classes;
use super::pretokenize;
use vstd::prelude::*;

verus! {

/// `\r` or `\n`.
pub open spec fn line_break(c: char) -> bool {
    c == '\r' || c == '\n'
}

/// `[^\r\n\p{L}\p{N}]`: what may stand before the letters of a word.
pub open spec fn may_open_a_word(c: char) -> bool {
    c != '\r' && c != '\n' && !classes::letter(c) && !classes::number(c)
}

/// `[^\s\p{L}\p{N}]`.
pub open spec fn symbol(c: char) -> bool {
    !classes::whitespace(c) && !classes::letter(c) && !classes::number(c)
}

/// `cs[i..j]` holds characters of a class alone.
pub open spec fn all_of(cs: Seq<char>, i: int, j: int, class: spec_fn(char) -> bool) -> bool {
    i <= j <= cs.len() && forall|k: int| i <= k < j ==> class(#[trigger] cs[k])
}

/// `cs[i..j]` holds characters of a class alone, and no more of them follow.
pub open spec fn whole_run(cs: Seq<char>, i: int, j: int, class: spec_fn(char) -> bool) -> bool {
    all_of(cs, i, j, class) && (j == cs.len() || !class(cs[j]))
}

/// `c` is `w`, or the capital letter of `w`.
pub open spec fn in_either_case(c: char, w: char) -> bool {
    c == w || ('a' <= w <= 'z' && c as int + 32 == w as int)
}

/// `cs[i..e]` spells `w`, in capital letters or not.
pub open spec fn spells(cs: Seq<char>, i: int, e: int, w: Seq<char>) -> bool {
    e == i + w.len() && e <= cs.len() && forall|k: int|
        0 <= k < w.len() ==> in_either_case(cs[i + k], #[trigger] w[k])
}

/// `(?i:'s|'t|'re|'ve|'m|'ll|'d)` matches `cs[i..e]`.
pub open spec fn contraction(cs: Seq<char>, i: int, e: int) -> bool {
    ||| spells(cs, i, e, seq!['\'', 's'])
    ||| spells(cs, i, e, seq!['\'', 't'])
    ||| spells(cs, i, e, seq!['\'', 'r', 'e'])
    ||| spells(cs, i, e, seq!['\'', 'v', 'e'])
    ||| spells(cs, i, e, seq!['\'', 'm'])
    ||| spells(cs, i, e, seq!['\'', 'l', 'l'])
    ||| spells(cs, i, e, seq!['\'', 'd'])
}

/// `[^\r\n\p{L}\p{N}]?\p{L}+` matches `cs[i..e]`.
pub open spec fn word(cs: Seq<char>, i: int, e: int) -> bool {
    ||| i < e && whole_run(cs, i, e, |c: char| classes::letter(c))
    ||| may_open_a_word(cs[i]) && i + 1 < e && whole_run(cs, i + 1, e, |c: char| classes::letter(c))
}

/// `\p{N}` matches `cs[i..e]`.
pub open spec fn digit(cs: Seq<char>, i: int, e: int) -> bool {
    e == i + 1 && classes::number(cs[i])
}

/// `cs[i..j]` holds symbols alone, and no more of them follow.
pub open spec fn symbol_run(cs: Seq<char>, i: int, j: int) -> bool {
    whole_run(cs, i, j, |c: char| symbol(c))
}

/// `cs[i..j]` holds line breaks alone, and no more of them follow.
pub open spec fn break_run(cs: Seq<char>, i: int, j: int) -> bool {
    whole_run(cs, i, j, |c: char| line_break(c))
}

/// `[^\s\p{L}\p{N}]+[\r\n]*` matches `cs[i..e]`.
pub open spec fn symbols(cs: Seq<char>, i: int, e: int) -> bool {
    exists|m: int| i < m && #[trigger] symbol_run(cs, i, m) && break_run(cs, m, e)
}

/// ` ?[^\s\p{L}\p{N}]+[\r\n]*` matches `cs[i..e]`.
pub open spec fn punctuation(cs: Seq<char>, i: int, e: int) -> bool {
    symbols(cs, i, e) || cs[i] == ' ' && symbols(cs, i + 1, e)
}

/// `cs[i..e]` is white space that ends with a line break.
pub open spec fn ends_a_line(cs: Seq<char>, i: int, e: int) -> bool {
    i < e && all_of(cs, i, e, |c: char| classes::whitespace(c)) && line_break(cs[e - 1])
}

/// `\s*[\r\n]+` matches `cs[i..e]`, and nothing longer.
pub open spec fn lines(cs: Seq<char>, i: int, e: int) -> bool {
    ends_a_line(cs, i, e) && forall|f: int| e < f ==> !#[trigger] ends_a_line(cs, i, f)
}

/// `cs[i..e]` is white space that no other character follows.
pub open spec fn unfollowed(cs: Seq<char>, i: int, e: int) -> bool {
    i < e && all_of(cs, i, e, |c: char| classes::whitespace(c)) && (e == cs.len()
        || classes::whitespace(cs[e]))
}

/// `\s+(?!\S)` matches `cs[i..e]`, and nothing longer.
pub open spec fn trailing(cs: Seq<char>, i: int, e: int) -> bool {
    unfollowed(cs, i, e) && forall|f: int| e < f ==> !#[trigger] unfollowed(cs, i, f)
}

/// `\s+` matches `cs[i..e]`, and nothing longer.
pub open spec fn blank(cs: Seq<char>, i: int, e: int) -> bool {
    i < e && whole_run(cs, i, e, |c: char| classes::whitespace(c))
}

/// The pattern matches `cs[i..e]`: the first alternative that matches anything at `i` does.
pub open spec fn first_match(cs: Seq<char>, i: int, e: int) -> bool {
    if exists|x: int| #[trigger] contraction(cs, i, x) {
        contraction(cs, i, e)
    } else if exists|x: int| #[trigger] word(cs, i, x) {
        word(cs, i, e)
    } else if exists|x: int| #[trigger] digit(cs, i, x) {
        digit(cs, i, e)
    } else if exists|x: int| #[trigger] punctuation(cs, i, x) {
        punctuation(cs, i, e)
    } else if exists|x: int| #[trigger] lines(cs, i, x) {
        lines(cs, i, e)
    } else if exists|x: int| #[trigger] trailing(cs, i, x) {
        trailing(cs, i, e)
    } else {
        blank(cs, i, e)
    }
}

/// A scan finds the whole run, and nothing else is one.
proof fn lemma_run(cs: Seq<char>, i: int, j: int, class: spec_fn(char) -> bool)
    requires
        0 <= i <= cs.len(),
    ensures
        whole_run(cs, i, j, class) <==> j == pretokenize::run_end(cs, i, class),
        i <= pretokenize::run_end(cs, i, class) <= cs.len(),
    decreases cs.len() - i,
{
    if i < cs.len() && class(cs[i]) {
        lemma_run(cs, i + 1, j, class);
        if whole_run(cs, i, j, class) {
            if j == i {
                assert(!class(cs[j]));
            }
            assert(whole_run(cs, i + 1, j, class));
        }
        if j == pretokenize::run_end(cs, i, class) {
            assert(whole_run(cs, i + 1, j, class));
            assert forall|k: int| i <= k < j implies class(#[trigger] cs[k]) by {}
        }
    } else {
        if whole_run(cs, i, j, class) && i < j {
            assert(class(cs[i]));
        }
    }
}

proof fn lemma_contraction(cs: Seq<char>, i: int, e: int)
    requires
        0 <= i < cs.len(),
    ensures
        contraction(cs, i, e) <==> e == pretokenize::contraction_end(cs, i) && e > i,
{
    let a = cs[i];
    assert(in_either_case(a, '\'') <==> a == '\'');
    let r = pretokenize::contraction_end(cs, i);
    if contraction(cs, i, e) {
        lemma_spelled(cs, i, e);
    }
    if e == r && e > i {
        if e == i + 2 {
            let c = cs[i + 1];
            let w = if c == 's' || c == 'S' {
                seq!['\'', 's']
            } else if c == 't' || c == 'T' {
                seq!['\'', 't']
            } else if c == 'm' || c == 'M' {
                seq!['\'', 'm']
            } else {
                seq!['\'', 'd']
            };
            assert forall|k: int| 0 <= k < w.len() implies in_either_case(
                cs[i + k],
                #[trigger] w[k],
            ) by {}
            assert(spells(cs, i, e, w));
        } else {
            let c = cs[i + 1];
            let w = if c == 'r' || c == 'R' {
                seq!['\'', 'r', 'e']
            } else if c == 'v' || c == 'V' {
                seq!['\'', 'v', 'e']
            } else {
                seq!['\'', 'l', 'l']
            };
            assert forall|k: int| 0 <= k < w.len() implies in_either_case(
                cs[i + k],
                #[trigger] w[k],
            ) by {
                if k == 0 {
                } else if k == 1 {
                } else {
                }
            }
            assert(spells(cs, i, e, w));
        }
    }
}

proof fn lemma_two(cs: Seq<char>, i: int, e: int, w: char)
    requires
        spells(cs, i, e, seq!['\'', w]),
    ensures
        e == i + 2 <= cs.len() && cs[i] == '\'' && in_either_case(cs[i + 1], w),
{
    let s = seq!['\'', w];
    assert(in_either_case(cs[i + 0], s[0]));
    assert(in_either_case(cs[i + 1], s[1]));
}

proof fn lemma_three(cs: Seq<char>, i: int, e: int, w: char, x: char)
    requires
        spells(cs, i, e, seq!['\'', w, x]),
    ensures
        e == i + 3 <= cs.len() && cs[i] == '\'' && in_either_case(cs[i + 1], w)
            && in_either_case(cs[i + 2], x),
{
    let s = seq!['\'', w, x];
    assert(in_either_case(cs[i + 0], s[0]));
    assert(in_either_case(cs[i + 1], s[1]));
    assert(in_either_case(cs[i + 2], s[2]));
}

/// What is spelled, letter by letter.
proof fn lemma_spelled(cs: Seq<char>, i: int, e: int)
    requires
        0 <= i < cs.len(),
        contraction(cs, i, e),
    ensures
        e == pretokenize::contraction_end(cs, i) && e > i,
{
    if spells(cs, i, e, seq!['\'', 's']) {
        lemma_two(cs, i, e, 's');
    } else if spells(cs, i, e, seq!['\'', 't']) {
        lemma_two(cs, i, e, 't');
    } else if spells(cs, i, e, seq!['\'', 'm']) {
        lemma_two(cs, i, e, 'm');
    } else if spells(cs, i, e, seq!['\'', 'd']) {
        lemma_two(cs, i, e, 'd');
    } else if spells(cs, i, e, seq!['\'', 'r', 'e']) {
        lemma_three(cs, i, e, 'r', 'e');
    } else if spells(cs, i, e, seq!['\'', 'v', 'e']) {
        lemma_three(cs, i, e, 'v', 'e');
    } else {
        lemma_three(cs, i, e, 'l', 'l');
    }
}

proof fn lemma_word(cs: Seq<char>, i: int, e: int)
    requires
        0 <= i < cs.len(),
    ensures
        word(cs, i, e) <==> e == pretokenize::word_end(cs, i) && e > i,
{
    let letters = |c: char| classes::letter(c);
    lemma_run(cs, i, e, letters);
    lemma_run(cs, i + 1, e, letters);
    let r = pretokenize::run_end(cs, i + 1, letters);
    lemma_run(cs, i + 1, r, letters);
    if i + 1 < cs.len() && !classes::letter(cs[i + 1]) {
        assert(r == i + 1);
    }
}

proof fn lemma_symbols(cs: Seq<char>, i: int, e: int)
    requires
        0 <= i <= cs.len(),
    ensures
        ({
            let end = pretokenize::run_end(cs, i, |c: char| pretokenize::other(c));
            symbols(cs, i, e) <==> end > i && e == pretokenize::run_end(
                cs,
                end,
                |c: char| pretokenize::crlf(c),
            )
        }),
{
    let a = |c: char| symbol(c);
    let b = |c: char| line_break(c);
    assert(a =~= (|c: char| pretokenize::other(c)));
    assert(b =~= (|c: char| pretokenize::crlf(c)));
    let end = pretokenize::run_end(cs, i, a);
    lemma_run(cs, i, end, a);
    lemma_run(cs, end, e, b);
    if symbols(cs, i, e) {
        let m = choose|m: int|
            i < m && #[trigger] symbol_run(cs, i, m) && break_run(cs, m, e);
        lemma_run(cs, i, m, a);
    }
    if end > i && e == pretokenize::run_end(cs, end, b) {
        assert(symbol_run(cs, i, end));
    }
}

proof fn lemma_punctuation(cs: Seq<char>, i: int, e: int)
    requires
        0 <= i < cs.len(),
    ensures
        punctuation(cs, i, e) <==> e == pretokenize::punctuation_end(cs, i) && e > i,
{
    lemma_symbols(cs, i, e);
    lemma_symbols(cs, i + 1, e);
    let a = |c: char| pretokenize::other(c);
    let b = |c: char| pretokenize::crlf(c);
    lemma_run(cs, i, e, a);
    lemma_run(cs, i + 1, e, a);
    lemma_run(cs, pretokenize::run_end(cs, i, a), e, b);
    lemma_run(cs, pretokenize::run_end(cs, i + 1, a), e, b);
    classes::law_white_space(cs[i]);
}

/// The last line break of a stretch.
proof fn lemma_last_break(cs: Seq<char>, i: int, end: int)
    requires
        0 <= i <= end <= cs.len(),
    ensures
        ({
            let r = pretokenize::last_break_end(cs, i, end);
            &&& i <= r <= end
            &&& r > i ==> line_break(cs[r - 1])
            &&& forall|f: int| r < f <= end ==> !line_break(#[trigger] cs[f - 1])
        }),
    decreases end - i,
{
    if i < end && !line_break(cs[end - 1]) {
        lemma_last_break(cs, i, end - 1);
    }
}

proof fn lemma_lines(cs: Seq<char>, i: int, e: int)
    requires
        0 <= i < cs.len(),
    ensures
        ({
            let end = pretokenize::run_end(cs, i, |c: char| classes::whitespace(c));
            let r = pretokenize::last_break_end(cs, i, end);
            lines(cs, i, e) <==> e == r && r > i
        }),
{
    let ws = |c: char| classes::whitespace(c);
    let end = pretokenize::run_end(cs, i, ws);
    lemma_run(cs, i, end, ws);
    lemma_last_break(cs, i, end);
    let r = pretokenize::last_break_end(cs, i, end);
    assert forall|f: int| #[trigger] ends_a_line(cs, i, f) implies f <= r by {
        lemma_within_run(cs, i, f, end);
        if r < f {
            assert(!line_break(cs[f - 1]));
        }
    }
    if r > i {
        assert(all_of(cs, i, r, ws));
        assert(ends_a_line(cs, i, r));
    }
}

/// A stretch of white space lies in the run of white space.
proof fn lemma_within_run(cs: Seq<char>, i: int, f: int, end: int)
    requires
        0 <= i,
        all_of(cs, i, f, |c: char| classes::whitespace(c)),
        whole_run(cs, i, end, |c: char| classes::whitespace(c)),
    ensures
        f <= end,
{
    if end < f {
        assert(classes::whitespace(cs[end]));
    }
}

proof fn lemma_trailing(cs: Seq<char>, i: int, e: int)
    requires
        0 <= i < cs.len(),
    ensures
        ({
            let end = pretokenize::run_end(cs, i, |c: char| classes::whitespace(c));
            trailing(cs, i, e) <==> i < e && e == (if end == cs.len() {
                end
            } else {
                end - 1
            })
        }),
{
    let ws = |c: char| classes::whitespace(c);
    let end = pretokenize::run_end(cs, i, ws);
    lemma_run(cs, i, end, ws);
    let r = if end == cs.len() {
        end
    } else {
        end - 1
    };
    assert forall|f: int| #[trigger] unfollowed(cs, i, f) implies f <= r by {
        lemma_within_run(cs, i, f, end);
        if f == end && end < cs.len() {
            assert(!classes::whitespace(cs[end]));
        }
    }
    if i < r {
        assert(all_of(cs, i, r, ws));
        assert(r == cs.len() || classes::whitespace(cs[r]));
        assert(unfollowed(cs, i, r));
    }
}

/// A piece ends where the pattern's match ends: the first alternative that matches at its
/// start, with the longest match.
pub proof fn law_pieces_match_the_pattern(cs: Seq<char>, i: int, e: int)
    requires
        0 <= i < cs.len(),
    ensures
        pretokenize::piece_end(cs, i) == e <==> first_match(cs, i, e),
{
    let r = pretokenize::piece_end(cs, i);
    let ws = |c: char| classes::whitespace(c);
    pretokenize::lemma_piece_end(cs, i);
    assert forall|x: int| #[trigger] contraction(cs, i, x) <==> x == pretokenize::contraction_end(
        cs,
        i,
    ) && x > i by {
        lemma_contraction(cs, i, x);
    }
    assert forall|x: int| #[trigger] word(cs, i, x) <==> x == pretokenize::word_end(cs, i) && x
        > i by {
        lemma_word(cs, i, x);
    }
    assert forall|x: int| #[trigger] punctuation(cs, i, x) <==> x == pretokenize::punctuation_end(
        cs,
        i,
    ) && x > i by {
        lemma_punctuation(cs, i, x);
    }
    let end = pretokenize::run_end(cs, i, ws);
    let last = pretokenize::last_break_end(cs, i, end);
    assert forall|x: int| #[trigger] lines(cs, i, x) <==> x == last && last > i by {
        lemma_lines(cs, i, x);
    }
    let tail = if end == cs.len() {
        end
    } else {
        end - 1
    };
    assert forall|x: int| #[trigger] trailing(cs, i, x) <==> i < x && x == tail by {
        lemma_trailing(cs, i, x);
    }
    lemma_run(cs, i, e, ws);
    assert(digit(cs, i, i + 1) <==> classes::number(cs[i]));
    let ce = pretokenize::contraction_end(cs, i);
    let we = pretokenize::word_end(cs, i);
    let pe = pretokenize::punctuation_end(cs, i);
    if ce > i {
        assert(contraction(cs, i, ce));
    } else if we > i {
        assert(word(cs, i, we));
    } else if classes::number(cs[i]) {
        assert(digit(cs, i, i + 1));
    } else if pe > i {
        assert(punctuation(cs, i, pe));
    } else if last > i {
        assert(lines(cs, i, last));
    } else if tail > i {
        assert(trailing(cs, i, tail));
    }
}

/// Every piece of a text is a match of the pattern, from where the piece before it ended.
pub proof fn law_a_text_is_cut_into_matches(cs: Seq<char>, k: int)
    requires
        0 <= k < pretokenize::pieces(cs).len(),
    ensures
        ({
            let (from, to) = pretokenize::pieces(cs)[k];
            &&& from == (if k == 0 {
                0
            } else {
                pretokenize::pieces(cs)[k - 1].1
            })
            &&& 0 <= from < to <= cs.len()
            &&& first_match(cs, from, to)
            &&& forall|e: int| #[trigger] first_match(cs, from, e) ==> e == to
        }),
{
    let p = pretokenize::pieces(cs);
    pretokenize::law_pieces_cover_the_text(cs);
    if k > 0 {
        assert(p[k - 1].1 == p[k].0);
    }
    lemma_pieces_end(cs, 0, k);
    let (from, to) = p[k];
    law_pieces_match_the_pattern(cs, from, to);
    assert forall|e: int| #[trigger] first_match(cs, from, e) implies e == to by {
        law_pieces_match_the_pattern(cs, from, e);
    }
}

proof fn lemma_pieces_end(cs: Seq<char>, i: int, k: int)
    requires
        0 <= i <= cs.len(),
        0 <= k < pretokenize::pieces_from(cs, i).len(),
    ensures
        ({
            let (from, to) = pretokenize::pieces_from(cs, i)[k];
            0 <= from < cs.len() && to == pretokenize::piece_end(cs, from)
        }),
    decreases cs.len() - i,
{
    if i < cs.len() {
        pretokenize::lemma_piece_end(cs, i);
        let e = pretokenize::piece_end(cs, i);
        let rest = pretokenize::pieces_from(cs, e);
        assert(pretokenize::pieces_from(cs, i) =~= seq![(i, e)] + rest);
        if k > 0 {
            lemma_pieces_end(cs, e, k - 1);
            assert(pretokenize::pieces_from(cs, i)[k] == rest[k - 1]);
        }
    }
}

/// A space before punctuation belongs to it: the piece holds the space, all the punctuation
/// behind it, and all the line breaks behind that.
pub proof fn law_a_space_goes_with_punctuation(cs: Seq<char>, i: int)
    requires
        0 <= i,
        i + 1 < cs.len(),
        cs[i] == ' ',
        symbol(cs[i + 1]),
    ensures
        pretokenize::piece_end(cs, i) > i + 1,
        exists|m: int|
            i + 1 < m <= pretokenize::piece_end(cs, i) && #[trigger] symbol_run(cs, i + 1, m)
                && break_run(cs, m, pretokenize::piece_end(cs, i)),
{
    let e = pretokenize::piece_end(cs, i);
    let letters = |c: char| classes::letter(c);
    let a = |c: char| symbol(c);
    let b = |c: char| line_break(c);
    classes::law_ascii_classes(cs[i]);
    classes::law_ascii_letters_and_digits(cs[i]);
    classes::law_white_space(cs[i]);
    lemma_run(cs, i, i, letters);
    lemma_run(cs, i, i, |c: char| pretokenize::other(c));
    let m = pretokenize::run_end(cs, i + 1, a);
    assert(a =~= (|c: char| pretokenize::other(c)));
    assert(b =~= (|c: char| pretokenize::crlf(c)));
    lemma_run(cs, i + 1, m, a);
    lemma_run(cs, m, e, b);
    if m == i + 1 {
        assert(!symbol(cs[m]));
    }
    assert(symbol_run(cs, i + 1, m));
}

} // verus!
