//! How a text becomes tokens, step by step.
use super::bpe;
use super::bpe::EncodeOptions;
use super::byte_level;
use super::classes;
use super::laws;
use super::pattern;
use super::pretokenize;
use super::vocab;
use super::vocab::{Merge, TokenType, VocabView};
use vstd::prelude::*;
use vstd::utf8::*;

verus! {

/// The rule for the pair that starts at `i`.
pub open spec fn rule_at(v: VocabView, s: Seq<u32>, i: int) -> Option<Merge> {
    v.merge(s[i], s[i + 1])
}

/// `m` is the rule of some pair of neighbours, and no pair of neighbours has one of lower
/// rank.
pub open spec fn lowest(v: VocabView, s: Seq<u32>, m: Merge) -> bool {
    &&& exists|i: int| 0 <= i && i + 1 < s.len() && #[trigger] rule_at(v, s, i) == Some(m)
    &&& forall|i: int|
        0 <= i && i + 1 < s.len() ==> (#[trigger] rule_at(v, s, i) matches Some(x) ==> m.rank
            <= x.rank)
}

/// No pair of neighbours has a rule.
pub open spec fn nothing_applies(v: VocabView, s: Seq<u32>) -> bool {
    forall|i: int| 0 <= i && i + 1 < s.len() ==> #[trigger] rule_at(v, s, i) is None
}

proof fn lemma_best(v: VocabView, s: Seq<u32>, k: nat)
    requires
        k < s.len() || k == 0,
    ensures
        match bpe::best_rule(v, s, k) {
            None => forall|i: int| 0 <= i < k ==> #[trigger] rule_at(v, s, i) is None,
            Some(m) => {
                &&& exists|i: int| 0 <= i < k && #[trigger] rule_at(v, s, i) == Some(m)
                &&& forall|i: int|
                    0 <= i < k ==> (#[trigger] rule_at(v, s, i) matches Some(x) ==> m.rank
                        <= x.rank)
            },
        },
    decreases k,
{
    if k > 0 {
        lemma_best(v, s, (k - 1) as nat);
        assert(rule_at(v, s, k - 1) == v.merge(s[k - 1], s[k as int]));
        let before = bpe::best_rule(v, s, (k - 1) as nat);
        if bpe::best_rule(v, s, k) is Some && bpe::best_rule(v, s, k) == before {
            let m = before->0;
            let i = choose|i: int| 0 <= i < k - 1 && #[trigger] rule_at(v, s, i) == Some(m);
            assert(rule_at(v, s, i) == Some(m));
        }
    }
}

/// The rule that is applied next is the one of lowest rank among all pairs of neighbours; none
/// is applied exactly where no pair of neighbours has one.
pub proof fn law_the_lowest_rank_is_next(v: VocabView, s: Seq<u32>)
    ensures
        match bpe::next_rule(v, s) {
            None => nothing_applies(v, s),
            Some(m) => lowest(v, s, m),
        },
{
    let k = if s.len() > 0 {
        (s.len() - 1) as nat
    } else {
        0
    };
    lemma_best(v, s, k);
    if bpe::next_rule(v, s) is Some {
        let m = bpe::next_rule(v, s)->0;
        let i = choose|i: int| 0 <= i < k && #[trigger] rule_at(v, s, i) == Some(m);
        assert(rule_at(v, s, i) == Some(m));
    }
}

/// The pair of a rule stands at `i`.
pub open spec fn pair_at(s: Seq<u32>, m: Merge, i: int) -> bool {
    0 <= i && i + 1 < s.len() && s[i] == m.left && s[i + 1] == m.right
}

proof fn lemma_replaced_behind(s: Seq<u32>, m: Merge, d: int, i: int)
    requires
        0 <= d <= s.len(),
        0 <= i,
    ensures
        bpe::replaced(s, m, d + i) == bpe::replaced(s.skip(d), m, i),
    decreases s.len() - d - i,
{
    let t = s.skip(d);
    if i < t.len() {
        if i + 1 < t.len() && t[i] == m.left && t[i + 1] == m.right {
            lemma_replaced_behind(s, m, d, i + 2);
        } else {
            lemma_replaced_behind(s, m, d, i + 1);
        }
    }
}

proof fn lemma_replaced_kept(s: Seq<u32>, m: Merge, i: int, j: int)
    requires
        0 <= i <= j <= s.len(),
        forall|k: int| i <= k < j ==> !#[trigger] pair_at(s, m, k),
    ensures
        bpe::replaced(s, m, i) == s.subrange(i, j) + bpe::replaced(s, m, j),
    decreases j - i,
{
    if i < j {
        assert(!pair_at(s, m, i));
        lemma_replaced_kept(s, m, i + 1, j);
        assert(s.subrange(i, j) =~= seq![s[i]] + s.subrange(i + 1, j));
        assert(bpe::replaced(s, m, i) =~= s.subrange(i, j) + bpe::replaced(s, m, j));
    } else {
        assert(bpe::replaced(s, m, i) =~= s.subrange(i, j) + bpe::replaced(s, m, j));
    }
}

/// A rule replaces the first occurrence of its pair, and goes on behind it; what stands
/// before stays as it is.
pub proof fn law_pairs_are_replaced_from_the_left(p: Seq<u32>, t: Seq<u32>, m: Merge)
    requires
        forall|i: int|
            0 <= i < p.len() ==> !#[trigger] pair_at(p.push(m.left).push(m.right) + t, m, i),
    ensures
        bpe::replaced(p.push(m.left).push(m.right) + t, m, 0) == p.push(m.result) + bpe::replaced(
            t,
            m,
            0,
        ),
{
    let s = p.push(m.left).push(m.right) + t;
    let n = p.len() as int;
    lemma_replaced_kept(s, m, 0, n);
    assert(s.subrange(0, n) =~= p);
    assert(s[n] == m.left && s[n + 1] == m.right);
    lemma_replaced_behind(s, m, n + 2, 0);
    assert(s.skip(n + 2) =~= t);
    assert(bpe::replaced(s, m, n) == seq![m.result] + bpe::replaced(s, m, n + 2));
    assert(p + (seq![m.result] + bpe::replaced(t, m, 0)) =~= p.push(m.result) + bpe::replaced(
        t,
        m,
        0,
    ));
}

/// Where its pair does not stand, a rule changes nothing.
pub proof fn law_other_pairs_stay(s: Seq<u32>, m: Merge)
    requires
        forall|i: int| 0 <= i < s.len() ==> !#[trigger] pair_at(s, m, i),
    ensures
        bpe::replaced(s, m, 0) == s,
{
    lemma_replaced_kept(s, m, 0, s.len() as int);
    assert(s.subrange(0, s.len() as int) + bpe::replaced(s, m, s.len() as int) =~= s);
}

/// Step `i` of a chain applies the rule of lowest rank wherever its pair stands.
pub open spec fn merges_once(v: VocabView, chain: Seq<Seq<u32>>, i: int) -> bool {
    exists|m: Merge| #[trigger] lowest(v, chain[i], m) && chain[i + 1] == bpe::replaced(
        chain[i],
        m,
        0,
    )
}

/// The chain leads from `s` to `r`, one rule of lowest rank at a time, until none applies.
pub open spec fn merge_chain(v: VocabView, s: Seq<u32>, r: Seq<u32>, chain: Seq<Seq<u32>>) -> bool {
    &&& chain.len() > 0
    &&& chain[0] == s
    &&& chain.last() == r
    &&& forall|i: int| 0 <= i && i + 1 < chain.len() ==> #[trigger] merges_once(v, chain, i)
    &&& nothing_applies(v, r)
}

/// Merging applies the rule of lowest rank everywhere, again and again, until no pair of
/// neighbours has a rule.
pub proof fn law_merging_goes_by_rank(v: VocabView, s: Seq<u32>) -> (chain: Seq<Seq<u32>>)
    ensures
        merge_chain(v, s, bpe::merged(v, s), chain),
    decreases s.len(),
{
    law_the_lowest_rank_is_next(v, s);
    match bpe::next_rule(v, s) {
        None => seq![s],
        Some(m) => {
            bpe::lemma_next_rule_shortens(v, s);
            let next = bpe::replaced(s, m, 0);
            let rest = law_merging_goes_by_rank(v, next);
            let chain = seq![s] + rest;
            assert(chain.last() == rest.last());
            assert forall|i: int| 0 <= i && i + 1 < chain.len() implies #[trigger] merges_once(
                v,
                chain,
                i,
            ) by {
                if i == 0 {
                    assert(lowest(v, chain[0], m));
                    assert(chain[1] == rest[0]);
                } else {
                    assert(merges_once(v, rest, i - 1));
                    assert(chain[i] == rest[i - 1]);
                    assert(chain[i + 1] == rest[i]);
                    let x = choose|x: Merge| #[trigger] lowest(v, rest[i - 1], x) && rest[i]
                        == bpe::replaced(rest[i - 1], x, 0);
                    assert(lowest(v, chain[i], x));
                }
            }
            chain
        },
    }
}

/// Every mapped character becomes the token of its own, or the unknown token, or nothing;
/// texts in a row become their symbols in a row.
pub proof fn law_symbols_stand_in_order(v: VocabView, a: Seq<char>, c: char)
    ensures
        bpe::seed(v, a.push(c)) == bpe::seed(v, a) + (match v.id_of(seq![c]) {
            Some(id) => seq![id],
            None => match v.unk {
                Some(u) => seq![u],
                None => Seq::empty(),
            },
        }),
        bpe::seed(v, Seq::empty()) == Seq::<u32>::empty(),
{
    assert(a.push(c).drop_last() =~= a);
}

/// `id` is the token of a byte.
pub open spec fn token_of_byte(v: VocabView, b: u8, id: u32) -> bool {
    v.id_of(seq![byte_level::mapped(b)]) == Some(id)
}

/// The same, kept shut.
#[verifier::opaque]
spec fn stands_for(v: VocabView, b: u8, id: u32) -> bool {
    token_of_byte(v, b, id)
}

/// `s` holds the token of each byte, in order.
spec fn byte_tokens(v: VocabView, bytes: Seq<u8>, s: Seq<u32>) -> bool {
    &&& s.len() == bytes.len()
    &&& forall|i: int| 0 <= i < s.len() ==> stands_for(v, bytes[i], #[trigger] s[i])
}

/// The vocabulary has a token for a byte.
#[verifier::opaque]
spec fn knows(v: VocabView, b: u8) -> bool {
    v.id_of(seq![byte_level::mapped(b)]) is Some
}

proof fn lemma_knows(v: VocabView)
    requires
        laws::has_alphabet(v),
    ensures
        forall|b: u8| #[trigger] knows(v, b),
{
    reveal(knows);
}

proof fn lemma_symbol(v: VocabView, b: u8) -> (id: u32)
    requires
        knows(v, b),
    ensures
        stands_for(v, b, id),
        bpe::symbol(v, byte_level::mapped(b)) == seq![id],
{
    reveal(knows);
    reveal(stands_for);
    v.id_of(seq![byte_level::mapped(b)])->0
}

proof fn lemma_one_more_byte(v: VocabView, bytes: Seq<u8>, s: Seq<u32>, b: u8, id: u32)
    requires
        byte_tokens(v, bytes, s),
        stands_for(v, b, id),
    ensures
        byte_tokens(v, bytes.push(b), s.push(id)),
{
    let more = s.push(id);
    assert forall|i: int| 0 <= i < more.len() implies stands_for(
        v,
        bytes.push(b)[i],
        #[trigger] more[i],
    ) by {
        if i < s.len() {
            assert(stands_for(v, bytes[i], s[i]));
        }
    }
}

proof fn lemma_seed_of_bytes(v: VocabView, bytes: Seq<u8>)
    requires
        forall|b: u8| #[trigger] knows(v, b),
    ensures
        byte_tokens(v, bytes, bpe::seed(v, byte_level::map_bytes(bytes))),
    decreases bytes.len(),
{
    if bytes.len() > 0 {
        let front = bytes.drop_last();
        lemma_seed_of_bytes(v, front);
        let t = byte_level::map_bytes(bytes);
        assert(t.drop_last() =~= byte_level::map_bytes(front));
        assert(t.last() == byte_level::mapped(bytes.last()));
        assert(knows(v, bytes.last()));
        let id = lemma_symbol(v, bytes.last());
        let s = bpe::seed(v, byte_level::map_bytes(front));
        assert(s + seq![id] =~= s.push(id));
        lemma_one_more_byte(v, front, s, bytes.last(), id);
        assert(front.push(bytes.last()) =~= bytes);
    }
}

/// The tokens of a piece are merged from the tokens of its bytes, by rank, until no pair of
/// neighbours has a rule.
pub proof fn law_a_piece_is_merged_from_its_bytes(v: VocabView, piece: Seq<char>) -> (chain: Seq<
    Seq<u32>,
>)
    requires
        laws::has_alphabet(v),
    ensures
        chain.len() > 0,
        chain[0].len() == encode_utf8(piece).len(),
        forall|i: int|
            0 <= i < chain[0].len() ==> token_of_byte(
                v,
                encode_utf8(piece)[i],
                #[trigger] chain[0][i],
            ),
        merge_chain(v, chain[0], bpe::encode_piece(v, piece), chain),
{
    let bytes = encode_utf8(piece);
    lemma_knows(v);
    lemma_seed_of_bytes(v, bytes);
    let s = bpe::seed(v, byte_level::map_bytes(bytes));
    assert forall|i: int| 0 <= i < s.len() implies token_of_byte(v, bytes[i], #[trigger] s[i]) by {
        assert(stands_for(v, bytes[i], s[i]));
        reveal(stands_for);
    }
    law_merging_goes_by_rank(v, s)
}

proof fn lemma_run_behind(cs: Seq<char>, d: int, i: int, class: spec_fn(char) -> bool)
    requires
        0 <= d <= cs.len(),
        0 <= i,
    ensures
        pretokenize::run_end(cs, d + i, class) == d + pretokenize::run_end(cs.skip(d), i, class),
    decreases cs.len() - d - i,
{
    if i < cs.skip(d).len() && class(cs[d + i]) {
        lemma_run_behind(cs, d, i + 1, class);
    }
}

proof fn lemma_break_behind(cs: Seq<char>, d: int, i: int, end: int)
    requires
        0 <= d <= cs.len(),
        0 <= i,
        end <= cs.skip(d).len(),
    ensures
        pretokenize::last_break_end(cs, d + i, d + end) == d + pretokenize::last_break_end(
            cs.skip(d),
            i,
            end,
        ),
    decreases end - i,
{
    if i < end && !pretokenize::crlf(cs[d + end - 1]) {
        lemma_break_behind(cs, d, i, end - 1);
    }
}

/// Where a piece ends depends on nothing before it.
proof fn lemma_piece_behind(cs: Seq<char>, d: int, i: int)
    requires
        0 <= d <= cs.len(),
        0 <= i < cs.skip(d).len(),
    ensures
        pretokenize::piece_end(cs, d + i) == d + pretokenize::piece_end(cs.skip(d), i),
{
    let t = cs.skip(d);
    let letters = |c: char| classes::letter(c);
    let others = |c: char| pretokenize::other(c);
    let breaks = |c: char| pretokenize::crlf(c);
    let spaces = |c: char| classes::whitespace(c);
    lemma_run_behind(cs, d, i, letters);
    lemma_run_behind(cs, d, i + 1, letters);
    lemma_run_behind(cs, d, i, others);
    lemma_run_behind(cs, d, i + 1, others);
    lemma_run_behind(cs, d, i, spaces);
    let a = pretokenize::run_end(t, i, others);
    let b = pretokenize::run_end(t, i + 1, others);
    let e = pretokenize::run_end(t, i, spaces);
    lemma_bounds(t, i, others);
    lemma_bounds(t, i + 1, others);
    lemma_bounds(t, i, spaces);
    lemma_run_behind(cs, d, a, breaks);
    lemma_run_behind(cs, d, b, breaks);
    lemma_break_behind(cs, d, i, e);
    assert(t[i] == cs[d + i]);
    if i + 1 < t.len() {
        assert(t[i + 1] == cs[d + i + 1]);
    }
    if i + 2 < t.len() {
        assert(t[i + 2] == cs[d + i + 2]);
    }
    assert(pretokenize::contraction_end(cs, d + i) == d + pretokenize::contraction_end(t, i));
    assert(pretokenize::word_end(cs, d + i) == d + pretokenize::word_end(t, i));
    assert(pretokenize::punctuation_end(cs, d + i) == d + pretokenize::punctuation_end(t, i));
    assert(pretokenize::space_end(cs, d + i) == d + pretokenize::space_end(t, i));
}

proof fn lemma_bounds(cs: Seq<char>, i: int, class: spec_fn(char) -> bool)
    requires
        0 <= i <= cs.len(),
    ensures
        i <= pretokenize::run_end(cs, i, class) <= cs.len(),
    decreases cs.len() - i,
{
    if i < cs.len() && class(cs[i]) {
        lemma_bounds(cs, i + 1, class);
    }
}

proof fn lemma_pieces_behind(cs: Seq<char>, d: int, i: int)
    requires
        0 <= d <= cs.len(),
        0 <= i <= cs.skip(d).len(),
    ensures
        ({
            let a = pretokenize::pieces_from(cs, d + i);
            let b = pretokenize::pieces_from(cs.skip(d), i);
            &&& a.len() == b.len()
            &&& forall|k: int|
                0 <= k < a.len() ==> #[trigger] a[k] == (d + b[k].0, d + b[k].1)
        }),
    decreases cs.len() - d - i,
{
    let t = cs.skip(d);
    if i < t.len() {
        pretokenize::lemma_piece_end(t, i);
        lemma_piece_behind(cs, d, i);
        let e = pretokenize::piece_end(t, i);
        lemma_pieces_behind(cs, d, e);
        let a = pretokenize::pieces_from(cs, d + i);
        let b = pretokenize::pieces_from(t, i);
        let ra = pretokenize::pieces_from(cs, d + e);
        let rb = pretokenize::pieces_from(t, e);
        assert(a =~= seq![(d + i, d + e)] + ra);
        assert(b =~= seq![(i, e)] + rb);
        assert forall|k: int| 0 <= k < a.len() implies #[trigger] a[k] == (d + b[k].0, d + b[k].1) by {
            if k > 0 {
                assert(a[k] == ra[k - 1]);
                assert(b[k] == rb[k - 1]);
            }
        }
    }
}

proof fn lemma_encode_behind(v: VocabView, cs: Seq<char>, e: int, k: nat)
    requires
        0 < cs.len(),
        e == pretokenize::piece_end(cs, 0),
        k <= pretokenize::pieces(cs.skip(e)).len(),
    ensures
        k + 1 <= pretokenize::pieces(cs).len(),
        bpe::encode_pieces(v, cs, k + 1) == bpe::encode_piece(v, cs.take(e)) + bpe::encode_pieces(
            v,
            cs.skip(e),
            k,
        ),
    decreases k,
{
    pretokenize::lemma_piece_end(cs, 0);
    let t = cs.skip(e);
    lemma_pieces_behind(cs, e, 0);
    let all = pretokenize::pieces(cs);
    let rest = pretokenize::pieces(t);
    let behind = pretokenize::pieces_from(cs, e);
    assert(all =~= seq![(0int, e)] + behind);
    if k == 0 {
        reveal_with_fuel(bpe::encode_pieces, 2);
        assert(all[0] == (0int, e));
        assert(cs.subrange(0, e) =~= cs.take(e));
        assert(bpe::encode_pieces(v, cs, 1) =~= bpe::encode_piece(v, cs.take(e))
            + bpe::encode_pieces(v, t, 0));
    } else {
        lemma_encode_behind(v, cs, e, (k - 1) as nat);
        pretokenize::law_pieces_cover_the_text(t);
        let p = rest[k - 1];
        assert(all[k as int] == behind[k - 1]);
        assert(behind[k - 1] == (e + p.0, e + p.1));
        assert(cs.subrange(e + p.0, e + p.1) =~= t.subrange(p.0, p.1));
        let piece = bpe::encode_piece(v, t.subrange(p.0, p.1));
        assert(bpe::encode_pieces(v, cs, k + 1) == bpe::encode_pieces(v, cs, k) + piece);
        assert(bpe::encode_pieces(v, cs, k + 1) =~= bpe::encode_piece(v, cs.take(e))
            + bpe::encode_pieces(v, t, k));
    }
}

/// A text is encoded piece by piece: the tokens of its first match of the pattern, which no
/// merge crosses, and then the tokens of the rest.
pub proof fn law_a_text_is_encoded_piece_by_piece(v: VocabView, cs: Seq<char>, e: int)
    requires
        cs.len() > 0,
        pattern::first_match(cs, 0, e),
    ensures
        0 < e <= cs.len(),
        bpe::encode_plain(v, cs) == bpe::encode_piece(v, cs.take(e)) + bpe::encode_plain(
            v,
            cs.skip(e),
        ),
        bpe::encode_plain(v, Seq::empty()) == Seq::<u32>::empty(),
{
    pattern::law_pieces_match_the_pattern(cs, 0, e);
    pretokenize::lemma_piece_end(cs, 0);
    lemma_pieces_behind(cs, e, 0);
    assert(pretokenize::pieces(cs) =~= seq![(0int, e)] + pretokenize::pieces_from(cs, e));
    lemma_encode_behind(v, cs, e, pretokenize::pieces(cs.skip(e)).len());
    assert(pretokenize::pieces(Seq::<char>::empty()).len() == 0);
}

/// With special parsing off, a text is encoded as it stands, behind the opening token where
/// one is asked for and the model wants it.
pub proof fn law_texts_are_encoded_as_they_stand(v: VocabView, cs: Seq<char>, add_bos: bool)
    ensures
        bpe::encoded(v, cs, EncodeOptions { parse_special: false, add_bos }) == (if add_bos
            && v.add_bos && v.bos is Some {
            seq![v.bos->0]
        } else {
            Seq::empty()
        }) + bpe::encode_plain(v, cs),
{
    if cs.len() > 0 {
        assert(cs.subrange(0, cs.len() as int) =~= cs);
    } else {
        assert(pretokenize::pieces(cs).len() == 0);
    }
}

/// The opening token stands before the tokens of a text where it is asked for and the model
/// wants it; it changes none of them.
pub proof fn law_the_opening_token_stands_first(v: VocabView, cs: Seq<char>, parse_special: bool)
    ensures
        bpe::encoded(v, cs, EncodeOptions { parse_special, add_bos: true }) == (if v.add_bos
            && v.bos is Some {
            seq![v.bos->0]
        } else {
            Seq::empty()
        }) + bpe::encoded(v, cs, EncodeOptions { parse_special, add_bos: false }),
{
    assert(bpe::encoded(v, cs, EncodeOptions { parse_special, add_bos: false })
        =~= bpe::encode_from(v, cs, 0, parse_special));
}

/// The special tokens are the control tokens and those that a user defined, each listed once,
/// those with more bytes first and of equals those with lower ids.
pub proof fn law_specials_are_listed_longest_first(v: VocabView, i: int, j: int, id: u32)
    requires
        v.wf(),
        0 <= i < j < v.specials.len(),
    ensures
        v.specials.contains(id) <==> id < v.tokens.len() && (v.types[id as int]
            == TokenType::Control || v.types[id as int] == TokenType::UserDefined),
        ({
            let a = encode_utf8(v.text(v.specials[i])).len();
            let b = encode_utf8(v.text(v.specials[j])).len();
            a > b || (a == b && v.specials[i] < v.specials[j])
        }),
{
    let a = v.specials[i];
    let b = v.specials[j];
    assert(v.specials.contains(a));
    assert(v.specials.contains(b));
    assert(vocab::special_before(v.tokens, a, b) && a != b);
}

/// The special token that is taken stands in the text, none stands before it, and none that
/// stands at its place has more bytes, or as many and a lower id.
pub proof fn law_the_longest_special_is_taken(v: VocabView, cs: Seq<char>, from: int, id: u32)
    requires
        v.wf(),
        0 <= from,
        id < v.tokens.len(),
        v.types[id as int] == TokenType::Control || v.types[id as int] == TokenType::UserDefined,
        v.text(id).len() > 0,
    ensures
        match bpe::next_special(v, cs, from) {
            Some((at, found)) => {
                let s = v.text(found);
                &&& from <= at
                &&& at + s.len() <= cs.len()
                &&& cs.subrange(at, at + s.len()) == s
                &&& forall|p: int| from <= p < at ==> !#[trigger] bpe::occurs(cs, v.text(id), p)
                &&& bpe::occurs(cs, v.text(id), at) ==> {
                    let a = encode_utf8(s).len();
                    let b = encode_utf8(v.text(id)).len();
                    a > b || (a == b && found <= id)
                }
            },
            None => forall|p: int| from <= p ==> !#[trigger] bpe::occurs(cs, v.text(id), p),
        },
{
    assert(v.specials.contains(id));
    let j = choose|j: int| 0 <= j < v.specials.len() && v.specials[j] == id;
    bpe::law_earliest_then_longest_special(v, cs, from, j);
    bpe::lemma_first_special(v, cs, from, v.specials.len());
    if bpe::next_special(v, cs, from) is Some {
        let (at, found) = bpe::next_special(v, cs, from)->0;
        if bpe::occurs(cs, v.text(id), at) {
            let i = choose|i: int| 0 <= i <= j && #[trigger] v.specials[i] == found;
            if i < j {
                law_specials_are_listed_longest_first(v, i, j, id);
            }
        }
    }
}

/// What the numbers of a file say of a token.
pub proof fn law_token_types_are_numbered(n: i32)
    ensures
        TokenType::spec_from_i32(n) == TokenType::Normal <==> n == 1,
        TokenType::spec_from_i32(n) == TokenType::Unknown <==> n == 2,
        TokenType::spec_from_i32(n) == TokenType::Control <==> n == 3,
        TokenType::spec_from_i32(n) == TokenType::UserDefined <==> n == 4,
        TokenType::spec_from_i32(n) == TokenType::Unused <==> n == 5,
        TokenType::spec_from_i32(n) == TokenType::Byte <==> n == 6,
{
}

/// Tokens in a row decode to their bytes in a row, one token after the other.
pub proof fn law_tokens_decode_one_by_one(v: VocabView, ids: Seq<u32>, id: u32, skip: bool)
    ensures
        bpe::decoded(v, Seq::empty(), skip) == Seq::<u8>::empty(),
        bpe::decoded(v, ids.push(id), skip) == bpe::decoded(v, ids, skip) + (if skip && id
            < v.types.len() && (v.types[id as int] == TokenType::Control || v.types[id as int]
            == TokenType::UserDefined) {
            Seq::empty()
        } else {
            byte_level::unmap_chars(v.text(id))
        }),
{
    assert(ids.push(id).drop_last() =~= ids);
}

/// Leaving special tokens out while decoding is decoding what is left without them.
pub proof fn law_skipping_is_leaving_out(v: VocabView, ids: Seq<u32>)
    ensures
        bpe::decoded(v, ids, true) == bpe::decoded(
            v,
            ids.filter(|id: u32| !v.is_special(id)),
            false,
        ),
    decreases ids.len(),
{
    let plain = |id: u32| !v.is_special(id);
    reveal(Seq::filter);
    if ids.len() > 0 {
        law_skipping_is_leaving_out(v, ids.drop_last());
        let front = ids.drop_last().filter(plain);
        let id = ids.last();
        if plain(id) {
            assert(front.push(id).drop_last() =~= front);
        } else {
            assert(bpe::decoded(v, ids.drop_last(), true) + Seq::<u8>::empty() =~= bpe::decoded(
                v,
                ids.drop_last(),
                true,
            ));
        }
    }
}

/// A text stands where it was put between two others, be these empty or not, and nowhere else
/// than between what is before and behind it.
pub proof fn law_texts_stand_where_they_are_put(
    a: Seq<char>,
    s: Seq<char>,
    b: Seq<char>,
    cs: Seq<char>,
    at: int,
)
    ensures
        bpe::occurs(a + s + b, s, a.len() as int),
        bpe::occurs(cs, s, at) ==> 0 <= at && at + s.len() <= cs.len() && cs == cs.take(at) + s
            + cs.skip(at + s.len()),
{
    let whole = a + s + b;
    assert(whole.subrange(a.len() as int, (a.len() + s.len()) as int) =~= s);
    if bpe::occurs(cs, s, at) {
        assert(cs =~= cs.take(at) + cs.subrange(at, at + s.len()) + cs.skip(at + s.len()));
    }
}

} // verus!
