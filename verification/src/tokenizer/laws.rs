//! What holds of every encoding.
use super::bpe;
use super::bpe::EncodeOptions;
use super::byte_level;
use super::pretokenize;
use super::vocab;
use super::vocab::{Merge, VocabView};
use crate::text;
use vstd::prelude::*;
use vstd::utf8::*;

verus! {

/// The strings of tokens in a row, in the mapped alphabet.
pub open spec fn text_of(v: VocabView, ids: Seq<u32>) -> Seq<char>
    decreases ids.len(),
{
    if ids.len() == 0 {
        Seq::empty()
    } else {
        text_of(v, ids.drop_last()) + v.text(ids.last())
    }
}

/// The vocabulary has a token for each single byte.
pub open spec fn has_alphabet(v: VocabView) -> bool {
    forall|b: u8| v.id_of(seq![#[trigger] byte_level::mapped(b)]) is Some
}

/// The string of each special token stands for its own bytes.
pub open spec fn specials_stand_for_themselves(v: VocabView) -> bool {
    forall|id: u32| #[trigger]
        v.specials.contains(id) ==> byte_level::unmap_chars(v.text(id)) == encode_utf8(v.text(id))
}

proof fn lemma_text_concat(v: VocabView, a: Seq<u32>, b: Seq<u32>)
    ensures
        text_of(v, a + b) == text_of(v, a) + text_of(v, b),
    decreases b.len(),
{
    if b.len() == 0 {
        assert(a + b =~= a);
        assert(text_of(v, a) + text_of(v, b) =~= text_of(v, a));
    } else {
        lemma_text_concat(v, a, b.drop_last());
        assert((a + b).drop_last() =~= a + b.drop_last());
        assert(text_of(v, a + b) =~= text_of(v, a) + text_of(v, b));
    }
}

proof fn lemma_text_single(v: VocabView, id: u32)
    ensures
        text_of(v, seq![id]) == v.text(id),
{
    reveal_with_fuel(text_of, 2);
    assert(seq![id].drop_last() =~= Seq::empty());
    assert(text_of(v, seq![id]) =~= v.text(id));
}

proof fn lemma_decoded_concat(v: VocabView, a: Seq<u32>, b: Seq<u32>, skip: bool)
    ensures
        bpe::decoded(v, a + b, skip) == bpe::decoded(v, a, skip) + bpe::decoded(v, b, skip),
    decreases b.len(),
{
    if b.len() == 0 {
        assert(a + b =~= a);
        assert(bpe::decoded(v, a, skip) + bpe::decoded(v, b, skip) =~= bpe::decoded(v, a, skip));
    } else {
        lemma_decoded_concat(v, a, b.drop_last(), skip);
        assert((a + b).drop_last() =~= a + b.drop_last());
        assert(bpe::decoded(v, a + b, skip) =~= bpe::decoded(v, a, skip) + bpe::decoded(v, b, skip));
    }
}

/// The bytes of tokens are those that their strings in a row stand for.
pub proof fn law_decoding_goes_by_the_strings(v: VocabView, ids: Seq<u32>)
    ensures
        bpe::decoded(v, ids, false) == byte_level::unmap_chars(text_of(v, ids)),
    decreases ids.len(),
{
    if ids.len() > 0 {
        law_decoding_goes_by_the_strings(v, ids.drop_last());
        byte_level::lemma_unmap_concat(text_of(v, ids.drop_last()), v.text(ids.last()));
    }
}

proof fn lemma_replaced_text(v: VocabView, s: Seq<u32>, m: Merge, i: int)
    requires
        v.tokens.len() <= u32::MAX,
        v.joins(m),
        0 <= i <= s.len(),
    ensures
        text_of(v, bpe::replaced(s, m, i)) == text_of(v, s.skip(i)),
    decreases s.len() - i,
{
    if i < s.len() {
        if i + 1 < s.len() && s[i] == m.left && s[i + 1] == m.right {
            lemma_replaced_text(v, s, m, i + 2);
            assert(s.skip(i) =~= seq![s[i]] + (seq![s[i + 1]] + s.skip(i + 2)));
            lemma_text_concat(v, seq![s[i]], seq![s[i + 1]] + s.skip(i + 2));
            lemma_text_concat(v, seq![s[i + 1]], s.skip(i + 2));
            lemma_text_concat(v, seq![m.result], bpe::replaced(s, m, i + 2));
            lemma_text_single(v, s[i]);
            lemma_text_single(v, s[i + 1]);
            lemma_text_single(v, m.result);
            assert(text_of(v, bpe::replaced(s, m, i)) =~= text_of(v, s.skip(i)));
        } else {
            lemma_replaced_text(v, s, m, i + 1);
            assert(s.skip(i) =~= seq![s[i]] + s.skip(i + 1));
            lemma_text_concat(v, seq![s[i]], s.skip(i + 1));
            lemma_text_concat(v, seq![s[i]], bpe::replaced(s, m, i + 1));
        }
    } else {
        assert(s.skip(i) =~= Seq::empty());
    }
}

/// Merging changes no text, and goes on until no rule applies.
pub proof fn law_merging_keeps_the_text(v: VocabView, s: Seq<u32>)
    requires
        v.wf(),
    ensures
        text_of(v, bpe::merged(v, s)) == text_of(v, s),
        bpe::next_rule(v, bpe::merged(v, s)) is None,
        bpe::merged(v, s).len() <= s.len(),
    decreases s.len(),
{
    if bpe::next_rule(v, s) is Some {
        let m = bpe::next_rule(v, s)->0;
        bpe::lemma_next_rule_shortens(v, s);
        let k = choose|k: int| 0 <= k < v.rules.len() && v.rules[k] == m;
        assert(v.joins(v.rules[k]));
        lemma_replaced_text(v, s, m, 0);
        assert(s.skip(0) =~= s);
        law_merging_keeps_the_text(v, bpe::replaced(s, m, 0));
    }
}

/// The symbol of a single byte spells the character that stands for it.
spec fn spells_bytes(v: VocabView) -> bool {
    forall|b: u8|
        text_of(v, bpe::symbol(v, #[trigger] byte_level::mapped(b))) == seq![byte_level::mapped(b)]
}

proof fn lemma_spells_bytes(v: VocabView)
    requires
        v.tokens.len() <= u32::MAX,
        has_alphabet(v),
    ensures
        spells_bytes(v),
{
    assert forall|b: u8|
        text_of(v, bpe::symbol(v, #[trigger] byte_level::mapped(b))) == seq![
            byte_level::mapped(b),
        ] by {
        let c = byte_level::mapped(b);
        assert(v.id_of(seq![c]) is Some);
        vocab::lemma_first_token(v.tokens, seq![c]);
        lemma_text_single(v, v.id_of(seq![c])->0);
    }
}

proof fn lemma_seed_text(v: VocabView, bytes: Seq<u8>)
    requires
        spells_bytes(v),
    ensures
        text_of(v, bpe::seed(v, byte_level::map_bytes(bytes))) == byte_level::map_bytes(bytes),
    decreases bytes.len(),
{
    let t = byte_level::map_bytes(bytes);
    if bytes.len() > 0 {
        lemma_seed_text(v, bytes.drop_last());
        assert(t.drop_last() =~= byte_level::map_bytes(bytes.drop_last()));
        let c = byte_level::mapped(bytes.last());
        assert(t.last() == c);
        lemma_text_concat(v, bpe::seed(v, t.drop_last()), bpe::symbol(v, c));
        assert(t =~= t.drop_last() + seq![c]);
    } else {
        assert(text_of(v, bpe::seed(v, t)) =~= t);
    }
}

proof fn lemma_map_concat(a: Seq<u8>, b: Seq<u8>)
    ensures
        byte_level::map_bytes(a + b) == byte_level::map_bytes(a) + byte_level::map_bytes(b),
{
    assert(byte_level::map_bytes(a + b) =~= byte_level::map_bytes(a) + byte_level::map_bytes(b));
}

/// Where the first `k` pieces end.
spec fn pieces_end(cs: Seq<char>, k: int) -> int {
    if k == 0 {
        0
    } else {
        pretokenize::pieces(cs)[k - 1].1
    }
}

proof fn lemma_pieces_text(v: VocabView, cs: Seq<char>, k: nat)
    requires
        v.wf(),
        has_alphabet(v),
        k <= pretokenize::pieces(cs).len(),
    ensures
        0 <= pieces_end(cs, k as int) <= cs.len(),
        text_of(v, bpe::encode_pieces(v, cs, k)) == byte_level::map_bytes(
            encode_utf8(cs.take(pieces_end(cs, k as int))),
        ),
    decreases k,
{
    pretokenize::law_pieces_cover_the_text(cs);
    if k > 0 {
        lemma_pieces_text(v, cs, (k - 1) as nat);
        let p = pretokenize::pieces(cs)[k - 1];
        assert(pieces_end(cs, k - 1) == p.0) by {
            if k > 1 {
                assert(pretokenize::pieces(cs)[k - 2].1 == pretokenize::pieces(cs)[k - 1].0);
            }
        }
        let before = cs.take(p.0);
        let piece = cs.subrange(p.0, p.1);
        assert(cs.take(p.1) =~= before + piece);
        text::lemma_utf8_concat(before, piece);
        lemma_map_concat(encode_utf8(before), encode_utf8(piece));
        lemma_text_concat(
            v,
            bpe::encode_pieces(v, cs, (k - 1) as nat),
            bpe::encode_piece(v, piece),
        );
        lemma_spells_bytes(v);
        lemma_seed_text(v, encode_utf8(piece));
        law_merging_keeps_the_text(v, bpe::seed(v, byte_level::map_bytes(encode_utf8(piece))));
    } else {
        assert(cs.take(0) =~= Seq::empty());
        assert(byte_level::map_bytes(encode_utf8(cs.take(0))) =~= Seq::empty());
    }
}

/// The tokens of plain text spell its bytes in the mapped alphabet.
pub proof fn law_plain_tokens_spell_the_text(v: VocabView, cs: Seq<char>)
    requires
        v.wf(),
        has_alphabet(v),
    ensures
        text_of(v, bpe::encode_plain(v, cs)) == byte_level::map_bytes(encode_utf8(cs)),
        bpe::decoded(v, bpe::encode_plain(v, cs), false) == encode_utf8(cs),
{
    let n = pretokenize::pieces(cs).len();
    lemma_pieces_text(v, cs, n);
    pretokenize::law_pieces_cover_the_text(cs);
    assert(cs.take(pieces_end(cs, n as int)) =~= cs);
    law_decoding_goes_by_the_strings(v, bpe::encode_plain(v, cs));
    byte_level::law_unmap_undoes_map(encode_utf8(cs));
}

/// What stands before a special token, the token, and what stands behind it decode
/// to the text that they were made of.
proof fn lemma_around_special(
    v: VocabView,
    cs: Seq<char>,
    pos: int,
    at: int,
    id: u32,
    plain: Seq<u32>,
    rest: Seq<u32>,
)
    requires
        0 <= pos <= at,
        bpe::occurs(cs, v.text(id), at),
        byte_level::unmap_chars(v.text(id)) == encode_utf8(v.text(id)),
        bpe::decoded(v, plain, false) == encode_utf8(cs.subrange(pos, at)),
        bpe::decoded(v, rest, false) == encode_utf8(cs.skip(at + v.text(id).len())),
    ensures
        bpe::decoded(v, plain + seq![id] + rest, false) == encode_utf8(cs.skip(pos)),
{
    let w = v.text(id).len();
    let head = cs.subrange(pos, at);
    lemma_decoded_concat(v, plain + seq![id], rest, false);
    lemma_decoded_concat(v, plain, seq![id], false);
    law_decoding_goes_by_the_strings(v, seq![id]);
    lemma_text_single(v, id);
    assert(cs.skip(pos) =~= (head + v.text(id)) + cs.skip(at + w));
    text::lemma_utf8_concat(head + v.text(id), cs.skip(at + w));
    text::lemma_utf8_concat(head, v.text(id));
}

proof fn lemma_round_trip_from(v: VocabView, cs: Seq<char>, pos: int, special: bool)
    requires
        v.wf(),
        has_alphabet(v),
        special ==> specials_stand_for_themselves(v),
        0 <= pos <= cs.len(),
    ensures
        bpe::decoded(v, bpe::encode_from(v, cs, pos, special), false) == encode_utf8(cs.skip(pos)),
    decreases cs.len() - pos,
{
    if pos >= cs.len() {
        assert(cs.skip(pos) =~= Seq::empty());
    } else {
        let hit = bpe::next_special(v, cs, pos);
        if special && hit is Some {
            let (at, id) = hit->0;
            bpe::lemma_first_special(v, cs, pos, v.specials.len());
            let w = v.text(id).len();
            let head = cs.subrange(pos, at);
            law_plain_tokens_spell_the_text(v, head);
            lemma_round_trip_from(v, cs, at + w, special);
            let plain = bpe::encode_plain(v, head);
            let rest = bpe::encode_from(v, cs, at + w, special);
            lemma_around_special(v, cs, pos, at, id, plain, rest);
        } else {
            assert(cs.skip(pos) =~= cs.subrange(pos, cs.len() as int));
            law_plain_tokens_spell_the_text(v, cs.skip(pos));
        }
    }
}

/// Decoding undoes encoding: with a token for each single byte, and special tokens
/// (where they are looked for) whose strings stand for themselves, the tokens of a
/// text decode to the text.
pub proof fn law_decoding_undoes_encoding(v: VocabView, cs: Seq<char>, opts: EncodeOptions)
    requires
        v.wf(),
        has_alphabet(v),
        opts.parse_special ==> specials_stand_for_themselves(v),
        bpe::opening(v, opts).len() == 0,
    ensures
        bpe::decoded(v, bpe::encoded(v, cs, opts), false) == encode_utf8(cs),
        valid_utf8(bpe::decoded(v, bpe::encoded(v, cs, opts), false)),
        decode_utf8(bpe::decoded(v, bpe::encoded(v, cs, opts), false)) == cs,
{
    lemma_round_trip_from(v, cs, 0, opts.parse_special);
    assert(cs.skip(0) =~= cs);
    assert(bpe::encoded(v, cs, opts) =~= bpe::encode_from(v, cs, 0, opts.parse_special));
    encode_utf8_valid_utf8(cs);
    encode_utf8_decode_utf8(cs);
}

/// Encoding is idempotent: the text that the encoder's own tokens decode to is
/// encoded to the same tokens.
pub proof fn law_encoding_is_idempotent(v: VocabView, cs: Seq<char>, opts: EncodeOptions)
    requires
        v.wf(),
        has_alphabet(v),
        opts.parse_special ==> specials_stand_for_themselves(v),
        bpe::opening(v, opts).len() == 0,
    ensures
        bpe::encoded(
            v,
            decode_utf8(bpe::decoded(v, bpe::encoded(v, cs, opts), false)),
            opts,
        ) == bpe::encoded(v, cs, opts),
{
    law_decoding_undoes_encoding(v, cs, opts);
}

/// Neither single bytes, nor merges, nor the unknown token are special tokens.
pub open spec fn specials_are_out_of_reach(v: VocabView) -> bool {
    &&& forall|b: u8|
        v.id_of(seq![#[trigger] byte_level::mapped(b)]) matches Some(id) ==> !v.is_special(id)
    &&& v.unk matches Some(u) ==> !v.is_special(u)
    &&& forall|i: int| 0 <= i < v.rules.len() ==> !v.is_special((#[trigger] v.rules[i]).result)
}

/// None of the tokens is special.
pub open spec fn none_special(v: VocabView, ids: Seq<u32>) -> bool {
    forall|i: int| 0 <= i < ids.len() ==> !v.is_special(#[trigger] ids[i])
}

proof fn lemma_seed_plain(v: VocabView, bytes: Seq<u8>)
    requires
        specials_are_out_of_reach(v),
    ensures
        none_special(v, bpe::seed(v, byte_level::map_bytes(bytes))),
    decreases bytes.len(),
{
    if bytes.len() > 0 {
        let t = byte_level::map_bytes(bytes);
        lemma_seed_plain(v, bytes.drop_last());
        assert(t.drop_last() =~= byte_level::map_bytes(bytes.drop_last()));
        assert(t.last() == byte_level::mapped(bytes.last()));
    }
}

proof fn lemma_replaced_plain(v: VocabView, s: Seq<u32>, m: Merge, i: int)
    requires
        none_special(v, s),
        !v.is_special(m.result),
        0 <= i <= s.len(),
    ensures
        none_special(v, bpe::replaced(s, m, i)),
    decreases s.len() - i,
{
    if i < s.len() {
        if i + 1 < s.len() && s[i] == m.left && s[i + 1] == m.right {
            lemma_replaced_plain(v, s, m, i + 2);
        } else {
            lemma_replaced_plain(v, s, m, i + 1);
        }
    }
}

proof fn lemma_merged_plain(v: VocabView, s: Seq<u32>)
    requires
        specials_are_out_of_reach(v),
        none_special(v, s),
    ensures
        none_special(v, bpe::merged(v, s)),
    decreases s.len(),
{
    if bpe::next_rule(v, s) is Some {
        let m = bpe::next_rule(v, s)->0;
        bpe::lemma_next_rule_shortens(v, s);
        let k = choose|k: int| 0 <= k < v.rules.len() && v.rules[k] == m;
        assert(!v.is_special(v.rules[k].result));
        lemma_replaced_plain(v, s, m, 0);
        lemma_merged_plain(v, bpe::replaced(s, m, 0));
    }
}

proof fn lemma_pieces_plain(v: VocabView, cs: Seq<char>, k: nat)
    requires
        specials_are_out_of_reach(v),
    ensures
        none_special(v, bpe::encode_pieces(v, cs, k)),
    decreases k,
{
    if k > 0 {
        lemma_pieces_plain(v, cs, (k - 1) as nat);
        let p = pretokenize::pieces(cs)[k - 1];
        let bytes = encode_utf8(cs.subrange(p.0, p.1));
        lemma_seed_plain(v, bytes);
        lemma_merged_plain(v, bpe::seed(v, byte_level::map_bytes(bytes)));
    }
}

/// With `parse_special` off, no text is encoded to a special token, where the
/// special tokens cannot be reached through single bytes and merges.
pub proof fn law_markers_in_text_stay_text(v: VocabView, cs: Seq<char>)
    requires
        specials_are_out_of_reach(v),
    ensures
        none_special(v, bpe::encode_from(v, cs, 0, false)),
{
    if cs.len() > 0 {
        lemma_pieces_plain(
            v,
            cs.subrange(0, cs.len() as int),
            pretokenize::pieces(cs.subrange(0, cs.len() as int)).len(),
        );
    }
}

/// A token for a byte of a text, or the result of a merge rule.
pub open spec fn comes_from(v: VocabView, bytes: Seq<u8>, id: u32) -> bool {
    ||| exists|b: u8|
        bytes.contains(b) && v.id_of(seq![#[trigger] byte_level::mapped(b)]) == Some(id)
    ||| exists|i: int| 0 <= i < v.rules.len() && (#[trigger] v.rules[i]).result == id
}

/// All of the tokens are tokens for bytes of a text, or results of merge rules.
pub open spec fn all_come_from(v: VocabView, bytes: Seq<u8>, ids: Seq<u32>) -> bool {
    forall|i: int| 0 <= i < ids.len() ==> comes_from(v, bytes, #[trigger] ids[i])
}

proof fn lemma_seed_comes_from(v: VocabView, bytes: Seq<u8>, part: Seq<u8>)
    requires
        has_alphabet(v),
        forall|i: int| 0 <= i < part.len() ==> bytes.contains(#[trigger] part[i]),
    ensures
        all_come_from(v, bytes, bpe::seed(v, byte_level::map_bytes(part))),
    decreases part.len(),
{
    if part.len() > 0 {
        let t = byte_level::map_bytes(part);
        let front = part.drop_last();
        assert forall|i: int| 0 <= i < front.len() implies bytes.contains(#[trigger] front[i]) by {
            assert(bytes.contains(part[i]));
        }
        lemma_seed_comes_from(v, bytes, front);
        assert(t.drop_last() =~= byte_level::map_bytes(front));
        let b = part[part.len() - 1];
        assert(bytes.contains(b));
        assert(t.last() == byte_level::mapped(b));
        assert(v.id_of(seq![byte_level::mapped(b)]) is Some);
    }
}

proof fn lemma_replaced_comes_from(v: VocabView, bytes: Seq<u8>, s: Seq<u32>, m: Merge, i: int)
    requires
        all_come_from(v, bytes, s),
        comes_from(v, bytes, m.result),
        0 <= i <= s.len(),
    ensures
        all_come_from(v, bytes, bpe::replaced(s, m, i)),
    decreases s.len() - i,
{
    if i < s.len() {
        assert(comes_from(v, bytes, s[i]));
        if i + 1 < s.len() && s[i] == m.left && s[i + 1] == m.right {
            lemma_replaced_comes_from(v, bytes, s, m, i + 2);
        } else {
            lemma_replaced_comes_from(v, bytes, s, m, i + 1);
        }
    }
}

proof fn lemma_merged_comes_from(v: VocabView, bytes: Seq<u8>, s: Seq<u32>)
    requires
        all_come_from(v, bytes, s),
    ensures
        all_come_from(v, bytes, bpe::merged(v, s)),
    decreases s.len(),
{
    if bpe::next_rule(v, s) is Some {
        let m = bpe::next_rule(v, s)->0;
        bpe::lemma_next_rule_shortens(v, s);
        let k = choose|k: int| 0 <= k < v.rules.len() && v.rules[k] == m;
        assert(v.rules[k].result == m.result);
        lemma_replaced_comes_from(v, bytes, s, m, 0);
        lemma_merged_comes_from(v, bytes, bpe::replaced(s, m, 0));
    }
}

/// The bytes of a part of a text are bytes of the text.
proof fn lemma_part_bytes(cs: Seq<char>, from: int, to: int, i: int)
    requires
        0 <= from <= to <= cs.len(),
        0 <= i < encode_utf8(cs.subrange(from, to)).len(),
    ensures
        encode_utf8(cs).contains(encode_utf8(cs.subrange(from, to))[i]),
{
    let a = cs.take(from);
    let b = cs.subrange(from, to);
    let c = cs.skip(to);
    assert(cs =~= a + b + c);
    text::lemma_utf8_concat(a + b, c);
    text::lemma_utf8_concat(a, b);
    assert(encode_utf8(cs)[encode_utf8(a).len() + i] == encode_utf8(b)[i]);
}

proof fn lemma_pieces_come_from(v: VocabView, cs: Seq<char>, k: nat)
    requires
        has_alphabet(v),
        k <= pretokenize::pieces(cs).len(),
    ensures
        all_come_from(v, encode_utf8(cs), bpe::encode_pieces(v, cs, k)),
    decreases k,
{
    if k > 0 {
        lemma_pieces_come_from(v, cs, (k - 1) as nat);
        pretokenize::law_pieces_cover_the_text(cs);
        let all = encode_utf8(cs);
        let p = pretokenize::pieces(cs)[k - 1];
        let part = encode_utf8(cs.subrange(p.0, p.1));
        assert forall|i: int| 0 <= i < part.len() implies all.contains(#[trigger] part[i]) by {
            lemma_part_bytes(cs, p.0, p.1, i);
        }
        lemma_seed_comes_from(v, all, part);
        lemma_merged_comes_from(v, all, bpe::seed(v, byte_level::map_bytes(part)));
    }
}

/// With special parsing off, every token is that of a byte of the text or the result of
/// a merge rule, so that no other special token comes out, whatever the text holds.
pub proof fn law_tokens_come_from_bytes_and_rules(v: VocabView, cs: Seq<char>, opts: EncodeOptions)
    requires
        has_alphabet(v),
        !opts.parse_special,
        bpe::opening(v, opts).len() == 0,
    ensures
        all_come_from(v, encode_utf8(cs), bpe::encoded(v, cs, opts)),
{
    assert(bpe::encoded(v, cs, opts) =~= bpe::encode_from(v, cs, 0, false));
    if cs.len() > 0 {
        assert(cs.subrange(0, cs.len() as int) =~= cs);
        lemma_pieces_come_from(v, cs, pretokenize::pieces(cs).len());
    }
}

/// No special token with a string stands in a text before a place.
pub open spec fn no_special_before(v: VocabView, cs: Seq<char>, end: int) -> bool {
    forall|j: int, p: int|
        #![trigger bpe::occurs(cs, v.text(v.specials[j]), p)]
        0 <= j < v.specials.len() && v.text(v.specials[j]).len() > 0 && 0 <= p < end
            ==> !bpe::occurs(cs, v.text(v.specials[j]), p)
}

/// Where no special token stands in a text, special parsing makes no difference.
pub proof fn law_parsing_specials_needs_specials(v: VocabView, cs: Seq<char>, add_bos: bool)
    requires
        no_special_before(v, cs, cs.len() as int),
    ensures
        bpe::encoded(v, cs, EncodeOptions { parse_special: true, add_bos }) == bpe::encoded(
            v,
            cs,
            EncodeOptions { parse_special: false, add_bos },
        ),
{
    lemma_nothing_special(v, cs);
}

proof fn lemma_nothing_special(v: VocabView, cs: Seq<char>)
    requires
        no_special_before(v, cs, cs.len() as int),
    ensures
        bpe::next_special(v, cs, 0) is None,
{
    if bpe::next_special(v, cs, 0) is Some {
        let (at, id) = bpe::next_special(v, cs, 0)->0;
        bpe::lemma_first_special(v, cs, 0, v.specials.len());
        let j = choose|j: int| 0 <= j < v.specials.len() && v.specials[j] == id;
        assert(v.text(v.specials[j]).len() > 0);
        assert(bpe::occurs(cs, v.text(v.specials[j]), at));
    }
}

proof fn lemma_find_shifted(cs: Seq<char>, s: Seq<char>, d: int, at: int)
    requires
        0 <= d <= cs.len(),
        0 <= at,
    ensures
        bpe::find_from(cs, s, d + at) == match bpe::find_from(cs.skip(d), s, at) {
            Some(k) => Some(d + k),
            None => None,
        },
    decreases cs.len() - d - at + 1,
{
    let rest = cs.skip(d);
    if at + s.len() <= rest.len() {
        assert(rest.subrange(at, at + s.len()) =~= cs.subrange(d + at, d + at + s.len()));
        if !bpe::occurs(rest, s, at) {
            lemma_find_shifted(cs, s, d, at + 1);
        }
    }
}

proof fn lemma_special_shifted(v: VocabView, cs: Seq<char>, d: int, from: int, k: nat)
    requires
        0 <= d <= cs.len(),
        0 <= from,
    ensures
        bpe::first_special(v, cs, d + from, k) == match bpe::first_special(
            v,
            cs.skip(d),
            from,
            k,
        ) {
            Some((at, id)) => Some((d + at, id)),
            None => None,
        },
    decreases k,
{
    if k > 0 {
        lemma_special_shifted(v, cs, d, from, (k - 1) as nat);
        lemma_find_shifted(cs, v.text(v.specials[k - 1]), d, from);
    }
}

/// The tokens of what stands behind a place depend on nothing before it.
proof fn lemma_encode_shifted(v: VocabView, cs: Seq<char>, d: int, pos: int, special: bool)
    requires
        0 <= d <= cs.len(),
        0 <= pos,
    ensures
        bpe::encode_from(v, cs, d + pos, special) == bpe::encode_from(v, cs.skip(d), pos, special),
    decreases cs.len() - d - pos,
{
    let rest = cs.skip(d);
    if pos < rest.len() {
        lemma_special_shifted(v, cs, d, pos, v.specials.len());
        assert(rest.subrange(pos, rest.len() as int) =~= cs.subrange(d + pos, cs.len() as int));
        let hit = bpe::next_special(v, rest, pos);
        if special && hit is Some {
            let (at, id) = hit->0;
            bpe::lemma_first_special(v, rest, pos, v.specials.len());
            assert(rest.subrange(pos, at) =~= cs.subrange(d + pos, d + at));
            lemma_encode_shifted(v, cs, d, at + v.text(id).len(), special);
        }
    }
}

/// `id` is the special token that is taken at a place: none that stands there is longer,
/// and none as long has a lower id.
pub open spec fn taken_at(v: VocabView, cs: Seq<char>, at: int, id: u32) -> bool {
    &&& v.specials.contains(id)
    &&& v.text(id).len() > 0
    &&& bpe::occurs(cs, v.text(id), at)
    &&& forall|j: int|
        0 <= j < v.specials.len() && v.text(v.specials[j]).len() > 0 && bpe::occurs(
            cs,
            v.text(v.specials[j]),
            at,
        ) ==> v.special_before(id, #[trigger] v.specials[j])
}

/// The first special token of a text splits its encoding: the tokens of what stands
/// before, the special token, the tokens of what stands behind.
pub proof fn law_specials_split_the_text(
    v: VocabView,
    a: Seq<char>,
    id: u32,
    b: Seq<char>,
    opts: EncodeOptions,
)
    requires
        v.wf(),
        opts.parse_special,
        bpe::opening(v, opts).len() == 0,
        no_special_before(v, a + v.text(id) + b, a.len() as int),
        taken_at(v, a + v.text(id) + b, a.len() as int, id),
    ensures
        bpe::encoded(v, a + v.text(id) + b, opts) == bpe::encoded(v, a, opts) + seq![id]
            + bpe::encoded(v, b, opts),
{
    let s = v.text(id);
    let cs = a + s + b;
    let n = a.len() as int;
    lemma_taken(v, cs, n, id);
    lemma_encode_shifted(v, cs, n + s.len(), 0, true);
    assert(cs.skip(n + s.len()) =~= b);
    assert(cs.subrange(0, n) =~= a);
    assert(no_special_before(v, a, n)) by {
        assert forall|j: int, p: int|
            #![trigger bpe::occurs(a, v.text(v.specials[j]), p)]
            0 <= j < v.specials.len() && v.text(v.specials[j]).len() > 0 && 0 <= p
                < n implies !bpe::occurs(a, v.text(v.specials[j]), p) by {
            let t = v.text(v.specials[j]);
            if bpe::occurs(a, t, p) {
                assert(cs.subrange(p, p + t.len()) =~= a.subrange(p, p + t.len()));
                assert(bpe::occurs(cs, t, p));
            }
        }
    }
    lemma_nothing_special(v, a);
    assert(bpe::encode_from(v, a, 0, true) == bpe::encode_plain(v, a)) by {
        if n == 0 {
            pretokenize::law_pieces_cover_the_text(a);
        } else {
            assert(a.subrange(0, n) =~= a);
        }
    }
    assert(bpe::encoded(v, cs, opts) =~= bpe::encode_from(v, cs, 0, true));
    assert(bpe::encoded(v, a, opts) =~= bpe::encode_from(v, a, 0, true));
    assert(bpe::encoded(v, b, opts) =~= bpe::encode_from(v, b, 0, true));
}

/// What is taken at the first place where a special token stands is what is found.
proof fn lemma_taken(v: VocabView, cs: Seq<char>, n: int, id: u32)
    requires
        v.wf(),
        0 <= n,
        no_special_before(v, cs, n),
        taken_at(v, cs, n, id),
    ensures
        bpe::next_special(v, cs, 0) == Some((n, id)),
{
    let j = choose|j: int| 0 <= j < v.specials.len() && v.specials[j] == id;
    bpe::law_earliest_then_longest_special(v, cs, 0, j);
    bpe::lemma_first_special(v, cs, 0, v.specials.len());
    assert(bpe::occurs(cs, v.text(v.specials[j]), n));
    let (at, found) = bpe::next_special(v, cs, 0)->0;
    let f = choose|f: int| 0 <= f < v.specials.len() && v.specials[f] == found;
    assert(v.text(v.specials[f]).len() > 0);
    assert(bpe::occurs(cs, v.text(v.specials[f]), at));
    assert(at == n);
    assert(v.special_before(id, v.specials[f]));
    let i = choose|i: int| 0 <= i <= j && #[trigger] v.specials[i] == found;
    if i < j {
        assert(vocab::special_before(v.tokens, v.specials[i], v.specials[j]) && v.specials[i]
            != v.specials[j]);
    }
}

} // verus!
