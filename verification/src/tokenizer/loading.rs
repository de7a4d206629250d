//! What of a container becomes the vocabulary.
use super::vocab;
use super::vocab::{Source, VocabErrorView, VocabView};
use crate::gguf::file;
use crate::gguf::file::GgufView;
use crate::gguf::value::{MetaType, ValueView};
use vstd::prelude::*;

verus! {

/// A list of texts under a key.
pub open spec fn lists_texts(g: GgufView, key: Seq<char>, items: Seq<ValueView>) -> bool {
    file::lookup(g.metadata, key) matches Some(ValueView::Array(a)) && a.elem == MetaType::String
        && a.items == items
}

/// A list of numbers under a key.
pub open spec fn lists_numbers(g: GgufView, key: Seq<char>, items: Seq<ValueView>) -> bool {
    file::lookup(g.metadata, key) matches Some(ValueView::Array(a)) && a.elem == MetaType::I32
        && a.items == items
}

/// Nothing stands under a key.
pub open spec fn nothing_under(g: GgufView, key: Seq<char>) -> bool {
    file::lookup(g.metadata, key) is None
}

/// The tokens, their types and the merge rules stand under their own keys, in the order of
/// their ids and ranks.
pub proof fn law_lists_stand_under_their_keys(
    v: VocabView,
    g: GgufView,
    s: Source,
    items: Seq<ValueView>,
    i: int,
    t: Seq<char>,
    n: i32,
)
    requires
        vocab::source(g) == Ok::<Source, VocabErrorView>(s),
        vocab::loaded(v, g, s),
        0 <= i < items.len(),
    ensures
        lists_texts(g, "tokenizer.ggml.tokens"@, items) ==> {
            &&& v.tokens.len() == items.len()
            &&& items[i] == ValueView::Str(t) ==> v.tokens[i] == t
        },
        lists_texts(g, "tokenizer.ggml.merges"@, items) ==> {
            &&& s.raw.len() == items.len()
            &&& items[i] == ValueView::Str(t) ==> s.raw[i] == t
        },
        lists_numbers(g, "tokenizer.ggml.token_type"@, items) ==> {
            &&& v.types.len() == items.len()
            &&& items[i] == ValueView::I32(n) ==> {
                &&& v.types[i] is Normal <==> n == 1
                &&& v.types[i] is Unknown <==> n == 2
                &&& v.types[i] is Control <==> n == 3
                &&& v.types[i] is UserDefined <==> n == 4
                &&& v.types[i] is Unused <==> n == 5
                &&& v.types[i] is Byte <==> n == 6
            }
        },
        nothing_under(g, "tokenizer.ggml.token_type"@) ==> {
            &&& v.types.len() == v.tokens.len()
            &&& i < v.types.len() ==> v.types[i] is Normal
        },
{
}

/// The special ids stand under their own keys.
pub proof fn law_ids_stand_under_their_keys(v: VocabView, g: GgufView, s: Source, x: u32, b: bool)
    requires
        vocab::loaded(v, g, s),
    ensures
        file::lookup(g.metadata, "tokenizer.ggml.bos_token_id"@) == Some(ValueView::U32(x))
            ==> v.bos == Some(x),
        file::lookup(g.metadata, "tokenizer.ggml.eos_token_id"@) == Some(ValueView::U32(x))
            ==> v.eos == Some(x),
        file::lookup(g.metadata, "tokenizer.ggml.padding_token_id"@) == Some(ValueView::U32(x))
            ==> v.pad == Some(x),
        file::lookup(g.metadata, "tokenizer.ggml.unknown_token_id"@) == Some(ValueView::U32(x))
            ==> v.unk == Some(x),
        nothing_under(g, "tokenizer.ggml.bos_token_id"@) ==> v.bos is None,
        nothing_under(g, "tokenizer.ggml.eos_token_id"@) ==> v.eos is None,
        nothing_under(g, "tokenizer.ggml.padding_token_id"@) ==> v.pad is None,
        nothing_under(g, "tokenizer.ggml.unknown_token_id"@) ==> v.unk is None,
        file::lookup(g.metadata, "tokenizer.ggml.add_bos_token"@) == Some(ValueView::Bool(b))
            ==> v.add_bos == b,
        nothing_under(g, "tokenizer.ggml.add_bos_token"@) ==> !v.add_bos,
{
}

/// What is missing is named: the tokens first, then the merge rules.
pub proof fn law_missing_lists_are_named(g: GgufView, items: Seq<ValueView>)
    ensures
        nothing_under(g, "tokenizer.ggml.tokens"@) ==> vocab::source(g) == Err::<
            Source,
            VocabErrorView,
        >(VocabErrorView::MissingKey("tokenizer.ggml.tokens"@)),
        lists_texts(g, "tokenizer.ggml.tokens"@, items) && items.len() == 0 ==> vocab::source(g)
            == Err::<Source, VocabErrorView>(VocabErrorView::EmptyVocab),
        lists_texts(g, "tokenizer.ggml.tokens"@, items) && items.len() > 0 && nothing_under(
            g,
            "tokenizer.ggml.token_type"@,
        ) && nothing_under(g, "tokenizer.ggml.merges"@) ==> vocab::source(g) == Err::<
            Source,
            VocabErrorView,
        >(VocabErrorView::MissingKey("tokenizer.ggml.merges"@)),
{
}

/// A text has the least id among the tokens that are this text.
pub proof fn law_the_first_of_equal_tokens_counts(tokens: Seq<Seq<char>>, s: Seq<char>, i: int)
    requires
        tokens.len() <= u32::MAX,
    ensures
        vocab::find_token(tokens, s) is Some <==> tokens.contains(s),
        0 <= i < tokens.len() && tokens[i] == s ==> {
            &&& vocab::find_token(tokens, s) is Some
            &&& vocab::find_token(tokens, s)->0 <= i
        },
        vocab::find_token(tokens, s) matches Some(id) ==> id < tokens.len() && tokens[id as int]
            == s,
{
    if exists|j: int| 0 <= j < tokens.len() && #[trigger] tokens[j] == s {
        vocab::lemma_first_token(tokens, s);
    } else if tokens.contains(s) {
        let j = choose|j: int| 0 <= j < tokens.len() && tokens[j] == s;
        assert(tokens[j] == s);
    }
}

proof fn lemma_first_space(a: Seq<char>, b: Seq<char>, i: int)
    requires
        0 <= i <= a.len(),
        !a.contains(' '),
    ensures
        vocab::space_at(a + " "@ + b, i) == a.len(),
    decreases a.len() - i,
{
    let rule = a + " "@ + b;
    reveal_strlit(" ");
    if i < a.len() {
        assert(a.contains(a[i]));
        assert(rule[i] == a[i]);
        lemma_first_space(a, b, i + 1);
    } else {
        assert(rule[i] == ' ');
    }
}

/// A rule `"A B"`, parted at its first space, joins the tokens A and B to the token AB, and is
/// of no use where one of the three is missing.
pub proof fn law_rules_join_two_tokens(
    tokens: Seq<Seq<char>>,
    a: Seq<char>,
    b: Seq<char>,
    rank: nat,
)
    requires
        tokens.len() <= u32::MAX,
        rank <= u32::MAX,
        !a.contains(' '),
    ensures
        ({
            let m = vocab::resolve(tokens, a + " "@ + b, rank);
            &&& m is Some <==> tokens.contains(a) && tokens.contains(b) && tokens.contains(a + b)
            &&& m matches Some(r) ==> {
                &&& r.rank == rank
                &&& tokens[r.left as int] == a
                &&& tokens[r.right as int] == b
                &&& tokens[r.result as int] == a + b
            }
        }),
        !b.contains(' ') ==> vocab::resolve(tokens, b, rank) is None,
{
    let rule = a + " "@ + b;
    reveal_strlit(" ");
    lemma_first_space(a, b, 0);
    assert(rule.subrange(0, a.len() as int) =~= a);
    assert(rule.subrange((a.len() + 1) as int, rule.len() as int) =~= b);
    law_the_first_of_equal_tokens_counts(tokens, a, 0);
    law_the_first_of_equal_tokens_counts(tokens, b, 0);
    law_the_first_of_equal_tokens_counts(tokens, a + b, 0);
    if !b.contains(' ') {
        lemma_no_space(b, 0);
    }
}

proof fn lemma_no_space(b: Seq<char>, i: int)
    requires
        0 <= i <= b.len(),
        !b.contains(' '),
    ensures
        vocab::space_at(b, i) == b.len(),
    decreases b.len() - i,
{
    if i < b.len() {
        assert(b.contains(b[i]));
        lemma_no_space(b, i + 1);
    }
}

/// Rules keep their places as ranks, and those of no use are counted.
pub proof fn law_ranks_are_places(tokens: Seq<Seq<char>>, raw: Seq<Seq<char>>, n: nat, i: int)
    requires
        n <= raw.len(),
        n <= u32::MAX,
        0 <= i < n,
    ensures
        vocab::usable(tokens, raw, n).len() <= n,
        vocab::resolve(tokens, raw[i], i as nat) matches Some(m) ==> vocab::usable(
            tokens,
            raw,
            n,
        ).contains(m) && m.rank == i,
    decreases n,
{
    let last = (n - 1) as nat;
    let before = vocab::usable(tokens, raw, last);
    let now = vocab::usable(tokens, raw, n);
    if i < last {
        law_ranks_are_places(tokens, raw, last, i);
        if vocab::resolve(tokens, raw[i], i as nat) is Some {
            let m = vocab::resolve(tokens, raw[i], i as nat)->0;
            let k = choose|k: int| 0 <= k < before.len() && before[k] == m;
            assert(now[k] == m);
        }
    } else {
        if last > 0 {
            law_ranks_are_places(tokens, raw, last, last - 1);
        }
        if vocab::resolve(tokens, raw[i], i as nat) is Some {
            assert(now.last() == vocab::resolve(tokens, raw[i], i as nat)->0);
        }
    }
}

/// Every rule is kept or counted as skipped.
pub proof fn law_rules_are_kept_or_counted(v: VocabView, g: GgufView, s: Source)
    requires
        vocab::loaded(v, g, s),
    ensures
        v.rules.len() + v.skipped_merges == s.raw.len(),
{
    broadcast use vstd::seq_lib::group_to_multiset_ensures;

    let rules = vocab::usable(s.tokens, s.raw, s.raw.len());
    assert(v.rules.to_multiset().len() == v.rules.len());
    assert(rules.to_multiset().len() == rules.len());
}

} // verus!
