//! The merge rules that are found are those that are written.
use super::bpe;
use super::vocab;
use super::vocab::{Merge, Source, VocabView};
use crate::gguf::file::GgufView;
use crate::sort;
use vstd::prelude::*;

verus! {

/// The merge rule as it is written: two strings with a space between them.
pub open spec fn written(a: Seq<char>, b: Seq<char>) -> Seq<char> {
    a + seq![' '] + b
}

/// No two tokens share a string.
pub open spec fn tokens_differ(tokens: Seq<Seq<char>>) -> bool {
    forall|i: int, j: int|
        0 <= i < j < tokens.len() ==> #[trigger] tokens[i] != #[trigger] tokens[j]
}

/// No token's string holds a space.
pub open spec fn tokens_without_spaces(tokens: Seq<Seq<char>>) -> bool {
    forall|i: int, k: int|
        0 <= i < tokens.len() && 0 <= k < tokens[i].len() ==> #[trigger] tokens[i][k] != ' '
}

proof fn lemma_own_id(tokens: Seq<Seq<char>>, i: int)
    requires
        tokens_differ(tokens),
        tokens.len() <= u32::MAX,
        0 <= i < tokens.len(),
    ensures
        vocab::find_token(tokens, tokens[i]) == Some(i as u32),
{
    vocab::lemma_first_token(tokens, tokens[i]);
    let f = vocab::first_token(tokens, tokens[i]);
    if f < i {
        assert(tokens[f] != tokens[i]);
    } else if i < f {
        assert(tokens[i] != tokens[f]);
    }
}

proof fn lemma_space_at(rule: Seq<char>, i: int, k: int)
    requires
        0 <= i <= k < rule.len(),
        rule[k] == ' ',
        forall|j: int| i <= j < k ==> rule[j] != ' ',
    ensures
        vocab::space_at(rule, i) == k,
    decreases k - i,
{
    if i < k {
        lemma_space_at(rule, i + 1, k);
    }
}

proof fn lemma_pushed(before: Seq<Merge>, x: Merge, m: Merge)
    ensures
        before.push(x).contains(m) <==> before.contains(m) || m == x,
{
    let all = before.push(x);
    if all.contains(m) {
        let k = choose|k: int| 0 <= k < all.len() && all[k] == m;
        if k < before.len() {
            assert(before[k] == m);
        }
    }
    if before.contains(m) {
        let k = choose|k: int| 0 <= k < before.len() && before[k] == m;
        assert(all[k] == m);
    }
    assert(all[before.len() as int] == x);
}

/// The merges among the first `n` of some that may be missing.
spec fn present(found: Seq<Option<Merge>>, n: nat) -> Seq<Merge>
    decreases n,
{
    if n == 0 {
        Seq::empty()
    } else {
        let before = present(found, (n - 1) as nat);
        match found[n - 1] {
            Some(m) => before.push(m),
            None => before,
        }
    }
}

proof fn lemma_present(found: Seq<Option<Merge>>, n: nat, m: Merge)
    requires
        n <= found.len(),
        forall|i: int| 0 <= i < found.len() ==> (#[trigger] found[i] matches Some(x) ==> x.rank == i),
    ensures
        present(found, n).contains(m) <==> m.rank < n && found[m.rank as int] == Some(m),
    decreases n,
{
    if n > 0 {
        let below = (n - 1) as nat;
        lemma_present(found, below, m);
        if found[n - 1] is Some {
            lemma_pushed(present(found, below), found[n - 1]->0, m);
        }
    }
}

/// What each rule of a list resolves to.
spec fn resolved(tokens: Seq<Seq<char>>, raw: Seq<Seq<char>>) -> Seq<Option<Merge>> {
    Seq::new(raw.len(), |i: int| vocab::resolve(tokens, raw[i], i as nat))
}

proof fn lemma_usable_are_present(tokens: Seq<Seq<char>>, raw: Seq<Seq<char>>, n: nat)
    requires
        n <= raw.len(),
    ensures
        vocab::usable(tokens, raw, n) == present(resolved(tokens, raw), n),
    decreases n,
{
    if n > 0 {
        lemma_usable_are_present(tokens, raw, (n - 1) as nat);
        assert(resolved(tokens, raw)[n - 1] == vocab::resolve(tokens, raw[n - 1], (n - 1) as nat));
    }
}

/// A usable rule is one that stands in the list at its rank.
proof fn lemma_usable_is_written(tokens: Seq<Seq<char>>, raw: Seq<Seq<char>>, m: Merge)
    requires
        raw.len() <= u32::MAX,
    ensures
        vocab::usable(tokens, raw, raw.len()).contains(m) <==> m.rank < raw.len()
            && vocab::resolve(tokens, raw[m.rank as int], m.rank as nat) == Some(m),
{
    lemma_usable_are_present(tokens, raw, raw.len());
    lemma_present(resolved(tokens, raw), raw.len(), m);
}

proof fn lemma_space_found(rule: Seq<char>, i: int)
    requires
        0 <= i <= rule.len(),
    ensures
        i <= vocab::space_at(rule, i) <= rule.len(),
        vocab::space_at(rule, i) < rule.len() ==> rule[vocab::space_at(rule, i)] == ' ',
    decreases rule.len() - i,
{
    if i < rule.len() && rule[i] != ' ' {
        lemma_space_found(rule, i + 1);
    }
}

/// What a rule resolves to is the rule of its two tokens.
proof fn lemma_resolved(tokens: Seq<Seq<char>>, rule: Seq<char>, rank: nat, m: Merge)
    requires
        tokens.len() <= u32::MAX,
        vocab::resolve(tokens, rule, rank) == Some(m),
    ensures
        m.left < tokens.len(),
        m.right < tokens.len(),
        m.result < tokens.len(),
        rule == written(tokens[m.left as int], tokens[m.right as int]),
        tokens[m.result as int] == tokens[m.left as int] + tokens[m.right as int],
{
    let k = vocab::space_at(rule, 0);
    lemma_space_found(rule, 0);
    let a = rule.subrange(0, k);
    let b = rule.subrange(k + 1, rule.len() as int);
    vocab::lemma_first_token(tokens, a);
    vocab::lemma_first_token(tokens, b);
    vocab::lemma_first_token(tokens, a + b);
    assert(rule =~= written(a, b));
}

/// A written rule of two tokens whose strings in a row are a token resolves to them.
proof fn lemma_resolves(tokens: Seq<Seq<char>>, left: u32, right: u32, rank: nat)
    requires
        tokens.len() <= u32::MAX,
        tokens_differ(tokens),
        tokens_without_spaces(tokens),
        left < tokens.len(),
        right < tokens.len(),
        tokens.contains(tokens[left as int] + tokens[right as int]),
    ensures
        ({
            let rule = written(tokens[left as int], tokens[right as int]);
            vocab::resolve(tokens, rule, rank) matches Some(m) && m.left == left && m.right
                == right && m.rank == rank as u32
        }),
{
    let a = tokens[left as int];
    let b = tokens[right as int];
    let rule = written(a, b);
    assert forall|j: int| 0 <= j < a.len() implies rule[j] != ' ' by {
        assert(tokens[left as int][j] != ' ');
    }
    lemma_space_at(rule, 0, a.len() as int);
    assert(rule.subrange(0, a.len() as int) =~= a);
    assert(rule.subrange(a.len() as int + 1, rule.len() as int) =~= b);
    lemma_own_id(tokens, left as int);
    lemma_own_id(tokens, right as int);
    let i = choose|i: int| 0 <= i < tokens.len() && tokens[i] == a + b;
    assert(tokens[i] == a + b);
}

/// With distinct tokens that hold no spaces, the merge of two tokens is the first written
/// rule of their strings, and there is one exactly where such a rule is written and the
/// strings in a row are a token.
pub proof fn law_merges_are_the_written_rules(
    v: VocabView,
    g: GgufView,
    s: Source,
    left: u32,
    right: u32,
)
    requires
        vocab::loaded(v, g, s),
        s.tokens.len() <= u32::MAX,
        s.raw.len() <= u32::MAX,
        tokens_differ(s.tokens),
        tokens_without_spaces(s.tokens),
        left < s.tokens.len(),
        right < s.tokens.len(),
    ensures
        ({
            let rule = written(v.text(left), v.text(right));
            &&& v.merge(left, right) matches Some(m) ==> {
                &&& m.left == left
                &&& m.right == right
                &&& m.result < v.tokens.len()
                &&& v.text(m.result) == v.text(left) + v.text(right)
                &&& m.rank < s.raw.len()
                &&& s.raw[m.rank as int] == rule
                &&& forall|j: int| 0 <= j < m.rank ==> #[trigger] s.raw[j] != rule
            }
            &&& v.merge(left, right) is None <==> !s.raw.contains(rule) || !v.tokens.contains(
                v.text(left) + v.text(right),
            )
        }),
{
    let tokens = s.tokens;
    let raw = s.raw;
    let rules = vocab::usable(tokens, raw, raw.len());
    let rule = written(v.text(left), v.text(right));
    if v.merge(left, right) is Some {
        bpe::lemma_found_rule(v, left, right);
        let m = v.merge(left, right)->0;
        sort::lemma_same_values(rules, v.rules, m);
        lemma_usable_is_written(tokens, raw, m);
        lemma_resolved(tokens, raw[m.rank as int], m.rank as nat, m);
        assert(raw[m.rank as int] == rule);
        assert(tokens[m.result as int] == v.text(left) + v.text(right));
        assert forall|j: int| 0 <= j < m.rank implies #[trigger] raw[j] != rule by {
            if raw[j] == rule {
                lemma_resolves(tokens, left, right, j as nat);
                let x = vocab::resolve(tokens, rule, j as nat)->0;
                lemma_usable_is_written(tokens, raw, x);
                sort::lemma_same_values(rules, v.rules, x);
                bpe::lemma_found_is_best(v, left, right);
                let k = choose|k: int| 0 <= k < v.rules.len() && v.rules[k] == x;
                assert(v.rules[k].left == m.left && v.rules[k].right == m.right);
            }
        }
    } else if raw.contains(rule) && tokens.contains(v.text(left) + v.text(right)) {
        let j = choose|j: int| 0 <= j < raw.len() && raw[j] == rule;
        lemma_resolves(tokens, left, right, j as nat);
        let x = vocab::resolve(tokens, rule, j as nat)->0;
        lemma_usable_is_written(tokens, raw, x);
        sort::lemma_same_values(rules, v.rules, x);
        assert(v.rules.contains(x));
    }
}

} // verus!
