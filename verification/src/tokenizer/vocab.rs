//! The vocabulary and merge table, loaded from GGUF metadata.
//!
//! The two lookups that encoding needs (string to id, pair to merge) are sorted
//! arrays with a binary search.
use crate::gguf::file::GgufView;
use crate::gguf::parse::Gguf;
use crate::gguf::value::{ArrayView, MetaType};
use crate::sort;
use crate::sort::Order;
use crate::text;
use vstd::prelude::*;
use vstd::string::*;
use vstd::utf8::*;

verus! {

/// `tokenizer.ggml.token_type` values.
#[derive(Debug, Clone, Copy, PartialEq, Eq, Structural)]
pub enum TokenType {
    Undefined,
    Normal,
    Unknown,
    Control,
    UserDefined,
    Unused,
    Byte,
}

impl TokenType {
    /// The type that a number of the file stands for.
    pub open spec fn spec_from_i32(v: i32) -> TokenType {
        match v {
            1 => TokenType::Normal,
            2 => TokenType::Unknown,
            3 => TokenType::Control,
            4 => TokenType::UserDefined,
            5 => TokenType::Unused,
            6 => TokenType::Byte,
            _ => TokenType::Undefined,
        }
    }

    /// The type that a number of the file stands for.
    #[verifier::when_used_as_spec(spec_from_i32)]
    pub fn from_i32(v: i32) -> (r: Self)
        ensures
            r == Self::from_i32(v),
    {
        match v {
            1 => TokenType::Normal,
            2 => TokenType::Unknown,
            3 => TokenType::Control,
            4 => TokenType::UserDefined,
            5 => TokenType::Unused,
            6 => TokenType::Byte,
            _ => TokenType::Undefined,
        }
    }

    /// Tokens that are matched literally in the input.
    pub open spec fn spec_is_special(self) -> bool {
        self == TokenType::Control || self == TokenType::UserDefined
    }

    /// Tokens that must be matched literally in the input rather than reached
    /// through BPE: `<|im_start|>`, `<|endoftext|>` and friends.
    #[verifier::when_used_as_spec(spec_is_special)]
    pub fn is_special(self) -> (r: bool)
        ensures
            r == self.is_special(),
    {
        self == TokenType::Control || self == TokenType::UserDefined
    }
}

/// One entry of the merge table.
#[derive(Debug, Clone, Copy, PartialEq, Eq, Structural)]
pub struct Merge {
    pub left: u32,
    pub right: u32,
    /// Position in the merge list.  Lower wins.
    pub rank: u32,
    /// Id of the concatenated result.
    pub result: u32,
}

#[derive(Debug, Clone, PartialEq, Eq)]
pub enum VocabError {
    MissingKey(&'static str),
    WrongType(&'static str),
    /// No merge rule has both of its halves and their concatenation in the vocabulary.
    NoMergesUsable { total: usize },
    EmptyVocab,
}

/// What a [`VocabError`] says.
pub enum VocabErrorView {
    MissingKey(Seq<char>),
    WrongType(Seq<char>),
    NoMergesUsable { total: nat },
    EmptyVocab,
}

impl View for VocabError {
    type V = VocabErrorView;

    open spec fn view(&self) -> VocabErrorView {
        match *self {
            VocabError::MissingKey(k) => VocabErrorView::MissingKey(k@),
            VocabError::WrongType(k) => VocabErrorView::WrongType(k@),
            VocabError::NoMergesUsable { total } => VocabErrorView::NoMergesUsable {
                total: total as nat,
            },
            VocabError::EmptyVocab => VocabErrorView::EmptyVocab,
        }
    }
}

impl VocabErrorView {
    /// The message for people.
    pub open spec fn message(self) -> Seq<char> {
        match self {
            VocabErrorView::MissingKey(k) => {
                "tokenizer metadata key "@ + text::quoted(k) + " is missing"@
            },
            VocabErrorView::WrongType(k) => {
                "tokenizer metadata key "@ + text::quoted(k) + " has the wrong type"@
            },
            VocabErrorView::NoMergesUsable { total } => {
                "none of the "@ + text::decimal(total)
                    + " merge rules resolved against the vocab; the merges and tokens arrays disagree"@
            },
            VocabErrorView::EmptyVocab => "vocabulary is empty"@,
        }
    }
}

impl VocabError {
    /// The message for people.
    pub fn message(&self) -> (r: String)
        ensures
            r@ == self@.message(),
    {
        match self {
            VocabError::MissingKey(k) => {
                let mut s = "tokenizer metadata key ".to_owned();
                s.push_str(&text::quote(k));
                s.push_str(" is missing");
                s
            },
            VocabError::WrongType(k) => {
                let mut s = "tokenizer metadata key ".to_owned();
                s.push_str(&text::quote(k));
                s.push_str(" has the wrong type");
                s
            },
            VocabError::NoMergesUsable { total } => {
                let mut s = "none of the ".to_owned();
                text::push_decimal(&mut s, *total as u128);
                s.push_str(
                    " merge rules resolved against the vocab; the merges and tokens arrays disagree",
                );
                s
            },
            VocabError::EmptyVocab => "vocabulary is empty".to_owned(),
        }
    }
}

/// The least id of a token with the given string.
pub open spec fn find_token(tokens: Seq<Seq<char>>, s: Seq<char>) -> Option<u32> {
    if exists|i: int| 0 <= i < tokens.len() && #[trigger] tokens[i] == s {
        Some(first_token(tokens, s) as u32)
    } else {
        None
    }
}

/// The least index of a given string.
pub open spec fn first_token(tokens: Seq<Seq<char>>, s: Seq<char>) -> int {
    choose|i: int|
        0 <= i < tokens.len() && #[trigger] tokens[i] == s && (forall|j: int|
            0 <= j < i ==> #[trigger] tokens[j] != s)
}

/// `m` is the rule of lowest rank for its pair.
pub open spec fn is_best_rule(rules: Seq<Merge>, m: Merge) -> bool {
    &&& rules.contains(m)
    &&& forall|j: int|
        0 <= j < rules.len() && (#[trigger] rules[j]).left == m.left && rules[j].right == m.right
            ==> m.rank <= rules[j].rank
}

/// The rule of lowest rank for an adjacent pair, if there is one.
pub open spec fn find_rule(rules: Seq<Merge>, left: u32, right: u32) -> Option<Merge> {
    if exists|m: Merge| m.left == left && m.right == right && #[trigger] rules.contains(m) {
        Some(
            choose|m: Merge| m.left == left && m.right == right && #[trigger] is_best_rule(rules, m),
        )
    } else {
        None
    }
}

/// What a [`Vocab`] holds.
pub struct VocabView {
    pub tokens: Seq<Seq<char>>,
    pub types: Seq<TokenType>,
    /// The usable merge rules.
    pub rules: Seq<Merge>,
    /// Special-token ids, longest string first.
    pub specials: Seq<u32>,
    pub bos: Option<u32>,
    pub eos: Option<u32>,
    pub pad: Option<u32>,
    pub unk: Option<u32>,
    pub add_bos: bool,
    pub skipped_merges: nat,
}

impl VocabView {
    pub open spec fn id_of(self, s: Seq<char>) -> Option<u32> {
        find_token(self.tokens, s)
    }

    pub open spec fn merge(self, left: u32, right: u32) -> Option<Merge> {
        find_rule(self.rules, left, right)
    }

    /// The string of a token; nothing for an id outside the vocabulary.
    pub open spec fn text(self, id: u32) -> Seq<char> {
        if id < self.tokens.len() {
            self.tokens[id as int]
        } else {
            Seq::empty()
        }
    }

    pub open spec fn is_special(self, id: u32) -> bool {
        id < self.types.len() && self.types[id as int].is_special()
    }

    /// `a` stands before `b` in the list of special tokens.
    pub open spec fn special_before(self, a: u32, b: u32) -> bool {
        special_before(self.tokens, a, b)
    }

    /// Ids fit their type; there are as many token types as tokens, or more; every
    /// merge rule joins two tokens to the token of the two strings in a row; and the
    /// special tokens are listed once each, longest first.
    pub open spec fn wf(self) -> bool {
        &&& self.tokens.len() <= u32::MAX
        &&& self.tokens.len() <= self.types.len()
        &&& forall|i: int| 0 <= i < self.rules.len() ==> self.joins(#[trigger] self.rules[i])
        &&& ranks_differ(self.rules)
        &&& lists_specials(self.tokens, self.types, self.specials)
    }

    /// A rule joins two tokens to the token of the two strings in a row.
    pub open spec fn joins(self, m: Merge) -> bool {
        &&& m.left < self.tokens.len()
        &&& m.right < self.tokens.len()
        &&& m.result < self.tokens.len()
        &&& self.tokens[m.result as int] == self.tokens[m.left as int]
            + self.tokens[m.right as int]
    }
}

/// No two rules share a rank.
pub open spec fn ranks_differ(rules: Seq<Merge>) -> bool {
    forall|i: int, j: int|
        0 <= i < j < rules.len() ==> (#[trigger] rules[i]).rank != (#[trigger] rules[j]).rank
}

/// `a` is longer than `b` in bytes, or as long with a lower id.
pub open spec fn special_before(tokens: Seq<Seq<char>>, a: u32, b: u32) -> bool {
    let la = encode_utf8(tokens[a as int]).len();
    let lb = encode_utf8(tokens[b as int]).len();
    la > lb || (la == lb && a <= b)
}

/// The ids of the special tokens, longest string first.
pub open spec fn lists_specials(
    tokens: Seq<Seq<char>>,
    types: Seq<TokenType>,
    specials: Seq<u32>,
) -> bool {
    &&& forall|i: int, j: int|
        0 <= i < j < specials.len() ==> special_before(
            tokens,
            #[trigger] specials[i],
            #[trigger] specials[j],
        ) && specials[i] != specials[j]
    &&& forall|id: u32|
        #[trigger] specials.contains(id) <==> (id < tokens.len() && types[id as int].is_special())
}

/// Token strings, their types, and the merge table.
#[derive(Debug)]
pub struct Vocab<'a> {
    pub tokens: Vec<&'a str>,
    pub types: Vec<TokenType>,
    /// Token ids ordered by their string.
    pub by_str: Vec<u32>,
    /// Merges ordered by `(left, right, rank)`.
    pub merges: Vec<Merge>,
    pub specials: Vec<u32>,
    pub bos: Option<u32>,
    pub eos: Option<u32>,
    pub pad: Option<u32>,
    pub unk: Option<u32>,
    pub add_bos: bool,
    /// Merge rules that referenced an unknown token and were dropped.
    pub skipped_merges: usize,
}

/// The texts of a list of strings.
pub open spec fn texts(v: Seq<&str>) -> Seq<Seq<char>> {
    Seq::new(v.len(), |i: int| v[i]@)
}

impl<'a> View for Vocab<'a> {
    type V = VocabView;

    open spec fn view(&self) -> VocabView {
        VocabView {
            tokens: texts(self.tokens@),
            types: self.types@,
            rules: self.merges@,
            specials: self.specials@,
            bos: self.bos,
            eos: self.eos,
            pad: self.pad,
            unk: self.unk,
            add_bos: self.add_bos,
            skipped_merges: self.skipped_merges as nat,
        }
    }
}

/// Token ids by their string, then by number.
struct ByText<'b, 'a> {
    tokens: &'b Vec<&'a str>,
}

/// The order of token ids by their string, then by number.
spec fn text_le(tokens: Seq<Seq<char>>, a: u32, b: u32) -> bool {
    let ta = encode_utf8(tokens[a as int]);
    let tb = encode_utf8(tokens[b as int]);
    text::lex_le(ta, tb) && (ta == tb ==> a <= b)
}

impl<'b, 'a> Order<u32> for ByText<'b, 'a> {
    closed spec fn defined(&self, a: u32) -> bool {
        a < self.tokens@.len()
    }

    closed spec fn le(&self, a: u32, b: u32) -> bool {
        text_le(texts(self.tokens@), a, b)
    }

    proof fn total(&self, a: u32, b: u32) {
        let t = texts(self.tokens@);
        text::lemma_lex_total(encode_utf8(t[a as int]), encode_utf8(t[b as int]));
        if text::lex_le(encode_utf8(t[a as int]), encode_utf8(t[b as int])) && text::lex_le(
            encode_utf8(t[b as int]),
            encode_utf8(t[a as int]),
        ) {
            text::lemma_lex_antisymmetric(encode_utf8(t[a as int]), encode_utf8(t[b as int]));
        }
    }

    proof fn transitive(&self, a: u32, b: u32, c: u32) {
        let t = texts(self.tokens@);
        let ta = encode_utf8(t[a as int]);
        let tb = encode_utf8(t[b as int]);
        let tc = encode_utf8(t[c as int]);
        text::lemma_lex_transitive(ta, tb, tc);
        if ta == tc {
            text::lemma_lex_antisymmetric(ta, tb);
        }
    }

    fn in_order(&self, a: &u32, b: &u32) -> (r: bool) {
        let ta = self.tokens[*a as usize].as_bytes();
        let tb = self.tokens[*b as usize].as_bytes();
        text::bytes_le(ta, tb) && (!text::bytes_eq(ta, tb) || *a <= *b)
    }
}

/// Merge rules by their pair, then by rank.
struct ByPair {}

spec fn pair_le(a: Merge, b: Merge) -> bool {
    a.left < b.left || (a.left == b.left && (a.right < b.right || (a.right == b.right && a.rank
        <= b.rank)))
}

impl Order<Merge> for ByPair {
    closed spec fn defined(&self, a: Merge) -> bool {
        true
    }

    closed spec fn le(&self, a: Merge, b: Merge) -> bool {
        pair_le(a, b)
    }

    proof fn total(&self, a: Merge, b: Merge) {
    }

    proof fn transitive(&self, a: Merge, b: Merge, c: Merge) {
    }

    fn in_order(&self, a: &Merge, b: &Merge) -> (r: bool) {
        a.left < b.left || (a.left == b.left && (a.right < b.right || (a.right == b.right && a.rank
            <= b.rank)))
    }
}

/// Token ids by the length of their string, longest first, then by number.
struct ByLength<'b, 'a> {
    tokens: &'b Vec<&'a str>,
}

impl<'b, 'a> Order<u32> for ByLength<'b, 'a> {
    closed spec fn defined(&self, a: u32) -> bool {
        a < self.tokens@.len()
    }

    closed spec fn le(&self, a: u32, b: u32) -> bool {
        special_before(texts(self.tokens@), a, b)
    }

    proof fn total(&self, a: u32, b: u32) {
    }

    proof fn transitive(&self, a: u32, b: u32, c: u32) {
    }

    fn in_order(&self, a: &u32, b: &u32) -> (r: bool) {
        let la: usize = self.tokens[*a as usize].as_bytes().len();
        let lb: usize = self.tokens[*b as usize].as_bytes().len();
        la > lb || (la == lb && *a <= *b)
    }
}

/// The ids of the tokens, in the order of their strings.
spec fn is_index(tokens: Seq<Seq<char>>, by_str: Seq<u32>) -> bool {
    &&& by_str.len() == tokens.len()
    &&& forall|k: int| 0 <= k < by_str.len() ==> (#[trigger] by_str[k]) < tokens.len()
    &&& forall|i: int, j: int|
        0 <= i < j < by_str.len() ==> text_le(tokens, #[trigger] by_str[i], #[trigger] by_str[j])
    &&& forall|id: u32| id < tokens.len() ==> #[trigger] by_str.contains(id)
}

/// The least id of a token with the given string, by binary search.
fn search_token<'a>(tokens: &Vec<&'a str>, by_str: &Vec<u32>, s: &str) -> (r: Option<u32>)
    requires
        tokens@.len() <= u32::MAX,
        is_index(texts(tokens@), by_str@),
    ensures
        r == find_token(texts(tokens@), s@),
{
    let ghost t = texts(tokens@);
    let ghost key = encode_utf8(s@);
    let sb = s.as_bytes();
    let mut lo: usize = 0;
    let mut hi: usize = by_str.len();
    // Everything below `lo` is before the string, everything from `hi` on is not.
    while lo < hi
        invariant
            lo <= hi <= by_str@.len(),
            t == texts(tokens@),
            is_index(t, by_str@),
            sb@ == key,
            key == encode_utf8(s@),
            forall|k: int|
                0 <= k < lo ==> !text::lex_le(
                    key,
                    encode_utf8(t[#[trigger] by_str@[k] as int]),
                ),
            forall|k: int|
                hi <= k < by_str@.len() ==> text::lex_le(
                    key,
                    encode_utf8(t[#[trigger] by_str@[k] as int]),
                ),
        decreases hi - lo,
    {
        let mid: usize = lo + (hi - lo) / 2;
        let id: u32 = by_str[mid];
        let ghost m = encode_utf8(t[id as int]);
        if text::bytes_le(sb, tokens[id as usize].as_bytes()) {
            assert forall|k: int| mid <= k < by_str@.len() implies text::lex_le(
                key,
                encode_utf8(t[#[trigger] by_str@[k] as int]),
            ) by {
                if k > mid {
                    text::lemma_lex_transitive(key, m, encode_utf8(t[by_str@[k] as int]));
                }
            }
            hi = mid;
        } else {
            assert forall|k: int| 0 <= k <= mid implies !text::lex_le(
                key,
                encode_utf8(t[#[trigger] by_str@[k] as int]),
            ) by {
                if k < mid && text::lex_le(key, encode_utf8(t[by_str@[k] as int])) {
                    text::lemma_lex_transitive(key, encode_utf8(t[by_str@[k] as int]), m);
                }
            }
            lo = mid + 1;
        }
    }
    proof {
        // A token with this string stands at or behind `lo`, where its bytes are least.
        if exists|i: int| 0 <= i < t.len() && #[trigger] t[i] == s@ {
            lemma_first_token(t, s@);
            let first = first_token(t, s@);
            assert(by_str@.contains(first as u32));
            let k = choose|k: int| 0 <= k < by_str@.len() && by_str@[k] == first as u32;
            assert(by_str@[k] == first as u32);
            assert(text::lex_le(key, key)) by {
                text::lemma_lex_total(key, key);
            }
            assert(lo <= k);
            let id = by_str@[lo as int];
            if lo < k {
                assert(text_le(t, by_str@[lo as int], by_str@[k]));
                text::lemma_lex_antisymmetric(key, encode_utf8(t[id as int]));
                text::lemma_utf8_injective(s@, t[id as int]);
            }
        }
    }
    if lo < by_str.len() {
        let id: u32 = by_str[lo];
        if text::str_eq(tokens[id as usize], s) {
            assert(t[id as int] == s@);
            return Some(id);
        }
    }
    None
}

pub proof fn lemma_first_token(tokens: Seq<Seq<char>>, s: Seq<char>)
    requires
        exists|i: int| 0 <= i < tokens.len() && #[trigger] tokens[i] == s,
    ensures
        0 <= first_token(tokens, s) < tokens.len(),
        tokens[first_token(tokens, s)] == s,
        forall|j: int| 0 <= j < first_token(tokens, s) ==> #[trigger] tokens[j] != s,
{
    let i = choose|i: int| 0 <= i < tokens.len() && #[trigger] tokens[i] == s;
    lemma_least(tokens, s, i);
}

proof fn lemma_least(tokens: Seq<Seq<char>>, s: Seq<char>, i: int)
    requires
        0 <= i < tokens.len(),
        tokens[i] == s,
    ensures
        exists|k: int|
            0 <= k < tokens.len() && #[trigger] tokens[k] == s && (forall|j: int|
                0 <= j < k ==> #[trigger] tokens[j] != s),
    decreases i,
{
    if exists|j: int| 0 <= j < i && #[trigger] tokens[j] == s {
        let j = choose|j: int| 0 <= j < i && #[trigger] tokens[j] == s;
        lemma_least(tokens, s, j);
    }
}

/// Where the first space at or after `i` stands, or the end of the rule.
pub open spec fn space_at(rule: Seq<char>, i: int) -> int
    decreases rule.len() - i,
{
    if 0 <= i < rule.len() && rule[i] != ' ' {
        space_at(rule, i + 1)
    } else {
        i
    }
}

/// The merge that a rule `"A B"` of the given rank stands for, where A, B and AB are
/// tokens.
pub open spec fn resolve(tokens: Seq<Seq<char>>, rule: Seq<char>, rank: nat) -> Option<Merge> {
    let k = space_at(rule, 0);
    if k >= rule.len() {
        None
    } else {
        let a = rule.subrange(0, k);
        let b = rule.subrange(k + 1, rule.len() as int);
        match (find_token(tokens, a), find_token(tokens, b), find_token(tokens, a + b)) {
            (Some(left), Some(right), Some(result)) => Some(
                Merge { left, right, rank: rank as u32, result },
            ),
            _ => None,
        }
    }
}

/// The usable ones among the first `n` rules.
pub open spec fn usable(tokens: Seq<Seq<char>>, raw: Seq<Seq<char>>, n: nat) -> Seq<Merge>
    decreases n,
{
    if n == 0 {
        Seq::empty()
    } else {
        let before = usable(tokens, raw, (n - 1) as nat);
        match resolve(tokens, raw[n - 1], (n - 1) as nat) {
            Some(m) => before.push(m),
            None => before,
        }
    }
}

/// The strings of an array.
pub open spec fn strings(a: ArrayView) -> Seq<Seq<char>> {
    Seq::new(a.items.len(), |i: int| a.items[i]->Str_0)
}

/// What the metadata say of the tokenizer.
pub struct Source {
    pub tokens: Seq<Seq<char>>,
    pub types: Seq<TokenType>,
    /// The merge rules as they are written.
    pub raw: Seq<Seq<char>>,
}

/// The tokens that the metadata name.
pub open spec fn source_tokens(g: GgufView) -> Result<Seq<Seq<char>>, VocabErrorView> {
    let key = "tokenizer.ggml.tokens"@;
    match g.get_array(key) {
        None => Err(VocabErrorView::MissingKey(key)),
        Some(a) => if a.elem != MetaType::String {
            Err(VocabErrorView::WrongType(key))
        } else if a.items.len() == 0 {
            Err(VocabErrorView::EmptyVocab)
        } else {
            Ok(strings(a))
        },
    }
}

/// The types of `n` tokens; without any, all tokens are normal.
pub open spec fn source_types(g: GgufView, n: nat) -> Result<Seq<TokenType>, VocabErrorView> {
    let key = "tokenizer.ggml.token_type"@;
    match g.get_array(key) {
        None => Ok(Seq::new(n, |i: int| TokenType::Normal)),
        Some(a) => if a.elem != MetaType::I32 {
            Err(VocabErrorView::WrongType(key))
        } else {
            Ok(Seq::new(a.items.len(), |i: int| TokenType::from_i32(a.items[i]->I32_0)))
        },
    }
}

/// The merge rules as they are written.
pub open spec fn source_merges(g: GgufView) -> Result<Seq<Seq<char>>, VocabErrorView> {
    let key = "tokenizer.ggml.merges"@;
    match g.get_array(key) {
        None => Err(VocabErrorView::MissingKey(key)),
        Some(a) => if a.elem != MetaType::String {
            Err(VocabErrorView::WrongType(key))
        } else {
            Ok(strings(a))
        },
    }
}

/// What the metadata say of the tokenizer, or the first thing that is wrong with it.
pub open spec fn source(g: GgufView) -> Result<Source, VocabErrorView> {
    match source_tokens(g) {
        Err(e) => Err(e),
        Ok(tokens) => match source_types(g, tokens.len()) {
            Err(e) => Err(e),
            Ok(types) => match source_merges(g) {
                Err(e) => Err(e),
                Ok(raw) => if usable(tokens, raw, raw.len()).len() == 0 {
                    Err(VocabErrorView::NoMergesUsable { total: raw.len() })
                } else {
                    Ok(Source { tokens, types, raw })
                },
            },
        },
    }
}

/// `v` is the vocabulary that the metadata describe.
pub open spec fn loaded(v: VocabView, g: GgufView, s: Source) -> bool {
    let rules = usable(s.tokens, s.raw, s.raw.len());
    &&& v.tokens == s.tokens
    &&& v.types == s.types
    &&& v.rules.to_multiset() == rules.to_multiset()
    &&& lists_specials(s.tokens, s.types, v.specials)
    &&& v.bos == g.get_u32("tokenizer.ggml.bos_token_id"@)
    &&& v.eos == g.get_u32("tokenizer.ggml.eos_token_id"@)
    &&& v.pad == g.get_u32("tokenizer.ggml.padding_token_id"@)
    &&& v.unk == g.get_u32("tokenizer.ggml.unknown_token_id"@)
    &&& v.add_bos == (g.get_bool("tokenizer.ggml.add_bos_token"@) == Some(true))
    &&& v.skipped_merges == s.raw.len() - rules.len()
}

/// Every usable rule joins two tokens, and its rank is its place in the list.
proof fn lemma_usable(tokens: Seq<Seq<char>>, raw: Seq<Seq<char>>, n: nat)
    requires
        n <= raw.len(),
        n <= u32::MAX,
        tokens.len() <= u32::MAX,
    ensures
        usable(tokens, raw, n).len() <= n,
        forall|i: int|
            0 <= i < usable(tokens, raw, n).len() ==> {
                let m = #[trigger] usable(tokens, raw, n)[i];
                &&& m.rank < n
                &&& m.left < tokens.len()
                &&& m.right < tokens.len()
                &&& m.result < tokens.len()
                &&& tokens[m.result as int] == tokens[m.left as int] + tokens[m.right as int]
            },
        forall|i: int, j: int|
            0 <= i < j < usable(tokens, raw, n).len() ==> (#[trigger] usable(
                tokens,
                raw,
                n,
            )[i]).rank < (#[trigger] usable(tokens, raw, n)[j]).rank,
    decreases n,
{
    if n > 0 {
        lemma_usable(tokens, raw, (n - 1) as nat);
        let rule = raw[n - 1];
        if resolve(tokens, rule, (n - 1) as nat) is Some {
            let k = space_at(rule, 0);
            let a = rule.subrange(0, k);
            let b = rule.subrange(k + 1, rule.len() as int);
            lemma_first_token(tokens, a);
            lemma_first_token(tokens, b);
            lemma_first_token(tokens, a + b);
        }
    }
}

proof fn lemma_distinct_ranks(rules: Seq<Merge>)
    requires
        forall|i: int, j: int|
            0 <= i < j < rules.len() ==> (#[trigger] rules[i]).rank < (#[trigger] rules[j]).rank,
    ensures
        ranks_differ(rules),
        rules.no_duplicates(),
{
    assert forall|i: int, j: int| 0 <= i < rules.len() && 0 <= j < rules.len() && i != j implies rules[i]
        != rules[j] by {
        if i < j {
            assert(rules[i].rank < rules[j].rank);
        } else {
            assert(rules[j].rank < rules[i].rank);
        }
    }
}

/// Rules in another order still differ in rank.
proof fn lemma_reordered_ranks(a: Seq<Merge>, b: Seq<Merge>)
    requires
        a.to_multiset() == b.to_multiset(),
        a.no_duplicates(),
        ranks_differ(a),
    ensures
        ranks_differ(b),
        b.no_duplicates(),
{
    a.lemma_multiset_has_no_duplicates();
    b.lemma_multiset_has_no_duplicates_conv();
    assert forall|i: int, j: int| 0 <= i < j < b.len() implies (#[trigger] b[i]).rank != (
    #[trigger] b[j]).rank by {
        assert(b.contains(b[i]));
        assert(b.contains(b[j]));
        sort::lemma_same_values(a, b, b[i]);
        sort::lemma_same_values(a, b, b[j]);
        let k = choose|k: int| 0 <= k < a.len() && a[k] == b[i];
        let l = choose|l: int| 0 <= l < a.len() && a[l] == b[j];
        if k < l {
            assert(a[k].rank != a[l].rank);
        } else if l < k {
            assert(a[l].rank != a[k].rank);
        }
    }
}

/// The merge that a rule of the given rank stands for.
fn resolve_rule<'a>(tokens: &Vec<&'a str>, by_str: &Vec<u32>, rule: &str, rank: u32) -> (r: Option<
    Merge,
>)
    requires
        tokens@.len() <= u32::MAX,
        is_index(texts(tokens@), by_str@),
    ensures
        r == resolve(texts(tokens@), rule@, rank as nat),
{
    let cs = text::chars_of(rule);
    let n: usize = cs.len();
    let mut sp: usize = 0;
    while sp < n && cs[sp] != ' '
        invariant
            sp <= n == cs@.len(),
            space_at(cs@, 0) == space_at(cs@, sp as int),
        decreases n - sp,
    {
        sp += 1;
    }
    if sp >= n {
        return None;
    }
    let a = text::string_of(cs.as_slice(), 0, sp);
    let b = text::string_of(cs.as_slice(), sp + 1, n);
    let mut joined = String::new();
    joined.push_str(a.as_str());
    joined.push_str(b.as_str());
    assert(joined@ =~= a@ + b@);
    match (
        search_token(tokens, by_str, a.as_str()),
        search_token(tokens, by_str, b.as_str()),
        search_token(tokens, by_str, joined.as_str()),
    ) {
        (Some(left), Some(right), Some(result)) => Some(Merge { left, right, rank, result }),
        _ => None,
    }
}

/// The ids `0..n`.
fn all_ids(n: usize) -> (r: Vec<u32>)
    requires
        n <= u32::MAX,
    ensures
        r@.len() == n,
        forall|i: int| 0 <= i < n ==> r@[i] == i,
{
    let mut v: Vec<u32> = Vec::with_capacity(n);
    let mut i: usize = 0;
    while i < n
        invariant
            i <= n <= u32::MAX,
            v@.len() == i,
            forall|k: int| 0 <= k < i ==> v@[k] == k,
        decreases n - i,
    {
        v.push(i as u32);
        i += 1;
    }
    v
}

/// The ids of the tokens, in the order of their strings.
fn build_index<'a>(tokens: &Vec<&'a str>) -> (r: Vec<u32>)
    requires
        tokens@.len() <= u32::MAX,
    ensures
        is_index(texts(tokens@), r@),
{
    let ids = all_ids(tokens.len());
    let order = ByText { tokens };
    let r = sort::sort(&ids, &order);
    proof {
        assert forall|k: int| 0 <= k < r@.len() implies (#[trigger] r@[k]) < tokens@.len() by {
            assert(order.defined(r@[k]));
        }
        assert forall|i: int, j: int| 0 <= i < j < r@.len() implies text_le(
            texts(tokens@),
            #[trigger] r@[i],
            #[trigger] r@[j],
        ) by {
            assert(order.le(r@[i], r@[j]));
        }
        assert forall|id: u32| id < tokens@.len() implies #[trigger] r@.contains(id) by {
            assert(ids@[id as int] == id);
            assert(ids@.contains(id));
            sort::lemma_same_values(ids@, r@, id);
        }
    }
    r
}

/// The ids of the special tokens, longest string first.
fn list_specials<'a>(tokens: &Vec<&'a str>, types: &Vec<TokenType>) -> (r: Vec<u32>)
    requires
        tokens@.len() <= u32::MAX,
        tokens@.len() <= types@.len(),
    ensures
        lists_specials(texts(tokens@), types@, r@),
{
    let n: usize = tokens.len();
    let mut v: Vec<u32> = Vec::new();
    let mut i: usize = 0;
    while i < n
        invariant
            i <= n == tokens@.len(),
            n <= u32::MAX,
            n <= types@.len(),
            forall|k: int| 0 <= k < v@.len() ==> (#[trigger] v@[k]) < i,
            forall|k: int, l: int| 0 <= k < l < v@.len() ==> v@[k] < v@[l],
            forall|id: u32|
                #[trigger] v@.contains(id) <==> (id < i && types@[id as int].is_special()),
        decreases n - i,
    {
        let ghost before = v@;
        if types[i].is_special() {
            v.push(i as u32);
            assert forall|id: u32| #[trigger] v@.contains(id) <==> (id < i + 1
                && types@[id as int].is_special()) by {
                if v@.contains(id) {
                    let k = choose|k: int| 0 <= k < v@.len() && v@[k] == id;
                    if k < before.len() {
                        assert(before[k] == id);
                        assert(before.contains(id));
                    }
                } else {
                    if before.contains(id) {
                        let k = choose|k: int| 0 <= k < before.len() && before[k] == id;
                        assert(v@[k] == id);
                    }
                    if id == i {
                        assert(v@[before.len() as int] == id);
                    }
                }
            }
        }
        i += 1;
    }
    assert(v@.no_duplicates());
    let order = ByLength { tokens };
    let r = sort::sort(&v, &order);
    proof {
        v@.lemma_multiset_has_no_duplicates();
        r@.lemma_multiset_has_no_duplicates_conv();
        let t = texts(tokens@);
        assert forall|i: int, j: int| 0 <= i < j < r@.len() implies special_before(
            t,
            #[trigger] r@[i],
            #[trigger] r@[j],
        ) && r@[i] != r@[j] by {
            assert(order.le(r@[i], r@[j]));
        }
        assert forall|id: u32| #[trigger] r@.contains(id) <==> (id < t.len()
            && types@[id as int].is_special()) by {
            sort::lemma_same_values(v@, r@, id);
        }
    }
    r
}

impl<'a> Vocab<'a> {
    /// The indexes agree with the tokens and rules that they index.
    pub closed spec fn wf(&self) -> bool {
        &&& self@.wf()
        &&& is_index(texts(self.tokens@), self.by_str@)
        &&& sort::sorted(self.merges@, &ByPair {  })
    }

    /// What a vocabulary holds is well-formed.
    pub proof fn lemma_wf(&self)
        requires
            self.wf(),
        ensures
            self@.wf(),
    {
    }

    /// The vocabulary that a file's metadata describe.
    ///
    /// A list of token types must name a type for every token.
    pub fn from_gguf(g: &Gguf<'a>) -> (r: Result<Self, VocabError>)
        requires
            source_tokens(g@) matches Ok(t) ==> t.len() <= u32::MAX,
            source_merges(g@) matches Ok(m) ==> m.len() <= u32::MAX,
            source(g@) matches Ok(s) ==> s.tokens.len() <= s.types.len(),
        ensures
            match r {
                Ok(v) => {
                    &&& v.wf()
                    &&& source(g@) matches Ok(s) && loaded(v@, g@, s)
                    &&& v.bos == v@.bos && v.eos == v@.eos && v.pad == v@.pad && v.unk == v@.unk
                    &&& v.add_bos == v@.add_bos
                    &&& v.skipped_merges == v@.skipped_merges
                },
                Err(e) => source(g@) == Err::<Source, VocabErrorView>(e@),
            },
    {
        let tokens: Vec<&'a str> = match g.get_array("tokenizer.ggml.tokens") {
            None => return Err(VocabError::MissingKey("tokenizer.ggml.tokens")),
            Some(a) => match a.as_str_slice() {
                None => return Err(VocabError::WrongType("tokenizer.ggml.tokens")),
                Some(s) => {
                    let v = vstd::slice::slice_to_vec(s);
                    assert(texts(v@) =~= strings(a@));
                    v
                },
            },
        };
        if tokens.len() == 0 {
            return Err(VocabError::EmptyVocab);
        }
        let ghost t = texts(tokens@);
        assert(source_tokens(g@) == Ok::<Seq<Seq<char>>, VocabErrorView>(t));
        let types: Vec<TokenType> = match g.get_array("tokenizer.ggml.token_type") {
            Some(a) => match a.as_i32_slice() {
                None => return Err(VocabError::WrongType("tokenizer.ggml.token_type")),
                Some(s) => {
                    let v = read_types(s);
                    assert(v@ =~= Seq::new(
                        a@.items.len(),
                        |i: int| TokenType::from_i32(a@.items[i]->I32_0),
                    ));
                    v
                },
            },
            None => normal_types(tokens.len()),
        };
        assert(source_types(g@, t.len()) == Ok::<Seq<TokenType>, VocabErrorView>(types@));
        let by_str = build_index(&tokens);
        let array = match g.get_array("tokenizer.ggml.merges") {
            None => return Err(VocabError::MissingKey("tokenizer.ggml.merges")),
            Some(a) => a,
        };
        let raw = match array.as_str_slice() {
            None => return Err(VocabError::WrongType("tokenizer.ggml.merges")),
            Some(s) => s,
        };
        assert(texts(raw@) =~= strings(array@));
        assert(source_merges(g@) == Ok::<Seq<Seq<char>>, VocabErrorView>(texts(raw@)));
        let rules = resolve_rules(&tokens, &by_str, raw);
        if rules.len() == 0 {
            return Err(VocabError::NoMergesUsable { total: raw.len() });
        }
        let skipped_merges: usize = raw.len() - rules.len();
        let merges = sort::sort(&rules, &ByPair {  });
        proof {
            lemma_usable(t, texts(raw@), raw@.len());
            lemma_distinct_ranks(rules@);
            lemma_reordered_ranks(rules@, merges@);
            assert forall|i: int| 0 <= i < merges@.len() implies {
                let m = #[trigger] merges@[i];
                &&& m.left < t.len()
                &&& m.right < t.len()
                &&& m.result < t.len()
                &&& t[m.result as int] == t[m.left as int] + t[m.right as int]
            } by {
                assert(merges@.contains(merges@[i]));
                sort::lemma_same_values(rules@, merges@, merges@[i]);
                let k = choose|k: int| 0 <= k < rules@.len() && rules@[k] == merges@[i];
                assert(rules@[k] == merges@[i]);
            }
        }
        let specials = list_specials(&tokens, &types);
        let add_bos = match g.get_bool("tokenizer.ggml.add_bos_token") {
            Some(b) => b,
            None => false,
        };
        Ok(
            Vocab {
                tokens,
                types,
                by_str,
                merges,
                specials,
                bos: g.get_u32("tokenizer.ggml.bos_token_id"),
                eos: g.get_u32("tokenizer.ggml.eos_token_id"),
                pad: g.get_u32("tokenizer.ggml.padding_token_id"),
                unk: g.get_u32("tokenizer.ggml.unknown_token_id"),
                add_bos,
                skipped_merges,
            },
        )
    }

    pub fn len(&self) -> (r: usize)
        ensures
            r == self@.tokens.len(),
    {
        self.tokens.len()
    }

    pub fn is_empty(&self) -> (r: bool)
        ensures
            r == (self@.tokens.len() == 0),
    {
        self.tokens.len() == 0
    }

    pub fn n_merges(&self) -> (r: usize)
        ensures
            r == self@.rules.len(),
    {
        self.merges.len()
    }

    /// The token that a text starts with, where the model asks for one.
    pub fn opening_token(&self) -> (r: Option<u32>)
        ensures
            r == (if self@.add_bos {
                self@.bos
            } else {
                None
            }),
    {
        if self.add_bos {
            self.bos
        } else {
            None
        }
    }

    /// The token that stands for what has no token.
    pub fn unknown_token(&self) -> (r: Option<u32>)
        ensures
            r == self@.unk,
    {
        self.unk
    }

    /// The token's string, in the byte-mapped alphabet.
    pub fn token(&self, id: u32) -> (r: Option<&'a str>)
        ensures
            r is Some <==> id < self@.tokens.len(),
            r matches Some(s) ==> s@ == self@.tokens[id as int],
    {
        if (id as usize) < self.tokens.len() {
            Some(self.tokens[id as usize])
        } else {
            None
        }
    }

    pub fn token_type(&self, id: u32) -> (r: Option<TokenType>)
        ensures
            r == (if id < self@.types.len() {
                Some(self@.types[id as int])
            } else {
                None
            }),
    {
        if (id as usize) < self.types.len() {
            Some(self.types[id as usize])
        } else {
            None
        }
    }

    /// The id of the token with the given string.
    pub fn id_of(&self, s: &str) -> (r: Option<u32>)
        requires
            self.wf(),
        ensures
            r == self@.id_of(s@),
    {
        search_token(&self.tokens, &self.by_str, s)
    }

    /// Special-token ids, longest string first.
    pub fn specials(&self) -> (r: &[u32])
        ensures
            r@ == self@.specials,
    {
        self.specials.as_slice()
    }

    /// The merge rule for an adjacent pair, if one exists.
    pub fn merge(&self, left: u32, right: u32) -> (r: Option<&Merge>)
        requires
            self.wf(),
        ensures
            match r {
                Some(m) => self@.merge(left, right) == Some(*m),
                None => self@.merge(left, right) is None,
            },
    {
        let ghost rules = self.merges@;
        let mut lo: usize = 0;
        let mut hi: usize = self.merges.len();
        while lo < hi
            invariant
                lo <= hi <= self.merges@.len(),
                rules == self.merges@,
                sort::sorted(rules, &ByPair {  }),
                forall|k: int|
                    0 <= k < lo ==> (#[trigger] rules[k]).left < left || (rules[k].left == left
                        && rules[k].right < right),
                forall|k: int|
                    hi <= k < rules.len() ==> (#[trigger] rules[k]).left > left || (rules[k].left
                        == left && rules[k].right >= right),
            decreases hi - lo,
        {
            let mid: usize = lo + (hi - lo) / 2;
            let m = self.merges[mid];
            if m.left < left || (m.left == left && m.right < right) {
                assert forall|k: int| 0 <= k <= mid implies (#[trigger] rules[k]).left < left || (
                rules[k].left == left && rules[k].right < right) by {
                    if k < mid {
                        assert((ByPair {  }).le(rules[k], rules[mid as int]));
                    }
                }
                lo = mid + 1;
            } else {
                assert forall|k: int| mid <= k < rules.len() implies (#[trigger] rules[k]).left
                    > left || (rules[k].left == left && rules[k].right >= right) by {
                    if k > mid {
                        assert((ByPair {  }).le(rules[mid as int], rules[k]));
                    }
                }
                hi = mid;
            }
        }
        if lo < self.merges.len() && self.merges[lo].left == left && self.merges[lo].right == right {
            proof {
                let m = rules[lo as int];
                assert(rules.contains(m));
                assert forall|j: int| 0 <= j < rules.len() && (#[trigger] rules[j]).left == left
                    && rules[j].right == right implies m.rank <= rules[j].rank by {
                    if j > lo {
                        assert((ByPair {  }).le(m, rules[j]));
                    }
                }
                assert(is_best_rule(rules, m));
                lemma_best_rule(rules, m);
            }
            return Some(&self.merges[lo]);
        }
        proof {
            if exists|m: Merge| m.left == left && m.right == right && #[trigger] rules.contains(m) {
                let m = choose|m: Merge|
                    m.left == left && m.right == right && #[trigger] rules.contains(m);
                let k = choose|k: int| 0 <= k < rules.len() && rules[k] == m;
                assert(rules[k] == m);
                if k > lo {
                    assert((ByPair {  }).le(rules[lo as int], rules[k]));
                }
            }
        }
        None
    }
}

/// The rule of lowest rank for a pair is the one that is found.
pub proof fn lemma_best_rule(rules: Seq<Merge>, m: Merge)
    requires
        ranks_differ(rules),
        is_best_rule(rules, m),
    ensures
        find_rule(rules, m.left, m.right) == Some(m),
{
    let f = find_rule(rules, m.left, m.right)->0;
    assert(is_best_rule(rules, f));
    let i = choose|i: int| 0 <= i < rules.len() && rules[i] == m;
    let j = choose|j: int| 0 <= j < rules.len() && rules[j] == f;
    assert(rules[i] == m && rules[j] == f);
    assert(m.rank == f.rank);
    if i < j {
        assert(rules[i].rank != rules[j].rank);
    } else if j < i {
        assert(rules[j].rank != rules[i].rank);
    }
}

/// The token types that a list of numbers stands for.
fn read_types(s: &[i32]) -> (r: Vec<TokenType>)
    ensures
        r@ == Seq::new(s@.len(), |i: int| TokenType::from_i32(s@[i])),
{
    let mut v: Vec<TokenType> = Vec::with_capacity(s.len());
    let mut i: usize = 0;
    while i < s.len()
        invariant
            i <= s@.len(),
            v@.len() == i,
            forall|k: int| 0 <= k < i ==> v@[k] == TokenType::from_i32(s@[k]),
        decreases s.len() - i,
    {
        v.push(TokenType::from_i32(s[i]));
        i += 1;
    }
    v
}

/// As many normal types as there are tokens.
fn normal_types(n: usize) -> (r: Vec<TokenType>)
    ensures
        r@ == Seq::new(n as nat, |i: int| TokenType::Normal),
{
    let mut v: Vec<TokenType> = Vec::with_capacity(n);
    let mut i: usize = 0;
    while i < n
        invariant
            i <= n,
            v@.len() == i,
            forall|k: int| 0 <= k < i ==> v@[k] == TokenType::Normal,
        decreases n - i,
    {
        v.push(TokenType::Normal);
        i += 1;
    }
    v
}

/// The usable merge rules, in the order of their rank.
fn resolve_rules<'a>(tokens: &Vec<&'a str>, by_str: &Vec<u32>, raw: &[&'a str]) -> (r: Vec<Merge>)
    requires
        tokens@.len() <= u32::MAX,
        raw@.len() <= u32::MAX,
        is_index(texts(tokens@), by_str@),
    ensures
        r@ == usable(texts(tokens@), texts(raw@), raw@.len()),
        r@.len() <= raw@.len(),
{
    let ghost t = texts(tokens@);
    let ghost rules = texts(raw@);
    let mut v: Vec<Merge> = Vec::with_capacity(raw.len());
    let mut rank: usize = 0;
    while rank < raw.len()
        invariant
            rank <= raw@.len() <= u32::MAX,
            tokens@.len() <= u32::MAX,
            t == texts(tokens@),
            rules == texts(raw@),
            is_index(t, by_str@),
            v@ == usable(t, rules, rank as nat),
            v@.len() <= rank,
        decreases raw.len() - rank,
    {
        match resolve_rule(tokens, by_str, raw[rank], rank as u32) {
            Some(m) => {
                v.push(m);
            },
            None => {},
        }
        rank += 1;
        assert(v@ =~= usable(t, rules, rank as nat));
    }
    v
}

} // verus!
