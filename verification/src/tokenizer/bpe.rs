//! Byte-level BPE encode and decode.
use super::byte_level;
use super::pretokenize;
use super::vocab;
use super::vocab::{Merge, Source, Vocab, VocabError, VocabErrorView, VocabView};
use crate::gguf::parse::Gguf;
use crate::text;
use vstd::prelude::*;
use vstd::string::*;
use vstd::utf8::*;

verus! {

#[derive(Debug, Clone, Copy, Default)]
pub struct EncodeOptions {
    /// Recognise special-token strings (`<|im_start|>`, `<|endoftext|>`) in the
    /// input rather than letting BPE shred them into pieces.
    ///
    /// With it on, text that holds `<|im_end|>` closes a chat turn.  Chat scaffolding
    /// should be encoded with it on; untrusted message bodies should not.
    pub parse_special: bool,
    /// Prepend BOS, if the model asks for one.
    pub add_bos: bool,
}

/// The symbol that stands for one mapped character; a vocabulary without it falls
/// back to its unknown token, and leaves the character out where it has none.
pub open spec fn symbol(v: VocabView, c: char) -> Seq<u32> {
    match v.id_of(seq![c]) {
        Some(id) => seq![id],
        None => match v.unk {
            Some(u) => seq![u],
            None => Seq::empty(),
        },
    }
}

/// One symbol per mapped character.
pub open spec fn seed(v: VocabView, mapped: Seq<char>) -> Seq<u32>
    decreases mapped.len(),
{
    if mapped.len() == 0 {
        Seq::empty()
    } else {
        seed(v, mapped.drop_last()) + symbol(v, mapped.last())
    }
}

/// The rule of lowest rank among the first `k` adjacent pairs.
pub open spec fn best_rule(v: VocabView, s: Seq<u32>, k: nat) -> Option<Merge>
    decreases k,
{
    if k == 0 {
        None
    } else {
        let best = best_rule(v, s, (k - 1) as nat);
        match v.merge(s[k - 1], s[k as int]) {
            Some(m) => match best {
                Some(b) => if m.rank < b.rank {
                    Some(m)
                } else {
                    best
                },
                None => Some(m),
            },
            None => best,
        }
    }
}

/// The rule of lowest rank among all adjacent pairs.
pub open spec fn next_rule(v: VocabView, s: Seq<u32>) -> Option<Merge> {
    best_rule(v, s, if s.len() > 0 {
        (s.len() - 1) as nat
    } else {
        0
    })
}

/// `s[i..]` with the rule applied to every occurrence of its pair, left to right.
pub open spec fn replaced(s: Seq<u32>, m: Merge, i: int) -> Seq<u32>
    decreases s.len() - i,
{
    if !(0 <= i < s.len()) {
        Seq::empty()
    } else if i + 1 < s.len() && s[i] == m.left && s[i + 1] == m.right {
        seq![m.result] + replaced(s, m, i + 2)
    } else {
        seq![s[i]] + replaced(s, m, i + 1)
    }
}

/// The merge loop: the lowest-ranked rule is applied everywhere, until none applies.
pub open spec fn merged(v: VocabView, s: Seq<u32>) -> Seq<u32>
    decreases s.len(),
{
    match next_rule(v, s) {
        None => s,
        Some(m) => {
            proof {
                lemma_next_rule_shortens(v, s);
            }
            merged(v, replaced(s, m, 0))
        },
    }
}

/// The tokens of one piece of text.
pub open spec fn encode_piece(v: VocabView, piece: Seq<char>) -> Seq<u32> {
    merged(v, seed(v, byte_level::map_bytes(encode_utf8(piece))))
}

/// The tokens of the first `k` pieces of text.
pub open spec fn encode_pieces(v: VocabView, cs: Seq<char>, k: nat) -> Seq<u32>
    decreases k,
{
    if k == 0 {
        Seq::empty()
    } else {
        let p = pretokenize::pieces(cs)[k - 1];
        encode_pieces(v, cs, (k - 1) as nat) + encode_piece(v, cs.subrange(p.0, p.1))
    }
}

/// The tokens of a stretch of text in which no special token is looked for.
pub open spec fn encode_plain(v: VocabView, cs: Seq<char>) -> Seq<u32> {
    encode_pieces(v, cs, pretokenize::pieces(cs).len())
}

/// `s` stands in `cs` at `at`.
pub open spec fn occurs(cs: Seq<char>, s: Seq<char>, at: int) -> bool {
    0 <= at && at + s.len() <= cs.len() && cs.subrange(at, at + s.len()) == s
}

/// Where `s` first stands in `cs`, at or after `at`.
pub open spec fn find_from(cs: Seq<char>, s: Seq<char>, at: int) -> Option<int>
    decreases cs.len() - at + 1,
{
    if at + s.len() > cs.len() {
        None
    } else if occurs(cs, s, at) {
        Some(at)
    } else {
        find_from(cs, s, at + 1)
    }
}

/// The earliest occurrence, at or after `from`, of one of the first `k` special
/// tokens; of two at one place, the one listed first.
pub open spec fn first_special(v: VocabView, cs: Seq<char>, from: int, k: nat) -> Option<(int, u32)>
    decreases k,
{
    if k == 0 {
        None
    } else {
        let best = first_special(v, cs, from, (k - 1) as nat);
        let id = v.specials[k - 1];
        if v.text(id).len() == 0 {
            best
        } else {
            match find_from(cs, v.text(id), from) {
                Some(at) => if best is None || at < (best->0).0 {
                    Some((at, id))
                } else {
                    best
                },
                None => best,
            }
        }
    }
}

/// The earliest special token at or after `from`; of two at one place, the longer.
pub open spec fn next_special(v: VocabView, cs: Seq<char>, from: int) -> Option<(int, u32)> {
    first_special(v, cs, from, v.specials.len())
}

/// The tokens of `cs[pos..]`.
pub open spec fn encode_from(v: VocabView, cs: Seq<char>, pos: int, special: bool) -> Seq<u32>
    decreases cs.len() - pos,
{
    if pos >= cs.len() {
        Seq::empty()
    } else {
        match next_special(v, cs, pos) {
            Some((at, id)) => if special {
                proof {
                    lemma_first_special(v, cs, pos, v.specials.len());
                }
                encode_plain(v, cs.subrange(pos, at)) + seq![id] + encode_from(
                    v,
                    cs,
                    at + v.text(id).len(),
                    special,
                )
            } else {
                encode_plain(v, cs.subrange(pos, cs.len() as int))
            },
            None => encode_plain(v, cs.subrange(pos, cs.len() as int)),
        }
    }
}

/// The token that a text starts with, where one is asked for.
pub open spec fn opening(v: VocabView, opts: EncodeOptions) -> Seq<u32> {
    if opts.add_bos && v.add_bos && v.bos is Some {
        seq![v.bos->0]
    } else {
        Seq::empty()
    }
}

/// The tokens of a text.
pub open spec fn encoded(v: VocabView, cs: Seq<char>, opts: EncodeOptions) -> Seq<u32> {
    opening(v, opts) + encode_from(v, cs, 0, opts.parse_special)
}

/// The bytes of one token.
pub open spec fn token_bytes(v: VocabView, id: u32, skip_special: bool) -> Seq<u8> {
    if skip_special && v.is_special(id) {
        Seq::empty()
    } else {
        byte_level::unmap_chars(v.text(id))
    }
}

/// The bytes of tokens in a row.
pub open spec fn decoded(v: VocabView, ids: Seq<u32>, skip_special: bool) -> Seq<u8>
    decreases ids.len(),
{
    if ids.len() == 0 {
        Seq::empty()
    } else {
        decoded(v, ids.drop_last(), skip_special) + token_bytes(v, ids.last(), skip_special)
    }
}

/// What `String::from_utf8_lossy` makes of bytes.
pub uninterp spec fn lossy_text(bytes: Seq<u8>) -> Seq<char>;

/// `String::from_utf8_lossy`: valid UTF-8 gives its text; of other bytes, only that
/// the text depends on nothing else.
#[verifier::external_body]
fn text_of_bytes(bytes: &[u8]) -> (r: String)
    ensures
        r@ == lossy_text(bytes@),
        valid_utf8(bytes@) ==> r@ == decode_utf8(bytes@),
{
    String::from_utf8_lossy(bytes).into_owned()
}

/// A pair that has a rule has a rule of lowest rank.
proof fn lemma_rule_exists(rules: Seq<Merge>, m: Merge)
    requires
        rules.contains(m),
    ensures
        exists|b: Merge|
            b.left == m.left && b.right == m.right && #[trigger] vocab::is_best_rule(rules, b),
    decreases m.rank,
{
    if !vocab::is_best_rule(rules, m) {
        let j = choose|j: int|
            0 <= j < rules.len() && (#[trigger] rules[j]).left == m.left && rules[j].right
                == m.right && rules[j].rank < m.rank;
        assert(rules.contains(rules[j]));
        lemma_rule_exists(rules, rules[j]);
    }
}

/// A rule that is found is one of the rules, and for the pair that was asked for.
pub proof fn lemma_found_rule(v: VocabView, left: u32, right: u32)
    requires
        v.merge(left, right) is Some,
    ensures
        v.merge(left, right)->0.left == left,
        v.merge(left, right)->0.right == right,
        v.rules.contains(v.merge(left, right)->0),
{
    let m = choose|m: Merge| m.left == left && m.right == right && #[trigger] v.rules.contains(m);
    lemma_rule_exists(v.rules, m);
    let b = choose|m: Merge|
        m.left == left && m.right == right && #[trigger] vocab::is_best_rule(v.rules, m);
    assert(v.merge(left, right) == Some(b));
}

/// A rule that is found is of lowest rank for its pair.
pub proof fn lemma_found_is_best(v: VocabView, left: u32, right: u32)
    requires
        v.merge(left, right) is Some,
    ensures
        vocab::is_best_rule(v.rules, v.merge(left, right)->0),
{
    let m = choose|m: Merge| m.left == left && m.right == right && #[trigger] v.rules.contains(m);
    lemma_rule_exists(v.rules, m);
}

/// The rule that is applied next belongs to some adjacent pair.
proof fn lemma_best_rule_pair(v: VocabView, s: Seq<u32>, k: nat)
    requires
        k < s.len() || k == 0,
        best_rule(v, s, k) is Some,
    ensures
        ({
            let m = best_rule(v, s, k)->0;
            &&& v.rules.contains(m)
            &&& exists|i: int|
                0 <= i < k && i + 1 < s.len() && #[trigger] s[i] == m.left && s[i + 1] == m.right
        }),
    decreases k,
{
    let m = best_rule(v, s, k)->0;
    if v.merge(s[k - 1], s[k as int]) == Some(m) {
        lemma_found_rule(v, s[k - 1], s[k as int]);
        assert(s[k - 1] == m.left && s[k - 1 + 1] == m.right);
    } else {
        lemma_best_rule_pair(v, s, (k - 1) as nat);
    }
}

proof fn lemma_replaced_len(s: Seq<u32>, m: Merge, i: int)
    requires
        0 <= i <= s.len(),
    ensures
        replaced(s, m, i).len() <= s.len() - i,
        (exists|j: int|
            i <= j && j + 1 < s.len() && #[trigger] s[j] == m.left && s[j + 1] == m.right)
            ==> replaced(s, m, i).len() < s.len() - i,
    decreases s.len() - i,
{
    if i < s.len() {
        if i + 1 < s.len() && s[i] == m.left && s[i + 1] == m.right {
            lemma_replaced_len(s, m, i + 2);
        } else {
            lemma_replaced_len(s, m, i + 1);
            if exists|j: int|
                i <= j && j + 1 < s.len() && #[trigger] s[j] == m.left && s[j + 1] == m.right {
                let j = choose|j: int|
                    i <= j && j + 1 < s.len() && #[trigger] s[j] == m.left && s[j + 1] == m.right;
                assert(j != i);
                assert(i + 1 <= j && s[j] == m.left);
            }
        }
    }
}

/// Applying the next rule leaves fewer symbols.
pub proof fn lemma_next_rule_shortens(v: VocabView, s: Seq<u32>)
    requires
        next_rule(v, s) is Some,
    ensures
        v.rules.contains(next_rule(v, s)->0),
        replaced(s, next_rule(v, s)->0, 0).len() < s.len(),
{
    lemma_best_rule_pair(v, s, (s.len() - 1) as nat);
    lemma_replaced_len(s, next_rule(v, s)->0, 0);
}

proof fn lemma_find_from(cs: Seq<char>, s: Seq<char>, at: int)
    ensures
        find_from(cs, s, at) matches Some(k) ==> at <= k && occurs(cs, s, k) && (forall|j: int|
            at <= j < k ==> !occurs(cs, s, j)),
        find_from(cs, s, at) is None ==> forall|j: int| at <= j ==> !occurs(cs, s, j),
    decreases cs.len() - at + 1,
{
    if at + s.len() <= cs.len() && !occurs(cs, s, at) {
        lemma_find_from(cs, s, at + 1);
    }
}

/// A special token that is found stands in the text at or after `from`, and is not
/// empty.
pub proof fn lemma_first_special(v: VocabView, cs: Seq<char>, from: int, k: nat)
    requires
        k <= v.specials.len(),
    ensures
        first_special(v, cs, from, k) matches Some((at, id)) ==> from <= at && occurs(
            cs,
            v.text(id),
            at,
        ) && v.text(id).len() > 0 && v.specials.contains(id),
    decreases k,
{
    if k > 0 {
        lemma_first_special(v, cs, from, (k - 1) as nat);
        let id = v.specials[k - 1];
        assert(v.specials.contains(id));
        lemma_find_from(cs, v.text(id), from);
    }
}

/// No special token stands in the text before the one that is found, and none that
/// is listed before it stands at the same place: the earliest wins, then the longest.
pub proof fn law_earliest_then_longest_special(v: VocabView, cs: Seq<char>, from: int, j: int)
    requires
        0 <= from,
        0 <= j < v.specials.len(),
        v.text(v.specials[j]).len() > 0,
    ensures
        match next_special(v, cs, from) {
            Some((at, id)) => {
                &&& forall|p: int| from <= p < at ==> !#[trigger] occurs(cs, v.text(v.specials[j]), p)
                &&& occurs(cs, v.text(v.specials[j]), at) ==> exists|i: int|
                    0 <= i <= j && #[trigger] v.specials[i] == id
            },
            None => forall|p: int| from <= p ==> !#[trigger] occurs(cs, v.text(v.specials[j]), p),
        },
{
    lemma_earliest(v, cs, from, v.specials.len(), j);
}

proof fn lemma_earliest(v: VocabView, cs: Seq<char>, from: int, k: nat, j: int)
    requires
        0 <= from,
        0 <= j < k <= v.specials.len(),
        v.text(v.specials[j]).len() > 0,
    ensures
        match first_special(v, cs, from, k) {
            Some((at, id)) => {
                &&& forall|p: int| from <= p < at ==> !#[trigger] occurs(cs, v.text(v.specials[j]), p)
                &&& occurs(cs, v.text(v.specials[j]), at) ==> exists|i: int|
                    0 <= i <= j && #[trigger] v.specials[i] == id
            },
            None => forall|p: int| from <= p ==> !#[trigger] occurs(cs, v.text(v.specials[j]), p),
        },
    decreases k,
{
    let last = v.specials[k - 1];
    lemma_find_from(cs, v.text(last), from);
    if j < k - 1 {
        lemma_earliest(v, cs, from, (k - 1) as nat, j);
    } else {
        lemma_first_special(v, cs, from, (k - 1) as nat);
        let before = first_special(v, cs, from, (k - 1) as nat);
        if before is Some {
            lemma_special_place(v, cs, from, (k - 1) as nat);
        }
    }
}

/// What is found among the first `k` special tokens is one of them.
proof fn lemma_special_place(v: VocabView, cs: Seq<char>, from: int, k: nat)
    requires
        k <= v.specials.len(),
        first_special(v, cs, from, k) is Some,
    ensures
        exists|i: int| 0 <= i < k && #[trigger] v.specials[i] == (first_special(v, cs, from, k)->0).1,
    decreases k,
{
    let id = v.specials[k - 1];
    if first_special(v, cs, from, k) == first_special(v, cs, from, (k - 1) as nat) {
        lemma_special_place(v, cs, from, (k - 1) as nat);
    } else {
        assert(v.specials[k - 1] == (first_special(v, cs, from, k)->0).1);
    }
}

#[derive(Debug)]
pub struct Tokenizer<'a> {
    vocab: Vocab<'a>,
}

impl<'a> View for Tokenizer<'a> {
    type V = VocabView;

    closed spec fn view(&self) -> VocabView {
        self.vocab@
    }
}

impl<'a> Tokenizer<'a> {
    /// The vocabulary's indexes agree with what they index.
    pub closed spec fn wf(&self) -> bool {
        self.vocab.wf()
    }

    /// What a tokenizer holds is well-formed.
    pub proof fn lemma_wf(&self)
        requires
            self.wf(),
        ensures
            self@.wf(),
    {
        self.vocab.lemma_wf();
    }

    pub fn from_gguf(g: &Gguf<'a>) -> (r: Result<Self, VocabError>)
        requires
            vocab::source_tokens(g@) matches Ok(t) ==> t.len() <= u32::MAX,
            vocab::source_merges(g@) matches Ok(m) ==> m.len() <= u32::MAX,
            vocab::source(g@) matches Ok(s) ==> s.tokens.len() <= s.types.len(),
        ensures
            match r {
                Ok(t) => t.wf() && (vocab::source(g@) matches Ok(s) && vocab::loaded(t@, g@, s)),
                Err(e) => vocab::source(g@) == Err::<Source, VocabErrorView>(e@),
            },
    {
        match Vocab::from_gguf(g) {
            Ok(vocab) => Ok(Tokenizer { vocab }),
            Err(e) => Err(e),
        }
    }

    pub fn vocab(&self) -> (r: &Vocab<'a>)
        ensures
            r@ == self@,
            self.wf() ==> r.wf(),
    {
        &self.vocab
    }

    /// Encode text to token ids.
    pub fn encode(&self, text: &str, opts: EncodeOptions) -> (r: Vec<u32>)
        requires
            self.wf(),
        ensures
            r@ == encoded(self@, text@, opts),
    {
        let cs = text::chars_of(text);
        let n: usize = cs.len();
        let mut out: Vec<u32> = Vec::new();
        if opts.add_bos {
            if let Some(b) = self.vocab.opening_token() {
                out.push(b);
            }
        }
        assert(out@ =~= opening(self@, opts));
        let ghost v = self@;
        let mut pos: usize = 0;
        while pos < n
            invariant
                self.wf(),
                v == self@,
                pos <= n == cs@.len(),
                out@ + encode_from(v, cs@, pos as int, opts.parse_special) == encoded(
                    v,
                    cs@,
                    opts,
                ),
            decreases n - pos,
        {
            let ghost before = out@;
            let hit = if opts.parse_special {
                self.next_special(cs.as_slice(), pos)
            } else {
                None
            };
            match hit {
                Some((at, id)) => {
                    proof {
                        lemma_first_special(v, cs@, pos as int, v.specials.len());
                    }
                    self.encode_plain(cs.as_slice(), pos, at, &mut out);
                    out.push(id);
                    let width: usize = self.token_width(id);
                    assert(out@ + encode_from(v, cs@, at + width, true) =~= before + (encode_plain(
                        v,
                        cs@.subrange(pos as int, at as int),
                    ) + seq![id] + encode_from(v, cs@, at + width, true)));
                    pos = at + width;
                },
                None => {
                    self.encode_plain(cs.as_slice(), pos, n, &mut out);
                    assert(out@ =~= before + encode_from(v, cs@, pos as int, opts.parse_special));
                    assert(out@ + encode_from(v, cs@, n as int, opts.parse_special) =~= out@);
                    pos = n;
                },
            }
        }
        assert(out@ + encode_from(v, cs@, pos as int, opts.parse_special) =~= out@);
        out
    }

    /// How many characters the string of a token has.
    fn token_width(&self, id: u32) -> (r: usize)
        ensures
            r == self@.text(id).len(),
    {
        match self.vocab.token(id) {
            Some(s) => text::chars_of(s).len(),
            None => 0,
        }
    }

    /// Where `s` first stands in `cs`, at or after `from`.
    fn find(cs: &[char], s: &Vec<char>, from: usize) -> (r: Option<usize>)
        requires
            from <= cs@.len(),
        ensures
            match r {
                Some(at) => find_from(cs@, s@, from as int) == Some(at as int),
                None => find_from(cs@, s@, from as int) is None,
            },
    {
        let n: usize = cs.len();
        let m: usize = s.len();
        let mut at: usize = from;
        while m <= n - at
            invariant
                from <= at <= n == cs@.len(),
                m == s@.len(),
                find_from(cs@, s@, from as int) == find_from(cs@, s@, at as int),
            decreases n - at,
        {
            let mut k: usize = 0;
            while k < m && cs[at + k] == s[k]
                invariant
                    k <= m == s@.len(),
                    at + m <= n == cs@.len(),
                    forall|j: int| 0 <= j < k ==> cs@[at + j] == s@[j],
                decreases m - k,
            {
                k += 1;
            }
            if k == m {
                assert(cs@.subrange(at as int, at + m) =~= s@);
                return Some(at);
            }
            assert(cs@.subrange(at as int, at + m)[k as int] != s@[k as int]);
            if at == n {
                return None;
            }
            at += 1;
        }
        None
    }

    /// Earliest special-token occurrence at or after `from`; ties go to the longest
    /// match, so `<|im_start|>` is never read as a shorter prefix.
    fn next_special(&self, cs: &[char], from: usize) -> (r: Option<(usize, u32)>)
        requires
            self.wf(),
            from <= cs@.len(),
        ensures
            match r {
                Some((at, id)) => next_special(self@, cs@, from as int) == Some((at as int, id)),
                None => next_special(self@, cs@, from as int) is None,
            },
    {
        let ghost v = self@;
        let specials = self.vocab.specials();
        let mut best: Option<(usize, u32)> = None;
        let mut k: usize = 0;
        while k < specials.len()
            invariant
                self.wf(),
                v == self@,
                specials@ == v.specials,
                from <= cs@.len(),
                k <= specials@.len(),
                match best {
                    Some((at, id)) => first_special(v, cs@, from as int, k as nat) == Some(
                        (at as int, id),
                    ),
                    None => first_special(v, cs@, from as int, k as nat) is None,
                },
            decreases specials.len() - k,
        {
            let sid: u32 = specials[k];
            let s = match self.vocab.token(sid) {
                Some(t) => text::chars_of(t),
                None => Vec::new(),
            };
            assert(s@ =~= v.text(sid));
            if s.len() > 0 {
                match Self::find(cs, &s, from) {
                    Some(at) => {
                        let better = match best {
                            Some((b, _)) => at < b,
                            None => true,
                        };
                        if better {
                            best = Some((at, sid));
                        }
                    },
                    None => {},
                }
            }
            k += 1;
        }
        best
    }

    /// Encode `cs[lo..hi]`, a stretch of text in which no special token is looked for.
    fn encode_plain(&self, cs: &[char], lo: usize, hi: usize, out: &mut Vec<u32>)
        requires
            self.wf(),
            lo <= hi <= cs@.len(),
        ensures
            final(out)@ == old(out)@ + encode_plain(self@, cs@.subrange(lo as int, hi as int)),
    {
        let ghost v = self@;
        let ghost start = out@;
        let part = vstd::slice::slice_subrange(cs, lo, hi);
        let n: usize = part.len();
        let mut i: usize = 0;
        let ghost mut k: nat = 0;
        let ghost all = pretokenize::pieces(part@);
        assert(all.skip(0) =~= all);
        assert(out@ =~= start + encode_pieces(v, part@, 0));
        while i < n
            invariant
                self.wf(),
                v == self@,
                start == old(out)@,
                i <= n == part@.len(),
                all == pretokenize::pieces(part@),
                k <= all.len(),
                all.skip(k as int) == pretokenize::pieces_from(part@, i as int),
                out@ == start + encode_pieces(v, part@, k),
            decreases n - i,
        {
            let e: usize = pretokenize::next_end(part, i);
            proof {
                assert(pretokenize::pieces_from(part@, i as int) == seq![(i as int, e as int)]
                    + pretokenize::pieces_from(part@, e as int));
                assert(all.skip(k as int).len() > 0);
                assert(all.skip(k as int)[0] == all[k as int]);
                assert(all[k as int] == (i as int, e as int));
                assert(all.skip(k as int).drop_first() =~= all.skip((k + 1) as int));
                assert(all.skip(k as int).drop_first() =~= pretokenize::pieces_from(
                    part@,
                    e as int,
                ));
            }
            let ghost before = out@;
            let ghost piece = part@.subrange(i as int, e as int);
            let chunk = text::string_of(part, i, e);
            // Into the alphabet that the vocabulary is written in.
            let mut mapped = String::new();
            byte_level::encode_into(chunk.as_str().as_bytes(), &mut mapped);
            assert(mapped@ =~= byte_level::map_bytes(encode_utf8(piece)));
            let mut symbols = self.seed_symbols(mapped.as_str());
            self.apply_merges(&mut symbols);
            let mut j: usize = 0;
            while j < symbols.len()
                invariant
                    j <= symbols@.len(),
                    out@ == before + symbols@.take(j as int),
                decreases symbols.len() - j,
            {
                out.push(symbols[j]);
                j += 1;
                assert(out@ =~= before + symbols@.take(j as int));
            }
            proof {
                assert(symbols@.take(j as int) =~= encode_piece(v, piece));
                k = k + 1;
                assert(out@ =~= start + encode_pieces(v, part@, k));
            }
            i = e;
        }
        proof {
            assert(all.skip(k as int).len() == 0);
            assert(k == all.len());
        }
    }

    /// One symbol per mapped character.
    fn seed_symbols(&self, mapped: &str) -> (r: Vec<u32>)
        requires
            self.wf(),
        ensures
            r@ == seed(self@, mapped@),
    {
        let ghost v = self@;
        let cs = text::chars_of(mapped);
        let mut symbols: Vec<u32> = Vec::new();
        let mut i: usize = 0;
        assert(symbols@ =~= seed(v, cs@.take(0)));
        while i < cs.len()
            invariant
                self.wf(),
                v == self@,
                i <= cs@.len(),
                symbols@ == seed(v, cs@.take(i as int)),
            decreases cs.len() - i,
        {
            let ghost before = symbols@;
            let mut s = String::new();
            s.push(cs[i]);
            assert(s@ =~= seq![cs@[i as int]]);
            match self.vocab.id_of(s.as_str()) {
                Some(id) => {
                    symbols.push(id);
                },
                None => {
                    if let Some(unk) = self.vocab.unknown_token() {
                        symbols.push(unk);
                    }
                },
            }
            proof {
                let t = cs@.take(i + 1);
                assert(t.drop_last() =~= cs@.take(i as int));
                assert(symbols@ =~= before + symbol(v, cs@[i as int]));
            }
            i += 1;
        }
        assert(cs@.take(i as int) =~= cs@);
        symbols
    }

    /// The rule that the merge loop applies next.
    fn lowest_rule(&self, symbols: &Vec<u32>) -> (r: Option<Merge>)
        requires
            self.wf(),
        ensures
            r == next_rule(self@, symbols@),
    {
        let ghost v = self@;
        let n: usize = symbols.len();
        let mut best: Option<Merge> = None;
        let mut k: usize = 1;
        while k < n
            invariant
                self.wf(),
                v == self@,
                n == symbols@.len(),
                1 <= k,
                n > 0 ==> k <= n,
                n == 0 ==> k == 1,
                best == best_rule(v, symbols@, (k - 1) as nat),
            decreases n - k,
        {
            match self.vocab.merge(symbols[k - 1], symbols[k]) {
                Some(m) => {
                    let better = match best {
                        Some(b) => m.rank < b.rank,
                        None => true,
                    };
                    if better {
                        best = Some(*m);
                    }
                },
                None => {},
            }
            k += 1;
        }
        best
    }

    /// The merge loop: repeatedly take the lowest-ranked adjacent pair and merge
    /// every non-overlapping occurrence of it, left to right.
    fn apply_merges(&self, symbols: &mut Vec<u32>)
        requires
            self.wf(),
        ensures
            final(symbols)@ == merged(self@, old(symbols)@),
    {
        let ghost v = self@;
        let ghost start = symbols@;
        loop
            invariant
                self.wf(),
                v == self@,
                start == old(symbols)@,
                merged(v, start) == merged(v, symbols@),
            decreases symbols@.len(),
        {
            let m = match self.lowest_rule(symbols) {
                Some(m) => m,
                None => return ,
            };
            proof {
                lemma_next_rule_shortens(v, symbols@);
            }
            let ghost s = symbols@;
            let mut scratch: Vec<u32> = Vec::new();
            let n: usize = symbols.len();
            let mut i: usize = 0;
            assert(scratch@ + replaced(s, m, 0) =~= replaced(s, m, 0));
            while i < n
                invariant
                    s == symbols@,
                    i <= n == s.len(),
                    scratch@ + replaced(s, m, i as int) == replaced(s, m, 0),
                decreases n - i,
            {
                let ghost before = scratch@;
                if i + 1 < n && symbols[i] == m.left && symbols[i + 1] == m.right {
                    scratch.push(m.result);
                    assert(scratch@ + replaced(s, m, i + 2) =~= before + (seq![m.result] + replaced(
                        s,
                        m,
                        i + 2,
                    )));
                    i += 2;
                } else {
                    scratch.push(symbols[i]);
                    assert(scratch@ + replaced(s, m, i + 1) =~= before + (seq![s[i as int]]
                        + replaced(s, m, i + 1)));
                    i += 1;
                }
            }
            assert(scratch@ =~= replaced(s, m, 0));
            *symbols = scratch;
        }
    }

    /// Decode to raw bytes.
    ///
    /// Bytes rather than a `String`, because a token boundary is not a character
    /// boundary: one token can be half a UTF-8 sequence.
    pub fn decode_bytes(&self, ids: &[u32], skip_special: bool) -> (r: Vec<u8>)
        ensures
            r@ == decoded(self@, ids@, skip_special),
    {
        let ghost v = self@;
        let mut out: Vec<u8> = Vec::new();
        let mut i: usize = 0;
        assert(out@ =~= decoded(v, ids@.take(0), skip_special));
        while i < ids.len()
            invariant
                v == self@,
                i <= ids@.len(),
                out@ == decoded(v, ids@.take(i as int), skip_special),
            decreases ids.len() - i,
        {
            let id: u32 = ids[i];
            let ghost before = out@;
            let special = match self.vocab.token_type(id) {
                Some(t) => t.is_special(),
                None => false,
            };
            if !(skip_special && special) {
                if let Some(s) = self.vocab.token(id) {
                    byte_level::decode_into(s, &mut out);
                }
            }
            proof {
                let t = ids@.take(i + 1);
                assert(t.drop_last() =~= ids@.take(i as int));
                assert(out@ =~= before + token_bytes(v, id, skip_special));
            }
            i += 1;
        }
        assert(ids@.take(i as int) =~= ids@);
        out
    }

    /// Decode to text, replacing anything that is not valid UTF-8.
    pub fn decode(&self, ids: &[u32], skip_special: bool) -> (r: String)
        ensures
            r@ == lossy_text(decoded(self@, ids@, skip_special)),
            valid_utf8(decoded(self@, ids@, skip_special)) ==> r@ == decode_utf8(
                decoded(self@, ids@, skip_special),
            ),
    {
        let bytes = self.decode_bytes(ids, skip_special);
        text_of_bytes(bytes.as_slice())
    }
}

} // verus!
