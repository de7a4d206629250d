//! What the command line means, and what the tables show.
use super::args;
use super::args::GenerateOptions;
use super::report;
use super::report::Float;
use super::tables;
use super::tables::TensorKind;
use crate::bits::{F32Bits, F64Bits};
use crate::gguf::file::TensorInfoView;
use crate::gguf::value::{ArrayView, MetaType, ValueView};
use crate::gguf::{GgmlType, ModelConfig};
use crate::text;
use vstd::arithmetic::power2::*;
use vstd::prelude::*;
use vstd::utf8::*;

verus! {

/// An argument with two dashes at its front.
pub open spec fn dashed(a: Seq<char>) -> bool {
    "--"@.is_prefix_of(a)
}

/// Positional arguments are those without dashes, in the order in which they were given.
pub proof fn law_dashed_arguments_are_left_out(a: Seq<Seq<char>>, b: Seq<Seq<char>>, x: Seq<char>)
    ensures
        args::positionals(a + b) == args::positionals(a) + args::positionals(b),
        dashed(x) ==> args::positionals(seq![x]) == Seq::<Seq<char>>::empty(),
        !dashed(x) ==> args::positionals(seq![x]) == seq![x],
    decreases b.len(),
{
    reveal_with_fuel(args::positionals, 2);
    assert(seq![x].drop_last() =~= Seq::empty());
    reveal_strlit("--");
    if args::is_option(x) {
        assert("--"@ =~= x.subrange(0, 2));
    } else if dashed(x) {
        assert(x.subrange(0, 2)[0] == x[0] && x.subrange(0, 2)[1] == x[1]);
    }
    if b.len() == 0 {
        assert(a + b =~= a);
        assert(args::positionals(a) + args::positionals(b) =~= args::positionals(a));
    } else {
        law_dashed_arguments_are_left_out(a, b.drop_last(), x);
        assert((a + b).drop_last() =~= a + b.drop_last());
        let p = args::positionals(a);
        let q = args::positionals(b.drop_last());
        assert((p + q).push(b.last()) =~= p + q.push(b.last()));
    }
}

/// The value of an option is what stands behind the first argument that names it.
pub proof fn law_the_first_mention_counts(
    before: Seq<Seq<char>>,
    flag: Seq<char>,
    value: Seq<char>,
    after: Seq<Seq<char>>,
)
    requires
        !before.contains(flag),
    ensures
        args::value_of(before + seq![flag, value] + after, flag) == Some(value),
        args::value_of(before + seq![flag], flag) is None,
        args::value_of(before, flag) is None,
    decreases before.len(),
{
    let given = before + seq![flag, value] + after;
    let last = before + seq![flag];
    if before.len() == 0 {
        assert(given[0] == flag && given[1] == value);
        assert(last[0] == flag);
    } else {
        let rest = before.drop_first();
        assert(before[0] != flag) by {
            assert(before.contains(before[0]));
        }
        assert(!rest.contains(flag)) by {
            if rest.contains(flag) {
                let i = choose|i: int| 0 <= i < rest.len() && rest[i] == flag;
                assert(before[i + 1] == flag);
            }
        }
        law_the_first_mention_counts(rest, flag, value, after);
        assert(given.drop_first() =~= rest + seq![flag, value] + after);
        assert(last.drop_first() =~= rest + seq![flag]);
        assert(given[0] == before[0] && last[0] == before[0]);
    }
}

proof fn lemma_same_value(s: Seq<char>)
    requires
        forall|i: int| 0 <= i < s.len() ==> '0' <= #[trigger] s[i] <= '9',
    ensures
        args::digits_value(s) == text::number_of(s),
    decreases s.len(),
{
    if s.len() > 0 {
        let t = s.drop_last();
        assert forall|i: int| 0 <= i < t.len() implies '0' <= #[trigger] t[i] <= '9' by {
            assert(t[i] == s[i]);
        }
        lemma_same_value(t);
        assert('0' <= s[s.len() - 1] <= '9');
    }
}

/// A number is read from its decimal digits, with a plus sign or without, as long as it is
/// not too large; nothing else is a number.
pub proof fn law_digits_are_read(n: nat, max: nat, s: Seq<char>, i: int)
    ensures
        args::number_up_to(text::decimal(n), max) == if n <= max {
            Some(n)
        } else {
            None
        },
        args::number_up_to(seq!['+'] + text::decimal(n), max) == args::number_up_to(
            text::decimal(n),
            max,
        ),
        s.len() == 0 ==> args::number_up_to(s, max) is None,
        s == seq!['+'] ==> args::number_up_to(s, max) is None,
        0 <= i < s.len() && !('0' <= s[i] <= '9') && !(i == 0 && s[0] == '+')
            ==> args::number_up_to(s, max) is None,
{
    let d = text::decimal(n);
    text::law_decimals_read_back(n);
    lemma_same_value(d);
    assert('0' <= d[0] <= '9');
    assert((seq!['+'] + d).drop_first() =~= d);
    if s == seq!['+'] {
        assert(s.drop_first().len() == 0);
    }
    if 0 <= i < s.len() && !('0' <= s[i] <= '9') && !(i == 0 && s[0] == '+') {
        if s[0] == '+' {
            assert(s.drop_first()[i - 1] == s[i]);
            assert(!args::all_digits(s.drop_first()));
        } else {
            assert(!args::all_digits(s));
        }
    }
}

/// An option's number is the one that stands behind it.  Without the option, or with what is
/// no number behind it, the default holds; where a number must follow, there is none.
pub proof fn law_options_take_their_numbers(
    before: Seq<Seq<char>>,
    flag: Seq<char>,
    value: Seq<char>,
    n: u64,
    after: Seq<Seq<char>>,
    default: u64,
    max: u64,
    strict: usize,
)
    requires
        !before.contains(flag),
    ensures
        ({
            let given = before + seq![flag, text::decimal(n as nat)] + after;
            &&& args::number_or(given, flag, default, max) == if n <= max {
                n
            } else {
                default
            }
            &&& n <= usize::MAX ==> args::strict_number(given, flag, strict) == Some(n as usize)
        }),
        args::number(value) is None ==> {
            let given = before + seq![flag, value] + after;
            &&& args::number_or(given, flag, default, max) == default
            &&& args::strict_number(given, flag, strict) is None
        },
        args::number_or(before, flag, default, max) == default,
        args::strict_number(before, flag, strict) == Some(strict),
{
    let d = text::decimal(n as nat);
    let given = before + seq![flag, d] + after;
    let other = before + seq![flag, value] + after;
    law_the_first_mention_counts(before, flag, d, after);
    law_the_first_mention_counts(before, flag, value, after);
    law_digits_are_read(n as nat, max as nat, d, 0);
    law_digits_are_read(n as nat, usize::MAX as nat, d, 0);
    assert(given[before.len() as int] == flag);
    assert(given.contains(flag));
    assert(other[before.len() as int] == flag);
    assert(other.contains(flag));
}

/// Each command answers to its own name, and help to three.
pub proof fn law_commands_answer_to_their_names(name: Seq<char>)
    ensures
        args::command_named(name) is GgufDump <==> name == "gguf-dump"@,
        args::command_named(name) is Tokenize <==> name == "tokenize"@,
        args::command_named(name) is Generate <==> name == "generate"@,
        args::command_named(name) is BenchKv <==> name == "bench-kv"@,
        args::command_named(name) is Dequant <==> name == "dequant"@,
        args::command_named(name) is Help <==> name == "help"@ || name == "-h"@ || name
            == "--help"@,
{
    reveal_strlit("gguf-dump");
    reveal_strlit("tokenize");
    reveal_strlit("generate");
    reveal_strlit("bench-kv");
    reveal_strlit("dequant");
    reveal_strlit("help");
    reveal_strlit("-h");
    reveal_strlit("--help");
    assert("gguf-dump"@[1] == 'g' && "tokenize"@[1] == 'o' && "generate"@[0] == 'g');
    assert("generate"@[1] == 'e' && "bench-kv"@[0] == 'b' && "dequant"@[0] == 'd');
    assert("help"@[0] == 'h' && "tokenize"@[0] == 't' && "-h"@[0] == '-' && "--help"@[0] == '-');
}

/// Without options, 32 tokens are generated greedily by the fused kernels, one position after
/// the other, from the bare prompt.
pub proof fn law_options_left_out_have_defaults(o: GenerateOptions, a: Seq<Seq<char>>)
    requires
        o.stated(a),
    ensures
        !a.contains("--n"@) ==> o.n_gen == 32,
        !a.contains("--chat"@) ==> !o.chat,
        !a.contains("--unfused"@) ==> o.fused,
        !a.contains("--batched-prefill"@) ==> !o.batched_prefill,
        !a.contains("--rope-adjacent"@) ==> o.rope_kind is SplitHalf,
        !a.contains("--ids"@) ==> !o.show_ids,
        !a.contains("--top-k"@) ==> o.top_k == 0,
        !a.contains("--repeat-window"@) ==> o.repetition_window == 64,
        !a.contains("--seed"@) ==> o.seed == 0,
        !a.contains("--temp"@) ==> o.temperature is None,
        !a.contains("--top-p"@) ==> o.top_p is None,
        !a.contains("--repeat-penalty"@) ==> o.repetition_penalty is None,
{
    lemma_not_mentioned(a, "--top-k"@);
    lemma_not_mentioned(a, "--repeat-window"@);
    lemma_not_mentioned(a, "--seed"@);
    lemma_not_mentioned(a, "--temp"@);
    lemma_not_mentioned(a, "--top-p"@);
    lemma_not_mentioned(a, "--repeat-penalty"@);
}

proof fn lemma_not_mentioned(a: Seq<Seq<char>>, flag: Seq<char>)
    ensures
        !a.contains(flag) ==> args::value_of(a, flag) is None,
{
    if !a.contains(flag) {
        law_the_first_mention_counts(a, flag, flag, a);
    }
}

/// An option that is given is the one that it names, and a path and a prompt stand before
/// everything else that names no option.
pub proof fn law_options_given_are_taken(
    o: GenerateOptions,
    before: Seq<Seq<char>>,
    flag: Seq<char>,
    value: Seq<char>,
    n: u64,
    after: Seq<Seq<char>>,
)
    requires
        o.stated(before + seq![flag, value] + after),
        !before.contains(flag),
    ensures
        flag == "--chat"@ ==> o.chat,
        flag == "--unfused"@ ==> !o.fused,
        flag == "--batched-prefill"@ ==> o.batched_prefill,
        flag == "--rope-adjacent"@ ==> o.rope_kind is Adjacent,
        flag == "--ids"@ ==> o.show_ids,
        flag == "--temp"@ ==> text::option_view(o.temperature) == Some(value),
        flag == "--top-p"@ ==> text::option_view(o.top_p) == Some(value),
        flag == "--repeat-penalty"@ ==> text::option_view(o.repetition_penalty) == Some(value),
        value == text::decimal(n as nat) && n <= usize::MAX ==> {
            &&& flag == "--n"@ ==> o.n_gen == n
            &&& flag == "--top-k"@ ==> o.top_k == n
            &&& flag == "--repeat-window"@ ==> o.repetition_window == n
            &&& flag == "--seed"@ ==> o.seed == n
        },
        ({
            let p = args::positionals(before + seq![flag, value] + after);
            o.path@ == p[0] && o.prompt@ == p[1]
        }),
{
    let given = before + seq![flag, value] + after;
    assert(given[before.len() as int] == flag);
    assert(given.contains(flag));
    law_the_first_mention_counts(before, flag, value, after);
    if value == text::decimal(n as nat) && n <= usize::MAX {
        law_options_take_their_numbers(before, flag, value, n, after, 0, u64::MAX, 32);
        law_options_take_their_numbers(before, flag, value, n, after, 64, u64::MAX, 32);
    }
}

/// The distance between two numbers.
pub open spec fn apart(a: nat, b: nat) -> int {
    if a < b {
        b - a
    } else {
        a - b
    }
}

/// A quotient is rounded to a nearest whole number, and to the even one of two.
pub proof fn law_quotients_are_rounded(a: nat, b: nat)
    requires
        b > 0,
    ensures
        2 * apart(report::half_even(a, b) * b, a) <= b,
        2 * apart(report::half_even(a, b) * b, a) == b ==> report::half_even(a, b) % 2 == 0,
{
    let q = a as int / b as int;
    vstd::arithmetic::div_mod::lemma_fundamental_div_mod(a as int, b as int);
    assert(b * q == q * b) by (nonlinear_arith);
    assert((q + 1) * b == q * b + b) by (nonlinear_arith);
}

proof fn lemma_double_step(n: nat, k: nat) -> (e: nat)
    requires
        k == 0 || n >= 0x10_0000_0000_0000 * pow2(k),
    ensures
        report::double_step(n, pow2(k)) == pow2(e),
        n < 0x20_0000_0000_0000 * pow2(e),
        e == 0 || n >= 0x10_0000_0000_0000 * pow2(e),
    decreases n - pow2(k),
{
    lemma_pow2_pos(k);
    lemma_pow2_unfold(k + 1);
    if n < 0x20_0000_0000_0000 * pow2(k) {
        k
    } else {
        lemma_double_step(n, k + 1)
    }
}

/// The double of a whole number has at most 53 significant bits and is as near as those allow;
/// up to 2^53 it is the number itself.
pub proof fn law_doubles_are_nearest(n: nat) -> (e: nat)
    ensures
        report::as_double(n) % pow2(e) == 0,
        report::as_double(n) <= 0x20_0000_0000_0000 * pow2(e),
        2 * apart(report::as_double(n), n) <= pow2(e),
        e == 0 || n >= 0x10_0000_0000_0000 * pow2(e),
        n < 0x20_0000_0000_0000 ==> report::as_double(n) == n,
{
    lemma2_to64();
    let e = lemma_double_step(n, 0);
    let p = pow2(e) as int;
    lemma_pow2_pos(e);
    law_quotients_are_rounded(n, pow2(e));
    let q = report::half_even(n, pow2(e)) as int;
    vstd::arithmetic::div_mod::lemma_mod_multiples_basic(q, p);
    assert(n as int / p < 0x20_0000_0000_0000) by (nonlinear_arith)
        requires
            n < 0x20_0000_0000_0000 * p,
            p > 0,
    ;
    assert(q * p <= 0x20_0000_0000_0000 * p) by (nonlinear_arith)
        requires
            q <= 0x20_0000_0000_0000,
            p > 0,
    ;
    if n < 0x20_0000_0000_0000 {
        assert(report::double_step(n, 1) == 1);
        assert(e == 0) by {
            if e > 0 {
                lemma_pow2_strictly_increases(0, e);
            }
        }
        assert(apart(q as nat * 1, n) == 0);
    }
    e
}

/// A size is shown in the largest of five units that it fills, to the nearest tenth; bytes are
/// shown whole.
pub proof fn law_sizes_are_shown_in_their_unit(n: nat) -> (tenths: nat)
    ensures
        n < 1024 ==> report::human(n) == text::decimal(n) + " B"@,
        ({
            let x = report::as_double(n);
            let (size, name) = if x >= 1024 * 1024 * 1024 * 1024 {
                (1024 * 1024 * 1024 * 1024nat, " TiB"@)
            } else if x >= 1024 * 1024 * 1024 {
                (1024 * 1024 * 1024nat, " GiB"@)
            } else if x >= 1024 * 1024 {
                (1024 * 1024nat, " MiB"@)
            } else {
                (1024nat, " KiB"@)
            };
            x >= 1024 ==> {
                &&& report::human(n) == text::decimal(tenths / 10) + "."@ + text::decimal(
                    tenths % 10,
                ) + name
                &&& 2 * apart(tenths * size, 10 * x) <= size
            }
        }),
{
    let x = report::as_double(n);
    if n < 1024 {
        law_doubles_are_nearest(n);
    }
    let size = report::unit_size(report::unit_of(x));
    let tenths = report::half_even(10 * x, size);
    law_quotients_are_rounded(10 * x, size);
    reveal_strlit(".");
    let d = tenths % 10;
    assert("."@ + text::decimal(d) =~= seq!['.', text::digit(d)]);
    if x >= 1024 {
        let a = text::decimal(tenths / 10);
        let name = report::unit_name(report::unit_of(x));
        assert(a + "."@ + text::decimal(d) + name =~= a + seq!['.', text::digit(d)] + name);
    }
    tenths
}

/// A number with a sign is the digits of its size, with a dash before them where it is below
/// zero.
pub proof fn law_signs_stand_in_front(n: nat)
    ensures
        report::signed(n as int) == text::decimal(n),
        n > 0 ==> report::signed(-n) == "-"@ + text::decimal(n),
{
    reveal_strlit("-");
    assert("-"@ =~= seq!['-']);
}

/// A text is cut to the longest front that fits: it fits itself, and with one character more
/// it would not.
pub proof fn law_texts_are_cut_to_fit(s: Seq<char>, limit: nat)
    ensures
        ({
            let c = report::front_within(s, limit);
            &&& c.len() <= s.len()
            &&& c == s.take(c.len() as int)
            &&& encode_utf8(c).len() <= limit
            &&& c.len() < s.len() ==> encode_utf8(s.take((c.len() + 1) as int)).len() > limit
        }),
    decreases s.len(),
{
    assert(s.take(s.len() as int) =~= s);
    if s.len() == 0 {
        reveal_with_fuel(encode_utf8, 1);
    } else if encode_utf8(s).len() > limit {
        let t = s.drop_last();
        law_texts_are_cut_to_fit(t, limit);
        let n = report::front_within(t, limit).len() as int;
        assert(t.take(n) =~= s.take(n));
        if n < t.len() {
            assert(t.take(n + 1) =~= s.take(n + 1));
        }
    }
}

/// A text of more than 60 bytes is shown by a front of at most 57 and by how long it is.
pub proof fn law_long_texts_are_cut(s: Seq<char>, floats: Seq<Seq<char>>) -> (k: int)
    ensures
        encode_utf8(s).len() <= 60 ==> report::summary(ValueView::Str(s), floats) == text::quoted(s),
        encode_utf8(s).len() > 60 ==> {
            &&& 0 <= k < s.len()
            &&& encode_utf8(s.take(k)).len() <= 57 < encode_utf8(s.take(k + 1)).len()
            &&& report::summary(ValueView::Str(s), floats) == text::quoted(s.take(k)) + "... ("@
                + text::decimal(encode_utf8(s).len()) + " bytes)"@
        },
{
    law_texts_are_cut_to_fit(s, 57);
    let c = report::front_within(s, 57);
    if encode_utf8(s).len() > 60 && c.len() == s.len() {
        assert(s.take(s.len() as int) =~= s);
    }
    c.len() as int
}

/// A list of integers.
pub open spec fn integers(xs: Seq<i32>) -> ArrayView {
    ArrayView { elem: MetaType::I32, items: Seq::new(xs.len(), |i: int| ValueView::I32(xs[i])) }
}

/// A list of texts.
pub open spec fn strings(xs: Seq<Seq<char>>) -> ArrayView {
    ArrayView { elem: MetaType::String, items: Seq::new(xs.len(), |i: int| ValueView::Str(xs[i])) }
}

/// Of a long list the first four elements are shown, and how many there are.
pub proof fn law_long_lists_are_cut(
    xs: Seq<i32>,
    ts: Seq<Seq<char>>,
    floats: Seq<Seq<char>>,
)
    requires
        xs.len() > 4,
        ts.len() > 4,
    ensures
        report::summary(ValueView::Array(integers(xs)), floats) == "["@ + "i32"@ + "; "@
            + text::decimal(xs.len()) + "] "@ + (report::signed(xs[0] as int) + ", "@
            + report::signed(xs[1] as int) + ", "@ + report::signed(xs[2] as int) + ", "@
            + report::signed(xs[3] as int)) + ", ..."@,
        report::summary(ValueView::Array(strings(ts)), floats) == "["@ + "string"@ + "; "@
            + text::decimal(ts.len()) + "] "@ + (text::quoted(ts[0]) + ", "@ + text::quoted(ts[1])
            + ", "@ + text::quoted(ts[2]) + ", "@ + text::quoted(ts[3])) + ", ..."@,
{
    reveal_with_fuel(report::items_text, 5);
}

/// A short list is shown whole.
pub proof fn law_short_lists_are_shown(xs: Seq<i32>, ts: Seq<Seq<char>>, floats: Seq<Seq<char>>)
    requires
        xs.len() == 3,
        ts.len() == 2,
    ensures
        report::summary(ValueView::Array(integers(xs)), floats) == "["@ + "i32"@ + "; "@
            + text::decimal(3) + "] "@ + (report::signed(xs[0] as int) + ", "@ + report::signed(
            xs[1] as int,
        ) + ", "@ + report::signed(xs[2] as int)),
        report::summary(ValueView::Array(strings(ts)), floats) == "["@ + "string"@ + "; "@
            + text::decimal(2) + "] "@ + (text::quoted(ts[0]) + ", "@ + text::quoted(ts[1])),
{
    reveal_with_fuel(report::items_text, 5);
}

/// Numbers and truth values are shown as they are written down.
pub proof fn law_numbers_are_shown_as_they_are(n: u64, i: i64, b: bool, floats: Seq<Seq<char>>)
    ensures
        report::summary(ValueView::U64(n), floats) == text::decimal(n as nat),
        i >= 0 ==> report::summary(ValueView::I64(i), floats) == text::decimal(i as nat),
        i < 0 ==> report::summary(ValueView::I64(i), floats) == "-"@ + text::decimal((-i) as nat),
        report::summary(ValueView::Bool(b), floats) == if b {
            "true"@
        } else {
            "false"@
        },
{
    if i < 0 {
        law_signs_stand_in_front((-i) as nat);
    }
}

/// The sums of a type go over all tensors, each counted once, and leave out other types.
pub proof fn law_tensors_are_summed_up(
    a: Seq<TensorInfoView>,
    b: Seq<TensorInfoView>,
    t: TensorInfoView,
    ty: GgmlType,
)
    ensures
        tables::count_of(a + b, ty) == tables::count_of(a, ty) + tables::count_of(b, ty),
        tables::bytes_of(a + b, ty) == tables::bytes_of(a, ty) + tables::bytes_of(b, ty),
        tables::elements_of(a + b, ty) == tables::elements_of(a, ty) + tables::elements_of(b, ty),
        t.ggml_type == ty ==> {
            &&& tables::count_of(seq![t], ty) == 1
            &&& tables::bytes_of(seq![t], ty) == t.byte_size
            &&& tables::elements_of(seq![t], ty) == t.elements()
        },
        t.ggml_type != ty ==> {
            &&& tables::count_of(seq![t], ty) == 0
            &&& tables::bytes_of(seq![t], ty) == 0
            &&& tables::elements_of(seq![t], ty) == 0
        },
    decreases b.len(),
{
    reveal_with_fuel(tables::count_of, 2);
    reveal_with_fuel(tables::bytes_of, 2);
    reveal_with_fuel(tables::elements_of, 2);
    assert(seq![t].drop_last() =~= Seq::empty());
    if b.len() == 0 {
        assert(a + b =~= a);
    } else {
        law_tensors_are_summed_up(a, b.drop_last(), t, ty);
        assert((a + b).drop_last() =~= a + b.drop_last());
    }
}

/// The table of types has one row for each type that occurs, with its sums, and rows with more
/// bytes stand above those with fewer.
pub proof fn law_types_are_listed_by_size(
    tensors: Seq<TensorInfoView>,
    kinds: Seq<TensorKind>,
    t: int,
    i: int,
    j: int,
) -> (k: int)
    requires
        tables::covers(tensors, kinds),
        tables::ranked(tensors, kinds),
        0 <= t < tensors.len(),
        0 <= i < j < kinds.len(),
    ensures
        0 <= k < kinds.len(),
        kinds[k].ty == tensors[t].ggml_type,
        kinds[k].count == tables::count_of(tensors, tensors[t].ggml_type),
        kinds[k].bytes == tables::bytes_of(tensors, tensors[t].ggml_type),
        kinds[k].elements == tables::elements_of(tensors, tensors[t].ggml_type),
        kinds[i].ty != kinds[j].ty,
        kinds[i].bytes >= kinds[j].bytes,
        kinds[i].count > 0,
{
    let ty = tensors[t].ggml_type;
    let k = choose|k: int|
        0 <= k < kinds.len() && (#[trigger] kinds[k]).ty == (#[trigger] tensors[t]).ggml_type;
    assert(kinds[k].sums_up(tensors));
    assert(kinds[i].sums_up(tensors));
    assert(kinds[i].bytes > kinds[j].bytes || kinds[i].bytes == kinds[j].bytes);
    k
}

/// The lengths whose cache is shown are 512, 2048, 4096 and 8192 as far as the model goes, from
/// short to long, and then the model's own.
pub proof fn law_cache_lengths_stay_within_the_context(context: usize, n: usize)
    ensures
        ({
            let points = tables::cache_points(context);
            let usual = points.drop_last();
            &&& points.last() == context
            &&& usual.contains(n) <==> n <= context && (n == 512 || n == 2048 || n == 4096 || n
                == 8192)
            &&& forall|i: int, j: int| 0 <= i < j < usual.len() ==> usual[i] < usual[j]
        }),
{
    let usual = tables::cache_points(context).drop_last();
    if context >= 512 {
        assert(usual[0] == 512);
    }
    if context >= 2048 {
        assert(usual[1] == 2048);
    }
    if context >= 4096 {
        assert(usual[2] == 4096);
    }
    if context >= 8192 {
        assert(usual[3] == 8192);
    }
}

/// Each row of the table of a model's shape shows what its name says.
pub proof fn law_rows_show_what_they_name(
    c: ModelConfig,
    group: nat,
    eps: Seq<char>,
    base: Seq<char>,
)
    requires
        c.head_count_kv > 0,
        group * c.head_count_kv == c.head_count,
    ensures
        ({
            let r = tables::rows_of(c, eps, base);
            &&& r.len() == 16
            &&& r[0] == ("architecture"@, c.architecture@)
            &&& r[1] == ("name"@, tables::or_dash(c.name))
            &&& r[2] == ("block_count"@, text::decimal(c.block_count as nat))
            &&& r[3] == ("embedding_length"@, text::decimal(c.embedding_length as nat))
            &&& r[4] == ("feed_forward_length"@, text::decimal(c.feed_forward_length as nat))
            &&& r[5] == ("head_count"@, text::decimal(c.head_count as nat))
            &&& r[6] == ("head_count_kv"@, text::decimal(c.head_count_kv as nat))
            &&& r[8] == ("context_length"@, text::decimal(c.context_length as nat))
            &&& r[9] == ("rms_norm_eps"@, eps)
            &&& r[10] == ("rope_freq_base"@, base)
            &&& r[12] == ("vocab_size"@, text::decimal(c.vocab_size as nat))
            &&& r[13] == ("tokenizer"@, tables::or_dash(c.tokenizer_model))
            &&& c.rope_dimension_count matches Some(n) ==> r[11] == (
                "rope_dim_count"@,
                text::decimal(n as nat),
            )
            &&& r[7] == (
                "head_dim"@,
                text::decimal(c.head_dim as nat) + "  (kv group size "@ + text::decimal(group)
                    + ")"@,
            )
            &&& r[14].0 == "special tokens"@
            &&& r[14].1 == "bos "@ + tables::maybe(c.bos_token_id) + "  eos "@ + tables::maybe(
                c.eos_token_id,
            ) + "  pad "@ + tables::maybe(c.pad_token_id) + "  unk "@ + tables::maybe(
                c.unk_token_id,
            )
            &&& r[15] == (
                "q_dim / kv_dim"@,
                text::decimal((c.head_dim * c.head_count) as nat) + " / "@ + text::decimal(
                    (c.head_dim * c.head_count_kv) as nat,
                ),
            )
        }),
{
    let n = c.head_count as int;
    let kv = c.head_count_kv as int;
    let d = c.head_dim as int;
    assert(d * n == n * d) by (nonlinear_arith);
    assert(d * kv == kv * d) by (nonlinear_arith);
    assert(n == kv * group + 0) by (nonlinear_arith)
        requires
            group * kv == n,
    ;
    vstd::arithmetic::div_mod::lemma_fundamental_div_mod_converse(n, kv, group as int, 0);
}

/// The floating-point numbers that a summary shows: the value itself, or the first four of a
/// list of them.
pub proof fn law_floats_are_shown(x: u32, y: u64, xs: Seq<u32>, i: int, other: ArrayView)
    requires
        0 <= i < xs.len(),
        !(other.elem is F32),
    ensures
        report::floats_of(ValueView::F32(x)) == seq![Float::Single(F32Bits(x))],
        report::floats_of(ValueView::F64(y)) == seq![Float::Double(F64Bits(y))],
        ({
            let list = ArrayView {
                elem: MetaType::F32,
                items: Seq::new(xs.len(), |k: int| ValueView::F32(xs[k])),
            };
            let shown = report::floats_of(ValueView::Array(list));
            &&& shown.len() == if xs.len() <= 4 {
                xs.len()
            } else {
                4
            }
            &&& i < 4 ==> shown[i] == Float::Single(F32Bits(xs[i]))
        }),
        report::floats_of(ValueView::Array(other)).len() == 0,
{
}

} // verus!
