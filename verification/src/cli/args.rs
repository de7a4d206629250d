//! What the command line asks for.
use crate::ops::rope::RopeKind;
use crate::text;
use vstd::prelude::*;

verus! {

/// The texts of arguments.
pub open spec fn texts(args: Seq<String>) -> Seq<Seq<char>> {
    Seq::new(args.len(), |i: int| args[i]@)
}

/// An argument that names an option.
pub open spec fn is_option(a: Seq<char>) -> bool {
    a.len() >= 2 && a[0] == '-' && a[1] == '-'
}

/// The arguments that name no option, in order.  The value of an option is among them.
pub open spec fn positionals(args: Seq<Seq<char>>) -> Seq<Seq<char>>
    decreases args.len(),
{
    if args.len() == 0 {
        Seq::empty()
    } else if is_option(args.last()) {
        positionals(args.drop_last())
    } else {
        positionals(args.drop_last()).push(args.last())
    }
}

/// The argument behind the first that is `flag`.
pub open spec fn value_of(args: Seq<Seq<char>>, flag: Seq<char>) -> Option<Seq<char>>
    decreases args.len(),
{
    if args.len() == 0 {
        None
    } else if args[0] == flag {
        if args.len() >= 2 {
            Some(args[1])
        } else {
            None
        }
    } else {
        value_of(args.drop_first(), flag)
    }
}

/// The number that digits stand for.
pub open spec fn digits_value(s: Seq<char>) -> nat
    decreases s.len(),
{
    if s.len() == 0 {
        0
    } else {
        digits_value(s.drop_last()) * 10 + (s.last() as int - '0' as int) as nat
    }
}

pub open spec fn all_digits(s: Seq<char>) -> bool {
    s.len() > 0 && forall|i: int| 0 <= i < s.len() ==> '0' <= #[trigger] s[i] <= '9'
}

/// The number that a text stands for: digits, with a plus sign before them or without.
pub open spec fn number(s: Seq<char>) -> Option<nat> {
    let digits = if s.len() > 0 && s[0] == '+' {
        s.drop_first()
    } else {
        s
    };
    if all_digits(digits) {
        Some(digits_value(digits))
    } else {
        None
    }
}

/// The number that a text stands for, where it is at most `max`.
pub open spec fn number_up_to(s: Seq<char>, max: nat) -> Option<nat> {
    match number(s) {
        Some(n) => if n <= max {
            Some(n)
        } else {
            None
        },
        None => None,
    }
}

proof fn lemma_prefix_value(s: Seq<char>, i: int)
    requires
        0 <= i <= s.len(),
    ensures
        digits_value(s.take(i)) <= digits_value(s),
        i < s.len() ==> digits_value(s.take(i + 1)) == digits_value(s.take(i)) * 10 + (s[i] as int
            - '0' as int) as nat,
    decreases s.len() - i,
{
    if i < s.len() {
        assert(s.take(i + 1).drop_last() =~= s.take(i));
        lemma_prefix_value(s, i + 1);
    } else {
        assert(s.take(i) =~= s);
    }
}

/// The number that a text stands for, where it is at most `max`.
pub fn parse_number(s: &str, max: u64) -> (r: Option<u64>)
    ensures
        match r {
            Some(n) => number_up_to(s@, max as nat) == Some(n as nat),
            None => number_up_to(s@, max as nat) is None,
        },
{
    let cs = text::chars_of(s);
    let start: usize = if cs.len() > 0 && cs[0] == '+' {
        1
    } else {
        0
    };
    let ghost digits = s@.skip(start as int);
    assert(start == 0 ==> digits =~= s@);
    assert(start == 1 ==> digits =~= s@.drop_first());
    if start == cs.len() {
        return None;
    }
    let mut n: u64 = 0;
    let mut i: usize = start;
    assert(digits.take(0) =~= Seq::empty());
    while i < cs.len()
        invariant
            start <= i <= cs@.len(),
            cs@ == s@,
            digits == s@.skip(start as int),
            digits == (if s@.len() > 0 && s@[0] == '+' {
                s@.drop_first()
            } else {
                s@
            }),
            n == digits_value(digits.take(i - start)),
            n <= max,
            forall|j: int| 0 <= j < i - start ==> '0' <= #[trigger] digits[j] <= '9',
        decreases cs.len() - i,
    {
        let c: char = cs[i];
        let ghost k = i - start;
        assert(digits[k] == c);
        if c < '0' || c > '9' {
            assert(!all_digits(digits));
            return None;
        }
        let d: u64 = c as u64 - '0' as u64;
        proof {
            lemma_prefix_value(digits, k);
            lemma_prefix_value(digits, k + 1);
        }
        let next: u128 = n as u128 * 10 + d as u128;
        assert(next == digits_value(digits.take(k + 1)));
        if next > max as u128 {
            return None;
        }
        n = next as u64;
        i += 1;
    }
    assert(digits.take(digits.len() as int) =~= digits);
    Some(n)
}

fn starts_option(a: &str) -> (r: bool)
    ensures
        r == is_option(a@),
{
    let cs = text::chars_of(a);
    cs.len() >= 2 && cs[0] == '-' && cs[1] == '-'
}

/// Argument `n` among those that name no option.
pub fn positional<'a>(args: &'a [String], n: usize) -> (r: Option<&'a str>)
    ensures
        match r {
            Some(s) => n < positionals(texts(args@)).len() && s@ == positionals(texts(args@))[n as int],
            None => n >= positionals(texts(args@)).len(),
        },
{
    let ghost all = texts(args@);
    let mut seen: usize = 0;
    let mut i: usize = 0;
    assert(all.take(0) =~= Seq::empty());
    while i < args.len()
        invariant
            i <= args@.len(),
            all == texts(args@),
            seen == positionals(all.take(i as int)).len(),
            seen <= i,
            seen <= n,
        decreases args.len() - i,
    {
        proof {
            assert(all.take(i + 1).drop_last() =~= all.take(i as int));
        }
        if !starts_option(args[i].as_str()) {
            if seen == n {
                proof {
                    lemma_positionals_grow(all, i + 1);
                }
                return Some(args[i].as_str());
            }
            seen += 1;
        }
        i += 1;
    }
    assert(all.take(all.len() as int) =~= all);
    None
}

proof fn lemma_positionals_grow(args: Seq<Seq<char>>, i: int)
    requires
        0 <= i <= args.len(),
    ensures
        positionals(args.take(i)).len() <= positionals(args).len(),
        forall|k: int|
            0 <= k < positionals(args.take(i)).len() ==> #[trigger] positionals(args)[k]
                == positionals(args.take(i))[k],
    decreases args.len() - i,
{
    if i < args.len() {
        assert(args.take(i + 1).drop_last() =~= args.take(i));
        lemma_positionals_grow(args, i + 1);
    } else {
        assert(args.take(i) =~= args);
    }
}

/// Whether an argument is there.
pub fn has_flag(args: &[String], flag: &str) -> (r: bool)
    ensures
        r == texts(args@).contains(flag@),
{
    let mut i: usize = 0;
    while i < args.len()
        invariant
            i <= args@.len(),
            forall|j: int| 0 <= j < i ==> #[trigger] args@[j]@ != flag@,
        decreases args.len() - i,
    {
        if text::str_eq(args[i].as_str(), flag) {
            assert(texts(args@)[i as int] == flag@);
            return true;
        }
        i += 1;
    }
    proof {
        if texts(args@).contains(flag@) {
            let j = choose|j: int| 0 <= j < args@.len() && texts(args@)[j] == flag@;
            assert(args@[j]@ == flag@);
        }
    }
    false
}

/// The argument behind the first that is `flag`, and whether there is such a one.
pub fn value_after<'a>(args: &'a [String], flag: &str) -> (r: Option<&'a str>)
    ensures
        match r {
            Some(s) => value_of(texts(args@), flag@) == Some(s@),
            None => value_of(texts(args@), flag@) is None,
        },
{
    let ghost all = texts(args@);
    let mut i: usize = 0;
    assert(all.skip(0) =~= all);
    while i < args.len()
        invariant
            i <= args@.len(),
            all == texts(args@),
            value_of(all, flag@) == value_of(all.skip(i as int), flag@),
        decreases args.len() - i,
    {
        let ghost rest = all.skip(i as int);
        assert(rest[0] == args@[i as int]@);
        if text::str_eq(args[i].as_str(), flag) {
            if i < args.len() - 1 {
                assert(rest[1] == args@[i + 1]@);
                return Some(args[i + 1].as_str());
            }
            return None;
        }
        assert(rest.drop_first() =~= all.skip(i + 1));
        i += 1;
    }
    None
}

/// The value of an option as a number, or a default where it is missing or none.
pub open spec fn number_or(args: Seq<Seq<char>>, flag: Seq<char>, default: u64, max: u64) -> u64 {
    match value_of(args, flag) {
        Some(s) => match number_up_to(s, max as nat) {
            Some(n) => n as u64,
            None => default,
        },
        None => default,
    }
}

pub fn flag_number(args: &[String], flag: &str, default: u64, max: u64) -> (r: u64)
    ensures
        r == number_or(texts(args@), flag@, default, max),
{
    match value_after(args, flag) {
        Some(s) => match parse_number(s, max) {
            Some(n) => n,
            None => default,
        },
        None => default,
    }
}

/// The value of an option that must be a number where the option is given.
pub open spec fn strict_number(args: Seq<Seq<char>>, flag: Seq<char>, default: usize) -> Option<
    usize,
> {
    if args.contains(flag) {
        match value_of(args, flag) {
            Some(s) => match number_up_to(s, usize::MAX as nat) {
                Some(n) => Some(n as usize),
                None => None,
            },
            None => None,
        }
    } else {
        Some(default)
    }
}

fn flag_strict(args: &[String], flag: &str, default: usize) -> (r: Option<usize>)
    ensures
        r == strict_number(texts(args@), flag@, default),
{
    if !has_flag(args, flag) {
        return Some(default);
    }
    match value_after(args, flag) {
        Some(s) => match parse_number(s, usize::MAX as u64) {
            Some(n) => Some(n as usize),
            None => None,
        },
        None => None,
    }
}

/// What the first argument asks for.
#[derive(Debug, Clone, Copy, PartialEq, Eq, Structural)]
pub enum Command {
    GgufDump,
    Tokenize,
    Generate,
    BenchKv,
    Dequant,
    Help,
    Unknown,
}

/// The command of a name.
pub open spec fn command_named(name: Seq<char>) -> Command {
    if name == "gguf-dump"@ {
        Command::GgufDump
    } else if name == "tokenize"@ {
        Command::Tokenize
    } else if name == "generate"@ {
        Command::Generate
    } else if name == "bench-kv"@ {
        Command::BenchKv
    } else if name == "dequant"@ {
        Command::Dequant
    } else if name == "help"@ || name == "-h"@ || name == "--help"@ {
        Command::Help
    } else {
        Command::Unknown
    }
}

/// The command that the arguments ask for; without any, help.
pub fn command(args: &[String]) -> (r: Command)
    ensures
        r == if args@.len() == 0 {
            Command::Help
        } else {
            command_named(args@[0]@)
        },
{
    if args.len() == 0 {
        return Command::Help;
    }
    let name = args[0].as_str();
    if text::str_eq(name, "gguf-dump") {
        Command::GgufDump
    } else if text::str_eq(name, "tokenize") {
        Command::Tokenize
    } else if text::str_eq(name, "generate") {
        Command::Generate
    } else if text::str_eq(name, "bench-kv") {
        Command::BenchKv
    } else if text::str_eq(name, "dequant") {
        Command::Dequant
    } else if text::str_eq(name, "help") || text::str_eq(name, "-h") || text::str_eq(
        name,
        "--help",
    ) {
        Command::Help
    } else {
        Command::Unknown
    }
}

/// Options of `gguf-dump`.
#[derive(Debug, Clone, PartialEq, Eq)]
pub struct DumpOptions {
    pub path: String,
    pub show_tensors: bool,
    pub show_metadata: bool,
}

pub fn dump_options(args: &[String]) -> (r: Result<DumpOptions, &'static str>)
    ensures
        ({
            let a = texts(args@);
            let p = positionals(a);
            match r {
                Ok(o) => {
                    &&& p.len() >= 1
                    &&& o.path@ == p[0]
                    &&& o.show_tensors == (a.contains("--all"@) || a.contains("--tensors"@))
                    &&& o.show_metadata == (a.contains("--all"@) || a.contains("--metadata"@))
                },
                Err(e) => p.len() == 0 && e@ == "gguf-dump needs a path to a .gguf file"@,
            }
        }),
{
    match positional(args, 0) {
        None => Err("gguf-dump needs a path to a .gguf file"),
        Some(path) => {
            let all = has_flag(args, "--all");
            Ok(
                DumpOptions {
                    path: path.to_owned(),
                    show_tensors: all || has_flag(args, "--tensors"),
                    show_metadata: all || has_flag(args, "--metadata"),
                },
            )
        },
    }
}

/// Options of `tokenize`.
#[derive(Debug, Clone, PartialEq, Eq)]
pub struct TokenizeOptions {
    pub path: String,
    pub text: String,
    /// Markers in the text are tokens.
    pub parse_special: bool,
    /// The text goes through the chat template.
    pub chat: bool,
}

pub fn tokenize_options(args: &[String]) -> (r: Result<TokenizeOptions, &'static str>)
    ensures
        ({
            let a = texts(args@);
            let p = positionals(a);
            match r {
                Ok(o) => {
                    &&& p.len() >= 2
                    &&& o.path@ == p[0]
                    &&& o.text@ == p[1]
                    &&& o.parse_special == (a.contains("--special"@) || a.contains("--chat"@))
                    &&& o.chat == a.contains("--chat"@)
                },
                Err(e) => {
                    ||| p.len() == 0 && e@ == "tokenize needs a .gguf path"@
                    ||| p.len() == 1 && e@ == "tokenize needs some text"@
                },
            }
        }),
{
    match positional(args, 0) {
        None => Err("tokenize needs a .gguf path"),
        Some(path) => match positional(args, 1) {
            None => Err("tokenize needs some text"),
            Some(t) => {
                let chat = has_flag(args, "--chat");
                Ok(
                    TokenizeOptions {
                        path: path.to_owned(),
                        text: t.to_owned(),
                        parse_special: has_flag(args, "--special") || chat,
                        chat,
                    },
                )
            },
        },
    }
}

/// Options of `generate`.  The numbers with a fraction are left as texts.
#[derive(Debug, Clone, PartialEq, Eq)]
pub struct GenerateOptions {
    pub path: String,
    pub prompt: String,
    pub n_gen: usize,
    pub chat: bool,
    pub fused: bool,
    pub batched_prefill: bool,
    pub rope_kind: RopeKind,
    pub show_ids: bool,
    pub top_k: usize,
    pub repetition_window: usize,
    pub seed: u64,
    pub temperature: Option<String>,
    pub top_p: Option<String>,
    pub repetition_penalty: Option<String>,
}

impl GenerateOptions {
    /// The options are those that the arguments state.
    pub open spec fn stated(&self, a: Seq<Seq<char>>) -> bool {
        let p = positionals(a);
        &&& p.len() >= 2
        &&& self.path@ == p[0]
        &&& self.prompt@ == p[1]
        &&& Some(self.n_gen) == strict_number(a, "--n"@, 32)
        &&& self.chat == a.contains("--chat"@)
        &&& self.fused == !a.contains("--unfused"@)
        &&& self.batched_prefill == a.contains("--batched-prefill"@)
        &&& self.rope_kind == if a.contains("--rope-adjacent"@) {
            RopeKind::Adjacent
        } else {
            RopeKind::SplitHalf
        }
        &&& self.show_ids == a.contains("--ids"@)
        &&& self.top_k == number_or(a, "--top-k"@, 0, u64::MAX) as usize
        &&& self.repetition_window == number_or(a, "--repeat-window"@, 64, u64::MAX) as usize
        &&& self.seed == number_or(a, "--seed"@, 0, u64::MAX)
        &&& text::option_view(self.temperature) == value_of(a, "--temp"@)
        &&& text::option_view(self.top_p) == value_of(a, "--top-p"@)
        &&& text::option_view(self.repetition_penalty) == value_of(a, "--repeat-penalty"@)
    }
}

pub fn generate_options(args: &[String]) -> (r: Result<GenerateOptions, &'static str>)
    ensures
        ({
            let a = texts(args@);
            let p = positionals(a);
            match r {
                Ok(o) => o.stated(a),
                Err(e) => {
                    ||| p.len() == 0 && e@ == "generate needs a .gguf path"@
                    ||| p.len() == 1 && e@ == "generate needs a prompt"@
                    ||| p.len() >= 2 && strict_number(a, "--n"@, 32) is None && e@
                        == "--n needs a number"@
                },
            }
        }),
{
    let path = match positional(args, 0) {
        Some(s) => s,
        None => return Err("generate needs a .gguf path"),
    };
    let prompt = match positional(args, 1) {
        Some(s) => s,
        None => return Err("generate needs a prompt"),
    };
    let n_gen: usize = match flag_strict(args, "--n", 32) {
        Some(n) => n,
        None => return Err("--n needs a number"),
    };
    let rope_kind = if has_flag(args, "--rope-adjacent") {
        RopeKind::Adjacent
    } else {
        RopeKind::SplitHalf
    };
    Ok(
        GenerateOptions {
            path: path.to_owned(),
            prompt: prompt.to_owned(),
            n_gen,
            chat: has_flag(args, "--chat"),
            fused: !has_flag(args, "--unfused"),
            batched_prefill: has_flag(args, "--batched-prefill"),
            rope_kind,
            show_ids: has_flag(args, "--ids"),
            top_k: #[verifier::truncate] (flag_number(args, "--top-k", 0, u64::MAX) as usize),
            repetition_window: #[verifier::truncate] (flag_number(
                args,
                "--repeat-window",
                64,
                u64::MAX,
            ) as usize),
            seed: flag_number(args, "--seed", 0, u64::MAX),
            temperature: text::owned(value_after(args, "--temp")),
            top_p: text::owned(value_after(args, "--top-p")),
            repetition_penalty: text::owned(value_after(args, "--repeat-penalty")),
        },
    )
}

/// Options of `bench-kv`.
#[derive(Debug, Clone, PartialEq, Eq)]
pub struct BenchOptions {
    pub path: String,
    pub n_steps: usize,
    pub micro_only: bool,
}

pub fn bench_options(args: &[String]) -> (r: Result<BenchOptions, &'static str>)
    ensures
        ({
            let a = texts(args@);
            let p = positionals(a);
            match r {
                Ok(o) => {
                    &&& p.len() >= 1
                    &&& o.path@ == p[0]
                    &&& o.n_steps == number_or(a, "--n"@, 24, usize::MAX as u64)
                    &&& o.micro_only == a.contains("--micro"@)
                },
                Err(e) => p.len() == 0 && e@ == "bench-kv needs a .gguf path"@,
            }
        }),
{
    match positional(args, 0) {
        None => Err("bench-kv needs a .gguf path"),
        Some(path) => {
            let n: u64 = flag_number(args, "--n", 24, usize::MAX as u64);
            Ok(
                BenchOptions {
                    path: path.to_owned(),
                    n_steps: n as usize,
                    micro_only: has_flag(args, "--micro"),
                },
            )
        },
    }
}

/// Options of `dequant`.
#[derive(Debug, Clone, PartialEq, Eq)]
pub struct DequantOptions {
    pub path: String,
    pub name: String,
    pub n_blocks: usize,
}

pub fn dequant_options(args: &[String]) -> (r: Result<DequantOptions, &'static str>)
    ensures
        ({
            let a = texts(args@);
            let p = positionals(a);
            match r {
                Ok(o) => {
                    &&& p.len() >= 2
                    &&& o.path@ == p[0]
                    &&& o.name@ == p[1]
                    &&& Some(o.n_blocks) == strict_number(a, "--blocks"@, 4)
                },
                Err(e) => {
                    ||| p.len() == 0 && e@ == "dequant needs a .gguf path"@
                    ||| p.len() == 1 && e@ == "dequant needs a tensor name"@
                    ||| p.len() >= 2 && strict_number(a, "--blocks"@, 4) is None && e@
                        == "--blocks needs a number"@
                },
            }
        }),
{
    let path = match positional(args, 0) {
        Some(s) => s,
        None => return Err("dequant needs a .gguf path"),
    };
    let name = match positional(args, 1) {
        Some(s) => s,
        None => return Err("dequant needs a tensor name"),
    };
    match flag_strict(args, "--blocks", 4) {
        Some(n_blocks) => Ok(
            DequantOptions { path: path.to_owned(), name: name.to_owned(), n_blocks },
        ),
        None => Err("--blocks needs a number"),
    }
}

} // verus!
