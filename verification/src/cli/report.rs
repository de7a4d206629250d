//! What the commands print of sizes, values and tensors.
use crate::gguf::value::{Array, ArrayView, MetaType, Value, ValueView};
use crate::bits::{F32Bits, F64Bits};
use crate::text;
use vstd::prelude::*;
use vstd::utf8::*;

verus! {

/// A quotient rounded to the nearest whole number; one half goes to the even one.
pub open spec fn half_even(a: nat, b: nat) -> nat {
    let q = a / b;
    let r = a % b;
    if 2 * r < b || (2 * r == b && q % 2 == 0) {
        q
    } else {
        q + 1
    }
}

fn round_half_even(a: u128, b: u128) -> (r: u128)
    requires
        0 < b < 0x1_0000_0000_0000_0000,
        a < u128::MAX,
    ensures
        r == half_even(a as nat, b as nat),
{
    let q: u128 = a / b;
    let rem: u128 = a % b;
    assert(q <= a) by (nonlinear_arith)
        requires
            q == a / b,
            b > 0,
    ;
    if 2 * rem < b || (2 * rem == b && q % 2 == 0) {
        q
    } else {
        q + 1
    }
}

/// The distance between neighbouring doubles around `n`, where it is more than `step`.
pub open spec fn double_step(n: nat, step: nat) -> nat
    decreases n - step,
{
    if n < 0x20_0000_0000_0000 * step || step == 0 {
        step
    } else {
        double_step(n, 2 * step)
    }
}

/// The double nearest to a whole number.
pub open spec fn as_double(n: nat) -> nat {
    half_even(n, double_step(n, 1)) * double_step(n, 1)
}

fn to_double(n: u64) -> (r: u128)
    ensures
        r == as_double(n as nat),
        r <= 0x2_0000_0000_0000_0000,
{
    let mut step: u128 = 1;
    while n as u128 >= 0x20_0000_0000_0000 * step
        invariant
            0 < step < 0x1000,
            double_step(n as nat, 1) == double_step(n as nat, step as nat),
            step == 1 || n >= 0x10_0000_0000_0000 * step,
        decreases 0x1000 - step,
    {
        step = 2 * step;
    }
    let q: u128 = round_half_even(n as u128, step);
    proof {
        let nn = n as nat;
        let s = step as nat;
        assert(double_step(nn, s) == s);
        assert(nn / s < 0x20_0000_0000_0000) by (nonlinear_arith)
            requires
                nn < 0x20_0000_0000_0000 * s,
                s > 0,
        ;
        assert(q <= 0x20_0000_0000_0000);
        assert(q * s <= 0x20_0000_0000_0000 * s) by (nonlinear_arith)
            requires
                q <= 0x20_0000_0000_0000,
        ;
    }
    q * step
}

/// How many times a size can be divided by 1024, at most four times, and stay one or more.
pub open spec fn unit_of(x: nat) -> nat {
    if x >= 0x100_0000_0000 {
        4
    } else if x >= 0x4000_0000 {
        3
    } else if x >= 0x10_0000 {
        2
    } else if x >= 0x400 {
        1
    } else {
        0
    }
}

pub open spec fn unit_size(u: nat) -> nat {
    if u == 4 {
        0x100_0000_0000
    } else if u == 3 {
        0x4000_0000
    } else if u == 2 {
        0x10_0000
    } else if u == 1 {
        0x400
    } else {
        1
    }
}

pub open spec fn unit_name(u: nat) -> Seq<char> {
    if u == 4 {
        " TiB"@
    } else if u == 3 {
        " GiB"@
    } else if u == 2 {
        " MiB"@
    } else if u == 1 {
        " KiB"@
    } else {
        " B"@
    }
}

/// A size in bytes as people read it: with one decimal, in the largest unit that it
/// fills.
pub open spec fn human(n: nat) -> Seq<char> {
    let x = as_double(n);
    let u = unit_of(x);
    if u == 0 {
        text::decimal(n) + unit_name(u)
    } else {
        let tenths = half_even(10 * x, unit_size(u));
        text::decimal(tenths / 10) + seq!['.', text::digit(tenths % 10)] + unit_name(u)
    }
}

/// A size in bytes as people read it.
pub fn human_bytes(n: u64) -> (r: String)
    ensures
        r@ == human(n as nat),
{
    let x: u128 = to_double(n);
    let (size, name): (u128, &str) = if x >= 0x100_0000_0000 {
        (0x100_0000_0000, " TiB")
    } else if x >= 0x4000_0000 {
        (0x4000_0000, " GiB")
    } else if x >= 0x10_0000 {
        (0x10_0000, " MiB")
    } else if x >= 0x400 {
        (0x400, " KiB")
    } else {
        (1, " B")
    };
    let mut s = String::new();
    if x < 0x400 {
        text::push_decimal(&mut s, n as u128);
    } else {
        let tenths: u128 = round_half_even(10 * x, size);
        text::push_decimal(&mut s, tenths / 10);
        s.push('.');
        text::push_decimal(&mut s, tenths % 10);
        assert(text::decimal((tenths % 10) as nat) =~= seq![text::digit((tenths % 10) as nat)]);
    }
    s.push_str(name);
    assert(s@ =~= human(n as nat));
    s
}

/// A number with its sign in decimal.
pub open spec fn signed(i: int) -> Seq<char> {
    if i < 0 {
        seq!['-'] + text::decimal((-i) as nat)
    } else {
        text::decimal(i as nat)
    }
}

fn push_signed(s: &mut String, i: i64)
    ensures
        final(s)@ == old(s)@ + signed(i as int),
{
    if i < 0 {
        s.push('-');
        let m: i128 = -(i as i128);
        text::push_decimal(s, m as u128);
    } else {
        text::push_decimal(s, i as u128);
    }
    assert(s@ =~= old(s)@ + signed(i as int));
}

/// The longest front of a text that takes at most `limit` bytes.
pub open spec fn front_within(s: Seq<char>, limit: nat) -> Seq<char>
    decreases s.len(),
{
    if s.len() == 0 || encode_utf8(s).len() <= limit {
        s
    } else {
        front_within(s.drop_last(), limit)
    }
}

proof fn lemma_front_within(s: Seq<char>, limit: nat, k: int)
    requires
        0 <= k < s.len(),
        encode_utf8(s.take(k)).len() <= limit,
        encode_utf8(s.take(k + 1)).len() > limit,
    ensures
        front_within(s, limit) == s.take(k),
    decreases s.len(),
{
    text::lemma_utf8_take_bound(s, k + 1);
    if k + 1 == s.len() {
        assert(s.drop_last() =~= s.take(k));
        assert(front_within(s.drop_last(), limit) == s.drop_last());
    } else {
        assert(s.drop_last().take(k) =~= s.take(k));
        assert(s.drop_last().take(k + 1) =~= s.take(k + 1));
        lemma_front_within(s.drop_last(), limit, k);
    }
}

fn cut(s: &str, limit: usize) -> (r: String)
    requires
        limit <= 0xffff,
    ensures
        r@ == front_within(s@, limit as nat),
{
    let cs = text::chars_of(s);
    let mut used: usize = 0;
    let mut i: usize = 0;
    assert(cs@.take(0) =~= Seq::empty());
    while i < cs.len()
        invariant
            i <= cs@.len(),
            cs@ == s@,
            limit <= 0xffff,
            used == encode_utf8(cs@.take(i as int)).len(),
            used <= limit,
        decreases cs.len() - i,
    {
        let w: usize = text::utf8_width(cs[i]);
        proof {
            text::lemma_utf8_take(cs@, i as int);
        }
        if used + w > limit {
            proof {
                lemma_front_within(cs@, limit as nat, i as int);
            }
            assert(cs@.subrange(0, i as int) =~= cs@.take(i as int));
            return text::string_of(cs.as_slice(), 0, i);
        }
        used += w;
        i += 1;
    }
    assert(cs@.take(cs@.len() as int) =~= cs@);
    assert(cs@.subrange(0, cs@.len() as int) =~= cs@);
    text::string_of(cs.as_slice(), 0, cs.len())
}

/// How many elements of an array are shown.
pub open spec fn shown(a: ArrayView) -> nat {
    if a.items.len() < 4 {
        a.items.len()
    } else {
        4
    }
}

/// A floating-point number to be shown.
#[derive(Debug, Clone, Copy, PartialEq, Eq, Structural)]
pub enum Float {
    Single(F32Bits),
    Double(F64Bits),
}

/// The floating-point numbers that the summary of a value shows.
pub open spec fn floats_of(v: ValueView) -> Seq<Float> {
    match v {
        ValueView::F32(x) => seq![Float::Single(F32Bits(x))],
        ValueView::F64(x) => seq![Float::Double(F64Bits(x))],
        ValueView::Array(a) => if a.elem == MetaType::F32 {
            Seq::new(
                shown(a),
                |i: int|
                    Float::Single(
                        F32Bits(
                            match a.items[i] {
                                ValueView::F32(x) => x,
                                _ => 0,
                            },
                        ),
                    ),
            )
        } else {
            Seq::empty()
        },
        _ => Seq::empty(),
    }
}

/// The floating-point numbers that the summary of a value shows.
pub fn floats_shown(v: &Value) -> (r: Vec<Float>)
    ensures
        r@ == floats_of(v@),
{
    let mut out: Vec<Float> = Vec::new();
    match v {
        Value::F32(x) => {
            out.push(Float::Single(*x));
        },
        Value::F64(x) => {
            out.push(Float::Double(*x));
        },
        Value::Array(Array::F32(xs)) => {
            let mut i: usize = 0;
            while i < 4 && i < xs.len()
                invariant
                    i <= xs@.len(),
                    i <= 4,
                    out@.len() == i,
                    forall|k: int| 0 <= k < i ==> #[trigger] out@[k] == Float::Single(xs@[k]),
                decreases xs.len() - i,
            {
                out.push(Float::Single(xs[i]));
                i += 1;
            }
        },
        _ => {},
    }
    assert(out@ =~= floats_of(v@));
    out
}

/// Element `i` of an array as its summary shows it.
pub open spec fn item_text(a: ArrayView, i: int, floats: Seq<Seq<char>>) -> Seq<char> {
    match a.items[i] {
        ValueView::Str(s) => text::quoted(s),
        ValueView::F32(_) => floats[i],
        ValueView::I32(x) => signed(x as int),
        ValueView::U32(x) => signed(x as int),
        _ => Seq::empty(),
    }
}

/// The first `n` elements of an array, parted by commas.
pub open spec fn items_text(a: ArrayView, n: nat, floats: Seq<Seq<char>>) -> Seq<char>
    decreases n,
{
    if n == 0 {
        Seq::empty()
    } else if n == 1 {
        item_text(a, 0, floats)
    } else {
        items_text(a, (n - 1) as nat, floats) + ", "@ + item_text(a, n - 1, floats)
    }
}

/// Whether the elements of an array are shown.
pub open spec fn lists_items(a: ArrayView) -> bool {
    a.elem == MetaType::String || a.elem == MetaType::F32 || a.elem == MetaType::I32 || a.elem
        == MetaType::U32
}

pub open spec fn array_summary(a: ArrayView, floats: Seq<Seq<char>>) -> Seq<char> {
    "["@ + a.elem.name() + "; "@ + text::decimal(a.items.len()) + "] "@ + (if lists_items(a) {
        items_text(a, shown(a), floats)
    } else {
        "..."@
    }) + (if a.items.len() > 4 {
        ", ..."@
    } else {
        Seq::empty()
    })
}

/// A value on one line, where `floats` are the texts of the floating-point numbers that
/// it shows.
pub open spec fn summary(v: ValueView, floats: Seq<Seq<char>>) -> Seq<char> {
    match v {
        ValueView::Str(s) => if encode_utf8(s).len() > 60 {
            text::quoted(front_within(s, 57)) + "... ("@ + text::decimal(encode_utf8(s).len())
                + " bytes)"@
        } else {
            text::quoted(s)
        },
        ValueView::Array(a) => array_summary(a, floats),
        ValueView::F32(_) => floats[0],
        ValueView::F64(_) => floats[0],
        ValueView::Bool(b) => if b {
            "true"@
        } else {
            "false"@
        },
        _ => match v.integer() {
            Some(i) => signed(i),
            None => Seq::empty(),
        },
    }
}

pub open spec fn texts(v: Seq<String>) -> Seq<Seq<char>> {
    Seq::new(v.len(), |i: int| v[i]@)
}

/// Element `i` of an array as its summary shows it.
fn push_item(s: &mut String, a: &Array, i: usize, floats: &[String])
    requires
        i < shown(a@),
        floats@.len() == floats_of(ValueView::Array(a@)).len(),
        lists_items(a@),
    ensures
        final(s)@ == old(s)@ + item_text(a@, i as int, texts(floats@)),
{
    match a {
        Array::Str(v) => {
            let q = text::quote(v[i]);
            s.push_str(q.as_str());
        },
        Array::F32(_) => {
            s.push_str(floats[i].as_str());
        },
        Array::I32(v) => {
            push_signed(s, v[i] as i64);
        },
        Array::U32(v) => {
            push_signed(s, v[i] as i64);
        },
        _ => {},
    }
    assert(s@ =~= old(s)@ + item_text(a@, i as int, texts(floats@)));
}

fn push_array(s: &mut String, a: &Array, floats: &[String])
    requires
        floats@.len() == floats_of(ValueView::Array(a@)).len(),
    ensures
        final(s)@ == old(s)@ + array_summary(a@, texts(floats@)),
{
    let n: usize = a.len();
    s.push_str("[");
    s.push_str(a.elem_type_name());
    s.push_str("; ");
    text::push_decimal(s, n as u128);
    s.push_str("] ");
    let ghost head = old(s)@ + "["@ + a@.elem.name() + "; "@ + text::decimal(a@.items.len())
        + "] "@;
    assert(s@ =~= head);
    let listed = match a {
        Array::Str(_) | Array::F32(_) | Array::I32(_) | Array::U32(_) => true,
        _ => false,
    };
    let ghost mut middle: Seq<char> = Seq::empty();
    if listed {
        let m: usize = if n < 4 {
            n
        } else {
            4
        };
        let mut i: usize = 0;
        assert(s@ =~= head + items_text(a@, 0, texts(floats@)));
        while i < m
            invariant
                i <= m,
                m == shown(a@),
                lists_items(a@),
                floats@.len() == floats_of(ValueView::Array(a@)).len(),
                s@ == head + items_text(a@, i as nat, texts(floats@)),
            decreases m - i,
        {
            if i > 0 {
                s.push_str(", ");
            }
            push_item(s, a, i, floats);
            assert(s@ =~= head + items_text(a@, (i + 1) as nat, texts(floats@)));
            i += 1;
        }
        proof {
            middle = items_text(a@, shown(a@), texts(floats@));
        }
    } else {
        s.push_str("...");
        proof {
            middle = "..."@;
        }
    }
    assert(s@ =~= head + middle);
    if n > 4 {
        s.push_str(", ...");
    }
    assert(s@ =~= old(s)@ + array_summary(a@, texts(floats@)));
}

/// A value on one line, with the big arrays cut short.  `floats` are the texts of the
/// numbers that [`floats_shown`] gives.
pub fn summarize(v: &Value, floats: &[String]) -> (r: String)
    requires
        floats@.len() == floats_of(v@).len(),
    ensures
        r@ == summary(v@, texts(floats@)),
{
    let mut s = String::new();
    match v {
        Value::Str(t) => {
            let n: usize = t.as_bytes().len();
            if n > 60 {
                let c = cut(t, 57);
                let q = text::quote(c.as_str());
                s.push_str(q.as_str());
                s.push_str("... (");
                text::push_decimal(&mut s, n as u128);
                s.push_str(" bytes)");
            } else {
                let q = text::quote(t);
                s.push_str(q.as_str());
            }
        },
        Value::Array(a) => {
            push_array(&mut s, a, floats);
        },
        Value::F32(_) => {
            s.push_str(floats[0].as_str());
        },
        Value::F64(_) => {
            s.push_str(floats[0].as_str());
        },
        Value::Bool(b) => {
            if *b {
                s.push_str("true");
            } else {
                s.push_str("false");
            }
        },
        Value::U64(x) => {
            text::push_decimal(&mut s, *x as u128);
        },
        Value::U8(x) => {
            push_signed(&mut s, *x as i64);
        },
        Value::I8(x) => {
            push_signed(&mut s, *x as i64);
        },
        Value::U16(x) => {
            push_signed(&mut s, *x as i64);
        },
        Value::I16(x) => {
            push_signed(&mut s, *x as i64);
        },
        Value::U32(x) => {
            push_signed(&mut s, *x as i64);
        },
        Value::I32(x) => {
            push_signed(&mut s, *x as i64);
        },
        Value::I64(x) => {
            push_signed(&mut s, *x);
        },
    }
    assert(s@ =~= summary(v@, texts(floats@)));
    s
}

} // verus!
