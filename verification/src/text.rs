//! Rendering of integers and bytes as text.

use vstd::prelude::*;
use vstd::string::{StrSliceExecFns, StringExecFns};

verus! {

/// `String::push` appends exactly the given character to the end of the string.
pub assume_specification[ String::push ](s: &mut String, ch: char)
    ensures
        final(s)@ == old(s)@.push(ch),
;

/// The sixteen lowercase hexadecimal digits, in order of value.
pub open spec fn digits() -> Seq<char> {
    seq!['0', '1', '2', '3', '4', '5', '6', '7', '8', '9', 'a', 'b', 'c', 'd', 'e', 'f']
}

/// The character that stands for the digit value `d`, for `d` below sixteen.
pub open spec fn digit(d: int) -> char {
    digits()[d]
}

/// The decimal numeral of `n`: most significant digit first, no leading zeros.
pub open spec fn decimal(n: nat) -> Seq<char>
    decreases n,
{
    if n < 10 {
        seq![digit(n as int)]
    } else {
        decimal(n / 10).push(digit((n % 10) as int))
    }
}

/// The decimal numeral of a signed integer: a minus sign before the
/// magnitude of a negative number, nothing before any other.
pub open spec fn signed_decimal(i: int) -> Seq<char> {
    if i < 0 {
        seq!['-'] + decimal((-i) as nat)
    } else {
        decimal(i as nat)
    }
}

/// One of the ten decimal digits.
pub open spec fn is_decimal_digit(c: char) -> bool {
    c == '0' || c == '1' || c == '2' || c == '3' || c == '4' || c == '5' || c == '6' || c == '7'
        || c == '8' || c == '9'
}

/// A text behind its own length: the decimal numeral of the number of its
/// characters, a colon, and the text. Whatever follows, the text can be read
/// back, since no numeral holds a colon.
pub open spec fn framed(s: Seq<char>) -> Seq<char> {
    decimal(s.len()).push(':') + s
}

/// Two lowercase hexadecimal digits per byte, high nibble first.
pub open spec fn hex(bytes: Seq<u8>) -> Seq<char> {
    Seq::new(
        2 * bytes.len(),
        |i: int| if i % 2 == 0 { digit(bytes[i / 2] as int / 16) } else { digit(bytes[i / 2] as int % 16) },
    )
}

/// Two texts that begin alike and are equal end alike.
pub proof fn lemma_cancel_left<A>(a: Seq<A>, x: Seq<A>, y: Seq<A>)
    requires
        a + x == a + y,
    ensures
        x == y,
{
    assert(x =~= (a + x).subrange(a.len() as int, (a + x).len() as int));
    assert(y =~= (a + y).subrange(a.len() as int, (a + y).len() as int));
}

/// Different digit values below sixteen have different characters.
pub proof fn lemma_digit_injective(a: int, b: int)
    requires
        0 <= a < 16,
        0 <= b < 16,
        digit(a) == digit(b),
    ensures
        a == b,
{
}

/// A decimal numeral is not empty and holds decimal digits only.
pub proof fn lemma_decimal_digits(n: nat)
    ensures
        decimal(n).len() >= 1,
        forall|i: int| 0 <= i < decimal(n).len() ==> is_decimal_digit(#[trigger] decimal(n)[i]),
    decreases n,
{
    if n >= 10 {
        lemma_decimal_digits(n / 10);
        assert(is_decimal_digit(digit((n % 10) as int)));
    } else {
        assert(is_decimal_digit(digit(n as int)));
    }
}

/// A signed decimal numeral is not empty and holds decimal digits and
/// minus signs only.
pub proof fn lemma_signed_decimal_digits(i: int)
    ensures
        signed_decimal(i).len() >= 1,
        forall|k: int|
            0 <= k < signed_decimal(i).len() ==> {
                let c = #[trigger] signed_decimal(i)[k];
                is_decimal_digit(c) || c == '-'
            },
{
    if i < 0 {
        lemma_decimal_digits((-i) as nat);
    } else {
        lemma_decimal_digits(i as nat);
    }
}

/// Two texts that are free of a mark up to its first occurrence, and equal
/// as a whole, are equal before the mark and equal after it.
pub proof fn lemma_split_at_mark(
    u: Seq<char>,
    x: Seq<char>,
    v: Seq<char>,
    y: Seq<char>,
    mark: char,
)
    requires
        forall|i: int| 0 <= i < u.len() ==> u[i] != mark,
        forall|i: int| 0 <= i < v.len() ==> v[i] != mark,
        u.push(mark) + x == v.push(mark) + y,
    ensures
        u == v,
        x == y,
{
    let left = u.push(mark) + x;
    let right = v.push(mark) + y;
    if u.len() < v.len() {
        assert(left[u.len() as int] == mark);
        assert(right[u.len() as int] == v[u.len() as int]);
    } else if v.len() < u.len() {
        assert(right[v.len() as int] == mark);
        assert(left[v.len() as int] == u[v.len() as int]);
    }
    assert(u =~= left.take(u.len() as int));
    assert(v =~= right.take(v.len() as int));
    assert(x =~= left.skip(u.len() as int + 1));
    assert(y =~= right.skip(v.len() as int + 1));
}

/// Different numbers have different decimal numerals.
pub proof fn lemma_decimal_injective(a: nat, b: nat)
    requires
        decimal(a) == decimal(b),
    ensures
        a == b,
    decreases a,
{
    if a >= 10 && b >= 10 {
        assert(decimal(a / 10) =~= decimal(a).drop_last());
        assert(decimal(b / 10) =~= decimal(b).drop_last());
        lemma_decimal_injective(a / 10, b / 10);
        assert(digit((a % 10) as int) == decimal(a).last());
        assert(digit((b % 10) as int) == decimal(b).last());
        lemma_digit_injective((a % 10) as int, (b % 10) as int);
    } else if a >= 10 {
        lemma_decimal_digits(a / 10);
        assert(decimal(a).len() >= 2 && decimal(b).len() == 1);
    } else if b >= 10 {
        lemma_decimal_digits(b / 10);
        assert(decimal(b).len() >= 2 && decimal(a).len() == 1);
    } else {
        assert(decimal(a)[0] == digit(a as int));
        assert(decimal(b)[0] == digit(b as int));
        lemma_digit_injective(a as int, b as int);
    }
}

/// Different integers have different signed decimal numerals.
pub proof fn lemma_signed_decimal_injective(a: int, b: int)
    requires
        signed_decimal(a) == signed_decimal(b),
    ensures
        a == b,
{
    if a < 0 && b < 0 {
        lemma_cancel_left(seq!['-'], decimal((-a) as nat), decimal((-b) as nat));
        lemma_decimal_injective((-a) as nat, (-b) as nat);
    } else if a < 0 {
        lemma_decimal_digits(b as nat);
        assert(signed_decimal(a)[0] == '-');
        assert(is_decimal_digit(decimal(b as nat)[0]));
    } else if b < 0 {
        lemma_decimal_digits(a as nat);
        assert(signed_decimal(b)[0] == '-');
        assert(is_decimal_digit(decimal(a as nat)[0]));
    } else {
        lemma_decimal_injective(a as nat, b as nat);
    }
}

/// A decimal numeral before a colon can be read back, whatever follows.
pub proof fn lemma_decimal_splits(a: nat, x: Seq<char>, b: nat, y: Seq<char>)
    requires
        decimal(a).push(':') + x == decimal(b).push(':') + y,
    ensures
        a == b,
        x == y,
{
    lemma_decimal_digits(a);
    lemma_decimal_digits(b);
    lemma_split_at_mark(decimal(a), x, decimal(b), y, ':');
    lemma_decimal_injective(a, b);
}

/// A signed decimal numeral before a mark that is neither a digit nor a
/// minus sign can be read back, whatever follows.
pub proof fn lemma_signed_decimal_splits(
    a: int,
    x: Seq<char>,
    b: int,
    y: Seq<char>,
    mark: char,
)
    requires
        !is_decimal_digit(mark),
        mark != '-',
        signed_decimal(a).push(mark) + x == signed_decimal(b).push(mark) + y,
    ensures
        a == b,
        x == y,
{
    lemma_signed_decimal_digits(a);
    lemma_signed_decimal_digits(b);
    lemma_split_at_mark(signed_decimal(a), x, signed_decimal(b), y, mark);
    lemma_signed_decimal_injective(a, b);
}

/// A framed text can be read back, whatever follows.
pub proof fn lemma_framed_splits(s: Seq<char>, x: Seq<char>, t: Seq<char>, y: Seq<char>)
    requires
        framed(s) + x == framed(t) + y,
    ensures
        s == t,
        x == y,
{
    assert(framed(s) + x =~= decimal(s.len()).push(':') + (s + x));
    assert(framed(t) + y =~= decimal(t.len()).push(':') + (t + y));
    lemma_decimal_splits(s.len(), s + x, t.len(), t + y);
    assert(s =~= (s + x).take(s.len() as int));
    assert(t =~= (t + y).take(t.len() as int));
    assert(x =~= (s + x).skip(s.len() as int));
    assert(y =~= (t + y).skip(t.len() as int));
}

/// The character for a digit value below sixteen.
fn digit_char(d: u8) -> (c: char)
    requires
        d < 16,
    ensures
        c == digit(d as int),
{
    if d < 10 {
        (48u8 + d) as char
    } else {
        (97u8 + (d - 10)) as char
    }
}

/// Appends the decimal numeral of `n` to `out`.
pub fn push_decimal(out: &mut String, n: u64)
    ensures
        final(out)@ == old(out)@ + decimal(n as nat),
    decreases n,
{
    if n >= 10 {
        push_decimal(out, n / 10);
    }
    out.push(digit_char((n % 10) as u8));
}

/// Appends the decimal numeral of the signed integer `v` to `out`.
pub fn push_signed_decimal(out: &mut String, v: i64)
    ensures
        final(out)@ == old(out)@ + signed_decimal(v as int),
{
    if v < 0 {
        out.push('-');
        let magnitude: u64 = (-(v + 1)) as u64 + 1;
        push_decimal(out, magnitude);
    } else {
        push_decimal(out, v as u64);
    }
}

/// Appends `s` behind its own length to `out`.
pub fn push_framed(out: &mut String, s: &str)
    ensures
        final(out)@ == old(out)@ + framed(s@),
{
    push_decimal(out, s.unicode_len() as u64);
    out.push(':');
    out.append(s);
    assert(out@ =~= old(out)@ + framed(s@));
}

/// Renders bytes as lowercase hexadecimal text.
pub fn to_hex(bytes: &[u8]) -> (out: String)
    ensures
        out@ == hex(bytes@),
{
    let mut out = String::new();
    let mut i: usize = 0;
    while i < bytes.len()
        invariant
            i <= bytes.len(),
            out@ == hex(bytes@.take(i as int)),
        decreases bytes.len() - i,
    {
        let b: u8 = bytes[i];
        out.push(digit_char(b / 16));
        out.push(digit_char(b % 16));
        i = i + 1;
    }
    out
}

} // verus!
