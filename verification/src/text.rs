//! Texts as sequences of characters, and integers in decimal notation.

use vstd::prelude::*;
use vstd::string::*;

verus! {

/// `String::push` adds one character at the end.
pub assume_specification[ String::push ](text: &mut String, c: char)
    ensures
        final(text)@ == old(text)@.push(c),
;

/// The characters of `text`, in order.
pub fn chars_of(text: &str) -> (chars: Vec<char>)
    ensures
        chars@ == text@,
{
    let mut chars: Vec<char> = Vec::new();
    for c in it: text.chars()
        invariant
            chars@ == it.seq().take(it.index() as int),
            it.seq() == text@,
    {
        chars.push(c);
    }
    chars
}

/// The characters of `chars` from `start` up to `end`, as a text.
pub fn text_of(chars: &Vec<char>, start: usize, end: usize) -> (text: String)
    requires
        start <= end <= chars.len(),
    ensures
        text@ == chars@.subrange(start as int, end as int),
{
    let mut text = String::new();
    let mut i: usize = start;
    while i < end
        invariant
            start <= i <= end <= chars.len(),
            text@ == chars@.subrange(start as int, i as int),
        decreases end - i,
    {
        text.push(chars[i]);
        i += 1;
    }
    text
}

/// The digit that stands for `d`, which is less than ten.
pub open spec fn digit_char(d: nat) -> char {
    if d == 0 {
        '0'
    } else if d == 1 {
        '1'
    } else if d == 2 {
        '2'
    } else if d == 3 {
        '3'
    } else if d == 4 {
        '4'
    } else if d == 5 {
        '5'
    } else if d == 6 {
        '6'
    } else if d == 7 {
        '7'
    } else if d == 8 {
        '8'
    } else {
        '9'
    }
}

/// What the digit `c` stands for; `None` if `c` is no digit.
pub open spec fn digit_value(c: char) -> Option<nat> {
    if c == '0' {
        Some(0)
    } else if c == '1' {
        Some(1)
    } else if c == '2' {
        Some(2)
    } else if c == '3' {
        Some(3)
    } else if c == '4' {
        Some(4)
    } else if c == '5' {
        Some(5)
    } else if c == '6' {
        Some(6)
    } else if c == '7' {
        Some(7)
    } else if c == '8' {
        Some(8)
    } else if c == '9' {
        Some(9)
    } else {
        None
    }
}

/// `n` in decimal notation, without leading zeros.
pub open spec fn decimal(n: nat) -> Seq<char>
    decreases n,
{
    if n < 10 {
        seq![digit_char(n)]
    } else {
        decimal(n / 10).push(digit_char(n % 10))
    }
}

/// `i` in decimal notation, with a minus sign in front if it is negative.
pub open spec fn signed_decimal(i: int) -> Seq<char> {
    if i < 0 {
        seq!['-'] + decimal((-i) as nat)
    } else {
        decimal(i as nat)
    }
}

/// Whether `s` is made of digits only.
pub open spec fn is_digits(s: Seq<char>) -> bool {
    forall|i: int| 0 <= i < s.len() ==> (#[trigger] digit_value(s[i])) is Some
}

/// The number that the digits `s` spell, read as decimal notation.
pub open spec fn digits_value(s: Seq<char>) -> nat
    decreases s.len(),
{
    if s.len() == 0 {
        0
    } else {
        digits_value(s.drop_last()) * 10 + match digit_value(s.last()) {
            Some(d) => d,
            None => 0,
        }
    }
}

/// Whether `s` is a number in decimal notation: digits, at least one, with
/// no zero in front of another digit.
pub open spec fn is_decimal(s: Seq<char>) -> bool {
    &&& s.len() > 0
    &&& is_digits(s)
    &&& s.len() > 1 ==> s[0] != '0'
}

/// The number that `s` denotes; `None` if `s` is not in decimal notation.
pub open spec fn decimal_value(s: Seq<char>) -> Option<nat> {
    if is_decimal(s) {
        Some(digits_value(s))
    } else {
        None
    }
}

/// The integer that `s` denotes; `None` if `s` is not decimal notation with
/// at most a minus sign in front. Zero has no sign.
pub open spec fn signed_decimal_value(s: Seq<char>) -> Option<int> {
    if s.len() > 0 && s[0] == '-' {
        match decimal_value(s.skip(1)) {
            Some(n) if n > 0 => Some(-(n as int)),
            _ => None,
        }
    } else {
        match decimal_value(s) {
            Some(n) => Some(n as int),
            None => None,
        }
    }
}

/// Decimal notation is made of digits only, spells its number, and starts
/// with a zero only for zero itself.
pub proof fn lemma_decimal(n: nat)
    ensures
        is_decimal(decimal(n)),
        digits_value(decimal(n)) == n,
        decimal_value(decimal(n)) == Some(n),
        n > 0 ==> decimal(n)[0] != '0',
        forall|i: int| 0 <= i < decimal(n).len() ==> decimal(n)[i] != '\n' && decimal(n)[i] != '-',
    decreases n,
{
    reveal_with_fuel(digits_value, 2);
    if n < 10 {
        assert(decimal(n) =~= seq![digit_char(n)]);
        assert(decimal(n).drop_last() =~= Seq::<char>::empty());
    } else {
        lemma_decimal(n / 10);
        let prefix = decimal(n / 10);
        let whole = decimal(n);
        assert(whole == prefix.push(digit_char(n % 10)));
        assert(whole.drop_last() =~= prefix);
        assert(whole.last() == digit_char(n % 10));
        assert(whole[0] == prefix[0]);
        assert forall|i: int| 0 <= i < whole.len() implies (#[trigger] digit_value(whole[i])) is Some
            && whole[i] != '\n' && whole[i] != '-' by {
            if i < prefix.len() {
                assert(whole[i] == prefix[i]);
                assert(digit_value(prefix[i]) is Some);
            }
        }
    }
}

/// Signed decimal notation denotes its integer and holds no line feed.
pub proof fn lemma_signed_decimal(i: int)
    ensures
        signed_decimal_value(signed_decimal(i)) == Some(i),
        forall|k: int| 0 <= k < signed_decimal(i).len() ==> signed_decimal(i)[k] != '\n',
{
    if i < 0 {
        let n = (-i) as nat;
        lemma_decimal(n);
        let s = signed_decimal(i);
        assert(s.skip(1) =~= decimal(n));
        assert(s[0] == '-');
    } else {
        lemma_decimal(i as nat);
    }
}

/// A number's digits spell at least what any of their prefixes spells.
pub proof fn lemma_digits_value_prefix(s: Seq<char>, k: int)
    requires
        0 <= k <= s.len(),
    ensures
        digits_value(s.take(k)) <= digits_value(s),
    decreases s.len() - k,
{
    if k < s.len() {
        lemma_digits_value_prefix(s, k + 1);
        assert(s.take(k + 1).drop_last() =~= s.take(k));
    } else {
        assert(s.take(k) =~= s);
    }
}

fn digit_of(d: u64) -> (c: char)
    requires
        d < 10,
    ensures
        c == digit_char(d as nat),
{
    if d == 0 {
        '0'
    } else if d == 1 {
        '1'
    } else if d == 2 {
        '2'
    } else if d == 3 {
        '3'
    } else if d == 4 {
        '4'
    } else if d == 5 {
        '5'
    } else if d == 6 {
        '6'
    } else if d == 7 {
        '7'
    } else if d == 8 {
        '8'
    } else {
        '9'
    }
}

fn value_of_digit(c: char) -> (d: Option<u64>)
    ensures
        d is Some <==> digit_value(c) is Some,
        d matches Some(v) ==> digit_value(c) == Some(v as nat) && v < 10,
{
    if c == '0' {
        Some(0)
    } else if c == '1' {
        Some(1)
    } else if c == '2' {
        Some(2)
    } else if c == '3' {
        Some(3)
    } else if c == '4' {
        Some(4)
    } else if c == '5' {
        Some(5)
    } else if c == '6' {
        Some(6)
    } else if c == '7' {
        Some(7)
    } else if c == '8' {
        Some(8)
    } else if c == '9' {
        Some(9)
    } else {
        None
    }
}

/// Appends `n` in decimal notation to `out`.
pub fn push_decimal(out: &mut String, n: u64)
    ensures
        final(out)@ == old(out)@ + decimal(n as nat),
    decreases n,
{
    if n >= 10 {
        push_decimal(out, n / 10);
    }
    out.push(digit_of(n % 10));
    proof {
        if n >= 10 {
            assert(final(out)@ =~= old(out)@ + decimal(n as nat));
        } else {
            assert(final(out)@ =~= old(out)@ + decimal(n as nat));
        }
    }
}

/// Appends `i` in signed decimal notation to `out`.
pub fn push_signed_decimal(out: &mut String, i: i64)
    ensures
        final(out)@ == old(out)@ + signed_decimal(i as int),
{
    if i < 0 {
        out.push('-');
        let magnitude: u64 = (-(i + 1)) as u64 + 1;
        push_decimal(out, magnitude);
        assert(final(out)@ =~= old(out)@ + signed_decimal(i as int));
    } else {
        push_decimal(out, i as u64);
    }
}

/// Reads the characters of `chars` from `start` up to `end` as a number in
/// decimal notation. `None` if they are none, or if the number is too large.
pub fn parse_decimal(chars: &Vec<char>, start: usize, end: usize) -> (r: Option<u64>)
    requires
        start <= end <= chars.len(),
    ensures
        r is Some <==> (decimal_value(chars@.subrange(start as int, end as int)) matches Some(n)
            && n <= u64::MAX),
        r matches Some(v) ==> decimal_value(chars@.subrange(start as int, end as int)) == Some(
            v as nat,
        ),
{
    let ghost s = chars@.subrange(start as int, end as int);
    if start == end {
        return None;
    }
    if end - start > 1 && chars[start] == '0' {
        assert(s[0] == '0');
        return None;
    }
    let mut value: u64 = 0;
    let mut i: usize = start;
    while i < end
        invariant
            start <= i <= end <= chars.len(),
            s == chars@.subrange(start as int, end as int),
            is_digits(s.take(i - start)),
            value == digits_value(s.take(i - start)),
        decreases end - i,
    {
        let ghost before = s.take(i - start);
        let ghost after = s.take(i - start + 1);
        proof {
            assert(after.drop_last() =~= before);
            assert(after.last() == chars@[i as int]);
            assert(s[i - start] == chars@[i as int]);
        }
        match value_of_digit(chars[i]) {
            None => {
                assert(!is_digits(s));
                return None;
            },
            Some(d) => {
                proof {
                    assert forall|k: int| 0 <= k < after.len() implies (#[trigger] digit_value(
                        after[k],
                    )) is Some by {
                        if k < before.len() {
                            assert(after[k] == before[k]);
                        }
                    }
                    lemma_digits_value_prefix(s, i - start + 1);
                }
                if value > (u64::MAX - d) / 10 {
                    assert(digits_value(after) > u64::MAX);
                    return None;
                }
                value = value * 10 + d;
            },
        }
        i += 1;
    }
    assert(s.take(end - start) =~= s);
    Some(value)
}

/// Reads the characters of `chars` from `start` up to `end` as an integer in
/// signed decimal notation. `None` if they are none, or if the integer does
/// not fit.
pub fn parse_signed_decimal(chars: &Vec<char>, start: usize, end: usize) -> (r: Option<i64>)
    requires
        start <= end <= chars.len(),
    ensures
        r is Some <==> (signed_decimal_value(chars@.subrange(start as int, end as int)) matches Some(
            i,
        ) && i64::MIN <= i <= i64::MAX),
        r matches Some(v) ==> signed_decimal_value(chars@.subrange(start as int, end as int))
            == Some(v as int),
{
    let ghost s = chars@.subrange(start as int, end as int);
    if start < end && chars[start] == '-' {
        assert(s[0] == '-');
        assert(s.skip(1) =~= chars@.subrange(start + 1, end as int));
        match parse_decimal(chars, start + 1, end) {
            Some(n) => {
                if n == 0 || n > 9_223_372_036_854_775_808 {
                    None
                } else if n == 9_223_372_036_854_775_808 {
                    Some(i64::MIN)
                } else {
                    Some(-(n as i64))
                }
            },
            None => None,
        }
    } else {
        assert(start < end ==> s[0] == chars@[start as int]);
        match parse_decimal(chars, start, end) {
            Some(n) => {
                if n > 9_223_372_036_854_775_807 {
                    None
                } else {
                    Some(n as i64)
                }
            },
            None => None,
        }
    }
}

} // verus!
