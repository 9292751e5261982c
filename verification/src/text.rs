//! Characters, strings and decimal numerals.

use vstd::prelude::*;

verus! {

/// `String::push` appends one character to the end of the string.
pub assume_specification[ std::string::String::push ](s: &mut std::string::String, c: char)
    ensures
        final(s)@ == old(s)@.push(c),
;

/// The characters of a string, in order.
pub fn chars_of(s: &str) -> (out: Vec<char>)
    ensures
        out@ == s@,
{
    let mut out: Vec<char> = Vec::new();
    for c in it: s.chars()
        invariant
            it.seq() == s@,
            out@ == it.seq().take(it.index() as int),
    {
        out.push(c);
    }
    out
}

/// The string made of the given characters, in order.
pub fn string_of(chars: &Vec<char>) -> (out: String)
    ensures
        out@ == chars@,
{
    let mut out = String::new();
    let mut i: usize = 0;
    while i < chars.len()
        invariant
            i <= chars.len(),
            out@ == chars@.take(i as int),
        decreases chars.len() - i,
    {
        out.push(chars[i]);
        i += 1;
    }
    out
}

/// The characters `chars[from..to]` as a vector of their own.
pub fn slice_of(chars: &Vec<char>, from: usize, to: usize) -> (out: Vec<char>)
    requires
        from <= to <= chars.len(),
    ensures
        out@ == chars@.subrange(from as int, to as int),
{
    let mut out: Vec<char> = Vec::new();
    let mut i: usize = from;
    while i < to
        invariant
            from <= i <= to <= chars.len(),
            out@ == chars@.subrange(from as int, i as int),
        decreases to - i,
    {
        out.push(chars[i]);
        i += 1;
    }
    out
}

/// The text with every decimal comma turned into a decimal point.
pub open spec fn dotted(text: Seq<char>) -> Seq<char> {
    Seq::new(
        text.len(),
        |i: int|
            if text[i] == ',' {
                '.'
            } else {
                text[i]
            },
    )
}

/// Turns every `,` of the text into `.`.
pub fn with_dots(chars: &Vec<char>) -> (out: Vec<char>)
    ensures
        out@ == dotted(chars@),
{
    let mut out: Vec<char> = Vec::new();
    let mut i: usize = 0;
    while i < chars.len()
        invariant
            i <= chars.len(),
            out@ == dotted(chars@).take(i as int),
        decreases chars.len() - i,
    {
        let c = chars[i];
        if c == ',' {
            out.push('.');
        } else {
            out.push(c);
        }
        i += 1;
    }
    out
}

/// The value of a decimal digit; `None` for any other character.
pub open spec fn digit_of(c: char) -> Option<int> {
    if c == '0' {
        Some(0)
    } else if c == '1' {
        Some(1)
    } else if c == '2' {
        Some(2)
    } else if c == '3' {
        Some(3)
    } else if c == '4' {
        Some(4)
    } else if c == '5' {
        Some(5)
    } else if c == '6' {
        Some(6)
    } else if c == '7' {
        Some(7)
    } else if c == '8' {
        Some(8)
    } else if c == '9' {
        Some(9)
    } else {
        None
    }
}

/// The decimal digit that writes a value below ten.
pub open spec fn digit_char(d: int) -> char {
    if d == 0 {
        '0'
    } else if d == 1 {
        '1'
    } else if d == 2 {
        '2'
    } else if d == 3 {
        '3'
    } else if d == 4 {
        '4'
    } else if d == 5 {
        '5'
    } else if d == 6 {
        '6'
    } else if d == 7 {
        '7'
    } else if d == 8 {
        '8'
    } else {
        '9'
    }
}

/// Every character of the text is a decimal digit.
pub open spec fn all_digits(text: Seq<char>) -> bool {
    forall|i: int| 0 <= i < text.len() ==> (#[trigger] digit_of(text[i])) is Some
}

/// The number that a sequence of decimal digits writes, most significant digit first.
pub open spec fn number_of(digits: Seq<char>) -> int
    decreases digits.len(),
{
    if digits.len() == 0 {
        0
    } else {
        match digit_of(digits.last()) {
            Some(d) => number_of(digits.drop_last()) * 10 + d,
            None => 0,
        }
    }
}

/// The integer that a text writes: an optional sign, `+` or `-`, then one or more
/// decimal digits, whose value lies in the 32-bit signed range. Any other text writes
/// no integer.
pub open spec fn parse_int(text: Seq<char>) -> Option<int> {
    let signed = text.len() > 0 && (text[0] == '-' || text[0] == '+');
    let digits = if signed {
        text.skip(1)
    } else {
        text
    };
    let value = if text.len() > 0 && text[0] == '-' {
        -number_of(digits)
    } else {
        number_of(digits)
    };
    if digits.len() > 0 && all_digits(digits) && i32::MIN <= value <= i32::MAX {
        Some(value)
    } else {
        None
    }
}

/// The decimal digits of a natural number, without leading zeros.
pub open spec fn render_nat(n: nat) -> Seq<char>
    decreases n,
{
    if n < 10 {
        seq![digit_char(n as int)]
    } else {
        render_nat(n / 10).push(digit_char((n % 10) as int))
    }
}

/// The decimal form of an integer, with a leading `-` when it is negative.
pub open spec fn render_int(i: int) -> Seq<char> {
    if i < 0 {
        seq!['-'] + render_nat((-i) as nat)
    } else {
        render_nat(i as nat)
    }
}

/// The number written by some digits is at least the number written by any prefix
/// of them, and neither is negative.
pub proof fn lemma_number_of_prefix(digits: Seq<char>, k: int)
    requires
        0 <= k <= digits.len(),
        all_digits(digits),
    ensures
        0 <= number_of(digits.take(k)) <= number_of(digits),
    decreases digits.len() - k,
{
    if k == digits.len() {
        assert(digits.take(k) =~= digits);
        lemma_number_of_nonnegative(digits);
    } else {
        let shorter = digits.drop_last();
        assert(digit_of(digits.last()) is Some);
        assert forall|i: int| 0 <= i < shorter.len() implies (#[trigger] digit_of(
            shorter[i],
        )) is Some by {
            assert(shorter[i] == digits[i]);
        }
        lemma_number_of_prefix(shorter, k);
        assert(shorter.take(k) =~= digits.take(k));
        lemma_number_of_nonnegative(shorter);
    }
}

/// Digits never write a negative number.
pub proof fn lemma_number_of_nonnegative(digits: Seq<char>)
    ensures
        0 <= number_of(digits),
    decreases digits.len(),
{
    if digits.len() > 0 {
        lemma_number_of_nonnegative(digits.drop_last());
    }
}

/// The digit of a character, as a machine integer.
pub fn digit_value(c: char) -> (d: Option<u8>)
    ensures
        match d {
            Some(v) => digit_of(c) == Some(v as int),
            None => digit_of(c) is None,
        },
{
    match c {
        '0' => Some(0),
        '1' => Some(1),
        '2' => Some(2),
        '3' => Some(3),
        '4' => Some(4),
        '5' => Some(5),
        '6' => Some(6),
        '7' => Some(7),
        '8' => Some(8),
        '9' => Some(9),
        _ => None,
    }
}

/// Reads a 32-bit signed integer from its decimal form.
pub fn read_int(text: &Vec<char>) -> (r: Option<i32>)
    ensures
        match r {
            Some(v) => parse_int(text@) == Some(v as int),
            None => parse_int(text@) is None,
        },
{
    let n = text.len();
    if n == 0 {
        return None;
    }
    let negative = text[0] == '-';
    let start: usize = if text[0] == '-' || text[0] == '+' {
        1
    } else {
        0
    };
    if start == n {
        return None;
    }
    let ghost digits = text@.skip(start as int);
    let mut acc: i64 = 0;
    let mut i: usize = start;
    while i < n
        invariant
            start <= i <= n,
            start < n,
            n == text.len(),
            negative == (text@[0] == '-'),
            start == (if text@[0] == '-' || text@[0] == '+' {
                1int
            } else {
                0int
            }),
            digits == text@.skip(start as int),
            all_digits(digits.take(i - start)),
            acc == number_of(digits.take(i - start)),
            0 <= acc <= 2147483648,
        decreases n - i,
    {
        let ghost before = digits.take(i - start);
        let ghost after = digits.take(i + 1 - start);
        proof {
            assert(after.drop_last() =~= before);
            assert(after.last() == text[i as int]);
        }
        match digit_value(text[i]) {
            None => {
                proof {
                    assert(text@.skip(0) =~= text@);
                    assert(digits[i - start] == text[i as int]);
                    assert(digit_of(digits[i - start]) is None);
                }
                return None;
            },
            Some(d) => {
                acc = acc * 10 + d as i64;
                proof {
                    assert forall|j: int| 0 <= j < after.len() implies (#[trigger] digit_of(
                        after[j],
                    )) is Some by {
                        if j < before.len() {
                            assert(after[j] == before[j]);
                        }
                    }
                    assert(acc == number_of(after));
                }
                if acc > 2147483648 {
                    proof {
                        assert(text@.skip(0) =~= text@);
                        if all_digits(digits) {
                            lemma_number_of_prefix(digits, i + 1 - start);
                        }
                    }
                    return None;
                }
            },
        }
        i += 1;
    }
    proof {
        assert(digits.take(i - start) =~= digits);
        assert(text@.skip(0) =~= text@);
    }
    if negative {
        Some((-acc) as i32)
    } else if acc > 2147483647 {
        None
    } else {
        Some(acc as i32)
    }
}

/// The character of a digit below ten.
pub fn digit_symbol(d: u8) -> (c: char)
    requires
        d < 10,
    ensures
        c == digit_char(d as int),
        digit_of(c) == Some(d as int),
{
    match d {
        0 => '0',
        1 => '1',
        2 => '2',
        3 => '3',
        4 => '4',
        5 => '5',
        6 => '6',
        7 => '7',
        8 => '8',
        _ => '9',
    }
}

/// Appends the decimal digits of `n` to `out`.
pub fn push_nat(n: u32, out: &mut Vec<char>)
    ensures
        final(out)@ == old(out)@ + render_nat(n as nat),
    decreases n,
{
    if n >= 10 {
        push_nat(n / 10, out);
    }
    out.push(digit_symbol((n % 10) as u8));
}

/// Writes an integer in its decimal form.
pub fn write_int(i: i32) -> (out: Vec<char>)
    ensures
        out@ == render_int(i as int),
{
    let mut out: Vec<char> = Vec::new();
    if i < 0 {
        out.push('-');
        let magnitude: u32 = if i == i32::MIN {
            2147483648
        } else {
            (-i) as u32
        };
        push_nat(magnitude, &mut out);
    } else {
        push_nat(i as u32, &mut out);
    }
    out
}

/// The digits of a natural number are digits, there is at least one, and they write
/// that number.
pub proof fn lemma_render_nat(n: nat)
    ensures
        render_nat(n).len() > 0,
        all_digits(render_nat(n)),
        number_of(render_nat(n)) == n,
        render_nat(n)[0] != '-',
        render_nat(n)[0] != '+',
    decreases n,
{
    if n < 10 {
        let s = render_nat(n);
        assert(s.drop_last() =~= Seq::<char>::empty());
        assert(number_of(s.drop_last()) == 0);
    } else {
        lemma_render_nat(n / 10);
        let head = render_nat(n / 10);
        let s = render_nat(n);
        assert(s.drop_last() =~= head);
        assert forall|i: int| 0 <= i < s.len() implies (#[trigger] digit_of(s[i])) is Some by {
            if i < head.len() {
                assert(s[i] == head[i]);
            }
        }
    }
}

/// Reading the decimal form of a 32-bit integer gives the integer back.
pub proof fn lemma_parse_render(i: int)
    requires
        i32::MIN <= i <= i32::MAX,
    ensures
        parse_int(render_int(i)) == Some(i),
{
    if i < 0 {
        let body = render_nat((-i) as nat);
        lemma_render_nat((-i) as nat);
        let s = render_int(i);
        assert(s.skip(1) =~= body);
    } else {
        lemma_render_nat(i as nat);
    }
}

} // verus!
