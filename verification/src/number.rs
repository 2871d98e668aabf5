//! Numbers as text: decimal and hexadecimal digits.

use crate::text::chars_of;
use vstd::prelude::*;

verus! {

/// The digit `d`, counted from zero; above nine the letters from `a` on.
pub open spec fn digit(d: int) -> char {
    if d < 10 {
        (d + 48) as char
    } else {
        (d + 87) as char
    }
}

pub open spec fn is_digit(c: char) -> bool {
    '0' <= c <= '9'
}

/// `s` is one decimal digit or more, and nothing else.
pub open spec fn is_digits(s: Seq<char>) -> bool {
    s.len() > 0 && forall|i: int| 0 <= i < s.len() ==> is_digit(#[trigger] s[i])
}

/// The number that the decimal digits of `s` write.
pub open spec fn digits_value(s: Seq<char>) -> nat
    decreases s.len(),
{
    if s.len() == 0 {
        0
    } else {
        (digits_value(s.drop_last()) * 10 + (s.last() as int - 48)) as nat
    }
}

/// `n` in decimal, without leading zeros.
pub open spec fn decimal(n: nat) -> Seq<char>
    decreases n,
{
    if n < 10 {
        seq![digit(n as int)]
    } else {
        decimal(n / 10).push(digit((n % 10) as int))
    }
}

/// `n` in decimal, with a minus sign below zero.
pub open spec fn signed_decimal(n: int) -> Seq<char> {
    if n < 0 {
        seq!['-'] + decimal((-n) as nat)
    } else {
        decimal(n as nat)
    }
}

/// The last `width` hexadecimal digits of `n`, in lower case.
pub open spec fn hex(n: nat, width: nat) -> Seq<char>
    decreases width,
{
    if width == 0 {
        Seq::empty()
    } else {
        hex(n / 16, (width - 1) as nat).push(digit((n % 16) as int))
    }
}

/// The number that `s` writes in decimal, if it is at most `max`. A plus sign
/// may stand before the digits.
pub open spec fn read_unsigned(s: Seq<char>, max: nat) -> Option<nat> {
    let digits = if s.len() > 0 && s[0] == '+' {
        s.drop_first()
    } else {
        s
    };
    if is_digits(digits) && digits_value(digits) <= max {
        Some(digits_value(digits))
    } else {
        None
    }
}

/// The number that `s` writes in decimal, if it is at most `max` and at least
/// `-max - 1`. A sign may stand before the digits.
pub open spec fn read_signed(s: Seq<char>, max: nat) -> Option<int> {
    if s.len() > 0 && s[0] == '-' {
        let digits = s.drop_first();
        if is_digits(digits) && digits_value(digits) <= max + 1 {
            Some(-digits_value(digits))
        } else {
            None
        }
    } else {
        match read_unsigned(s, max) {
            Some(n) => Some(n as int),
            None => None,
        }
    }
}

/// Reading back what was written gives the number again.
pub proof fn lemma_decimal_read(n: nat)
    ensures
        is_digits(decimal(n)),
        digits_value(decimal(n)) == n,
        forall|max: nat| n <= max ==> #[trigger] read_unsigned(decimal(n), max) == Some(n),
    decreases n,
{
    assert(forall|d: int| 0 <= d < 10 ==> is_digit(#[trigger] digit(d)) && digit(d) as int == d + 48);
    if n >= 10 {
        lemma_decimal_read(n / 10);
        assert(decimal(n).drop_last() =~= decimal(n / 10));
        assert(is_digits(decimal(n)));
    } else {
        assert(decimal(n).drop_last() =~= Seq::<char>::empty());
        assert(digits_value(Seq::<char>::empty()) == 0);
    }
    assert(is_digit(decimal(n)[0]));
}

/// A number that was written in decimal is read back.
pub proof fn lemma_signed_read(n: int, max: nat)
    requires
        -max - 1 <= n <= max,
    ensures
        read_signed(signed_decimal(n), max) == Some(n),
{
    if n < 0 {
        let digits = decimal((-n) as nat);
        lemma_decimal_read((-n) as nat);
        assert(signed_decimal(n)[0] == '-');
        assert(signed_decimal(n).drop_first() =~= digits);
    } else {
        lemma_decimal_read(n as nat);
        assert(is_digit(decimal(n as nat)[0]));
    }
}

/// The number that the decimal digits of `cs` from `from` on write, if it is
/// at most `max` and nothing but digits stands there.
fn read_digits(cs: &Vec<char>, from: usize, max: u64) -> (r: Option<u64>)
    requires
        from <= cs@.len(),
    ensures
        ({
            let s = cs@.skip(from as int);
            match r {
                Some(n) => is_digits(s) && digits_value(s) == n && n <= max,
                None => !is_digits(s) || digits_value(s) > max,
            }
        }),
{
    let ghost s = cs@.skip(from as int);
    if from == cs.len() {
        return None;
    }
    let mut value: u64 = 0;
    let mut over = false;
    let mut i: usize = from;
    proof {
        assert(s.take(0) =~= Seq::<char>::empty());
    }
    while i < cs.len()
        invariant
            from <= i <= cs@.len(),
            s == cs@.skip(from as int),
            forall|k: int| 0 <= k < i - from ==> is_digit(#[trigger] s[k]),
            over ==> digits_value(s.take(i - from)) > max,
            !over ==> value == digits_value(s.take(i - from)) && value <= max,
        decreases cs@.len() - i,
    {
        let c = cs[i];
        proof {
            assert(s[i - from] == c);
            assert(s.take(i - from + 1).drop_last() =~= s.take(i - from));
        }
        if !('0' <= c && c <= '9') {
            proof {
                assert(!is_digit(s[i - from]));
            }
            return None;
        }
        if !over {
            let d: u128 = (c as u32 - '0' as u32) as u128;
            let next: u128 = value as u128 * 10 + d;
            if next <= max as u128 {
                value = next as u64;
            } else {
                over = true;
            }
        }
        i += 1;
    }
    proof {
        assert(s.take(i - from) =~= s);
    }
    if over {
        None
    } else {
        Some(value)
    }
}

/// What `str::parse` gives for an unsigned integer type whose largest value is
/// `max`.
fn parse_unsigned(s: &str, max: u64) -> (r: Option<u64>)
    ensures
        match r {
            Some(n) => read_unsigned(s@, max as nat) == Some(n as nat),
            None => read_unsigned(s@, max as nat) is None,
        },
{
    let cs = chars_of(s);
    let from: usize = if cs.len() > 0 && cs[0] == '+' {
        1
    } else {
        0
    };
    proof {
        assert(s@.skip(0) =~= s@);
        if s@.len() > 0 {
            assert(s@.skip(1) =~= s@.drop_first());
        }
    }
    read_digits(&cs, from, max)
}

/// Reads a `u32` in decimal.
pub fn parse_u32(s: &str) -> (r: Option<u32>)
    ensures
        match r {
            Some(n) => read_unsigned(s@, u32::MAX as nat) == Some(n as nat),
            None => read_unsigned(s@, u32::MAX as nat) is None,
        },
{
    match parse_unsigned(s, u32::MAX as u64) {
        Some(n) => Some(n as u32),
        None => None,
    }
}

/// Reads a `usize` in decimal.
pub fn parse_usize(s: &str) -> (r: Option<usize>)
    ensures
        match r {
            Some(n) => read_unsigned(s@, usize::MAX as nat) == Some(n as nat),
            None => read_unsigned(s@, usize::MAX as nat) is None,
        },
{
    match parse_unsigned(s, usize::MAX as u64) {
        Some(n) => Some(n as usize),
        None => None,
    }
}

/// Reads an `i32` in decimal.
pub fn parse_i32(s: &str) -> (r: Option<i32>)
    ensures
        match r {
            Some(n) => read_signed(s@, i32::MAX as nat) == Some(n as int),
            None => read_signed(s@, i32::MAX as nat) is None,
        },
{
    let cs = chars_of(s);
    if cs.len() > 0 && cs[0] == '-' {
        proof {
            assert(s@.skip(1) =~= s@.drop_first());
        }
        match read_digits(&cs, 1, 0x8000_0000) {
            Some(n) => Some((-(n as i64)) as i32),
            None => None,
        }
    } else {
        match parse_unsigned(s, i32::MAX as u64) {
            Some(n) => Some(n as i32),
            None => None,
        }
    }
}

/// The character of a digit below sixteen.
fn digit_char(d: u8) -> (r: char)
    requires
        d < 16,
    ensures
        r == digit(d as int),
{
    if d < 10 {
        (d + 48) as char
    } else {
        (d + 87) as char
    }
}

/// Appends `n` in decimal to `out`.
pub fn push_decimal(out: &mut String, n: u64)
    ensures
        final(out)@ == old(out)@ + decimal(n as nat),
    decreases n,
{
    if n < 10 {
        out.push(digit_char(n as u8));
        proof {
            assert(out@ =~= old(out)@ + decimal(n as nat));
        }
    } else {
        push_decimal(out, n / 10);
        out.push(digit_char((n % 10) as u8));
        proof {
            assert(out@ =~= old(out)@ + decimal(n as nat));
        }
    }
}

/// `n` in decimal, with a minus sign below zero.
pub fn signed_text(n: i64) -> (r: String)
    ensures
        r@ == signed_decimal(n as int),
{
    let mut out = String::new();
    if n < 0 {
        out.push('-');
        push_decimal(&mut out, (-(n as i128)) as u64);
        proof {
            assert(out@ =~= signed_decimal(n as int));
        }
    } else {
        push_decimal(&mut out, n as u64);
        proof {
            assert(out@ =~= signed_decimal(n as int));
        }
    }
    out
}

/// Appends the last `width` hexadecimal digits of `n` to `out`.
pub fn push_hex(out: &mut String, n: u128, width: usize)
    ensures
        final(out)@ == old(out)@ + hex(n as nat, width as nat),
    decreases width,
{
    if width > 0 {
        push_hex(out, n / 16, width - 1);
        out.push(digit_char((n % 16) as u8));
    }
    proof {
        assert(out@ =~= old(out)@ + hex(n as nat, width as nat));
    }
}

/// A number is read exactly if its text is made of digits, one at least, behind
/// a plus sign or none, and it is not too large; each digit counts ten times
/// what the next one does.
pub proof fn numbers_are_made_of_digits(
    text: &str,
    digits: Seq<char>,
    next: char,
    small: Option<u32>,
    large: Option<usize>,
)
    requires
        call_ensures(parse_u32, (text,), small),
        call_ensures(parse_usize, (text,), large),
        text@ == digits || text@ == seq!['+'] + digits,
        digits.len() == 0 || digits[0] != '+',
    ensures
        ({
            let sound = digits.len() > 0 && forall|i: int|
                0 <= i < digits.len() ==> '0' <= #[trigger] digits[i] <= '9';
            &&& small is Some <==> sound && digits_value(digits) < 0x1_0000_0000
            &&& large is Some <==> sound && digits_value(digits) <= usize::MAX
            &&& small is Some ==> small->0 == digits_value(digits)
            &&& large is Some ==> large->0 == digits_value(digits)
        }),
        digits_value(Seq::empty()) == 0,
        '0' <= next <= '9' ==> digits_value(digits.push(next)) == 10 * digits_value(digits) + (
        next as int - '0' as int),
{
    if text@ == seq!['+'] + digits {
        assert(text@.drop_first() =~= digits);
    }
    assert(digits.push(next).drop_last() =~= digits);
}

/// A minus sign makes a number negative, and one more can be read below zero
/// than above; without the sign the number is read as one that has none.
pub proof fn signs_make_numbers_negative(
    text: &str,
    digits: Seq<char>,
    read: Option<i32>,
)
    requires
        call_ensures(parse_i32, (text,), read),
        text@ == digits || text@ == seq!['-'] + digits,
        digits.len() == 0 || digits[0] != '-' && digits[0] != '+',
    ensures
        ({
            let sound = digits.len() > 0 && forall|i: int|
                0 <= i < digits.len() ==> '0' <= #[trigger] digits[i] <= '9';
            let value = digits_value(digits);
            &&& text@ == digits ==> (read is Some <==> sound && value <= 0x7fff_ffff)
            &&& text@ == digits && read is Some ==> read->0 == value
            &&& text@ != digits ==> (read is Some <==> sound && value <= 0x8000_0000)
            &&& text@ != digits && read is Some ==> read->0 == -value
        }),
{
    if text@ != digits {
        assert(text@.drop_first() =~= digits);
    }
}

/// A number is written without needless zeros, and in hexadecimal with as many
/// digits as asked for, each of which counts sixteen times the next one.
pub proof fn numbers_are_written_digit_by_digit(n: nat, width: nat, d: nat)
    requires
        d < 16,
    ensures
        decimal(n).len() > 1 ==> decimal(n)[0] != '0',
        hex(n, width).len() == width,
        hex(16 * n + d, width + 1) == hex(n, width).push(digit(d as int)),
        d < 10 ==> digit(d as int) as int == '0' as int + d,
        d >= 10 ==> digit(d as int) as int == 'a' as int + d - 10,
    decreases n + width,
{
    assert((16 * n + d) / 16 == n && (16 * n + d) % 16 == d);
    if width > 0 {
        numbers_are_written_digit_by_digit(n / 16, (width - 1) as nat, d);
    } else if n >= 10 {
        numbers_are_written_digit_by_digit(n / 10, 0, d);
    }
    lemma_first_digit(n);
}

proof fn lemma_first_digit(n: nat)
    ensures
        decimal(n).len() > 0,
        n > 0 ==> decimal(n)[0] != '0',
        n == 0 ==> decimal(n).len() == 1,
    decreases n,
{
    assert(forall|k: int| 0 < k < 10 ==> #[trigger] digit(k) != '0');
    if n >= 10 {
        lemma_first_digit(n / 10);
    }
}

} // verus!
