use vstd::prelude::*;

verus! {

/// Whether `c` is one of the digits 0 to 9.
pub open spec fn is_digit(c: char) -> bool {
    '0' <= c <= '9'
}

/// The number a digit stands for.
pub open spec fn digit_of(c: char) -> nat {
    (c as u32 - '0' as u32) as nat
}

/// The number that a run of digits writes in base ten; nothing where some
/// character is no digit. The empty run writes zero.
pub open spec fn digits_value(s: Seq<char>) -> Option<nat>
    decreases s.len(),
{
    if s.len() == 0 {
        Some(0)
    } else {
        match digits_value(s.drop_last()) {
            Some(front) => if is_digit(s.last()) {
                Some(front * 10 + digit_of(s.last()))
            } else {
                None
            },
            None => None,
        }
    }
}

/// The number that one or more digits write.
pub open spec fn natural(s: Seq<char>) -> Option<nat> {
    if s.len() == 0 {
        None
    } else {
        digits_value(s)
    }
}

/// The number up to `max` that `s` writes: digits, with or without a plus
/// sign before them.
pub open spec fn parse_unsigned(s: Seq<char>, max: nat) -> Option<nat> {
    let body = if s.len() > 0 && s[0] == '+' {
        s.subrange(1, s.len() as int)
    } else {
        s
    };
    match natural(body) {
        Some(value) => if value <= max {
            Some(value)
        } else {
            None
        },
        None => None,
    }
}

/// The 32-bit integer that `s` writes: digits, with or without a plus or
/// minus sign before them.
pub open spec fn parse_i32(s: Seq<char>) -> Option<int> {
    if s.len() > 0 && s[0] == '-' {
        match natural(s.subrange(1, s.len() as int)) {
            Some(value) => if value <= 0x8000_0000 {
                Some(-(value as int))
            } else {
                None
            },
            None => None,
        }
    } else {
        match parse_unsigned(s, 0x7FFF_FFFF) {
            Some(value) => Some(value as int),
            None => None,
        }
    }
}

/// Reads the digits from `from` to the end as a number up to `max`.
pub fn read_natural(chars: &[char], from: usize, max: u64) -> (value: Option<u64>)
    requires
        from <= chars@.len(),
        max <= 0xFFFF_FFFF,
    ensures
        match natural(chars@.subrange(from as int, chars@.len() as int)) {
            Some(written) => if written <= max {
                value == Some(written as u64)
            } else {
                value is None
            },
            None => value is None,
        },
{
    let ghost body = chars@.subrange(from as int, chars@.len() as int);
    if from == chars.len() {
        return None;
    }
    let mut reached: u64 = 0;
    let mut i: usize = from;
    assert(body.take(0).len() == 0);
    while i < chars.len()
        invariant
            from <= i <= chars@.len(),
            max <= 0xFFFF_FFFF,
            body == chars@.subrange(from as int, chars@.len() as int),
            digits_value(body.take(i - from)) matches Some(written) && reached == if written > max {
                max + 1
            } else {
                written as int
            },
        decreases chars@.len() - i,
    {
        let c = chars[i];
        proof {
            assert(body.take(i - from + 1).drop_last() =~= body.take(i - from));
            assert(body.take(i - from + 1).last() == c);
        }
        if !(c >= '0' && c <= '9') {
            proof {
                lemma_digits_stay_bad(body, i - from + 1);
            }
            return None;
        }
        let digit = (c as u32 - '0' as u32) as u64;
        let next = reached * 10 + digit;
        reached = if next > max {
            max + 1
        } else {
            next
        };
        i += 1;
    }
    assert(body.take(i - from) =~= body);
    if reached > max {
        None
    } else {
        Some(reached)
    }
}

/// Once a front part of a run has a character that is no digit, the whole
/// run writes no number.
pub proof fn lemma_digits_stay_bad(s: Seq<char>, count: int)
    requires
        0 <= count <= s.len(),
        digits_value(s.take(count)) is None,
    ensures
        digits_value(s) is None,
    decreases s.len() - count,
{
    if count < s.len() {
        assert(s.take(count + 1).drop_last() =~= s.take(count));
        lemma_digits_stay_bad(s, count + 1);
    } else {
        assert(s.take(count) =~= s);
    }
}

/// Reads a number up to `max`, with or without a plus sign before it.
pub fn read_unsigned(chars: &[char], max: u64) -> (value: Option<u64>)
    requires
        max <= 0xFFFF_FFFF,
    ensures
        match parse_unsigned(chars@, max as nat) {
            Some(written) => value == Some(written as u64),
            None => value is None,
        },
{
    if chars.len() > 0 && chars[0] == '+' {
        read_natural(chars, 1, max)
    } else {
        assert(chars@.subrange(0, chars@.len() as int) =~= chars@);
        read_natural(chars, 0, max)
    }
}

/// Reads a number that fits in eight bits.
pub fn read_u8(chars: &[char]) -> (value: Option<u8>)
    ensures
        match parse_unsigned(chars@, 255) {
            Some(written) => value == Some(written as u8),
            None => value is None,
        },
{
    match read_unsigned(chars, 255) {
        Some(value) => Some(value as u8),
        None => None,
    }
}

/// Reads a number that fits in sixteen bits.
pub fn read_u16(chars: &[char]) -> (value: Option<u16>)
    ensures
        match parse_unsigned(chars@, 65535) {
            Some(written) => value == Some(written as u16),
            None => value is None,
        },
{
    match read_unsigned(chars, 65535) {
        Some(value) => Some(value as u16),
        None => None,
    }
}

/// Reads a 32-bit integer, with or without a sign before it.
pub fn read_i32(chars: &[char]) -> (value: Option<i32>)
    ensures
        match parse_i32(chars@) {
            Some(written) => value == Some(written as i32),
            None => value is None,
        },
{
    if chars.len() > 0 && chars[0] == '-' {
        match read_natural(chars, 1, 0x8000_0000) {
            Some(value) => Some((0 - value as i64) as i32),
            None => None,
        }
    } else {
        match read_unsigned(chars, 0x7FFF_FFFF) {
            Some(value) => Some(value as i32),
            None => None,
        }
    }
}

/// The character for a digit.
pub open spec fn digit_char(digit: nat) -> char {
    ('0' as u32 + digit) as char
}

/// A number written in base ten, without leading zeros.
pub open spec fn decimal(n: nat) -> Seq<char>
    decreases n,
{
    if n < 10 {
        seq![digit_char(n)]
    } else {
        decimal(n / 10).push(digit_char(n % 10))
    }
}

/// A number written in base ten reads back as itself.
pub proof fn lemma_decimal_reads_back(n: nat)
    ensures
        natural(decimal(n)) == Some(n),
        decimal(n).len() >= 1,
    decreases n,
{
    if n < 10 {
        let s = decimal(n);
        assert(s.drop_last() =~= Seq::<char>::empty());
        assert(digits_value(s.drop_last()) == Some(0nat));
        assert(s.last() == digit_char(n));
    } else {
        lemma_decimal_reads_back(n / 10);
        let s = decimal(n);
        assert(s.drop_last() =~= decimal(n / 10));
        assert(s.last() == digit_char(n % 10));
    }
}

/// A number written in base ten is made of digits.
pub proof fn lemma_decimal_digits(n: nat)
    ensures
        forall|i: int| 0 <= i < decimal(n).len() ==> is_digit(#[trigger] decimal(n)[i]),
    decreases n,
{
    let s = decimal(n);
    assert(is_digit(digit_char(n % 10)));
    if n >= 10 {
        lemma_decimal_digits(n / 10);
        assert forall|i: int| 0 <= i < s.len() implies is_digit(#[trigger] s[i]) by {
            if i < s.len() - 1 {
                assert(s[i] == decimal(n / 10)[i]);
            }
        }
    }
}

/// A number up to `max` written in base ten is read as itself.
pub proof fn lemma_decimal_parses(n: nat, max: nat)
    requires
        n <= max,
    ensures
        parse_unsigned(decimal(n), max) == Some(n),
{
    lemma_decimal_reads_back(n);
    lemma_decimal_digits(n);
    assert(is_digit(decimal(n)[0]));
}

/// Writes `n` in base ten behind what `out` holds.
pub fn push_decimal(out: &mut Vec<char>, n: u128)
    ensures
        final(out)@ == old(out)@ + decimal(n as nat),
    decreases n,
{
    if n >= 10 {
        push_decimal(out, n / 10);
    }
    let digit = (n % 10) as u8;
    out.push((48u8 + digit) as char);
    proof {
        if n >= 10 {
            assert(final(out)@ =~= old(out)@ + decimal(n as nat));
        } else {
            assert(final(out)@ =~= old(out)@ + decimal(n as nat));
        }
    }
}

/// The number written in base ten.
pub fn decimal_chars(n: u128) -> (chars: Vec<char>)
    ensures
        chars@ == decimal(n as nat),
{
    let mut chars: Vec<char> = Vec::new();
    push_decimal(&mut chars, n);
    assert(chars@ =~= decimal(n as nat));
    chars
}

} // verus!
