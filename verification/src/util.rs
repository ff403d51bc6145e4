//! Small string helpers shared by the other modules.

use vstd::prelude::*;

verus! {

/// The decimal digit character for `d`.
pub open spec fn digit_char(d: nat) -> char {
    if d == 0 {
        '0'
    } else if d == 1 {
        '1'
    } else if d == 2 {
        '2'
    } else if d == 3 {
        '3'
    } else if d == 4 {
        '4'
    } else if d == 5 {
        '5'
    } else if d == 6 {
        '6'
    } else if d == 7 {
        '7'
    } else if d == 8 {
        '8'
    } else {
        '9'
    }
}

/// The shortest decimal rendering of `n`, as `{}` formats an unsigned integer.
pub open spec fn decimal(n: nat) -> Seq<char>
    decreases n,
{
    if n < 10 {
        seq![digit_char(n)]
    } else {
        decimal(n / 10).push(digit_char(n % 10))
    }
}

fn digit_str(d: u32) -> (s: &'static str)
    requires
        d < 10,
    ensures
        s@ == seq![digit_char(d as nat)],
{
    if d == 0 {
        proof { reveal_strlit("0"); }
        "0"
    } else if d == 1 {
        proof { reveal_strlit("1"); }
        "1"
    } else if d == 2 {
        proof { reveal_strlit("2"); }
        "2"
    } else if d == 3 {
        proof { reveal_strlit("3"); }
        "3"
    } else if d == 4 {
        proof { reveal_strlit("4"); }
        "4"
    } else if d == 5 {
        proof { reveal_strlit("5"); }
        "5"
    } else if d == 6 {
        proof { reveal_strlit("6"); }
        "6"
    } else if d == 7 {
        proof { reveal_strlit("7"); }
        "7"
    } else if d == 8 {
        proof { reveal_strlit("8"); }
        "8"
    } else {
        proof { reveal_strlit("9"); }
        "9"
    }
}

/// Appends the decimal rendering of `n` to `s`.
pub fn push_decimal(s: &mut String, n: u32)
    ensures
        final(s)@ == old(s)@ + decimal(n as nat),
    decreases n,
{
    if n >= 10 {
        push_decimal(s, n / 10);
    }
    s.append(digit_str(n % 10));
}

} // verus!

verus! {

/// Whether `c` is an ASCII decimal digit.
pub open spec fn is_digit(c: char) -> bool {
    48 <= (c as u32) <= 57
}

/// Whether every character of `s` is an ASCII decimal digit.
pub open spec fn all_digits(s: Seq<char>) -> bool {
    forall|i: int| 0 <= i < s.len() ==> is_digit(#[trigger] s[i])
}

/// The number that a string of decimal digits denotes.
pub open spec fn digits_value(s: Seq<char>) -> nat
    decreases s.len(),
{
    if s.len() == 0 {
        0
    } else {
        digits_value(s.drop_last()) * 10 + ((s.last() as u32) - 48) as nat
    }
}

/// What `str::parse` makes of a decimal integer, before the range check of the target type:
/// an optional sign (`-` only for a signed type) followed by at least one ASCII digit.
pub open spec fn parse_int_spec(s: Seq<char>, signed: bool) -> Option<int> {
    if s.len() == 0 {
        None
    } else if s.len() == 1 && (s[0] == '+' || s[0] == '-') {
        None
    } else if s[0] == '+' {
        if all_digits(s.drop_first()) {
            Some(digits_value(s.drop_first()) as int)
        } else {
            None
        }
    } else if s[0] == '-' && signed {
        if all_digits(s.drop_first()) {
            Some(-(digits_value(s.drop_first()) as int))
        } else {
            None
        }
    } else if all_digits(s) {
        Some(digits_value(s) as int)
    } else {
        None
    }
}

/// What `s.parse::<u32>()` returns, with the error dropped.
pub open spec fn parse_u32_spec(s: Seq<char>) -> Option<u32> {
    match parse_int_spec(s, false) {
        Some(v) => if 0 <= v <= u32::MAX {
            Some(v as u32)
        } else {
            None
        },
        None => None,
    }
}

/// What `s.parse::<i32>()` returns, with the error dropped.
pub open spec fn parse_i32_spec(s: Seq<char>) -> Option<i32> {
    match parse_int_spec(s, true) {
        Some(v) => if i32::MIN <= v <= i32::MAX {
            Some(v as i32)
        } else {
            None
        },
        None => None,
    }
}

/// The value of a digit string, capped just above the `u32` range.
pub open spec fn capped_value(s: Seq<char>) -> nat {
    if digits_value(s) > 0x1_0000_0000 {
        0x1_0000_0001
    } else {
        digits_value(s)
    }
}

proof fn lemma_digits_value_grows(s: Seq<char>, c: char)
    requires
        is_digit(c),
    ensures
        digits_value(s.push(c)) == digits_value(s) * 10 + ((c as u32) - 48) as nat,
        digits_value(s.push(c)) >= digits_value(s),
{
    assert(s.push(c).drop_last() =~= s);
}

/// Reads the digits of `s` from position `start` on: `None` when a character is not a digit,
/// else their value, capped at `2^32 + 1`.
fn scan_digits(s: &str, start: usize) -> (r: Option<u64>)
    requires
        start <= s@.len(),
    ensures
        r is None <==> !all_digits(s@.skip(start as int)),
        r matches Some(v) ==> v == capped_value(s@.skip(start as int)),
{
    let n = s.unicode_len();
    let mut acc: u64 = 0;
    let mut i = start;
    assert(s@.subrange(start as int, start as int) =~= Seq::<char>::empty());
    while i < n
        invariant
            n == s@.len(),
            start <= i <= n,
            all_digits(s@.subrange(start as int, i as int)),
            acc == capped_value(s@.subrange(start as int, i as int)),
        decreases n - i,
    {
        let c = s.get_char(i);
        let code = c as u32;
        if code < 48 || code > 57 {
            assert(!is_digit(s@.skip(start as int)[i - start]));
            return None;
        }
        let ghost pre = s@.subrange(start as int, i as int);
        assert(s@.subrange(start as int, i + 1) =~= pre.push(c));
        proof {
            lemma_digits_value_grows(pre, c);
        }
        if acc <= 0x1_0000_0000 {
            acc = acc * 10 + (code - 48) as u64;
            if acc > 0x1_0000_0000 {
                acc = 0x1_0000_0001;
            }
        }
        i = i + 1;
    }
    assert(s@.subrange(start as int, n as int) =~= s@.skip(start as int));
    Some(acc)
}

/// `s.parse::<u32>().ok()`.
pub fn str_to_u32(s: &String) -> (r: Option<u32>)
    ensures
        r == parse_u32_spec(s@),
{
    let t = s.as_str();
    let n = t.unicode_len();
    if n == 0 {
        return None;
    }
    let c0 = t.get_char(0);
    if n == 1 && (c0 == '+' || c0 == '-') {
        return None;
    }
    let start: usize = if c0 == '+' { 1 } else { 0 };
    assert(t@.skip(1) =~= t@.drop_first());
    assert(t@.skip(0) =~= t@);
    match scan_digits(t, start) {
        None => None,
        Some(v) => if v <= 0xffff_ffffu64 {
            Some(v as u32)
        } else {
            None
        },
    }
}

/// `s.parse::<i32>().ok()`.
pub fn str_to_i32(s: &String) -> (r: Option<i32>)
    ensures
        r == parse_i32_spec(s@),
{
    let t = s.as_str();
    let n = t.unicode_len();
    if n == 0 {
        return None;
    }
    let c0 = t.get_char(0);
    if n == 1 && (c0 == '+' || c0 == '-') {
        return None;
    }
    let negative = c0 == '-';
    let start: usize = if c0 == '+' || negative { 1 } else { 0 };
    assert(t@.skip(1) =~= t@.drop_first());
    assert(t@.skip(0) =~= t@);
    match scan_digits(t, start) {
        None => None,
        Some(v) => if negative {
            if v <= 0x8000_0000u64 {
                let w: i64 = -(v as i64);
                Some(w as i32)
            } else {
                None
            }
        } else if v <= 0x7fff_ffffu64 {
            Some(v as i32)
        } else {
            None
        },
    }
}

} // verus!

verus! {

proof fn lemma_digit_char(d: nat)
    requires
        d < 10,
    ensures
        is_digit(digit_char(d)),
        (digit_char(d) as u32) - 48 == d,
        digit_char(d) != '+',
        digit_char(d) != '-',
{
    assert(('0' as u32) == 48);
    assert(('1' as u32) == 49);
    assert(('2' as u32) == 50);
    assert(('3' as u32) == 51);
    assert(('4' as u32) == 52);
    assert(('5' as u32) == 53);
    assert(('6' as u32) == 54);
    assert(('7' as u32) == 55);
    assert(('8' as u32) == 56);
    assert(('9' as u32) == 57);
}

/// The decimal rendering of `n` is a string of digits that denotes `n`.
pub proof fn lemma_decimal_denotes(n: nat)
    ensures
        all_digits(decimal(n)),
        digits_value(decimal(n)) == n,
        decimal(n).len() >= 1,
        is_digit(decimal(n)[0]),
    decreases n,
{
    if n < 10 {
        lemma_digit_char(n);
        assert(decimal(n).drop_last() =~= Seq::<char>::empty());
        assert(digits_value(decimal(n)) == digits_value(Seq::<char>::empty()) * 10 + ((digit_char(n) as u32) - 48) as nat);
    } else {
        lemma_decimal_denotes(n / 10);
        lemma_digit_char(n % 10);
        let s = decimal(n / 10);
        assert(decimal(n).drop_last() =~= s);
        assert(decimal(n).last() == digit_char(n % 10));
        assert(digits_value(decimal(n)) == digits_value(s) * 10 + ((digit_char(n % 10) as u32) - 48) as nat);
        assert((n / 10) * 10 + n % 10 == n) by (nonlinear_arith);
        assert forall|i: int| 0 <= i < decimal(n).len() implies is_digit(#[trigger] decimal(n)[i]) by {
            if i < s.len() {
                assert(decimal(n)[i] == s[i]);
            }
        }
    }
}

/// Parsing the decimal rendering of a `u32` gives the number back: what klint prints of an
/// expectation bound reads back as the same bound.
pub proof fn lemma_decimal_parses_back(n: u32)
    ensures
        parse_u32_spec(decimal(n as nat)) == Some(n),
        parse_i32_spec(decimal(n as nat)) == (if n <= i32::MAX { Some(n as i32) } else { None::<i32> }),
{
    lemma_decimal_denotes(n as nat);
    let s = decimal(n as nat);
    assert(s[0] != '+' && s[0] != '-') by {
        assert(is_digit(s[0]));
        assert(('+' as u32) == 43);
        assert(('-' as u32) == 45);
    }
}

} // verus!
