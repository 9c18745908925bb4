//! Numbers in decimal notation: reading them from text and writing them.

use vstd::prelude::*;

use crate::text;

verus! {

/// A decimal digit.
pub open spec fn is_digit(c: char) -> bool {
    '0' <= c <= '9'
}

/// The value of a decimal digit.
pub open spec fn digit_value(c: char) -> nat {
    (c as u32 - '0' as u32) as nat
}

/// The digit with the given value.
pub open spec fn digit(n: nat) -> char {
    ('0' as u32 + n) as char
}

/// One digit or more, and nothing else.
pub open spec fn is_numeral(s: Seq<char>) -> bool {
    s.len() > 0 && forall|i: int| 0 <= i < s.len() ==> is_digit(#[trigger] s[i])
}

/// The number that a run of digits stands for.
pub open spec fn numeral_value(s: Seq<char>) -> nat
    decreases s.len(),
{
    if s.len() == 0 {
        0
    } else {
        numeral_value(s.drop_last()) * 10 + digit_value(s.last())
    }
}

/// `s` without the sign `+` in front, if it has one.
pub open spec fn without_plus(s: Seq<char>) -> Seq<char> {
    if s.len() > 0 && s[0] == '+' {
        s.drop_first()
    } else {
        s
    }
}

/// The number that `s` spells: digits, with or without a `+` in front.
pub open spec fn spelled_nat(s: Seq<char>) -> Option<nat> {
    if is_numeral(without_plus(s)) {
        Some(numeral_value(without_plus(s)))
    } else {
        None
    }
}

/// The number that `s` spells, if it is no larger than `max`.
pub open spec fn spelled_up_to(s: Seq<char>, max: nat) -> Option<nat> {
    match spelled_nat(s) {
        Some(n) if n <= max => Some(n),
        _ => None,
    }
}

/// The integer that `s` spells: digits, with or without a sign in front.
pub open spec fn spelled_int(s: Seq<char>) -> Option<int> {
    if s.len() > 0 && s[0] == '-' {
        if is_numeral(s.drop_first()) {
            Some(-(numeral_value(s.drop_first()) as int))
        } else {
            None
        }
    } else {
        match spelled_nat(s) {
            Some(n) => Some(n as int),
            None => None,
        }
    }
}

/// The decimal notation of `n`, without leading zeros.
pub open spec fn decimal(n: nat) -> Seq<char>
    decreases n,
{
    if n < 10 {
        seq![digit(n)]
    } else {
        decimal(n / 10).push(digit(n % 10))
    }
}

/// A numeral is worth at least as much as any numeral that it begins with.
proof fn lemma_value_grows(s: Seq<char>, k: int)
    requires
        0 <= k <= s.len(),
    ensures
        numeral_value(s.take(k)) <= numeral_value(s),
    decreases s.len() - k,
{
    if k == s.len() {
        assert(s.take(k) =~= s);
    } else {
        assert(s.take(k + 1).drop_last() =~= s.take(k));
        lemma_value_grows(s, k + 1);
    }
}

/// The value of the digits from `from` on, if it is no larger than `max`.
fn value_of_digits(cs: &Vec<char>, from: usize, max: u64) -> (res: Option<u64>)
    requires
        from <= cs@.len(),
    ensures
        match res {
            Some(n) => is_numeral(cs@.skip(from as int)) && numeral_value(cs@.skip(from as int))
                == n && n <= max,
            None => !is_numeral(cs@.skip(from as int)) || numeral_value(cs@.skip(from as int))
                > max,
        },
{
    let ghost all = cs@.skip(from as int);
    if from == cs.len() {
        return None;
    }
    let mut value: u64 = 0;
    let mut i: usize = from;
    while i < cs.len()
        invariant
            from <= i <= cs@.len(),
            all == cs@.skip(from as int),
            forall|j: int| 0 <= j < i - from ==> is_digit(#[trigger] all[j]),
            value == numeral_value(all.take(i - from)),
            value <= max,
        decreases cs@.len() - i,
    {
        let c = cs[i];
        assert(all[i - from] == c);
        if c < '0' || '9' < c {
            return None;
        }
        let d: u64 = (c as u32 - '0' as u32) as u64;
        proof {
            assert(all.take(i - from + 1).drop_last() =~= all.take(i - from));
            assert(numeral_value(all.take(i - from + 1)) == value * 10 + d);
            lemma_value_grows(all, i - from + 1);
        }
        if max / 10 < value || max - value * 10 < d {
            return None;
        }
        value = value * 10 + d;
        i += 1;
    }
    assert(all.take(i - from) =~= all);
    Some(value)
}

/// Reads a number no larger than `max`.
pub fn parse_up_to(s: &str, max: u64) -> (res: Option<u64>)
    ensures
        match res {
            Some(n) => spelled_up_to(s@, max as nat) == Some(n as nat),
            None => spelled_up_to(s@, max as nat) is None,
        },
{
    let cs = text::to_chars(s);
    let from: usize = if cs.len() > 0 && cs[0] == '+' { 1 } else { 0 };
    assert(without_plus(s@) =~= cs@.skip(from as int));
    value_of_digits(&cs, from, max)
}

/// Reads a `u64`.
pub fn parse_u64(s: &str) -> (res: Option<u64>)
    ensures
        match res {
            Some(n) => spelled_up_to(s@, u64::MAX as nat) == Some(n as nat),
            None => spelled_up_to(s@, u64::MAX as nat) is None,
        },
{
    parse_up_to(s, u64::MAX)
}

/// Reads a `u32`.
pub fn parse_u32(s: &str) -> (res: Option<u32>)
    ensures
        match res {
            Some(n) => spelled_up_to(s@, u32::MAX as nat) == Some(n as nat),
            None => spelled_up_to(s@, u32::MAX as nat) is None,
        },
{
    match parse_up_to(s, u32::MAX as u64) {
        Some(n) => Some(n as u32),
        None => None,
    }
}

/// Reads a `u8`.
pub fn parse_u8(s: &str) -> (res: Option<u8>)
    ensures
        match res {
            Some(n) => spelled_up_to(s@, u8::MAX as nat) == Some(n as nat),
            None => spelled_up_to(s@, u8::MAX as nat) is None,
        },
{
    match parse_up_to(s, u8::MAX as u64) {
        Some(n) => Some(n as u8),
        None => None,
    }
}

/// Reads a `usize`.
pub fn parse_usize(s: &str) -> (res: Option<usize>)
    ensures
        match res {
            Some(n) => spelled_up_to(s@, usize::MAX as nat) == Some(n as nat),
            None => spelled_up_to(s@, usize::MAX as nat) is None,
        },
{
    match parse_up_to(s, usize::MAX as u64) {
        Some(n) => Some(n as usize),
        None => None,
    }
}

/// Reads an `i32`.
pub fn parse_i32(s: &str) -> (res: Option<i32>)
    ensures
        match res {
            Some(n) => spelled_int(s@) == Some(n as int),
            None => spelled_int(s@) matches Some(n) ==> n < i32::MIN || i32::MAX < n,
        },
{
    let cs = text::to_chars(s);
    if cs.len() > 0 && cs[0] == '-' {
        assert(s@.drop_first() =~= cs@.skip(1));
        match value_of_digits(&cs, 1, 0x8000_0000) {
            Some(n) => Some((-(n as i64)) as i32),
            None => None,
        }
    } else {
        match parse_up_to(s, i32::MAX as u64) {
            Some(n) => Some(n as i32),
            None => None,
        }
    }
}

/// The digit with the given value, as a character.
fn digit_char(n: u64) -> (res: char)
    requires
        n < 10,
    ensures
        res == digit(n as nat),
{
    (n as u8 + '0' as u8) as char
}

/// Appends the decimal notation of `n`.
pub fn push_decimal(out: &mut String, n: u64)
    ensures
        final(out)@ == old(out)@ + decimal(n as nat),
    decreases n,
{
    if n >= 10 {
        push_decimal(out, n / 10);
    }
    out.push(digit_char(n % 10));
    assert(out@ =~= old(out)@ + decimal(n as nat));
}

/// Writing a number and reading it gives the number back.
pub proof fn law_decimal_reads_back(n: nat)
    ensures
        is_numeral(decimal(n)),
        numeral_value(decimal(n)) == n,
        spelled_nat(decimal(n)) == Some(n),
    decreases n,
{
    let last = if n < 10 {
        n
    } else {
        n % 10
    };
    assert(digit_value(digit(last)) == last);
    assert(decimal(n).last() == digit(last));
    if n < 10 {
        let none: Seq<char> = seq![];
        assert(decimal(n).drop_last() =~= none);
        assert(numeral_value(none) == 0);
    } else {
        law_decimal_reads_back(n / 10);
        assert(decimal(n).drop_last() =~= decimal(n / 10));
    }
    assert(is_digit(decimal(n)[0]));
}

/// Different numbers are written differently.
pub proof fn law_decimal_is_injective(a: nat, b: nat)
    requires
        decimal(a) == decimal(b),
    ensures
        a == b,
{
    law_decimal_reads_back(a);
    law_decimal_reads_back(b);
}

/// Writing an integer, with a minus sign if it is negative, and reading it gives
/// the integer back.
pub proof fn law_integer_reads_back(n: nat)
    ensures
        spelled_int(decimal(n)) == Some(n as int),
        spelled_int(seq!['-'] + decimal(n)) == Some(-(n as int)),
{
    law_decimal_reads_back(n);
    assert((seq!['-'] + decimal(n)).drop_first() =~= decimal(n));
    assert(is_digit(decimal(n)[0]));
}

/// A number that is written on a line of its own is read back once the text is
/// trimmed, if it is no larger than it may be.
pub proof fn law_written_number_is_read(n: nat, max: nat)
    ensures
        spelled_up_to(text::trimmed(decimal(n) + "\n"@), max) == (if n <= max {
            Some(n)
        } else {
            None
        }),
{
    let digits = decimal(n);
    law_decimal_reads_back(n);
    reveal_strlit("\n");
    text::law_padding_is_irrelevant(seq![], digits, "\n"@);
    assert(seq![] + digits + "\n"@ =~= digits + "\n"@);
    text::law_trimmed_text_stays(digits);
}

/// A number is spelled digit by digit: each digit behind the others makes it ten
/// times as large and adds its own value.
pub proof fn law_each_digit_counts_ten_times(s: Seq<char>, c: char)
    requires
        s.len() > 0,
        forall|i: int| 0 <= i < s.len() ==> '0' <= #[trigger] s[i] <= '9',
        '0' <= c <= '9',
    ensures
        spelled_nat(seq![c]) == Some((c as u32 - '0' as u32) as nat),
        spelled_nat(s) is Some,
        spelled_nat(s.push(c)) == Some(
            (10 * spelled_nat(s)->0 + (c as u32 - '0' as u32)) as nat,
        ),
{
    let one = seq![c];
    let none: Seq<char> = seq![];
    assert('0' <= s[0] <= '9');
    assert(one.drop_last() =~= none);
    assert(numeral_value(none) == 0);
    assert(without_plus(one) == one);
    let more = s.push(c);
    assert(more[0] == s[0]);
    assert(more.drop_last() =~= s);
    assert forall|i: int| 0 <= i < more.len() implies is_digit(#[trigger] more[i]) by {
        if i < s.len() {
            assert(more[i] == s[i]);
        }
    }
    assert forall|i: int| 0 <= i < s.len() implies is_digit(#[trigger] s[i]) by {}
}

/// A plus sign in front makes no difference, and a minus sign makes an integer
/// its opposite.
pub proof fn law_signs_in_front(s: Seq<char>)
    requires
        s.len() > 0,
        forall|i: int| 0 <= i < s.len() ==> '0' <= #[trigger] s[i] <= '9',
    ensures
        spelled_nat(seq!['+'] + s) == spelled_nat(s),
        spelled_nat(s) matches Some(n) && spelled_int(s) == Some(n as int) && spelled_int(
            seq!['+'] + s,
        ) == Some(n as int) && spelled_int(seq!['-'] + s) == Some(-(n as int)),
{
    assert('0' <= s[0] <= '9');
    assert forall|i: int| 0 <= i < s.len() implies is_digit(#[trigger] s[i]) by {}
    assert((seq!['+'] + s).drop_first() =~= s);
    assert((seq!['-'] + s).drop_first() =~= s);
}

/// What holds anything but digits, a sign in front left aside, spells no number,
/// and neither does a sign alone or nothing at all.
pub proof fn law_only_digits_spell_a_number(s: Seq<char>, i: int)
    requires
        s.len() == 0 || (0 <= i < s.len() && !('0' <= s[i] <= '9')),
    ensures
        spelled_nat(s) is None || (i == 0 && s.len() > 0 && s[0] == '+'),
        spelled_int(s) is None || (i == 0 && s.len() > 0 && (s[0] == '+' || s[0] == '-')),
        spelled_nat(seq!['+'] + s) is None,
        spelled_int(seq!['+'] + s) is None,
        spelled_int(seq!['-'] + s) is None,
{
    assert((seq!['+'] + s).drop_first() =~= s);
    assert((seq!['-'] + s).drop_first() =~= s);
    if s.len() > 0 {
        assert(!is_digit(s[i]));
        if i > 0 {
            assert(s.drop_first()[i - 1] == s[i]);
        }
    }
}

/// A number counts up to the limit and not above it.
pub proof fn law_numbers_count_up_to_the_limit(s: Seq<char>, max: nat, n: nat)
    ensures
        (spelled_up_to(s, max) == Some(n)) == (spelled_nat(s) == Some(n) && n <= max),
{
}

/// A number is written without zeros in front.
pub proof fn law_no_zeros_in_front(n: nat)
    ensures
        n == 0 ==> decimal(n) == seq!['0'],
        n > 0 ==> decimal(n).len() > 0 && '1' <= decimal(n)[0] <= '9',
    decreases n,
{
    if n >= 10 {
        law_no_zeros_in_front(n / 10);
        assert(decimal(n)[0] == decimal(n / 10)[0]);
    }
}

} // verus!
