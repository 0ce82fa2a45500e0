//! Reading and writing text character by character.

use vstd::prelude::*;

verus! {

/// `text` begins with `prefix`.
pub open spec fn begins(text: Seq<char>, prefix: Seq<char>) -> bool {
    prefix.len() <= text.len() && text.take(prefix.len() as int) == prefix
}

/// Whether `text` begins with `prefix`.
pub fn starts_with(text: &str, prefix: &str) -> (starts: bool)
    ensures
        starts == begins(text@, prefix@),
{
    let len = prefix.unicode_len();
    if text.unicode_len() < len {
        return false;
    }
    let mut i: usize = 0;
    while i < len
        invariant
            len == prefix@.len(),
            len <= text@.len(),
            i <= len,
            forall|j: int| 0 <= j < i ==> text@[j] == prefix@[j],
        decreases len - i,
    {
        if text.get_char(i) != prefix.get_char(i) {
            assert(text@.take(len as int)[i as int] != prefix@[i as int]);
            return false;
        }
        i = i + 1;
    }
    assert(text@.take(len as int) =~= prefix@);
    true
}

/// Whether two texts read the same.
pub fn same_text(a: &str, b: &str) -> (same: bool)
    ensures
        same == (a@ == b@),
{
    if a.unicode_len() != b.unicode_len() {
        return false;
    }
    let same = starts_with(a, b);
    assert(a@.take(b@.len() as int) =~= a@);
    same
}

/// The digit for a number below ten.
pub open spec fn digit(n: nat) -> char {
    seq!['0', '1', '2', '3', '4', '5', '6', '7', '8', '9'][n as int]
}

/// A number in decimal.
pub open spec fn decimal(n: nat) -> Seq<char>
    decreases n,
{
    if n < 10 {
        seq![digit(n)]
    } else {
        decimal(n / 10).push(digit(n % 10))
    }
}

fn digit_text(n: u64) -> (text: &'static str)
    requires
        n < 10,
    ensures
        text@ == seq![digit(n as nat)],
{
    proof {
        reveal_strlit("0");
        reveal_strlit("1");
        reveal_strlit("2");
        reveal_strlit("3");
        reveal_strlit("4");
        reveal_strlit("5");
        reveal_strlit("6");
        reveal_strlit("7");
        reveal_strlit("8");
        reveal_strlit("9");
    }
    let text = match n {
        0 => "0",
        1 => "1",
        2 => "2",
        3 => "3",
        4 => "4",
        5 => "5",
        6 => "6",
        7 => "7",
        8 => "8",
        _ => "9",
    };
    assert(text@ =~= seq![digit(n as nat)]);
    text
}

/// A number in decimal.
pub fn number_text(n: u64) -> (text: String)
    ensures
        text@ == decimal(n as nat),
    decreases n,
{
    if n < 10 {
        digit_text(n).to_owned()
    } else {
        let mut text = number_text(n / 10);
        text.append(digit_text(n % 10));
        assert(text@ =~= decimal(n as nat));
        text
    }
}

/// A character with the White_Space property of Unicode.
pub open spec fn blank(c: char) -> bool {
    let code = c as u32;
    ||| 0x9 <= code <= 0xd
    ||| code == 0x20
    ||| code == 0x85
    ||| code == 0xa0
    ||| code == 0x1680
    ||| 0x2000 <= code <= 0x200a
    ||| code == 0x2028
    ||| code == 0x2029
    ||| code == 0x202f
    ||| code == 0x205f
    ||| code == 0x3000
}

fn is_blank_char(c: char) -> (is: bool)
    ensures
        is == blank(c),
{
    let code = c as u32;
    (0x9 <= code && code <= 0xd) || code == 0x20 || code == 0x85 || code == 0xa0 || code == 0x1680
        || (0x2000 <= code && code <= 0x200a) || code == 0x2028 || code == 0x2029 || code == 0x202f
        || code == 0x205f || code == 0x3000
}

/// The text has no more than blanks.
pub open spec fn all_blank(text: Seq<char>) -> bool {
    forall|i: int| 0 <= i < text.len() ==> blank(#[trigger] text[i])
}

/// Whether the text has no more than blanks.
pub fn is_blank(text: &str) -> (is: bool)
    ensures
        is == all_blank(text@),
{
    let len = text.unicode_len();
    let mut i: usize = 0;
    while i < len
        invariant
            len == text@.len(),
            i <= len,
            forall|j: int| 0 <= j < i ==> blank(#[trigger] text@[j]),
        decreases len - i,
    {
        if !is_blank_char(text.get_char(i)) {
            return false;
        }
        i = i + 1;
    }
    true
}

/// `c` is first at `at` in the text.
pub open spec fn first_char_at(text: Seq<char>, c: char, at: int) -> bool {
    &&& 0 <= at < text.len()
    &&& text[at] == c
    &&& forall|i: int| 0 <= i < at ==> #[trigger] text[i] != c
}

/// Where `c` first is in the text.
pub fn find_char(text: &str, c: char) -> (at: Option<usize>)
    ensures
        match at {
            Some(at) => first_char_at(text@, c, at as int),
            None => !text@.contains(c),
        },
{
    let len = text.unicode_len();
    let mut i: usize = 0;
    while i < len
        invariant
            len == text@.len(),
            i <= len,
            forall|j: int| 0 <= j < i ==> #[trigger] text@[j] != c,
        decreases len - i,
    {
        if text.get_char(i) == c {
            return Some(i);
        }
        i = i + 1;
    }
    None
}

/// A decimal digit.
pub open spec fn decimal_digit(c: char) -> bool {
    0x30 <= c as u32 <= 0x39
}

/// What decimal digits stand for.
pub open spec fn value_of(digits: Seq<char>) -> nat
    decreases digits.len(),
{
    if digits.len() == 0 {
        0
    } else {
        value_of(digits.drop_last()) * 10 + (digits.last() as u32 - 0x30) as nat
    }
}

/// The digits of a number with or without a plus sign.
pub open spec fn unsigned(text: Seq<char>) -> Seq<char> {
    if text.len() > 0 && text[0] == '+' {
        text.skip(1)
    } else {
        text
    }
}

/// The number that a text is, if it is one below 2 to the power of 64.
pub open spec fn number_of(text: Seq<char>) -> Option<u64> {
    let digits = unsigned(text);
    if digits.len() > 0 && (forall|i: int|
        0 <= i < digits.len() ==> decimal_digit(#[trigger] digits[i])) && value_of(digits)
        <= u64::MAX {
        Some(value_of(digits) as u64)
    } else {
        None
    }
}

proof fn lemma_value_grows(digits: Seq<char>, at: int)
    requires
        0 <= at <= digits.len(),
    ensures
        value_of(digits.take(at)) <= value_of(digits),
    decreases digits.len(),
{
    if at == digits.len() {
        assert(digits.take(at) =~= digits);
    } else {
        let shorter = digits.drop_last();
        lemma_value_grows(shorter, at);
        assert(shorter.take(at) =~= digits.take(at));
    }
}

/// The number that a text is.
pub fn parse_number(text: &str) -> (number: Option<u64>)
    ensures
        number == number_of(text@),
{
    let len = text.unicode_len();
    let from: usize = if len > 0 && text.get_char(0) == '+' {
        1
    } else {
        0
    };
    let ghost digits = unsigned(text@);
    assert(digits.len() == len - from);
    assert forall|i: int| 0 <= i < digits.len() implies #[trigger] digits[i] == text@[i + from] by {}
    if from == len {
        return None;
    }
    let mut value: u64 = 0;
    let mut i: usize = from;
    while i < len
        invariant
            len == text@.len(),
            from <= i <= len,
            digits == unsigned(text@),
            digits.len() == len - from,
            digits.len() > 0,
            forall|k: int| 0 <= k < digits.len() ==> #[trigger] digits[k] == text@[k + from],
            forall|k: int| 0 <= k < i - from ==> decimal_digit(#[trigger] digits[k]),
            value == value_of(digits.take(i - from)),
        decreases len - i,
    {
        let c = text.get_char(i);
        let ghost at = i - from;
        assert(digits[at] == c);
        let code = c as u32;
        if code < 0x30 || code > 0x39 {
            assert(!decimal_digit(digits[at]));
            return None;
        }
        let ghost next = digits.take(at + 1);
        assert(next.drop_last() =~= digits.take(at));
        assert(next.last() == c);
        proof {
            lemma_value_grows(digits, at + 1);
        }
        let digit: u64 = (code - 0x30) as u64;
        if value > (u64::MAX - digit) / 10 {
            assert(value * 10 + digit > u64::MAX) by (nonlinear_arith)
                requires
                    value > (u64::MAX - digit) / 10,
                    digit <= 9,
            ;
            return None;
        }
        assert(value * 10 + digit <= u64::MAX) by (nonlinear_arith)
            requires
                value <= (u64::MAX - digit) / 10,
                digit <= 9,
        ;
        value = value * 10 + digit;
        i = i + 1;
    }
    assert(digits.take(len - from) =~= digits);
    Some(value)
}

/// A number reads back as what was written.
pub proof fn a_written_number_reads_back(n: u64)
    ensures
        number_of(decimal(n as nat)) == Some(n),
        !decimal(n as nat).contains(' '),
{
    lemma_decimal(n as nat);
    let text = decimal(n as nat);
    assert(decimal_digit(text[0]));
    assert(unsigned(text) == text);
    if text.contains(' ') {
        let i = text.index_of(' ');
        assert(decimal_digit(text[i]));
    }
}

proof fn lemma_decimal(n: nat)
    ensures
        decimal(n).len() > 0,
        value_of(decimal(n)) == n,
        forall|i: int| 0 <= i < decimal(n).len() ==> decimal_digit(#[trigger] decimal(n)[i]),
    decreases n,
{
    reveal_with_fuel(value_of, 2);
    let text = decimal(n);
    if n < 10 {
        assert(text.drop_last() =~= Seq::<char>::empty());
        assert(decimal_digit(digit(n)) && digit(n) as u32 - 0x30 == n);
    } else {
        lemma_decimal(n / 10);
        assert(text.drop_last() =~= decimal(n / 10));
        let last = n % 10;
        assert(decimal_digit(digit(last)) && digit(last) as u32 - 0x30 == last);
        assert forall|i: int| 0 <= i < text.len() implies decimal_digit(#[trigger] text[i]) by {
            if i < text.len() - 1 {
                assert(text[i] == decimal(n / 10)[i]);
            }
        }
    }
}

/// A text begins with another if it is that with something behind.
pub proof fn what_a_text_begins_with(text: Seq<char>, prefix: Seq<char>, rest: Seq<char>)
    ensures
        begins(prefix + rest, prefix),
        begins(text, prefix) ==> text == prefix + text.skip(prefix.len() as int),
{
    assert((prefix + rest).take(prefix.len() as int) =~= prefix);
    if begins(text, prefix) {
        assert(text =~= text.take(prefix.len() as int) + text.skip(prefix.len() as int));
    }
}

/// One more digit makes a number ten times as large and adds itself.
pub proof fn one_more_digit(digits: Seq<char>, c: char)
    requires
        decimal_digit(c),
    ensures
        value_of(Seq::empty()) == 0,
        value_of(digits.push(c)) == 10 * value_of(digits) + (c as u32 - '0' as u32),
{
    assert(digits.push(c).drop_last() =~= digits);
}

/// A number is written with its last digit last.
pub proof fn how_a_number_is_written(n: nat)
    ensures
        decimal(n).len() >= 1,
        decimal(n).last() as u32 == '0' as u32 + n % 10,
        n < 10 ==> decimal(n).len() == 1,
        n >= 10 ==> decimal(n).drop_last() == decimal(n / 10),
{
    let last = n % 10;
    assert(digit(last) as u32 == 0x30 + last);
    if n >= 10 {
        assert(decimal(n / 10).push(digit(last)).drop_last() =~= decimal(n / 10));
    } else {
        assert(n % 10 == n);
    }
}

/// A text is a number if it is digits, with or without a plus sign before them, and not too
/// large.
pub proof fn which_texts_are_numbers(digits: Seq<char>, i: int, text: Seq<char>)
    ensures
        number_of(Seq::empty()) is None,
        number_of(seq!['+']) is None,
        0 <= i < digits.len() && !(('0' as u32) <= digits[i] as u32 <= ('9' as u32)) && i > 0
            ==> number_of(digits) is None,
        digits.len() > 0 && digits[0] != '+' && !(('0' as u32) <= digits[0] as u32 <= (
        '9' as u32)) ==> number_of(digits) is None,
        digits.len() > 0 && (forall|k: int|
            0 <= k < digits.len() ==> decimal_digit(#[trigger] digits[k])) && value_of(digits)
            <= u64::MAX ==> number_of(digits) == Some(value_of(digits) as u64) && number_of(
            seq!['+'] + digits,
        ) == Some(value_of(digits) as u64),
        value_of(unsigned(text)) > u64::MAX ==> number_of(text) is None,
        number_of(seq!['+'] + (seq!['+'] + digits)) is None,
{
    assert(seq!['+'].skip(1) =~= Seq::<char>::empty());
    assert((seq!['+'] + digits).skip(1) =~= digits);
    let twice = seq!['+'] + (seq!['+'] + digits);
    assert(twice.skip(1) =~= seq!['+'] + digits);
    assert(twice.skip(1)[0] == '+');
    assert(!decimal_digit(twice.skip(1)[0]));
    if 0 <= i < digits.len() && !decimal_digit(digits[i]) && i > 0 {
        if digits[0] == '+' {
            assert(digits.skip(1)[i - 1] == digits[i]);
            assert(!decimal_digit(unsigned(digits)[i - 1]));
        } else {
            assert(!decimal_digit(unsigned(digits)[i]));
        }
    }
    if digits.len() > 0 && digits[0] != '+' && !decimal_digit(digits[0]) {
        assert(!decimal_digit(unsigned(digits)[0]));
    }
    if digits.len() > 0 && (forall|k: int|
        0 <= k < digits.len() ==> decimal_digit(#[trigger] digits[k])) {
        assert(decimal_digit(digits[0]));
    }
}

/// The blanks below 128 are the tab, the four line ends and the space; no letter, digit or
/// mark is one.
pub proof fn which_characters_are_blank(c: char)
    ensures
        blank(' ') && blank('\t') && blank('\n') && blank('\r'),
        0x20 < c as u32 <= 0x7f ==> !blank(c),
        0x9 > c as u32 ==> !blank(c),
        0xd < c as u32 && 0x20 > c as u32 ==> !blank(c),
        blank(c) <==> 0x9 <= c as u32 <= 0xd || c as u32 == 0x20 || c as u32 == 0x85 || c as u32
            == 0xa0 || c as u32 == 0x1680 || 0x2000 <= c as u32 <= 0x200a || c as u32 == 0x2028
            || c as u32 == 0x2029 || c as u32 == 0x202f || c as u32 == 0x205f || c as u32 == 0x3000,
{
}

} // verus!
