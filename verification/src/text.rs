//! Text helpers: ASCII case, decimal numbers and prefixes.

use vstd::prelude::*;
use vstd::string::*;

verus! {

/// The lower-case form of an ASCII letter; any other character unchanged.
pub open spec fn ascii_lower(c: char) -> char {
    if 'A' <= c <= 'Z' {
        (c as u32 + 32) as char
    } else {
        c
    }
}

/// Whether two texts are equal when the case of ASCII letters is ignored.
pub open spec fn same_ignoring_case(a: Seq<char>, b: Seq<char>) -> bool {
    &&& a.len() == b.len()
    &&& forall|i: int| 0 <= i < a.len() ==> ascii_lower(#[trigger] a[i]) == ascii_lower(b[i])
}

/// The text of an optional string.
pub open spec fn text_of(text: Option<String>) -> Option<Seq<char>> {
    match text {
        Some(found) => Some(found@),
        None => None,
    }
}

/// The text of an optional string slice.
pub open spec fn str_of(text: Option<&str>) -> Option<Seq<char>> {
    match text {
        Some(found) => Some(found@),
        None => None,
    }
}

/// The digit that stands for `d`.
pub open spec fn digit_char(d: nat) -> char {
    (d + 48) as char
}

/// The decimal digits of `n`, without leading zeros.
pub open spec fn decimal_text(n: nat) -> Seq<char>
    decreases n,
{
    if n < 10 {
        seq![digit_char(n)]
    } else {
        decimal_text(n / 10).push(digit_char(n % 10))
    }
}

/// Whether `c` is an ASCII digit.
pub open spec fn is_digit(c: char) -> bool {
    '0' <= c <= '9'
}

/// The number that a text of ASCII digits is the decimal form of.
pub open spec fn decimal_value(digits: Seq<char>) -> nat
    decreases digits.len(),
{
    if digits.len() == 0 {
        0
    } else {
        decimal_value(digits.drop_last()) * 10 + (digits.last() as u32 - 48) as nat
    }
}

/// Whether every character of `text` is an ASCII digit.
pub open spec fn all_digits(text: Seq<char>) -> bool {
    forall|i: int| 0 <= i < text.len() ==> is_digit(#[trigger] text[i])
}

/// `text` without one leading plus sign.
pub open spec fn without_plus(text: Seq<char>) -> Seq<char> {
    if text.len() > 0 && text[0] == '+' {
        text.skip(1)
    } else {
        text
    }
}

/// The `u16` that `text` is the decimal form of: digits, after at most one
/// plus sign, of a number that fits.
pub open spec fn parsed_u16(text: Seq<char>) -> Option<u16> {
    let digits = without_plus(text);
    if digits.len() > 0 && all_digits(digits) && decimal_value(digits) <= u16::MAX {
        Some(decimal_value(digits) as u16)
    } else {
        None
    }
}

/// The characters of `s`.
pub fn to_chars(s: &str) -> (res: Vec<char>)
    ensures
        res@ == s@,
{
    let mut out: Vec<char> = Vec::new();
    for c in it: s.chars()
        invariant
            it.seq() == s@,
            out@ == it.seq().take(it.index() as int),
    {
        out.push(c);
        assert(out@ =~= s@.take(it.index() as int + 1));
    }
    assert(s@.take(s@.len() as int) =~= s@);
    out
}

/// Whether `a` and `b` are the same text.
pub fn same_text(a: &str, b: &str) -> (res: bool)
    ensures
        res == (a@ == b@),
{
    a.to_owned() == b.to_owned()
}

/// Whether `a` and `b` are equal when the case of ASCII letters is ignored.
pub fn eq_ignore_ascii_case(a: &str, b: &str) -> (res: bool)
    ensures
        res == same_ignoring_case(a@, b@),
{
    let a_chars = to_chars(a);
    let b_chars = to_chars(b);
    if a_chars.len() != b_chars.len() {
        return false;
    }
    let mut i: usize = 0;
    while i < a_chars.len()
        invariant
            i <= a_chars.len(),
            a_chars.len() == b_chars.len(),
            a_chars@ == a@,
            b_chars@ == b@,
            forall|k: int| 0 <= k < i ==> ascii_lower(#[trigger] a@[k]) == ascii_lower(b@[k]),
        decreases a_chars.len() - i,
    {
        if to_ascii_lower(a_chars[i]) != to_ascii_lower(b_chars[i]) {
            assert(ascii_lower(a@[i as int]) != ascii_lower(b@[i as int]));
            return false;
        }
        i = i + 1;
    }
    true
}

/// The lower-case form of an ASCII letter; any other character unchanged.
fn to_ascii_lower(c: char) -> (res: char)
    ensures
        res == ascii_lower(c),
{
    if 'A' <= c && c <= 'Z' {
        (c as u8 + 32) as char
    } else {
        c
    }
}

/// Whether `s` begins with `prefix`.
pub fn starts_with(s: &str, prefix: &str) -> (res: bool)
    ensures
        res == prefix@.is_prefix_of(s@),
{
    let s_chars = to_chars(s);
    let p_chars = to_chars(prefix);
    if p_chars.len() > s_chars.len() {
        return false;
    }
    let mut i: usize = 0;
    while i < p_chars.len()
        invariant
            i <= p_chars.len() <= s_chars.len(),
            s_chars@ == s@,
            p_chars@ == prefix@,
            forall|k: int| 0 <= k < i ==> s@[k] == #[trigger] prefix@[k],
        decreases p_chars.len() - i,
    {
        if s_chars[i] != p_chars[i] {
            proof {
                assert(s@.subrange(0, prefix@.len() as int)[i as int] != prefix@[i as int]);
            }
            return false;
        }
        i = i + 1;
    }
    assert(s@.subrange(0, prefix@.len() as int) =~= prefix@);
    true
}

/// The decimal form of `n`.
pub fn decimal(n: u64) -> (res: String)
    ensures
        res@ == decimal_text(n as nat),
    decreases n,
{
    if n < 10 {
        digit_str(n).to_owned()
    } else {
        let mut res = decimal(n / 10);
        let ghost head = res@;
        res.append(digit_str(n % 10));
        assert(res@ =~= head.push(digit_char((n % 10) as nat)));
        res
    }
}

/// The digit that stands for `d`, as text.
fn digit_str(d: u64) -> (res: &'static str)
    requires
        d < 10,
    ensures
        res@ == seq![digit_char(d as nat)],
{
    proof {
        reveal_strlit("0");
        reveal_strlit("1");
        reveal_strlit("2");
        reveal_strlit("3");
        reveal_strlit("4");
        reveal_strlit("5");
        reveal_strlit("6");
        reveal_strlit("7");
        reveal_strlit("8");
        reveal_strlit("9");
    }
    let res = if d == 0 {
        "0"
    } else if d == 1 {
        "1"
    } else if d == 2 {
        "2"
    } else if d == 3 {
        "3"
    } else if d == 4 {
        "4"
    } else if d == 5 {
        "5"
    } else if d == 6 {
        "6"
    } else if d == 7 {
        "7"
    } else if d == 8 {
        "8"
    } else {
        "9"
    };
    assert(res@ =~= seq![digit_char(d as nat)]);
    res
}

/// A text of digits has a value no smaller than that of any of its prefixes.
proof fn decimal_value_of_prefix(digits: Seq<char>, n: int)
    requires
        0 <= n <= digits.len(),
    ensures
        decimal_value(digits.take(n)) <= decimal_value(digits),
    decreases digits.len() - n,
{
    if n == digits.len() {
        assert(digits.take(n) =~= digits);
    } else {
        decimal_value_of_prefix(digits, n + 1);
        assert(digits.take(n + 1).drop_last() =~= digits.take(n));
    }
}

/// The `u16` that `text` is the decimal form of.
pub fn parse_u16(text: &str) -> (res: Option<u16>)
    ensures
        res == parsed_u16(text@),
{
    let chars = to_chars(text);
    let start: usize = if chars.len() > 0 && chars[0] == '+' {
        1
    } else {
        0
    };
    let ghost digits = without_plus(text@);
    assert(digits =~= text@.skip(start as int));
    if start == chars.len() {
        return None;
    }
    let mut i: usize = start;
    let mut value: u32 = 0;
    assert(digits.take(0) =~= Seq::<char>::empty());
    while i < chars.len()
        invariant
            start <= i <= chars.len(),
            start < chars.len(),
            chars@ == text@,
            digits == text@.skip(start as int),
            digits == without_plus(text@),
            value <= u16::MAX,
            value == decimal_value(digits.take(i - start)),
            forall|k: int| 0 <= k < i - start ==> is_digit(#[trigger] digits[k]),
        decreases chars.len() - i,
    {
        let c = chars[i];
        assert(digits[i - start] == c);
        if !('0' <= c && c <= '9') {
            assert(!is_digit(digits[i - start]));
            return None;
        }
        proof {
            assert(digits.take(i - start + 1).drop_last() =~= digits.take(i - start));
            decimal_value_of_prefix(digits, i - start + 1);
        }
        value = value * 10 + (c as u32 - 48);
        assert(value == decimal_value(digits.take(i - start + 1)));
        if value > 65_535 {
            return None;
        }
        i = i + 1;
    }
    assert(digits.take(digits.len() as int) =~= digits);
    Some(value as u16)
}

/// The position of the first `wanted` in `text`, and its length where there is
/// none.
pub open spec fn first_index(text: Seq<char>, wanted: char) -> int
    decreases text.len(),
{
    if text.len() == 0 || text[0] == wanted {
        0
    } else {
        1 + first_index(text.skip(1), wanted)
    }
}

/// The first position of a character is the one that holds it after positions
/// that do not.
proof fn first_index_is(text: Seq<char>, wanted: char, at: int)
    requires
        0 <= at <= text.len(),
        at < text.len() ==> text[at] == wanted,
        forall|k: int| 0 <= k < at ==> #[trigger] text[k] != wanted,
    ensures
        first_index(text, wanted) == at,
    decreases text.len(),
{
    if at > 0 {
        assert(text[0] != wanted);
        assert forall|k: int| 0 <= k < at - 1 implies #[trigger] text.skip(1)[k] != wanted by {
            assert(text[k + 1] != wanted);
        }
        first_index_is(text.skip(1), wanted, at - 1);
    }
}

/// What stands at the first position of a character, and before it.
pub proof fn first_index_bounds(text: Seq<char>, wanted: char)
    ensures
        0 <= first_index(text, wanted) <= text.len(),
        first_index(text, wanted) < text.len() ==> text[first_index(text, wanted)] == wanted,
        forall|k: int| 0 <= k < first_index(text, wanted) ==> #[trigger] text[k] != wanted,
    decreases text.len(),
{
    if text.len() > 0 && text[0] != wanted {
        first_index_bounds(text.skip(1), wanted);
        assert forall|k: int| 0 <= k < first_index(text, wanted) implies #[trigger] text[k]
            != wanted by {
            if k > 0 {
                assert(text.skip(1)[k - 1] == text[k]);
            }
        }
    }
}

/// The position of the first `wanted` in `text`.
pub fn find_char(text: &str, wanted: char) -> (res: usize)
    ensures
        res == first_index(text@, wanted),
        res <= text@.len(),
{
    let chars = to_chars(text);
    let mut i: usize = 0;
    while i < chars.len() && chars[i] != wanted
        invariant
            i <= chars.len(),
            chars@ == text@,
            forall|k: int| 0 <= k < i ==> #[trigger] text@[k] != wanted,
        decreases chars.len() - i,
    {
        i = i + 1;
    }
    proof {
        first_index_is(text@, wanted, i as int);
    }
    i
}

// -----------------------------------------------------------------------------
// Laws
// -----------------------------------------------------------------------------

/// Each letter of the upper-case alphabet has the letter of the lower-case
/// alphabet in the same place as its lower-case form; any other character is
/// its own.
pub proof fn lower_case_follows_the_alphabet(c: char)
    ensures
        forall|k: int|
            0 <= k < 26 ==> ascii_lower(#[trigger] "ABCDEFGHIJKLMNOPQRSTUVWXYZ"@[k])
                == "abcdefghijklmnopqrstuvwxyz"@[k],
        !"ABCDEFGHIJKLMNOPQRSTUVWXYZ"@.contains(c) ==> ascii_lower(c) == c,
{
    reveal_strlit("ABCDEFGHIJKLMNOPQRSTUVWXYZ");
    reveal_strlit("abcdefghijklmnopqrstuvwxyz");
    let upper = "ABCDEFGHIJKLMNOPQRSTUVWXYZ"@;
    let lower = "abcdefghijklmnopqrstuvwxyz"@;
    assert(upper[0] == 'A' && upper[1] == 'B' && upper[2] == 'C' && upper[3] == 'D');
    assert(upper[4] == 'E' && upper[5] == 'F' && upper[6] == 'G' && upper[7] == 'H');
    assert(upper[8] == 'I' && upper[9] == 'J' && upper[10] == 'K' && upper[11] == 'L');
    assert(upper[12] == 'M' && upper[13] == 'N' && upper[14] == 'O' && upper[15] == 'P');
    assert(upper[16] == 'Q' && upper[17] == 'R' && upper[18] == 'S' && upper[19] == 'T');
    assert(upper[20] == 'U' && upper[21] == 'V' && upper[22] == 'W' && upper[23] == 'X');
    assert(upper[24] == 'Y' && upper[25] == 'Z');
    assert(lower[0] == 'a' && lower[1] == 'b' && lower[2] == 'c' && lower[3] == 'd');
    assert(lower[4] == 'e' && lower[5] == 'f' && lower[6] == 'g' && lower[7] == 'h');
    assert(lower[8] == 'i' && lower[9] == 'j' && lower[10] == 'k' && lower[11] == 'l');
    assert(lower[12] == 'm' && lower[13] == 'n' && lower[14] == 'o' && lower[15] == 'p');
    assert(lower[16] == 'q' && lower[17] == 'r' && lower[18] == 's' && lower[19] == 't');
    assert(lower[20] == 'u' && lower[21] == 'v' && lower[22] == 'w' && lower[23] == 'x');
    assert(lower[24] == 'y' && lower[25] == 'z');
    assert forall|k: int| 0 <= k < 26 implies ascii_lower(#[trigger] upper[k]) == lower[k] by {
        assert(upper[k] as u32 == 65 + k);
        assert(lower[k] as u32 == 97 + k);
    }
}

/// Two texts are the same but for case exactly where they have the same length
/// and differ in no more than the case of ASCII letters.
pub proof fn case_is_all_that_is_ignored(a: Seq<char>, b: Seq<char>)
    ensures
        same_ignoring_case(a, b) <==> a.len() == b.len() && forall|i: int|
            0 <= i < a.len() ==> {
                ||| #[trigger] a[i] == b[i]
                ||| 'A' <= a[i] <= 'Z' && b[i] as u32 == a[i] as u32 + 32
                ||| 'A' <= b[i] <= 'Z' && a[i] as u32 == b[i] as u32 + 32
            },
{
    assert forall|x: char, y: char|
        (#[trigger] ascii_lower(x) == #[trigger] ascii_lower(y)) == (x == y || ('A' <= x <= 'Z'
            && y as u32 == x as u32 + 32) || ('A' <= y <= 'Z' && x as u32 == y as u32 + 32)) by {
        if 'A' <= x <= 'Z' {
            assert(ascii_lower(x) as u32 == x as u32 + 32);
        }
        if 'A' <= y <= 'Z' {
            assert(ascii_lower(y) as u32 == y as u32 + 32);
        }
    }
    if same_ignoring_case(a, b) {
        assert forall|i: int| 0 <= i < a.len() implies {
            ||| #[trigger] a[i] == b[i]
            ||| 'A' <= a[i] <= 'Z' && b[i] as u32 == a[i] as u32 + 32
            ||| 'A' <= b[i] <= 'Z' && a[i] as u32 == b[i] as u32 + 32
        } by {
            assert(ascii_lower(a[i]) == ascii_lower(b[i]));
        }
    }
}

/// The text of an optional string is there exactly where the string is, and is
/// its text.
pub proof fn optional_texts_are_kept(owned: Option<String>, borrowed: Option<&str>)
    ensures
        text_of(owned) is Some <==> owned is Some,
        owned matches Some(text) ==> text_of(owned) == Some(text@),
        str_of(borrowed) is Some <==> borrowed is Some,
        borrowed matches Some(text) ==> str_of(borrowed) == Some(text@),
{
}

/// There are ten digits, and each counts for its place among them.
pub proof fn digits_count_for_their_places(c: char, digits: Seq<char>, d: int)
    ensures
        is_digit(c) <==> "0123456789"@.contains(c),
        decimal_value(Seq::empty()) == 0,
        0 <= d < 10 ==> decimal_value(digits.push("0123456789"@[d])) == 10 * decimal_value(digits)
            + d,
        0 <= d < 10 ==> decimal_text(d as nat) == seq!["0123456789"@[d]],
{
    reveal_strlit("0123456789");
    let all = "0123456789"@;
    assert(all[0] == '0' && all[1] == '1' && all[2] == '2' && all[3] == '3');
    assert(all[4] == '4' && all[5] == '5' && all[6] == '6' && all[7] == '7');
    assert(all[8] == '8' && all[9] == '9');
    assert(digits.push(all[d]).drop_last() =~= digits);
    if 0 <= d < 10 {
        assert(all[d] as u32 == 48 + d);
        assert(digit_char(d as nat) == all[d]);
    }
}

/// The decimal form of a number is made of digits, has no leading zero, and is
/// that of no other number.
pub proof fn decimal_round_trip(n: nat)
    ensures
        decimal_text(n).len() > 0,
        forall|i: int|
            0 <= i < decimal_text(n).len() ==> '0' <= #[trigger] decimal_text(n)[i] <= '9',
        decimal_text(n).len() > 1 ==> decimal_text(n)[0] != '0',
        decimal_text(n)[0] == '0' ==> n == 0,
        decimal_value(decimal_text(n)) == n,
    decreases n,
{
    if n < 10 {
        digits_count_for_their_places('0', Seq::empty(), n as int);
        assert(decimal_text(n).drop_last() =~= Seq::empty());
        assert(digit_char(n) as u32 == n + 48);
    } else {
        decimal_round_trip(n / 10);
        assert(decimal_text(n).drop_last() =~= decimal_text(n / 10));
        assert(digit_char(n % 10) as u32 == n % 10 + 48);
        assert(decimal_text(n)[0] == decimal_text(n / 10)[0]);
    }
}

/// The text of a number is read as that number, with or without a plus sign.
pub proof fn numbers_are_read_back(n: u16)
    ensures
        parsed_u16(decimal_text(n as nat)) == Some(n),
        parsed_u16(seq!['+'] + decimal_text(n as nat)) == Some(n),
{
    let digits = decimal_text(n as nat);
    decimal_round_trip(n as nat);
    assert((seq!['+'] + digits).skip(1) =~= digits);
}

/// Digits are read as the number that they stand for, where it is no more than
/// 65535, and a plus sign before them makes no difference; nothing else is read.
pub proof fn only_digits_are_read(text: Seq<char>)
    ensures
        text.len() > 0 && (forall|i: int| 0 <= i < text.len() ==> '0' <= #[trigger] text[i] <= '9')
            ==> {
            &&& parsed_u16(text) is Some <==> decimal_value(text) <= 65_535
            &&& parsed_u16(text) matches Some(n) ==> n == decimal_value(text)
            &&& parsed_u16(seq!['+'] + text) == parsed_u16(text)
        },
        parsed_u16(text) is Some ==> {
            &&& text.len() > 0
            &&& text[0] == '+' ==> text.len() > 1
            &&& text[0] == '+' || '0' <= text[0] <= '9'
            &&& forall|i: int| 1 <= i < text.len() ==> '0' <= #[trigger] text[i] <= '9'
        },
{
    assert((seq!['+'] + text).skip(1) =~= text);
    if parsed_u16(text) is Some {
        let digits = without_plus(text);
        assert(is_digit(digits[0]));
        assert forall|i: int| 1 <= i < text.len() implies '0' <= #[trigger] text[i] <= '9' by {
            if text[0] == '+' {
                assert(is_digit(digits[i - 1]));
            } else {
                assert(is_digit(digits[i]));
            }
        }
    }
}

} // verus!
