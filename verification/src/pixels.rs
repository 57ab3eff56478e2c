//! The place and the size of a window, as they are written in the environment.

use vstd::prelude::*;

verus! {

pub open spec fn is_digit(c: char) -> bool {
    '0' <= c <= '9'
}

pub open spec fn all_digits(text: Seq<char>) -> bool {
    forall|i: int| 0 <= i < text.len() ==> is_digit(#[trigger] text[i])
}

/// The number that decimal digits stand for.
pub open spec fn decimal(digits: Seq<char>) -> nat
    decreases digits.len(),
{
    if digits.len() == 0 {
        0
    } else {
        decimal(digits.drop_last()) * 10 + (digits.last() as nat - '0' as nat) as nat
    }
}

/// The text without a plus sign in front.
pub open spec fn unsigned_part(text: Seq<char>) -> Seq<char> {
    if text.len() > 0 && text[0] == '+' {
        text.skip(1)
    } else {
        text
    }
}

/// The number that a text stands for: digits, possibly behind a plus sign, as far as the
/// number fits.
pub open spec fn number(text: Seq<char>) -> Option<usize> {
    let digits = unsigned_part(text);
    if digits.len() > 0 && all_digits(digits) && decimal(digits) <= usize::MAX {
        Some(decimal(digits) as usize)
    } else {
        None
    }
}

/// The place of the first comma from `i` on, or the end of the text.
pub open spec fn comma(text: Seq<char>, i: int) -> int
    decreases text.len() - i,
{
    if i < 0 || i >= text.len() {
        text.len() as int
    } else if text[i] == ',' {
        i
    } else {
        comma(text, i + 1)
    }
}

/// The two numbers that stand before the first comma and between that and the next. What
/// stands behind the next is not looked at.
pub open spec fn number_pair(text: Seq<char>) -> Option<(usize, usize)> {
    let first = comma(text, 0);
    let second = comma(text, first + 1);
    if first >= text.len() {
        None
    } else {
        match (number(text.take(first)), number(text.subrange(first + 1, second))) {
            (Some(a), Some(b)) => Some((a, b)),
            _ => None,
        }
    }
}

proof fn lemma_comma(text: Seq<char>, i: int)
    requires
        0 <= i <= text.len(),
    ensures
        i <= comma(text, i) <= text.len(),
    decreases text.len() - i,
{
    if i < text.len() && text[i] != ',' {
        lemma_comma(text, i + 1);
    }
}

proof fn lemma_decimal_grows(digits: Seq<char>, n: int)
    requires
        0 <= n <= digits.len(),
        all_digits(digits),
    ensures
        decimal(digits.take(n)) <= decimal(digits),
    decreases digits.len() - n,
{
    if n == digits.len() {
        assert(digits.take(n) =~= digits);
    } else {
        lemma_decimal_grows(digits, n + 1);
        assert(digits.take(n + 1).drop_last() =~= digits.take(n));
    }
}

fn find_comma(text: &str, from: usize) -> (place: usize)
    requires
        from <= text@.len(),
    ensures
        place == comma(text@, from as int),
        from <= place <= text@.len(),
{
    let n: usize = text.unicode_len();
    let mut i: usize = from;
    while i < n
        invariant
            from <= i <= n,
            n == text@.len(),
            comma(text@, from as int) == comma(text@, i as int),
        decreases n - i,
    {
        if text.get_char(i) == ',' {
            return i;
        }
        i += 1;
    }
    n
}

fn digit(c: char) -> (value: Option<usize>)
    ensures
        match value {
            Some(value) => is_digit(c) && value == c as nat - '0' as nat && value <= 9,
            None => !is_digit(c),
        },
{
    if '0' <= c && c <= '9' {
        Some((c as u32 - '0' as u32) as usize)
    } else {
        None
    }
}

/// Reads a number.
pub fn parse_number(text: &str) -> (value: Option<usize>)
    ensures
        value == number(text@),
{
    let n: usize = text.unicode_len();
    let ghost digits = unsigned_part(text@);
    let mut start: usize = 0;
    if n > 0 && text.get_char(0) == '+' {
        start = 1;
    }
    if start == n {
        return None;
    }
    let mut value: usize = 0;
    let mut i: usize = start;
    proof {
        assert(digits.take(0) =~= Seq::empty());
    }
    while i < n
        invariant
            start <= i <= n,
            n == text@.len(),
            start <= 1,
            digits == text@.skip(start as int),
            digits == unsigned_part(text@),
            digits.len() == n - start,
            forall|j: int| 0 <= j < i - start ==> is_digit(#[trigger] digits[j]),
            value == decimal(digits.take(i - start)),
        decreases n - i,
    {
        let ghost k = i - start;
        let c = text.get_char(i);
        proof {
            assert(digits[k] == c);
            assert(digits.take(k + 1).drop_last() =~= digits.take(k));
        }
        let d: usize = match digit(c) {
            Some(d) => d,
            None => {
                return None;
            },
        };
        let shifted = match value.checked_mul(10) {
            Some(shifted) => shifted,
            None => {
                proof {
                    lemma_too_large(digits, k + 1);
                }
                return None;
            },
        };
        value = match shifted.checked_add(d) {
            Some(sum) => sum,
            None => {
                proof {
                    lemma_too_large(digits, k + 1);
                }
                return None;
            },
        };
        i += 1;
    }
    proof {
        assert(digits.take(n - start) =~= digits);
    }
    Some(value)
}

/// Digits that begin with a number that does not fit stand for none that does.
proof fn lemma_too_large(digits: Seq<char>, n: int)
    requires
        0 <= n <= digits.len(),
        decimal(digits.take(n)) > usize::MAX,
    ensures
        all_digits(digits) ==> decimal(digits) > usize::MAX,
{
    if all_digits(digits) {
        lemma_decimal_grows(digits, n);
    }
}

fn parse_pair(value: &str) -> (pair: Option<(usize, usize)>)
    ensures
        pair == number_pair(value@),
{
    let n: usize = value.unicode_len();
    let first = find_comma(value, 0);
    if first == n {
        return None;
    }
    let second = find_comma(value, first + 1);
    proof {
        assert(value@.subrange(0, first as int) =~= value@.take(first as int));
    }
    let a = match parse_number(value.substring_char(0, first)) {
        Some(a) => a,
        None => {
            return None;
        },
    };
    let b = match parse_number(value.substring_char(first + 1, second)) {
        Some(b) => b,
        None => {
            return None;
        },
    };
    Some((a, b))
}

/// Reads the place of a window, in pixels from the left and from the top.
pub fn parse_pixel_position_env_var(value: &str) -> (position: Option<(usize, usize)>)
    ensures
        position == number_pair(value@),
{
    parse_pair(value)
}

/// Reads the size of a window, its width and its height in pixels.
pub fn parse_pixel_size_env_var(value: &str) -> (size: Option<(usize, usize)>)
    ensures
        size == number_pair(value@),
{
    parse_pair(value)
}

/// The place and the size that were asked for, if both were and there is a display. The place
/// is counted from the origin of the first display.
pub fn window_bounds_override(
    has_display: bool,
    position: Option<(usize, usize)>,
    size: Option<(usize, usize)>,
) -> (bounds: Option<((usize, usize), (usize, usize))>)
    ensures
        bounds == (match (position, size) {
            (Some(position), Some(size)) if has_display => Some((position, size)),
            _ => None,
        }),
{
    match (position, size) {
        (Some(position), Some(size)) => {
            if has_display {
                Some((position, size))
            } else {
                None
            }
        },
        _ => None,
    }
}

/// A digit more makes ten times the number and the digit; no digits make nothing.
pub proof fn law_decimal(digits: Seq<char>, digit: char)
    requires
        '0' <= digit <= '9',
    ensures
        decimal(digits.push(digit)) == decimal(digits) * 10 + (digit as int - '0' as int),
        decimal(Seq::empty()) == 0,
{
    assert(digits.push(digit).drop_last() =~= digits);
}

/// Digits are read as the number that they stand for, with or without a plus sign in front, as
/// long as it fits. Nothing else is a number: not an empty text, a plus sign alone, nor a text
/// with any other character.
pub proof fn law_number(digits: Seq<char>, text: Seq<char>, i: int)
    requires
        forall|j: int| 0 <= j < digits.len() ==> '0' <= #[trigger] digits[j] <= '9',
    ensures
        digits.len() > 0 && decimal(digits) <= usize::MAX ==> {
            &&& number(digits) matches Some(n) && n == decimal(digits)
            &&& number(seq!['+'] + digits) matches Some(n) && n == decimal(digits)
        },
        decimal(digits) > usize::MAX ==> number(digits) is None && number(
            seq!['+'] + digits,
        ) is None,
        number(Seq::empty()) is None,
        number(seq!['+']) is None,
        0 < i < text.len() && !('0' <= text[i] <= '9') ==> number(text) is None,
        0 < text.len() && !('0' <= text[0] <= '9') && text[0] != '+' ==> number(text) is None,
{
    let signed = seq!['+'] + digits;
    assert(signed.skip(1) =~= digits);
    assert(seq!['+'].skip(1) =~= Seq::<char>::empty());
    if digits.len() > 0 {
        assert('0' <= digits[0] <= '9');
        assert(unsigned_part(digits) == digits);
        assert(all_digits(digits));
    } else {
        assert(decimal(digits) == 0);
    }
    if 0 < i < text.len() && !('0' <= text[i] <= '9') {
        if text[0] == '+' {
            assert(text.skip(1)[i - 1] == text[i]);
            assert(!is_digit(text.skip(1)[i - 1]));
        } else {
            assert(!is_digit(text[i]));
        }
    }
    if 0 < text.len() && !('0' <= text[0] <= '9') && text[0] != '+' {
        assert(!is_digit(text[0]));
    }
}

proof fn lemma_comma_at(text: Seq<char>, i: int, k: int)
    requires
        0 <= i <= k <= text.len(),
        k < text.len() ==> text[k] == ',',
        forall|j: int| i <= j < k ==> #[trigger] text[j] != ',',
    ensures
        comma(text, i) == k,
    decreases k - i,
{
    if i < k {
        assert(text[i] != ',');
        lemma_comma_at(text, i + 1, k);
    }
}

/// Two numbers with a comma between them are read as both, in their order, whatever stands
/// behind a further comma; if either is no number, or there is no comma, nothing is read.
pub proof fn law_number_pair(first: Seq<char>, second: Seq<char>, rest: Seq<char>)
    requires
        forall|j: int| 0 <= j < first.len() ==> #[trigger] first[j] != ',',
        forall|j: int| 0 <= j < second.len() ==> #[trigger] second[j] != ',',
    ensures
        ({
            let pair = match (number(first), number(second)) {
                (Some(a), Some(b)) => Some((a, b)),
                _ => None,
            };
            &&& number_pair(first.push(',') + second) == pair
            &&& number_pair((first.push(',') + second).push(',') + rest) == pair
            &&& number_pair(first) is None
        }),
{
    let a = first.push(',') + second;
    let b = a.push(',') + rest;
    let n = first.len() as int;
    let m = a.len() as int;
    lemma_comma_at(first, 0, n);
    lemma_comma_at(a, 0, n);
    lemma_comma_at(a, n + 1, m);
    lemma_comma_at(b, 0, n);
    lemma_comma_at(b, n + 1, m);
    assert(a.take(n) =~= first);
    assert(b.take(n) =~= first);
    assert(a.subrange(n + 1, m) =~= second);
    assert(b.subrange(n + 1, m) =~= second);
}

} // verus!
