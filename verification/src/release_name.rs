//! Which release names can be read for what they state of a release.

use vstd::prelude::*;

use crate::text::{
    chars_of, is_alnum, is_alnum_spec, is_alpha, is_alpha_spec, is_digit, is_digit_spec,
    last_index, lower_char, lower_char_spec, matches_at, occurs_at, parse_unsigned, rfind_char,
    slice, unsigned_value,
};

verus! {

// ---------------------------------------------------------------------------
// Characters
// ---------------------------------------------------------------------------

/// The Kelvin sign, which is a `k` where case is ignored.
pub const KELVIN: char = '\u{212a}';

/// The long s, which is an `s` where case is ignored.
pub const LONG_S: char = '\u{17f}';

/// Whether a number is the code of a decimal digit that is not ASCII.
pub open spec fn foreign_digit(n: u32) -> bool {
    ||| 0x660 <= n <= 0x669
    ||| 0x6f0 <= n <= 0x6f9
    ||| 0x7c0 <= n <= 0x7c9
    ||| 0x966 <= n <= 0x96f
    ||| 0x9e6 <= n <= 0x9ef
    ||| 0xa66 <= n <= 0xa6f
    ||| 0xae6 <= n <= 0xaef
    ||| 0xb66 <= n <= 0xb6f
    ||| 0xbe6 <= n <= 0xbef
    ||| 0xc66 <= n <= 0xc6f
    ||| 0xce6 <= n <= 0xcef
    ||| 0xd66 <= n <= 0xd6f
    ||| 0xde6 <= n <= 0xdef
    ||| 0xe50 <= n <= 0xe59
    ||| 0xed0 <= n <= 0xed9
    ||| 0xf20 <= n <= 0xf29
    ||| 0x1040 <= n <= 0x1049
    ||| 0x1090 <= n <= 0x1099
    ||| 0x17e0 <= n <= 0x17e9
    ||| 0x1810 <= n <= 0x1819
    ||| 0x1946 <= n <= 0x194f
    ||| 0x19d0 <= n <= 0x19d9
    ||| 0x1a80 <= n <= 0x1a89
    ||| 0x1a90 <= n <= 0x1a99
    ||| 0x1b50 <= n <= 0x1b59
    ||| 0x1bb0 <= n <= 0x1bb9
    ||| 0x1c40 <= n <= 0x1c49
    ||| 0x1c50 <= n <= 0x1c59
    ||| 0xa620 <= n <= 0xa629
    ||| 0xa8d0 <= n <= 0xa8d9
    ||| 0xa900 <= n <= 0xa909
    ||| 0xa9d0 <= n <= 0xa9d9
    ||| 0xa9f0 <= n <= 0xa9f9
    ||| 0xaa50 <= n <= 0xaa59
    ||| 0xabf0 <= n <= 0xabf9
    ||| 0xff10 <= n <= 0xff19
    ||| 0x104a0 <= n <= 0x104a9
    ||| 0x10d30 <= n <= 0x10d39
    ||| 0x10d40 <= n <= 0x10d49
    ||| 0x11066 <= n <= 0x1106f
    ||| 0x110f0 <= n <= 0x110f9
    ||| 0x11136 <= n <= 0x1113f
    ||| 0x111d0 <= n <= 0x111d9
    ||| 0x112f0 <= n <= 0x112f9
    ||| 0x11450 <= n <= 0x11459
    ||| 0x114d0 <= n <= 0x114d9
    ||| 0x11650 <= n <= 0x11659
    ||| 0x116c0 <= n <= 0x116c9
    ||| 0x116d0 <= n <= 0x116e3
    ||| 0x11730 <= n <= 0x11739
    ||| 0x118e0 <= n <= 0x118e9
    ||| 0x11950 <= n <= 0x11959
    ||| 0x11bf0 <= n <= 0x11bf9
    ||| 0x11c50 <= n <= 0x11c59
    ||| 0x11d50 <= n <= 0x11d59
    ||| 0x11da0 <= n <= 0x11da9
    ||| 0x11f50 <= n <= 0x11f59
    ||| 0x16130 <= n <= 0x16139
    ||| 0x16a60 <= n <= 0x16a69
    ||| 0x16ac0 <= n <= 0x16ac9
    ||| 0x16b50 <= n <= 0x16b59
    ||| 0x16d70 <= n <= 0x16d79
    ||| 0x1ccf0 <= n <= 0x1ccf9
    ||| 0x1d7ce <= n <= 0x1d7ff
    ||| 0x1e140 <= n <= 0x1e149
    ||| 0x1e2f0 <= n <= 0x1e2f9
    ||| 0x1e4f0 <= n <= 0x1e4f9
    ||| 0x1e5f1 <= n <= 0x1e5fa
    ||| 0x1e950 <= n <= 0x1e959
    ||| 0x1fbf0 <= n <= 0x1fbf9
}

fn is_foreign_digit(n: u32) -> (r: bool)
    ensures
        r == foreign_digit(n),
{
    (0x660 <= n && n <= 0x669) || (0x6f0 <= n && n <= 0x6f9) || (0x7c0 <= n && n <= 0x7c9)
        || (0x966 <= n && n <= 0x96f) || (0x9e6 <= n && n <= 0x9ef) || (0xa66 <= n && n <=
        0xa6f) || (0xae6 <= n && n <= 0xaef) || (0xb66 <= n && n <= 0xb6f) || (0xbe6 <= n &&
        n <= 0xbef) || (0xc66 <= n && n <= 0xc6f) || (0xce6 <= n && n <= 0xcef) || (0xd66 <=
        n && n <= 0xd6f) || (0xde6 <= n && n <= 0xdef) || (0xe50 <= n && n <= 0xe59) ||
        (0xed0 <= n && n <= 0xed9) || (0xf20 <= n && n <= 0xf29) || (0x1040 <= n && n <=
        0x1049) || (0x1090 <= n && n <= 0x1099) || (0x17e0 <= n && n <= 0x17e9) || (0x1810
        <= n && n <= 0x1819) || (0x1946 <= n && n <= 0x194f) || (0x19d0 <= n && n <= 0x19d9)
        || (0x1a80 <= n && n <= 0x1a89) || (0x1a90 <= n && n <= 0x1a99) || (0x1b50 <= n && n
        <= 0x1b59) || (0x1bb0 <= n && n <= 0x1bb9) || (0x1c40 <= n && n <= 0x1c49) ||
        (0x1c50 <= n && n <= 0x1c59) || (0xa620 <= n && n <= 0xa629) || (0xa8d0 <= n && n <=
        0xa8d9) || (0xa900 <= n && n <= 0xa909) || (0xa9d0 <= n && n <= 0xa9d9) || (0xa9f0
        <= n && n <= 0xa9f9) || (0xaa50 <= n && n <= 0xaa59) || (0xabf0 <= n && n <= 0xabf9)
        || (0xff10 <= n && n <= 0xff19) || (0x104a0 <= n && n <= 0x104a9) || (0x10d30 <= n
        && n <= 0x10d39) || (0x10d40 <= n && n <= 0x10d49) || (0x11066 <= n && n <= 0x1106f)
        || (0x110f0 <= n && n <= 0x110f9) || (0x11136 <= n && n <= 0x1113f) || (0x111d0 <= n
        && n <= 0x111d9) || (0x112f0 <= n && n <= 0x112f9) || (0x11450 <= n && n <= 0x11459)
        || (0x114d0 <= n && n <= 0x114d9) || (0x11650 <= n && n <= 0x11659) || (0x116c0 <= n
        && n <= 0x116c9) || (0x116d0 <= n && n <= 0x116e3) || (0x11730 <= n && n <= 0x11739)
        || (0x118e0 <= n && n <= 0x118e9) || (0x11950 <= n && n <= 0x11959) || (0x11bf0 <= n
        && n <= 0x11bf9) || (0x11c50 <= n && n <= 0x11c59) || (0x11d50 <= n && n <= 0x11d59)
        || (0x11da0 <= n && n <= 0x11da9) || (0x11f50 <= n && n <= 0x11f59) || (0x16130 <= n
        && n <= 0x16139) || (0x16a60 <= n && n <= 0x16a69) || (0x16ac0 <= n && n <= 0x16ac9)
        || (0x16b50 <= n && n <= 0x16b59) || (0x16d70 <= n && n <= 0x16d79) || (0x1ccf0 <= n
        && n <= 0x1ccf9) || (0x1d7ce <= n && n <= 0x1d7ff) || (0x1e140 <= n && n <= 0x1e149)
        || (0x1e2f0 <= n && n <= 0x1e2f9) || (0x1e4f0 <= n && n <= 0x1e4f9) || (0x1e5f1 <= n
        && n <= 0x1e5fa) || (0x1e950 <= n && n <= 0x1e959) || (0x1fbf0 <= n && n <= 0x1fbf9)
}

pub open spec fn any_digit(c: char) -> bool {
    is_digit_spec(c) || foreign_digit(c as u32)
}

fn is_any_digit(c: char) -> (r: bool)
    ensures
        r == any_digit(c),
{
    is_digit(c) || is_foreign_digit(c as u32)
}

pub open spec fn blank(c: char) -> bool {
    let n = c as u32;
    ||| 9 <= n <= 13
    ||| n == 32
    ||| n == 0x85
    ||| n == 0xa0
    ||| n == 0x1680
    ||| 0x2000 <= n <= 0x200a
    ||| n == 0x2028
    ||| n == 0x2029
    ||| n == 0x202f
    ||| n == 0x205f
    ||| n == 0x3000
}

fn is_blank(c: char) -> (r: bool)
    ensures
        r == blank(c),
{
    let n: u32 = c as u32;
    (9 <= n && n <= 13) || n == 32 || n == 0x85 || n == 0xa0 || n == 0x1680 || (0x2000 <= n && n
        <= 0x200a) || n == 0x2028 || n == 0x2029 || n == 0x202f || n == 0x205f || n == 0x3000
}

pub open spec fn some_s(c: char) -> bool {
    c == 's' || c == 'S' || c == LONG_S
}

pub open spec fn ascii_from(s: Seq<char>, i: int) -> bool {
    forall|k: int| i <= k < s.len() ==> (#[trigger] s[k] as u32) < 128
}

fn is_ascii_from(s: &Vec<char>, i: usize) -> (r: bool)
    ensures
        r == ascii_from(s@, i as int),
{
    let mut k: usize = i;
    while k < s.len()
        invariant
            i <= k,
            k <= s.len() || k == i,
            forall|j: int| i <= j < k && j < s.len() ==> (#[trigger] s@[j] as u32) < 128,
        decreases s.len() - k,
    {
        if s[k] as u32 >= 128 {
            return false;
        }
        k = k + 1;
    }
    true
}

// ---------------------------------------------------------------------------
// Bit rates
// ---------------------------------------------------------------------------

/// The end of the digits from `i` on.
pub open spec fn digits_end(s: Seq<char>, i: int) -> int
    decreases s.len() - i,
{
    if 0 <= i < s.len() && any_digit(s[i]) {
        digits_end(s, i + 1)
    } else {
        i
    }
}

fn end_of_digits(s: &Vec<char>, i: usize) -> (r: usize)
    requires
        i <= s.len(),
    ensures
        r == digits_end(s@, i as int),
        i <= r <= s.len(),
{
    let mut k: usize = i;
    while k < s.len() && is_any_digit(s[k])
        invariant
            i <= k <= s.len(),
            digits_end(s@, i as int) == digits_end(s@, k as int),
        decreases s.len() - k,
    {
        k = k + 1;
    }
    k
}

/// The end of the white space from `i` on.
pub open spec fn blanks_end(s: Seq<char>, i: int) -> int
    decreases s.len() - i,
{
    if 0 <= i < s.len() && blank(s[i]) {
        blanks_end(s, i + 1)
    } else {
        i
    }
}

fn end_of_blanks(s: &Vec<char>, i: usize) -> (r: usize)
    requires
        i <= s.len(),
    ensures
        r == blanks_end(s@, i as int),
        i <= r <= s.len(),
{
    let mut k: usize = i;
    while k < s.len() && is_blank(s[k])
        invariant
            i <= k <= s.len(),
            blanks_end(s@, i as int) == blanks_end(s@, k as int),
        decreases s.len() - k,
    {
        k = k + 1;
    }
    k
}

/// The end of a number at `i`, with one or two decimal places where it has them.
pub open spec fn number_end(s: Seq<char>, i: int) -> int {
    let whole = digits_end(s, i);
    if whole < s.len() && s[whole] == '.' {
        let places = digits_end(s, whole + 1);
        if whole + 2 <= places <= whole + 3 {
            places
        } else {
            whole
        }
    } else {
        whole
    }
}

fn end_of_number(s: &Vec<char>, i: usize) -> (r: usize)
    requires
        i <= s.len(),
    ensures
        r == number_end(s@, i as int),
        i <= r <= s.len(),
{
    let whole = end_of_digits(s, i);
    if whole < s.len() && s[whole] == '.' {
        let places = end_of_digits(s, whole + 1);
        if places - whole == 2 || places - whole == 3 {
            return places;
        }
    }
    whole
}

/// The end of `bps`, `bit` or `bits` at `j`.
pub open spec fn bits_end(s: Seq<char>, j: int) -> Option<int> {
    if j + 3 > s.len() || (s[j] != 'b' && s[j] != 'B') {
        None
    } else if (s[j + 1] == 'p' || s[j + 1] == 'P') && some_s(s[j + 2]) {
        Some(j + 3)
    } else if (s[j + 1] == 'i' || s[j + 1] == 'I') && (s[j + 2] == 't' || s[j + 2] == 'T') {
        Some(
            if j + 3 < s.len() && some_s(s[j + 3]) {
                j + 4
            } else {
                j + 3
            },
        )
    } else {
        None
    }
}

fn end_of_bits(s: &Vec<char>, j: usize) -> (r: Option<usize>)
    requires
        j <= s.len(),
    ensures
        match r {
            Some(e) => bits_end(s@, j as int) == Some(e as int) && j < e <= s.len(),
            None => bits_end(s@, j as int) is None,
        },
{
    if s.len() - j < 3 || (s[j] != 'b' && s[j] != 'B') {
        return None;
    }
    let c = s[j + 2];
    if (s[j + 1] == 'p' || s[j + 1] == 'P') && (c == 's' || c == 'S' || c == LONG_S) {
        Some(j + 3)
    } else if (s[j + 1] == 'i' || s[j + 1] == 'I') && (c == 't' || c == 'T') {
        if s.len() - j > 3 && (s[j + 3] == 's' || s[j + 3] == 'S' || s[j + 3] == LONG_S) {
            Some(j + 4)
        } else {
            Some(j + 3)
        }
    } else {
        None
    }
}

/// The place of the unit of a bit rate whose number is at `i`, and where the
/// rate ends.
pub open spec fn rate_at(s: Seq<char>, i: int) -> Option<(int, int)> {
    let unit = blanks_end(s, number_end(s, i));
    if unit < s.len() && (s[unit] == 'k' || s[unit] == 'K' || s[unit] == 'm' || s[unit] == 'M'
        || s[unit] == KELVIN) {
        match bits_end(s, unit + 1) {
            Some(end) => Some((unit, end)),
            None => None,
        }
    } else {
        None
    }
}

/// Whether no letter or digit stands before `from` and no letter at `to`.
pub open spec fn stands_alone(s: Seq<char>, from: int, to: int) -> bool {
    &&& from > 0 ==> !is_alnum_spec(s[from - 1])
    &&& to < s.len() ==> !is_alpha_spec(s[to])
}

/// Whether the bit rate at `i` cannot be read: one that stands alone is of kilo-
/// or megabits with a letter, and of one that does not the first digit is passed
/// over as a single byte.
pub open spec fn unreadable_rate(s: Seq<char>, i: int) -> bool {
    any_digit(s[i]) && match rate_at(s, i) {
        Some((unit, end)) => if stands_alone(s, i, end) {
            s[unit] == KELVIN
        } else {
            foreign_digit(s[i] as u32)
        },
        None => false,
    }
}

fn is_unreadable_rate(s: &Vec<char>, i: usize) -> (r: bool)
    requires
        i < s.len(),
    ensures
        r == unreadable_rate(s@, i as int),
{
    if !is_any_digit(s[i]) {
        return false;
    }
    let unit = end_of_blanks(s, end_of_number(s, i));
    if unit >= s.len() {
        return false;
    }
    let c = s[unit];
    if !(c == 'k' || c == 'K' || c == 'm' || c == 'M' || c == KELVIN) {
        return false;
    }
    match end_of_bits(s, unit + 1) {
        Some(end) => {
            let alone = !(i > 0 && is_alnum(s[i - 1])) && !(end < s.len() && is_alpha(s[end]));
            if alone {
                c == KELVIN
            } else {
                is_foreign_digit(s[i] as u32)
            }
        },
        None => false,
    }
}

// ---------------------------------------------------------------------------
// Seasons
// ---------------------------------------------------------------------------

/// Whether `n` digits and then another season follow the letter at `i`.
pub open spec fn season_follows(s: Seq<char>, i: int, n: int) -> bool {
    &&& i + n + 2 < s.len()
    &&& digits_end(s, i + 1) == i + n + 1
    &&& some_s(s[i + n + 1])
    &&& any_digit(s[i + n + 2])
}

/// Whether a long s at `i` is the letter of one of several seasons without
/// anything between them: the letter is taken to be a single byte.
pub open spec fn long_season(s: Seq<char>, i: int) -> bool {
    &&& s[i] == LONG_S
    &&& i + 1 < s.len() && any_digit(s[i + 1])
    &&& {
        ||| i > 0 && any_digit(s[i - 1])
        ||| season_follows(s, i, 1)
        ||| season_follows(s, i, 2)
        ||| season_follows(s, i, 3)
    }
}

fn is_long_season(s: &Vec<char>, i: usize) -> (r: bool)
    requires
        i < s.len(),
    ensures
        r == long_season(s@, i as int),
{
    if s[i] != LONG_S || s.len() - i < 2 || !is_any_digit(s[i + 1]) {
        return false;
    }
    if i > 0 && is_any_digit(s[i - 1]) {
        return true;
    }
    let end = end_of_digits(s, i + 2);
    if end - i - 1 > 3 || s.len() - end < 2 {
        return false;
    }
    let c = s[end];
    (c == 's' || c == 'S' || c == LONG_S) && is_any_digit(s[end + 1])
}

// ---------------------------------------------------------------------------
// Discs
// ---------------------------------------------------------------------------

/// A character of a list of discs.
pub open spec fn disc_list_char(c: char) -> bool {
    is_digit_spec(c) || c == ' ' || c == '.' || c == '&' || c == '-'
}

/// Whether a list of discs can lead up to `i`: the last letter before it is one
/// that the word for a disc ends with.
pub open spec fn after_disc(s: Seq<char>, i: int) -> bool
    decreases i,
{
    if i <= 0 {
        false
    } else if disc_list_char(s[i - 1]) {
        after_disc(s, i - 1)
    } else {
        let c = lower_char_spec(s[i - 1]);
        c == 's' || c == 'c' || c == 'k' || c == 'd' || c == LONG_S || c == KELVIN
    }
}

fn is_after_disc(s: &Vec<char>, i: usize) -> (r: bool)
    requires
        i <= s.len(),
    ensures
        r == after_disc(s@, i as int),
{
    let mut k: usize = i;
    while k > 0
        invariant
            k <= i <= s.len(),
            after_disc(s@, i as int) == after_disc(s@, k as int),
        decreases k,
    {
        let c = s[k - 1];
        if !(is_digit(c) || c == ' ' || c == '.' || c == '&' || c == '-') {
            let c = lower_char(c);
            return c == 's' || c == 'c' || c == 'k' || c == 'd' || c == LONG_S || c == KELVIN;
        }
        k = k - 1;
    }
    false
}

/// The start of the ASCII digits before `i`.
pub open spec fn ascii_start(s: Seq<char>, i: int) -> int
    decreases i,
{
    if 0 < i <= s.len() && is_digit_spec(s[i - 1]) {
        ascii_start(s, i - 1)
    } else {
        i
    }
}

fn start_of_ascii(s: &Vec<char>, i: usize) -> (r: usize)
    requires
        i <= s.len(),
    ensures
        r == ascii_start(s@, i as int),
        r <= i,
{
    let mut k: usize = i;
    while k > 0 && is_digit(s[k - 1])
        invariant
            k <= i <= s.len(),
            ascii_start(s@, i as int) == ascii_start(s@, k as int),
        decreases k,
    {
        k = k - 1;
    }
    k
}

/// The end of the ASCII digits from `i` on.
pub open spec fn ascii_end(s: Seq<char>, i: int) -> int
    decreases s.len() - i,
{
    if 0 <= i < s.len() && is_digit_spec(s[i]) {
        ascii_end(s, i + 1)
    } else {
        i
    }
}

fn end_of_ascii(s: &Vec<char>, i: usize) -> (r: usize)
    requires
        i <= s.len(),
    ensures
        r == ascii_end(s@, i as int),
        i <= r <= s.len(),
{
    let mut k: usize = i;
    while k < s.len() && is_digit(s[k])
        invariant
            i <= k <= s.len(),
            ascii_end(s@, i as int) == ascii_end(s@, k as int),
        decreases s.len() - k,
    {
        k = k + 1;
    }
    k
}

/// The 32 bit number that a part of a text is.
pub open spec fn number_in(s: Seq<char>, from: int, to: int) -> Option<nat> {
    unsigned_value(s.subrange(from, to), u32::MAX as nat)
}

fn read_number(s: &Vec<char>, from: usize, to: usize) -> (r: Option<u64>)
    requires
        from <= to <= s.len(),
    ensures
        match r {
            Some(n) => number_in(s@, from as int, to as int) == Some(n as nat) && n <= u32::MAX,
            None => number_in(s@, from as int, to as int) is None,
        },
{
    parse_unsigned(slice(s, from, to).as_str(), u32::MAX as u64)
}

/// How many discs are more than can be listed.
pub const MANY_DISCS: u64 = 1_000_000;

/// Whether a range of too many discs has its hyphen at `i`: every disc of a range
/// is listed.
pub open spec fn wide_disc_range(s: Seq<char>, i: int) -> bool {
    &&& s[i] == '-'
    &&& after_disc(s, i)
    &&& match (number_in(s, ascii_start(s, i), i), number_in(s, i + 1, ascii_end(s, i + 1))) {
        (Some(first), Some(last)) => first > 0 && last >= first + MANY_DISCS,
        _ => false,
    }
}

fn is_wide_disc_range(s: &Vec<char>, i: usize) -> (r: bool)
    requires
        i < s.len(),
    ensures
        r == wide_disc_range(s@, i as int),
{
    if s[i] != '-' || !is_after_disc(s, i) {
        return false;
    }
    let first = read_number(s, start_of_ascii(s, i), i);
    let last = read_number(s, i + 1, end_of_ascii(s, i + 1));
    match (first, last) {
        (Some(first), Some(last)) => first > 0 && last >= first + MANY_DISCS,
        _ => false,
    }
}

// ---------------------------------------------------------------------------
// Repacks
// ---------------------------------------------------------------------------

/// A small letter for a capital one, and a `k` for the Kelvin sign.
pub open spec fn folded_char(c: char) -> char {
    if c == KELVIN {
        'k'
    } else {
        lower_char_spec(c)
    }
}

pub open spec fn folded(s: Seq<char>) -> Seq<char> {
    s.map_values(|c: char| folded_char(c))
}

fn fold_chars(s: &Vec<char>) -> (r: Vec<char>)
    ensures
        r@ == folded(s@),
{
    let mut r: Vec<char> = Vec::new();
    let mut i: usize = 0;
    while i < s.len()
        invariant
            i <= s.len(),
            r@ == folded(s@.take(i as int)),
        decreases s.len() - i,
    {
        let c = if s[i] == KELVIN {
            'k'
        } else {
            lower_char(s[i])
        };
        r.push(c);
        i = i + 1;
        assert(r@ =~= folded(s@.take(i as int)));
    }
    assert(s@.take(s@.len() as int) =~= s@);
    r
}

/// Whether a character stands between the words of a name.
pub open spec fn word_break(c: char) -> bool {
    c == ' ' || c == '.' || c == '-' || c == '_' || c == ',' || c == '[' || c == ']' || c == '('
        || c == ')' || c == '/' || c == '\\'
}

fn is_word_break(c: char) -> (r: bool)
    ensures
        r == word_break(c),
{
    c == ' ' || c == '.' || c == '-' || c == '_' || c == ',' || c == '[' || c == ']' || c == '('
        || c == ')' || c == '/' || c == '\\'
}

/// Whether a word ends at `i`.
pub open spec fn word_ends(s: Seq<char>, i: int) -> bool {
    i >= s.len() || word_break(s[i])
}

fn is_word_end(s: &Vec<char>, i: usize) -> (r: bool)
    ensures
        r == word_ends(s@, i as int),
{
    i >= s.len() || is_word_break(s[i])
}

/// What a repack counts for whose number begins at `i`: its number, or one where
/// it has none of 32 bits.
pub open spec fn repack_number(s: Seq<char>, i: int) -> nat {
    let end = digits_end(s, i);
    if !word_ends(s, end) {
        0
    } else {
        match number_in(s, i, end) {
            Some(n) => n,
            None => 1,
        }
    }
}

fn count_repack(s: &Vec<char>, i: usize) -> (r: u64)
    requires
        i <= s.len(),
    ensures
        r == repack_number(s@, i as int),
        r <= u32::MAX,
{
    let end = end_of_digits(s, i);
    if !is_word_end(s, end) {
        return 0;
    }
    match read_number(s, i, end) {
        Some(n) => n,
        None => 1,
    }
}

/// Where the name of the file begins, behind those of its directories.
pub open spec fn file_start(s: Seq<char>) -> int {
    let slash = last_index(s, '/');
    let backslash = last_index(s, '\\');
    if slash > backslash {
        slash + 1
    } else {
        backslash + 1
    }
}

fn start_of_file(s: &Vec<char>) -> (r: usize)
    ensures
        r == file_start(s@),
{
    let slash: usize = match rfind_char(s, '/') {
        Some(i) => i + 1,
        None => 0,
    };
    let backslash: usize = match rfind_char(s, '\\') {
        Some(i) => i + 1,
        None => 0,
    };
    if slash > backslash {
        slash
    } else {
        backslash
    }
}

/// What the word at `i` counts for among the signs of a release that was mended.
pub open spec fn mended(s: Seq<char>, i: int) -> nat {
    if i < file_start(s) || (i > 0 && !word_break(s[i - 1])) {
        0
    } else if occurs_at(folded(s), "repack"@, i) {
        repack_number(s, i + 6)
    } else if occurs_at(folded(s), "rerip"@, i) {
        repack_number(s, i + 5)
    } else if occurs_at(folded(s), "proper"@, i) && word_ends(s, i + 6) {
        1
    } else if occurs_at(folded(s), "real"@, i) && word_ends(s, i + 4) {
        2
    } else {
        0
    }
}

fn occurs(hay: &Vec<char>, needle: &str, i: usize) -> (r: bool)
    requires
        i <= hay.len(),
    ensures
        r == occurs_at(hay@, needle@, i as int),
{
    let n = chars_of(needle);
    n.len() <= hay.len() - i && matches_at(hay, &n, i)
}

fn count_mended(s: &Vec<char>, small: &Vec<char>, start: usize, i: usize) -> (r: u64)
    requires
        i < s.len(),
        start == file_start(s@),
        small@ == folded(s@),
    ensures
        r == mended(s@, i as int),
        r <= u32::MAX,
{
    proof {
        reveal_strlit("repack");
        reveal_strlit("rerip");
        reveal_strlit("proper");
        reveal_strlit("real");
    }
    if i < start || (i > 0 && !is_word_break(s[i - 1])) {
        0
    } else if occurs(small, "repack", i) {
        count_repack(s, i + 6)
    } else if occurs(small, "rerip", i) {
        count_repack(s, i + 5)
    } else if occurs(small, "proper", i) && is_word_end(s, i + 6) {
        1
    } else if occurs(small, "real", i) && is_word_end(s, i + 4) {
        2
    } else {
        0
    }
}

/// What the words before `n` count for together.
pub open spec fn mended_before(s: Seq<char>, n: int) -> nat
    decreases n,
{
    if n <= 0 {
        0
    } else {
        mended_before(s, n - 1) + mended(s, n - 1)
    }
}

proof fn lemma_mended_grows(s: Seq<char>, m: int, n: int)
    requires
        m <= n,
    ensures
        mended_before(s, m) <= mended_before(s, n),
    decreases n,
{
    if m < n && n > 0 {
        lemma_mended_grows(s, m, n - 1);
    }
}

// ---------------------------------------------------------------------------
// Titles and endings
// ---------------------------------------------------------------------------

/// Whether a hyphen between two separators begins at `i` directly behind another
/// separator of titles, and something that is not ASCII comes later: there is no
/// title between the two, and the titles that follow are cut too early.
pub open spec fn doubled_separator(s: Seq<char>, i: int) -> bool {
    &&& 2 <= i
    &&& i + 3 <= s.len()
    &&& (s[i] == ' ' || s[i] == '_' || s[i] == '.') && s[i + 1] == '-' && s[i + 2] == s[i]
    &&& {
        ||| s[i - 2] == '-' && (s[i - 1] == ' ' || s[i - 1] == '_' || s[i - 1] == '.' || s[i - 1]
            == '-')
        ||| (s[i - 2] == ' ' || s[i - 2] == '_' || s[i - 2] == '.') && s[i - 1] == '('
    }
    &&& !ascii_from(s, i)
}

fn is_doubled(s: &Vec<char>, i: usize) -> (r: bool)
    requires
        i < s.len(),
    ensures
        r == doubled_separator(s@, i as int),
{
    if i < 2 || s.len() - i < 3 {
        return false;
    }
    let a = s[i - 2];
    let b = s[i - 1];
    let c = s[i];
    (c == ' ' || c == '_' || c == '.') && s[i + 1] == '-' && s[i + 2] == c && ((a == '-' && (b == ' '
        || b == '_' || b == '.' || b == '-')) || ((a == ' ' || a == '_' || a == '.') && b == '('))
        && !is_ascii_from(s, i)
}

/// A character that is dropped from the end of a name.
pub open spec fn dropped(c: char) -> bool {
    c == '.' || c == '-' || c == '_' || c == ' ' || c == '+' || c == '[' || c == ']'
}

fn is_dropped(c: char) -> (r: bool)
    ensures
        r == dropped(c),
{
    c == '.' || c == '-' || c == '_' || c == ' ' || c == '+' || c == '[' || c == ']'
}

/// Whether one to three characters before `i` are dropped.
pub open spec fn some_dropped(s: Seq<char>, i: int) -> bool {
    &&& i >= 1 && dropped(s[i - 1])
    &&& !(i >= 4 && dropped(s[i - 2]) && dropped(s[i - 3]) && dropped(s[i - 4]))
}

/// Whether the ending that begins behind a full stop at `dot` is read at a place
/// where it does not stand: characters before it are dropped, and it is as short
/// as a file extension, with a hyphen, as before the name of a group, and
/// something that is not ASCII.
pub open spec fn misplaced_ending(s: Seq<char>, dot: int) -> bool {
    let tail = s.skip(dot + 1);
    &&& some_dropped(s, dot)
    &&& tail.len() <= 4
    &&& last_index(tail, '-') >= 0
    &&& last_index(tail, '/') < 0
    &&& last_index(tail, '\\') < 0
    &&& !ascii_from(tail, 0)
}

/// Whether the extension behind a full stop at `dot` is shorter in small letters.
pub open spec fn shrinking_extension(s: Seq<char>, dot: int) -> bool {
    &&& s.len() == dot + 4
    &&& s[dot + 1] == 'm' || s[dot + 1] == 'M'
    &&& s[dot + 2] == KELVIN
    &&& s[dot + 3] == 'v' || s[dot + 3] == 'V'
}

/// Whether the ending of a name can be read.
pub open spec fn readable_ending(s: Seq<char>) -> bool {
    let dot = last_index(s, '.');
    dot >= 0 ==> !misplaced_ending(s, dot) && !shrinking_extension(s, dot)
}

fn holds(s: &Vec<char>, c: char) -> (r: bool)
    ensures
        r == (last_index(s@, c) >= 0),
{
    match rfind_char(s, c) {
        Some(_) => true,
        None => false,
    }
}

fn is_readable_ending(s: &Vec<char>) -> (r: bool)
    ensures
        r == readable_ending(s@),
{
    let dot = match rfind_char(s, '.') {
        Some(dot) => dot,
        None => {
            return true;
        },
    };
    let n: usize = s.len() - dot - 1;
    if n > 4 {
        return true;
    }
    if n == 3 && (s[dot + 1] == 'm' || s[dot + 1] == 'M') && s[dot + 2] == KELVIN && (s[dot + 3]
        == 'v' || s[dot + 3] == 'V') {
        return false;
    }
    let tail = chars_of(slice(s, dot + 1, s.len()).as_str());
    assert(tail@ =~= s@.skip(dot + 1));
    let some = dot >= 1 && is_dropped(s[dot - 1]) && !(dot >= 4 && is_dropped(s[dot - 2])
        && is_dropped(s[dot - 3]) && is_dropped(s[dot - 4]));
    !(some && holds(&tail, '-') && !holds(&tail, '/') && !holds(&tail, '\\') && !is_ascii_from(&tail, 0))
}

// ---------------------------------------------------------------------------
// Names
// ---------------------------------------------------------------------------

/// Whether nothing at `i` keeps a name from being read.
pub open spec fn readable_at(s: Seq<char>, i: int) -> bool {
    &&& !unreadable_rate(s, i)
    &&& !long_season(s, i)
    &&& !wide_disc_range(s, i)
    &&& !doubled_separator(s, i)
}

/// The release names that can be read: without a character that is taken for
/// another of another length where that can matter, and with numbers of repacks
/// and of discs that can be added up and listed. Whether a separator or an ending
/// does matter hangs on all else that is read in a name.
pub open spec fn readable_release(s: Seq<char>) -> bool {
    &&& forall|i: int| 0 <= i < s.len() ==> #[trigger] readable_at(s, i)
    &&& mended_before(s, s.len() as int) <= u32::MAX
    &&& readable_ending(s)
}

/// Whether a release name can be read.
pub fn is_readable_release(name: &str) -> (r: bool)
    ensures
        r == readable_release(name@),
{
    let s = chars_of(name);
    if !is_readable_ending(&s) {
        return false;
    }
    let small = fold_chars(&s);
    let start = start_of_file(&s);
    let mut total: u64 = 0;
    let mut i: usize = 0;
    while i < s.len()
        invariant
            i <= s.len(),
            s@ == name@,
            small@ == folded(s@),
            start == file_start(s@),
            readable_ending(s@),
            total == mended_before(s@, i as int),
            total <= u32::MAX,
            forall|k: int| 0 <= k < i ==> #[trigger] readable_at(s@, k),
        decreases s.len() - i,
    {
        if is_unreadable_rate(&s, i) || is_long_season(&s, i) || is_wide_disc_range(&s, i)
            || is_doubled(&s, i) {
            assert(!readable_at(s@, i as int));
            return false;
        }
        total = total + count_mended(&s, &small, start, i);
        if total > u32::MAX as u64 {
            proof {
                lemma_mended_grows(s@, i + 1, s@.len() as int);
            }
            return false;
        }
        i = i + 1;
    }
    true
}

/// A name of ASCII characters alone can be read where no range of discs and no number of
/// repacks in it can be too large.
pub proof fn law_ordinary_names_are_read(s: Seq<char>)
    requires
        s.len() < 0x7fff_ffff,
        forall|i: int| 0 <= i < s.len() ==> (#[trigger] s[i] as u32) < 128 && s[i] != '-',
        forall|i: int| !occurs_at(folded(s), "repack"@, i) && !occurs_at(folded(s), "rerip"@, i),
    ensures
        readable_release(s),
{
    assert forall|i: int| 0 <= i < s.len() implies #[trigger] readable_at(s, i) by {
        assert(s[i] != '-');
        if rate_at(s, i) is Some {
            let unit = rate_at(s, i)->Some_0.0;
            lemma_ends_grow(s, i);
            assert(s[unit] as u32 != 0x212a);
        }
        if i + 3 <= s.len() && i + 1 < s.len() {
            assert(s[i + 1] != '-');
        }
    }
    lemma_mended_is_small(s, s.len() as int);
    let dot = last_index(s, '.');
    crate::text::lemma_last_index(s, '.');
    if dot >= 0 {
        let tail = s.skip(dot + 1);
        crate::text::lemma_last_index(tail, '-');
        if last_index(tail, '-') >= 0 {
            assert(s[dot + 1 + last_index(tail, '-')] == '-');
        }
        if s.len() == dot + 4 {
            assert((s[dot + 2] as u32) < 128);
        }
    }
}

proof fn lemma_ends_grow(s: Seq<char>, i: int)
    requires
        0 <= i < s.len(),
    ensures
        number_end(s, i) >= i,
        blanks_end(s, number_end(s, i)) >= i,
{
    lemma_digits_grow(s, i);
    lemma_digits_grow(s, digits_end(s, i) + 1);
    lemma_blanks_grow(s, number_end(s, i));
}

proof fn lemma_digits_grow(s: Seq<char>, i: int)
    ensures
        digits_end(s, i) >= i,
    decreases s.len() - i,
{
    if 0 <= i < s.len() && any_digit(s[i]) {
        lemma_digits_grow(s, i + 1);
    }
}

proof fn lemma_blanks_grow(s: Seq<char>, i: int)
    ensures
        blanks_end(s, i) >= i,
    decreases s.len() - i,
{
    if 0 <= i < s.len() && blank(s[i]) {
        lemma_blanks_grow(s, i + 1);
    }
}

proof fn lemma_mended_is_small(s: Seq<char>, n: int)
    requires
        forall|i: int| !occurs_at(folded(s), "repack"@, i) && !occurs_at(folded(s), "rerip"@, i),
        0 <= n,
    ensures
        mended_before(s, n) <= 2 * n,
    decreases n,
{
    if n > 0 {
        lemma_mended_is_small(s, n - 1);
    }
}

} // verus!
