//! Text as sequences of characters: searching, splitting, case folding,
//! decimal numbers and lists of command line arguments.

use vstd::prelude::*;

verus! {

/// `String::push` appends one character.
pub assume_specification[ String::push ](s: &mut String, c: char)
    ensures
        final(s)@ == old(s)@.push(c),
;

// ---------------------------------------------------------------------------
// Characters and strings
// ---------------------------------------------------------------------------

/// The characters of `s`, in order.
pub fn chars_of(s: &str) -> (chars: Vec<char>)
    ensures
        chars@ == s@,
{
    let mut chars: Vec<char> = Vec::new();
    for c in iter: s.chars()
        invariant
            iter.seq() == s@,
            chars@ == s@.take(iter.index() as int),
    {
        chars.push(c);
    }
    assert(s@.take(s@.len() as int) == s@);
    chars
}

/// The string with exactly these characters.
pub fn string_of(chars: &Vec<char>) -> (s: String)
    ensures
        s@ == chars@,
{
    let mut s = String::new();
    let mut i: usize = 0;
    while i < chars.len()
        invariant
            i <= chars.len(),
            s@ == chars@.take(i as int),
        decreases chars.len() - i,
    {
        s.push(chars[i]);
        i = i + 1;
    }
    assert(chars@.take(chars@.len() as int) == chars@);
    s
}

/// Whether two texts hold the same characters.
pub fn same_text(a: &str, b: &str) -> (same: bool)
    ensures
        same == (a@ == b@),
{
    let left = chars_of(a);
    let right = chars_of(b);
    same_chars(&left, &right)
}

/// Whether two lists hold the same characters.
pub fn same_chars(a: &Vec<char>, b: &Vec<char>) -> (same: bool)
    ensures
        same == (a@ == b@),
{
    if a.len() != b.len() {
        return false;
    }
    let mut i: usize = 0;
    while i < a.len()
        invariant
            a.len() == b.len(),
            i <= a.len(),
            a@.take(i as int) == b@.take(i as int),
        decreases a.len() - i,
    {
        if a[i] != b[i] {
            assert(a@ != b@);
            return false;
        }
        assert(a@.take(i + 1) == a@.take(i as int).push(a@[i as int]));
        assert(b@.take(i + 1) == b@.take(i as int).push(b@[i as int]));
        i = i + 1;
    }
    assert(a@.take(a@.len() as int) == a@);
    assert(b@.take(b@.len() as int) == b@);
    true
}

// ---------------------------------------------------------------------------
// ASCII case
// ---------------------------------------------------------------------------

/// `c` with an ASCII capital replaced by its small letter.
pub open spec fn lower_char_spec(c: char) -> char {
    if 'A' <= c && c <= 'Z' {
        ((c as u8 + 32) as u8) as char
    } else {
        c
    }
}

/// `c` with an ASCII small letter replaced by its capital.
pub open spec fn upper_char_spec(c: char) -> char {
    if 'a' <= c && c <= 'z' {
        ((c as u8 - 32) as u8) as char
    } else {
        c
    }
}

pub open spec fn lower(s: Seq<char>) -> Seq<char> {
    s.map_values(|c: char| lower_char_spec(c))
}

pub open spec fn upper(s: Seq<char>) -> Seq<char> {
    s.map_values(|c: char| upper_char_spec(c))
}

pub fn lower_char(c: char) -> (r: char)
    ensures
        r == lower_char_spec(c),
{
    if 'A' <= c && c <= 'Z' {
        (c as u8 + 32) as char
    } else {
        c
    }
}

pub fn upper_char(c: char) -> (r: char)
    ensures
        r == upper_char_spec(c),
{
    if 'a' <= c && c <= 'z' {
        (c as u8 - 32) as char
    } else {
        c
    }
}

/// The ASCII lower case form of a list of characters.
pub fn lower_chars(chars: &Vec<char>) -> (r: Vec<char>)
    ensures
        r@ == lower(chars@),
{
    let mut r: Vec<char> = Vec::new();
    let mut i: usize = 0;
    while i < chars.len()
        invariant
            i <= chars.len(),
            r@ == lower(chars@.take(i as int)),
        decreases chars.len() - i,
    {
        r.push(lower_char(chars[i]));
        assert(lower(chars@.take(i + 1)) =~= lower(chars@.take(i as int)).push(
            lower_char_spec(chars@[i as int]),
        ));
        i = i + 1;
    }
    assert(chars@.take(chars@.len() as int) == chars@);
    r
}

/// The ASCII lower case form of `s`.
pub fn to_lower(s: &str) -> (r: String)
    ensures
        r@ == lower(s@),
{
    let chars = chars_of(s);
    string_of(&lower_chars(&chars))
}

/// The ASCII upper case form of `s`.
pub fn to_upper(s: &str) -> (r: String)
    ensures
        r@ == upper(s@),
{
    let chars = chars_of(s);
    let mut r = String::new();
    let mut i: usize = 0;
    while i < chars.len()
        invariant
            i <= chars.len(),
            r@ == upper(chars@.take(i as int)),
        decreases chars.len() - i,
    {
        r.push(upper_char(chars[i]));
        assert(upper(chars@.take(i + 1)) =~= upper(chars@.take(i as int)).push(
            upper_char_spec(chars@[i as int]),
        ));
        i = i + 1;
    }
    assert(chars@.take(chars@.len() as int) == chars@);
    r
}

/// Whether the two texts are equal up to ASCII case.
pub open spec fn same_folded(a: Seq<char>, b: Seq<char>) -> bool {
    lower(a) == lower(b)
}

pub fn eq_ignore_case(a: &str, b: &str) -> (same: bool)
    ensures
        same == same_folded(a@, b@),
{
    let left = lower_chars(&chars_of(a));
    let right = lower_chars(&chars_of(b));
    same_chars(&left, &right)
}

// ---------------------------------------------------------------------------
// Searching
// ---------------------------------------------------------------------------

/// Whether `needle` stands in `hay` at position `i`.
pub open spec fn occurs_at(hay: Seq<char>, needle: Seq<char>, i: int) -> bool {
    &&& 0 <= i
    &&& i + needle.len() <= hay.len()
    &&& hay.subrange(i, i + needle.len()) == needle
}

/// Whether `needle` stands anywhere in `hay`.
pub open spec fn has(hay: Seq<char>, needle: Seq<char>) -> bool {
    exists|i: int| occurs_at(hay, needle, i)
}

pub open spec fn begins(hay: Seq<char>, needle: Seq<char>) -> bool {
    occurs_at(hay, needle, 0)
}

pub open spec fn ends(hay: Seq<char>, needle: Seq<char>) -> bool {
    occurs_at(hay, needle, hay.len() - needle.len())
}

pub(crate) fn matches_at(hay: &Vec<char>, needle: &Vec<char>, i: usize) -> (r: bool)
    requires
        i + needle.len() <= hay.len(),
    ensures
        r == occurs_at(hay@, needle@, i as int),
{
    let mut k: usize = 0;
    let ghost window = hay@.subrange(i as int, i + needle@.len());
    while k < needle.len()
        invariant
            i + needle.len() <= hay.len(),
            k <= needle.len(),
            window == hay@.subrange(i as int, i + needle@.len()),
            forall|j: int| 0 <= j < k ==> window[j] == needle@[j],
        decreases needle.len() - k,
    {
        if hay[i + k] != needle[k] {
            assert(window[k as int] != needle@[k as int]);
            return false;
        }
        k = k + 1;
    }
    assert(window =~= needle@);
    true
}

/// Whether `needle` stands anywhere in `hay`.
pub fn has_chars(hay: &Vec<char>, needle: &Vec<char>) -> (r: bool)
    ensures
        r == has(hay@, needle@),
{
    if needle.len() > hay.len() {
        assert forall|i: int| !occurs_at(hay@, needle@, i) by {}
        return false;
    }
    let last: usize = hay.len() - needle.len();
    let mut i: usize = 0;
    while i <= last
        invariant
            last == hay.len() - needle.len(),
            i <= last + 1,
            forall|j: int| 0 <= j < i ==> !occurs_at(hay@, needle@, j),
        decreases last + 1 - i,
    {
        if matches_at(hay, needle, i) {
            return true;
        }
        if i == last {
            assert forall|j: int| !occurs_at(hay@, needle@, j) by {}
            return false;
        }
        i = i + 1;
    }
    assert forall|j: int| !occurs_at(hay@, needle@, j) by {}
    false
}

pub fn contains(hay: &str, needle: &str) -> (r: bool)
    ensures
        r == has(hay@, needle@),
{
    has_chars(&chars_of(hay), &chars_of(needle))
}

pub fn starts_with(hay: &str, needle: &str) -> (r: bool)
    ensures
        r == begins(hay@, needle@),
{
    let h = chars_of(hay);
    let n = chars_of(needle);
    if n.len() > h.len() {
        false
    } else {
        matches_at(&h, &n, 0)
    }
}

pub fn ends_with(hay: &str, needle: &str) -> (r: bool)
    ensures
        r == ends(hay@, needle@),
{
    let h = chars_of(hay);
    let n = chars_of(needle);
    if n.len() > h.len() {
        false
    } else {
        matches_at(&h, &n, h.len() - n.len())
    }
}

/// The part of `s` from character `from` up to, not including, `to`.
pub fn slice(s: &Vec<char>, from: usize, to: usize) -> (r: String)
    requires
        from <= to <= s.len(),
    ensures
        r@ == s@.subrange(from as int, to as int),
{
    let mut r = String::new();
    let mut i: usize = from;
    while i < to
        invariant
            from <= i <= to <= s.len(),
            r@ == s@.subrange(from as int, i as int),
        decreases to - i,
    {
        r.push(s[i]);
        assert(s@.subrange(from as int, i + 1) =~= s@.subrange(from as int, i as int).push(
            s@[i as int],
        ));
        i = i + 1;
    }
    r
}

/// The first position of `c`, or the length of `s` where it does not occur.
pub open spec fn first_index(s: Seq<char>, c: char) -> int
    decreases s.len(),
{
    if s.len() == 0 || s[0] == c {
        0
    } else {
        1 + first_index(s.skip(1), c)
    }
}

/// The last position of `c`, or -1 where it does not occur.
pub open spec fn last_index(s: Seq<char>, c: char) -> int
    decreases s.len(),
{
    if s.len() == 0 {
        -1
    } else if s.last() == c {
        s.len() - 1
    } else {
        last_index(s.drop_last(), c)
    }
}

/// `first_index` is the position of the first occurrence.
pub proof fn lemma_first_index(s: Seq<char>, c: char)
    ensures
        0 <= first_index(s, c) <= s.len(),
        first_index(s, c) < s.len() ==> s[first_index(s, c)] == c,
        forall|j: int| 0 <= j < first_index(s, c) ==> s[j] != c,
    decreases s.len(),
{
    if s.len() > 0 && s[0] != c {
        lemma_first_index(s.skip(1), c);
        assert forall|j: int| 0 <= j < first_index(s, c) implies s[j] != c by {
            if j > 0 {
                assert(s[j] == s.skip(1)[j - 1]);
            }
        }
    }
}

/// `last_index` is the position of the last occurrence.
pub proof fn lemma_last_index(s: Seq<char>, c: char)
    ensures
        -1 <= last_index(s, c) < s.len(),
        last_index(s, c) >= 0 ==> s[last_index(s, c)] == c,
        forall|j: int| last_index(s, c) < j < s.len() ==> s[j] != c,
    decreases s.len(),
{
    if s.len() > 0 && s.last() != c {
        lemma_last_index(s.drop_last(), c);
        assert forall|j: int| last_index(s, c) < j < s.len() implies s[j] != c by {
            if j < s.len() - 1 {
                assert(s[j] == s.drop_last()[j]);
            }
        }
    }
}

pub fn find_char(s: &Vec<char>, c: char) -> (i: usize)
    ensures
        i == first_index(s@, c),
        i <= s.len(),
{
    let mut i: usize = 0;
    while i < s.len() && s[i] != c
        invariant
            i <= s.len(),
            forall|j: int| 0 <= j < i ==> s@[j] != c,
        decreases s.len() - i,
    {
        i = i + 1;
    }
    proof {
        lemma_first_index(s@, c);
    }
    i
}

/// The last position of `c` in `s`, if it occurs.
pub fn rfind_char(s: &Vec<char>, c: char) -> (i: Option<usize>)
    ensures
        match i {
            Some(i) => i == last_index(s@, c) && i < s.len(),
            None => last_index(s@, c) == -1,
        },
{
    let mut n: usize = s.len();
    while n > 0 && s[n - 1] != c
        invariant
            n <= s.len(),
            forall|j: int| n <= j < s.len() ==> s@[j] != c,
        decreases n,
    {
        n = n - 1;
    }
    proof {
        lemma_last_index(s@, c);
    }
    if n > 0 {
        Some(n - 1)
    } else {
        None
    }
}

// ---------------------------------------------------------------------------
// Character classes
// ---------------------------------------------------------------------------

pub open spec fn is_digit_spec(c: char) -> bool {
    '0' <= c && c <= '9'
}

pub open spec fn is_alpha_spec(c: char) -> bool {
    ('a' <= c && c <= 'z') || ('A' <= c && c <= 'Z')
}

pub open spec fn is_alnum_spec(c: char) -> bool {
    is_digit_spec(c) || is_alpha_spec(c)
}

/// The characters with the Unicode property `White_Space`.
pub open spec fn is_space_spec(c: char) -> bool {
    let n = c as u32;
    ||| 0x09 <= n <= 0x0d
    ||| n == 0x20
    ||| n == 0x85
    ||| n == 0xa0
    ||| n == 0x1680
    ||| 0x2000 <= n <= 0x200a
    ||| n == 0x2028
    ||| n == 0x2029
    ||| n == 0x202f
    ||| n == 0x205f
    ||| n == 0x3000
}

pub fn is_digit(c: char) -> (r: bool)
    ensures
        r == is_digit_spec(c),
{
    '0' <= c && c <= '9'
}

pub fn is_alpha(c: char) -> (r: bool)
    ensures
        r == is_alpha_spec(c),
{
    ('a' <= c && c <= 'z') || ('A' <= c && c <= 'Z')
}

pub fn is_alnum(c: char) -> (r: bool)
    ensures
        r == is_alnum_spec(c),
{
    is_digit(c) || is_alpha(c)
}

pub fn is_space(c: char) -> (r: bool)
    ensures
        r == is_space_spec(c),
{
    let n: u32 = c as u32;
    (0x09 <= n && n <= 0x0d) || n == 0x20 || n == 0x85 || n == 0xa0 || n == 0x1680 || (0x2000 <= n
        && n <= 0x200a) || n == 0x2028 || n == 0x2029 || n == 0x202f || n == 0x205f || n == 0x3000
}

// ---------------------------------------------------------------------------
// Trimming
// ---------------------------------------------------------------------------

/// `s` without the white space at its start.
pub open spec fn trim_start(s: Seq<char>) -> Seq<char>
    decreases s.len(),
{
    if s.len() > 0 && is_space_spec(s[0]) {
        trim_start(s.skip(1))
    } else {
        s
    }
}

/// `s` without the white space at its end.
pub open spec fn trim_end(s: Seq<char>) -> Seq<char>
    decreases s.len(),
{
    if s.len() > 0 && is_space_spec(s.last()) {
        trim_end(s.drop_last())
    } else {
        s
    }
}

/// `s` without the white space at either end.
pub open spec fn trim_spec(s: Seq<char>) -> Seq<char> {
    trim_end(trim_start(s))
}

pub fn trim(s: &str) -> (r: String)
    ensures
        r@ == trim_spec(s@),
{
    let chars = chars_of(s);
    let mut from: usize = 0;
    assert(chars@.skip(0) =~= chars@);
    while from < chars.len() && is_space(chars[from])
        invariant
            from <= chars.len(),
            trim_start(chars@) == trim_start(chars@.skip(from as int)),
        decreases chars.len() - from,
    {
        assert(chars@.skip(from as int).skip(1) =~= chars@.skip(from + 1));
        from = from + 1;
    }
    let mut to: usize = chars.len();
    let ghost rest = trim_start(chars@);
    assert(rest =~= chars@.subrange(from as int, chars@.len() as int));
    while to > from && is_space(chars[to - 1])
        invariant
            from <= to <= chars.len(),
            trim_end(rest) == trim_end(chars@.subrange(from as int, to as int)),
        decreases to,
    {
        assert(chars@.subrange(from as int, to as int).drop_last() =~= chars@.subrange(
            from as int,
            to - 1,
        ));
        to = to - 1;
    }
    slice(&chars, from, to)
}

// ---------------------------------------------------------------------------
// Splitting
// ---------------------------------------------------------------------------

/// Where a text is split.
#[derive(Clone, Copy)]
pub enum Separator {
    /// At one given character.
    At(char),
    /// At every character but an ASCII letter or digit.
    NotAlphanumeric,
    /// At every character but an ASCII letter.
    NotAlphabetic,
}

impl Separator {
    pub open spec fn splits(self, c: char) -> bool {
        match self {
            Separator::At(s) => c == s,
            Separator::NotAlphanumeric => !is_alnum_spec(c),
            Separator::NotAlphabetic => !is_alpha_spec(c),
        }
    }

    pub fn is_at(&self, c: char) -> (r: bool)
        ensures
            r == self.splits(c),
    {
        match *self {
            Separator::At(s) => c == s,
            Separator::NotAlphanumeric => !is_alnum(c),
            Separator::NotAlphabetic => !is_alpha(c),
        }
    }
}

/// The pieces of `s` between separators, the empty ones included.
pub open spec fn pieces(s: Seq<char>, sep: Separator) -> Seq<Seq<char>>
    decreases s.len(),
{
    if s.len() == 0 {
        seq![Seq::<char>::empty()]
    } else {
        let before = pieces(s.drop_last(), sep);
        if sep.splits(s.last()) {
            before.push(Seq::empty())
        } else {
            before.drop_last().push(before.last().push(s.last()))
        }
    }
}

/// The non-empty pieces of `s` between separators.
pub open spec fn words(s: Seq<char>, sep: Separator) -> Seq<Seq<char>> {
    pieces(s, sep).filter(|p: Seq<char>| p.len() > 0)
}

/// The characters of each of a list of texts.
pub open spec fn texts(v: Seq<String>) -> Seq<Seq<char>> {
    v.map_values(|s: String| s@)
}

pub open spec fn text_opt(s: Option<String>) -> Option<Seq<char>> {
    match s {
        Some(s) => Some(s@),
        None => None,
    }
}

pub open spec fn str_opt(s: Option<&str>) -> Option<Seq<char>> {
    match s {
        Some(s) => Some(s@),
        None => None,
    }
}

/// Splits `s`, keeping empty pieces.
pub fn split(s: &str, sep: Separator) -> (r: Vec<String>)
    ensures
        texts(r@) == pieces(s@, sep),
        r.len() >= 1,
{
    let chars = chars_of(s);
    let mut r: Vec<String> = Vec::new();
    let mut piece = String::new();
    let mut i: usize = 0;
    proof {
        assert(pieces(chars@.take(0), sep) =~= seq![Seq::<char>::empty()]);
    }
    while i < chars.len()
        invariant
            i <= chars.len(),
            pieces(chars@.take(i as int), sep) == texts(r@).push(piece@),
        decreases chars.len() - i,
    {
        let c = chars[i];
        let ghost before = texts(r@);
        proof {
            assert(chars@.take(i + 1).drop_last() =~= chars@.take(i as int));
            assert(before.push(piece@).drop_last() =~= before);
        }
        if sep.is_at(c) {
            let ghost done = piece@;
            r.push(piece);
            piece = String::new();
            assert(texts(r@) =~= before.push(done));
        } else {
            piece.push(c);
        }
        i = i + 1;
    }
    assert(chars@.take(chars@.len() as int) == chars@);
    let ghost before = texts(r@);
    let ghost done = piece@;
    r.push(piece);
    assert(texts(r@) =~= before.push(done));
    r
}

/// Splits `s` and drops the empty pieces.
pub fn split_words(s: &str, sep: Separator) -> (r: Vec<String>)
    ensures
        texts(r@) == words(s@, sep),
{
    let all = split(s, sep);
    let mut r: Vec<String> = Vec::new();
    let mut i: usize = 0;
    let ghost kept = |p: Seq<char>| p.len() > 0;
    while i < all.len()
        invariant
            i <= all.len(),
            kept == (|p: Seq<char>| p.len() > 0),
            texts(r@) == texts(all@).take(i as int).filter(kept),
        decreases all.len() - i,
    {
        let ghost before = texts(r@);
        proof {
            assert(texts(all@).take(i + 1) =~= texts(all@).take(i as int).push(all@[i as int]@));
            reveal(Seq::filter);
            assert(texts(all@).take(i + 1).drop_last() =~= texts(all@).take(i as int));
        }
        if !all[i].as_str().is_empty() {
            r.push(all[i].clone());
            assert(texts(r@) =~= before.push(all@[i as int]@));
        }
        i = i + 1;
    }
    assert(texts(all@).take(all@.len() as int) =~= texts(all@));
    r
}

/// Whether `list` holds a text with the characters of `s`.
pub fn list_has(list: &Vec<String>, s: &str) -> (r: bool)
    ensures
        r == texts(list@).contains(s@),
{
    let mut i: usize = 0;
    while i < list.len()
        invariant
            i <= list.len(),
            forall|j: int| 0 <= j < i ==> texts(list@)[j] != s@,
        decreases list.len() - i,
    {
        if same_text(list[i].as_str(), s) {
            assert(texts(list@)[i as int] == s@);
            return true;
        }
        i = i + 1;
    }
    false
}

// ---------------------------------------------------------------------------
// Decimal numbers
// ---------------------------------------------------------------------------

pub open spec fn digit_char(d: nat) -> char {
    ((48 + d) as u8) as char
}

/// The decimal digits of `n`.
pub open spec fn dec(n: nat) -> Seq<char>
    decreases n,
{
    if n < 10 {
        seq![digit_char(n)]
    } else {
        dec(n / 10).push(digit_char(n % 10))
    }
}

/// `n` in decimal, with a minus sign where it is negative.
pub open spec fn dec_int(n: int) -> Seq<char> {
    if n < 0 {
        seq!['-'] + dec((-n) as nat)
    } else {
        dec(n as nat)
    }
}

/// `n` in decimal, with zeros in front up to `width` digits.
pub open spec fn dec_padded(n: nat, width: nat) -> Seq<char> {
    let digits = dec(n);
    Seq::new(
        if digits.len() < width {
            (width - digits.len()) as nat
        } else {
            0
        },
        |i: int| '0',
    ) + digits
}

/// Appends the decimal digits of `n`.
pub fn push_dec(s: &mut String, n: u128)
    ensures
        final(s)@ == old(s)@ + dec(n as nat),
    decreases n,
{
    if n >= 10 {
        push_dec(s, n / 10);
    }
    let d: u8 = (n % 10) as u8;
    s.push((48 + d) as char);
    assert(s@ =~= old(s)@ + dec(n as nat));
}

/// `n` in decimal.
pub fn dec_text(n: u64) -> (s: String)
    ensures
        s@ == dec(n as nat),
{
    let mut s = String::new();
    push_dec(&mut s, n as u128);
    assert(s@ =~= dec(n as nat));
    s
}

/// `n` in decimal, with its sign.
pub fn dec_int_text(n: i64) -> (s: String)
    ensures
        s@ == dec_int(n as int),
{
    let mut s = String::new();
    if n < 0 {
        s.push('-');
        push_dec(&mut s, (-(n as i128)) as u128);
    } else {
        push_dec(&mut s, n as u128);
    }
    assert(s@ =~= dec_int(n as int));
    s
}

/// `n` in decimal, filled up with zeros to `width` digits.
pub fn dec_padded_text(n: u64, width: usize) -> (s: String)
    ensures
        s@ == dec_padded(n as nat, width as nat),
{
    let digits = dec_text(n);
    let len: usize = digits.as_str().unicode_len();
    let mut s = String::new();
    let mut i: usize = len;
    while i < width
        invariant
            len == digits@.len(),
            len <= i,
            i <= len || i <= width,
            s@ =~= Seq::new((i - len) as nat, |k: int| '0'),
        decreases width - i,
    {
        s.push('0');
        i = i + 1;
    }
    s.append(digits.as_str());
    assert(s@ =~= dec_padded(n as nat, width as nat));
    s
}

/// The number that a row of decimal digits stands for.
pub open spec fn digits_value(s: Seq<char>) -> nat
    decreases s.len(),
{
    if s.len() == 0 {
        0
    } else {
        digits_value(s.drop_last()) * 10 + (s.last() as nat - 48) as nat
    }
}

pub open spec fn all_digits(s: Seq<char>) -> bool {
    forall|i: int| 0 <= i < s.len() ==> is_digit_spec(#[trigger] s[i])
}

/// What `s` stands for as an unsigned decimal number of at most `max`: one or
/// more digits, with at most one plus sign in front.
pub open spec fn unsigned_value(s: Seq<char>, max: nat) -> Option<nat> {
    let digits = if s.len() > 0 && s[0] == '+' {
        s.skip(1)
    } else {
        s
    };
    if digits.len() > 0 && all_digits(digits) && digits_value(digits) <= max {
        Some(digits_value(digits))
    } else {
        None
    }
}

/// What `s` stands for as a 64 bit signed decimal number.
pub open spec fn signed_value(s: Seq<char>) -> Option<int> {
    let negative = s.len() > 0 && s[0] == '-';
    let digits = if s.len() > 0 && (s[0] == '+' || s[0] == '-') {
        s.skip(1)
    } else {
        s
    };
    if digits.len() > 0 && all_digits(digits) {
        let n = digits_value(digits);
        if negative && n <= 0x8000_0000_0000_0000 {
            Some(-(n as int))
        } else if !negative && n <= i64::MAX {
            Some(n as int)
        } else {
            None
        }
    } else {
        None
    }
}

/// More digits never make a smaller number.
pub proof fn lemma_digits_value_grows(s: Seq<char>, i: int)
    requires
        0 <= i <= s.len(),
    ensures
        digits_value(s.take(i)) <= digits_value(s),
    decreases s.len() - i,
{
    if i < s.len() {
        lemma_digits_value_grows(s, i + 1);
        assert(s.take(i + 1).drop_last() =~= s.take(i));
    } else {
        assert(s.take(i) =~= s);
    }
}

/// A number is read back from its decimal digits.
pub proof fn law_decimal_reads_back(n: nat)
    ensures
        dec(n).len() > 0,
        all_digits(dec(n)),
        digits_value(dec(n)) == n,
        forall|max: nat| n <= max ==> #[trigger] unsigned_value(dec(n), max) == Some(n),
    decreases n,
{
    if n < 10 {
        assert(dec(n).drop_last() =~= Seq::<char>::empty());
        assert(digits_value(Seq::<char>::empty()) == 0);
    } else {
        law_decimal_reads_back(n / 10);
        assert(dec(n).drop_last() =~= dec(n / 10));
        assert forall|i: int| 0 <= i < dec(n).len() implies is_digit_spec(#[trigger] dec(n)[i]) by {
            if i < dec(n / 10).len() {
                assert(dec(n)[i] == dec(n / 10)[i]);
            }
        }
    }
    assert(is_digit_spec(dec(n)[0]));
}

/// The value of the digits from `from` on, where it is at most `max`.
fn parse_digits(chars: &Vec<char>, from: usize, max: u64) -> (r: Option<u64>)
    requires
        from <= chars.len(),
    ensures
        ({
            let digits = chars@.skip(from as int);
            match r {
                Some(n) => digits.len() > 0 && all_digits(digits) && n == digits_value(digits)
                    && n <= max,
                None => !(digits.len() > 0 && all_digits(digits) && digits_value(digits) <= max),
            }
        }),
{
    if from == chars.len() {
        return None;
    }
    let ghost digits = chars@.skip(from as int);
    let mut n: u64 = 0;
    let mut i: usize = from;
    assert(digits.take(0) =~= Seq::<char>::empty());
    while i < chars.len()
        invariant
            from <= i <= chars.len(),
            digits == chars@.skip(from as int),
            n <= max,
            n == digits_value(digits.take(i - from)),
            forall|j: int| 0 <= j < i - from ==> is_digit_spec(#[trigger] digits[j]),
        decreases chars.len() - i,
    {
        let c = chars[i];
        assert(c == digits[i - from]);
        if !is_digit(c) {
            assert(!all_digits(digits));
            return None;
        }
        let d: u128 = (c as u32 - 48) as u128;
        let next: u128 = n as u128 * 10 + d;
        proof {
            assert(digits.take(i - from + 1).drop_last() =~= digits.take(i - from));
            lemma_digits_value_grows(digits, i - from + 1);
        }
        if next > max as u128 {
            return None;
        }
        n = next as u64;
        i = i + 1;
    }
    assert(digits.take(digits.len() as int) =~= digits);
    Some(n)
}

/// Reads `s` as an unsigned decimal number of at most `max`.
pub fn parse_unsigned(s: &str, max: u64) -> (r: Option<u64>)
    ensures
        match r {
            Some(n) => unsigned_value(s@, max as nat) == Some(n as nat),
            None => unsigned_value(s@, max as nat) is None,
        },
{
    let chars = chars_of(s);
    let from: usize = if chars.len() > 0 && chars[0] == '+' {
        1
    } else {
        0
    };
    assert(chars@.skip(0) =~= chars@);
    parse_digits(&chars, from, max)
}

/// Reads `s` as a signed decimal number.
pub fn parse_signed(s: &str) -> (r: Option<i64>)
    ensures
        match r {
            Some(n) => signed_value(s@) == Some(n as int),
            None => signed_value(s@) is None,
        },
{
    let chars = chars_of(s);
    assert(chars@.skip(0) =~= chars@);
    if chars.len() > 0 && chars[0] == '-' {
        match parse_digits(&chars, 1, 0x8000_0000_0000_0000) {
            Some(n) => Some((-(n as i128)) as i64),
            None => None,
        }
    } else {
        let from: usize = if chars.len() > 0 && chars[0] == '+' {
            1
        } else {
            0
        };
        match parse_digits(&chars, from, i64::MAX as u64) {
            Some(n) => Some(n as i64),
            None => None,
        }
    }
}

// ---------------------------------------------------------------------------
// Lists of arguments, and paths
// ---------------------------------------------------------------------------

pub fn push_arg(args: &mut Vec<String>, a: &str)
    ensures
        texts(final(args)@) == texts(old(args)@).push(a@),
{
    args.push(a.to_owned());
    assert(texts(args@) =~= texts(old(args)@).push(a@));
}

/// Appends a flag and its value.
pub fn push_pair(args: &mut Vec<String>, a: &str, b: &str)
    ensures
        texts(final(args)@) == texts(old(args)@) + seq![a@, b@],
{
    push_arg(args, a);
    push_arg(args, b);
    assert(texts(args@) =~= texts(old(args)@) + seq![a@, b@]);
}

/// Appends every text of `more`.
pub fn push_args(args: &mut Vec<String>, more: Vec<String>)
    ensures
        texts(final(args)@) == texts(old(args)@) + texts(more@),
{
    let mut rest = more;
    args.append(&mut rest);
    assert(texts(args@) =~= texts(old(args)@) + texts(more@));
}

/// A file of a directory: the two joined by one slash, where the directory
/// does not end in one already and is not empty.
pub open spec fn in_dir(dir: Seq<char>, file: Seq<char>) -> Seq<char> {
    if dir.len() == 0 || dir.last() == '/' {
        dir + file
    } else {
        dir.push('/') + file
    }
}

pub fn join_path(dir: &str, file: &str) -> (path: String)
    ensures
        path@ == in_dir(dir@, file@),
{
    let chars = chars_of(dir);
    let mut path = dir.to_owned();
    if chars.len() > 0 && chars[chars.len() - 1] != '/' {
        path.push('/');
    }
    path.append(file);
    path
}

/// The first text followed by the second.
pub fn concat2(a: &str, b: &str) -> (s: String)
    ensures
        s@ == a@ + b@,
{
    let mut s = a.to_owned();
    s.append(b);
    s
}

/// The three texts one after the other.
pub fn concat3(a: &str, b: &str, c: &str) -> (s: String)
    ensures
        s@ == a@ + b@ + c@,
{
    let mut s = a.to_owned();
    s.append(b);
    s.append(c);
    s
}

/// Whether an argument stands in a list directly before another.
pub open spec fn has_pair(args: Seq<Seq<char>>, a: Seq<char>, b: Seq<char>) -> bool {
    exists|i: int| 0 <= i < args.len() - 1 && #[trigger] args[i] == a && args[i + 1] == b
}

/// A pair of one of two lists is one of both together.
pub broadcast proof fn lemma_pair_of_sum(
    x: Seq<Seq<char>>,
    y: Seq<Seq<char>>,
    a: Seq<char>,
    b: Seq<char>,
)
    ensures
        has_pair(x, a, b) || has_pair(y, a, b) ==> #[trigger] has_pair(x + y, a, b),
{
    if has_pair(x, a, b) {
        let i = choose|i: int| 0 <= i < x.len() - 1 && #[trigger] x[i] == a && x[i + 1] == b;
        assert((x + y)[i] == a && (x + y)[i + 1] == b);
    } else if has_pair(y, a, b) {
        let i = choose|i: int| 0 <= i < y.len() - 1 && #[trigger] y[i] == a && y[i + 1] == b;
        assert((x + y)[x.len() + i] == a && (x + y)[x.len() + i + 1] == b);
    }
}

pub broadcast proof fn lemma_pair_itself(x: Seq<Seq<char>>, a: Seq<char>, b: Seq<char>)
    ensures
        x.len() >= 2 && x[0] == a && x[1] == b ==> #[trigger] has_pair(x, a, b),
{
}

pub(crate) proof fn lemma_dec_chars(n: nat)
    ensures
        dec(n).len() > 0,
        forall|k: int| 0 <= k < dec(n).len() ==> is_digit_spec(#[trigger] dec(n)[k]),
    decreases n,
{
    if n >= 10 {
        lemma_dec_chars(n / 10);
        assert forall|k: int| 0 <= k < dec(n).len() implies is_digit_spec(#[trigger] dec(n)[k]) by {
            if k < dec(n).len() - 1 {
                assert(dec(n)[k] == dec(n / 10)[k]);
            }
        }
    }
}

pub(crate) proof fn lemma_dec_int_chars(n: int)
    ensures
        dec_int(n).len() > 0,
        forall|k: int|
            0 <= k < dec_int(n).len() ==> is_digit_spec(#[trigger] dec_int(n)[k]) || dec_int(n)[k]
                == '-',
{
    if n < 0 {
        lemma_dec_chars((-n) as nat);
    } else {
        lemma_dec_chars(n as nat);
    }
}

/// What stands in one of two texts stands in both together.
pub broadcast proof fn lemma_has_of_sum(x: Seq<char>, y: Seq<char>, n: Seq<char>)
    ensures
        has(x, n) || has(y, n) ==> #[trigger] has(x + y, n),
{
    if has(x, n) {
        let i = choose|i: int| occurs_at(x, n, i);
        assert((x + y).subrange(i, i + n.len()) =~= x.subrange(i, i + n.len()));
        assert(occurs_at(x + y, n, i));
    } else if has(y, n) {
        let i = choose|i: int| occurs_at(y, n, i);
        let j = x.len() + i;
        assert((x + y).subrange(j, j + n.len()) =~= y.subrange(i, i + n.len()));
        assert(occurs_at(x + y, n, j));
    }
}

pub broadcast proof fn lemma_has_itself(x: Seq<char>, n: Seq<char>)
    ensures
        x == n ==> #[trigger] has(x, n),
{
    assert(n.subrange(0, n.len() as int) =~= n);
    assert(occurs_at(n, n, 0));
}

/// What one text begins with, it begins with when another follows; what it ends
/// with, it ends with behind another.
pub proof fn lemma_ends_of_sum(x: Seq<char>, y: Seq<char>)
    ensures
        begins(x + y, x),
        ends(x + y, y),
{
    assert((x + y).subrange(0, x.len() as int) =~= x);
    assert((x + y).subrange(x.len() as int, (x + y).len() as int) =~= y);
}

// ---------------------------------------------------------------------------
// Laws
// ---------------------------------------------------------------------------

/// A capital letter stands thirty-two places before its small one, and no other
/// character changes with its case.
pub proof fn law_case(s: Seq<char>, i: int)
    requires
        0 <= i < s.len(),
    ensures
        lower(s).len() == s.len() && upper(s).len() == s.len(),
        'A' <= s[i] <= 'Z' ==> lower(s)[i] as u32 == s[i] as u32 + 32 && upper(s)[i] == s[i],
        'a' <= s[i] <= 'z' ==> upper(s)[i] as u32 + 32 == s[i] as u32 && lower(s)[i] == s[i],
        !('A' <= s[i] <= 'Z') && !('a' <= s[i] <= 'z') ==> lower(s)[i] == s[i]
            && upper(s)[i] == s[i],
        lower(lower(s)) == lower(s),
        lower(upper(s)) == lower(s),
{
    assert(lower(lower(s)) =~= lower(s));
    assert(lower(upper(s)) =~= lower(s));
}

/// What stands between the white space at both ends of a text is what is left of it.
pub proof fn law_trimming(before: Seq<char>, middle: Seq<char>, after: Seq<char>)
    requires
        forall|i: int| 0 <= i < before.len() ==> is_space_spec(#[trigger] before[i]),
        forall|i: int| 0 <= i < after.len() ==> is_space_spec(#[trigger] after[i]),
        middle.len() > 0 ==> !is_space_spec(middle[0]) && !is_space_spec(middle.last()),
    ensures
        trim_spec(before + middle + after) == middle,
        is_space_spec(' ') && is_space_spec('\n') && is_space_spec('\t') && is_space_spec('\r'),
        !is_space_spec('0') && !is_space_spec('a') && !is_space_spec('-'),
{
    lemma_trim_start(before, middle + after);
    assert(before + middle + after =~= before + (middle + after));
    if middle.len() > 0 {
        assert((middle + after)[0] == middle[0]);
        lemma_trim_end(middle, after);
    } else {
        assert(middle + after =~= after);
        lemma_trim_start(after, Seq::empty());
        assert(after + Seq::<char>::empty() =~= after);
    }
}

proof fn lemma_trim_start(before: Seq<char>, rest: Seq<char>)
    requires
        forall|i: int| 0 <= i < before.len() ==> is_space_spec(#[trigger] before[i]),
    ensures
        trim_start(before + rest) == trim_start(rest),
        rest.len() > 0 && !is_space_spec(rest[0]) ==> trim_start(rest) == rest,
        rest.len() == 0 ==> trim_start(rest) == rest,
    decreases before.len(),
{
    if before.len() > 0 {
        assert((before + rest).skip(1) =~= before.skip(1) + rest);
        assert forall|i: int| 0 <= i < before.skip(1).len() implies is_space_spec(
            #[trigger] before.skip(1)[i],
        ) by {
            assert(before.skip(1)[i] == before[i + 1]);
        }
        assert(is_space_spec(before[0]));
        lemma_trim_start(before.skip(1), rest);
    } else {
        assert(before + rest =~= rest);
    }
}

proof fn lemma_trim_end(rest: Seq<char>, after: Seq<char>)
    requires
        forall|i: int| 0 <= i < after.len() ==> is_space_spec(#[trigger] after[i]),
        rest.len() > 0 && !is_space_spec(rest.last()),
    ensures
        trim_end(rest + after) == rest,
    decreases after.len(),
{
    if after.len() > 0 {
        assert((rest + after).drop_last() =~= rest + after.drop_last());
        assert(is_space_spec(after[after.len() - 1]));
        assert forall|i: int| 0 <= i < after.drop_last().len() implies is_space_spec(
            #[trigger] after.drop_last()[i],
        ) by {
            assert(after.drop_last()[i] == after[i]);
        }
        lemma_trim_end(rest, after.drop_last());
    } else {
        assert(rest + after =~= rest);
    }
}

/// A text is split at every separator: what has none is one piece, and a separator
/// between two texts parts their pieces.
pub proof fn law_splitting(a: Seq<char>, c: char, b: Seq<char>, sep: Separator)
    requires
        sep.splits(c),
    ensures
        (forall|i: int| 0 <= i < a.len() ==> !sep.splits(#[trigger] a[i])) ==> pieces(a, sep)
            == seq![a],
        pieces(a.push(c) + b, sep) == pieces(a, sep) + pieces(b, sep),
        Separator::At(c).splits(c),
        Separator::NotAlphanumeric.splits(c) <==> !(('a' <= c <= 'z') || ('A' <= c <= 'Z') || ('0'
            <= c <= '9')),
        Separator::NotAlphabetic.splits(c) <==> !(('a' <= c <= 'z') || ('A' <= c <= 'Z')),
    decreases a.len() + b.len(),
{
    if forall|i: int| 0 <= i < a.len() ==> !sep.splits(#[trigger] a[i]) {
        lemma_one_piece(a, sep);
    }
    if b.len() == 0 {
        assert(a.push(c) + b =~= a.push(c));
        assert(a.push(c).drop_last() =~= a);
        assert(pieces(a, sep).push(Seq::empty()) =~= pieces(a, sep) + pieces(b, sep));
    } else {
        let short = b.drop_last();
        law_splitting(a, c, short, sep);
        lemma_some_piece(short, sep);
        let all = a.push(c) + b;
        assert(all.drop_last() =~= a.push(c) + short);
        assert(all.last() == b.last());
        assert(pieces(all, sep) =~= pieces(a, sep) + pieces(b, sep));
    }
}

proof fn lemma_some_piece(s: Seq<char>, sep: Separator)
    ensures
        pieces(s, sep).len() > 0,
    decreases s.len(),
{
    if s.len() > 0 {
        lemma_some_piece(s.drop_last(), sep);
    }
}

proof fn lemma_one_piece(s: Seq<char>, sep: Separator)
    requires
        forall|i: int| 0 <= i < s.len() ==> !sep.splits(#[trigger] s[i]),
    ensures
        pieces(s, sep) == seq![s],
    decreases s.len(),
{
    if s.len() > 0 {
        let short = s.drop_last();
        assert forall|i: int| 0 <= i < short.len() implies !sep.splits(#[trigger] short[i]) by {
            assert(short[i] == s[i]);
        }
        lemma_one_piece(short, sep);
        assert(!sep.splits(s[s.len() - 1]));
        assert(short.push(s.last()) =~= s);
        assert(pieces(s, sep) =~= seq![s]);
    } else {
        assert(s =~= Seq::empty());
    }
}

/// A text begins with another where something makes it up to the first, ends with it
/// likewise, and holds it where something does on both sides.
pub proof fn law_parts_of_a_text(x: Seq<char>, y: Seq<char>, z: Seq<char>)
    ensures
        begins(y + z, y),
        ends(x + y, y),
        has(x + y + z, y),
        begins(x, y) ==> x.len() >= y.len() && x == y + x.skip(y.len() as int),
        ends(x, y) ==> x.len() >= y.len() && x == x.take(x.len() - y.len()) + y,
{
    lemma_ends_of_sum(y, z);
    lemma_ends_of_sum(x, y);
    assert((x + y + z).subrange(x.len() as int, x.len() as int + y.len()) =~= y);
    assert(occurs_at(x + y + z, y, x.len() as int));
    if begins(x, y) {
        assert(x =~= x.subrange(0, y.len() as int) + x.skip(y.len() as int));
    }
    if ends(x, y) {
        assert(x =~= x.take(x.len() - y.len()) + x.subrange(x.len() - y.len(), x.len() as int));
    }
}

/// A number with zeros in front is still that number, and at least as long as is asked.
pub proof fn law_zeros_in_front(n: nat, width: nat)
    ensures
        dec_padded(n, width).len() >= width,
        all_digits(dec_padded(n, width)),
        digits_value(dec_padded(n, width)) == n,
        dec(n).len() >= width ==> dec_padded(n, width) == dec(n),
        dec(n).len() < width ==> dec_padded(n, width).len() == width,
{
    law_decimal_reads_back(n);
    let digits = dec(n);
    let zeros = Seq::new(
        if digits.len() < width {
            (width - digits.len()) as nat
        } else {
            0
        },
        |i: int| '0',
    );
    lemma_zeros(zeros, digits);
    if digits.len() >= width {
        assert(dec_padded(n, width) =~= digits);
    }
    assert forall|i: int| 0 <= i < dec_padded(n, width).len() implies is_digit_spec(
        #[trigger] dec_padded(n, width)[i],
    ) by {
        if i >= zeros.len() {
            assert(dec_padded(n, width)[i] == digits[i - zeros.len()]);
        }
    }
}

proof fn lemma_zeros(zeros: Seq<char>, digits: Seq<char>)
    requires
        forall|i: int| 0 <= i < zeros.len() ==> #[trigger] zeros[i] == '0',
    ensures
        digits_value(zeros + digits) == digits_value(digits),
    decreases zeros.len() + digits.len(),
{
    if digits.len() > 0 {
        assert((zeros + digits).drop_last() =~= zeros + digits.drop_last());
        lemma_zeros(zeros, digits.drop_last());
    } else if zeros.len() > 0 {
        assert(zeros + digits =~= zeros);
        assert(zeros[zeros.len() - 1] == '0');
        let short = zeros.drop_last();
        assert forall|i: int| 0 <= i < short.len() implies #[trigger] short[i] == '0' by {
            assert(short[i] == zeros[i]);
        }
        lemma_zeros(short, digits);
        assert(short + digits =~= short);
    }
}

/// A number with its sign is read back.
pub proof fn law_signed_numbers_read_back(n: i64)
    ensures
        signed_value(dec_int(n as int)) == Some(n as int),
{
    let digits = if n < 0 {
        dec((-n) as nat)
    } else {
        dec(n as nat)
    };
    if n < 0 {
        law_decimal_reads_back((-n) as nat);
        assert(dec_int(n as int).skip(1) =~= digits);
        assert(dec_int(n as int)[0] == '-');
    } else {
        law_decimal_reads_back(n as nat);
        assert(is_digit_spec(digits[0]));
    }
}

} // verus!
