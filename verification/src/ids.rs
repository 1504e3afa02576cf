//! Identifiers of items, sources and users: 128 bit numbers with the texts and
//! the name-based numbering of UUIDs.

use vstd::prelude::*;

verus! {

/// The lower case hexadecimal digit of `d`.
pub open spec fn hex_digit(d: nat) -> char {
    if d < 10 {
        ((48 + d) as u8) as char
    } else {
        ((87 + d) as u8) as char
    }
}

/// The last `width` hexadecimal digits of `n`.
pub open spec fn hex(n: nat, width: nat) -> Seq<char>
    decreases width,
{
    if width == 0 {
        Seq::empty()
    } else {
        hex(n / 16, (width - 1) as nat).push(hex_digit(n % 16))
    }
}

/// The 32 digits of an identifier.
pub open spec fn simple_id(id: u128) -> Seq<char> {
    hex(id as nat, 32)
}

/// The digits of an identifier in five groups.
pub open spec fn hyphenated_id(id: u128) -> Seq<char> {
    let s = simple_id(id);
    s.subrange(0, 8) + "-"@ + s.subrange(8, 12) + "-"@ + s.subrange(12, 16) + "-"@ + s.subrange(
        16,
        20,
    ) + "-"@ + s.subrange(20, 32)
}

/// What `uuid::Uuid::parse_str` reads from a text.
pub uninterp spec fn parsed_id(s: Seq<char>) -> Option<u128>;

/// The number that `uuid::Uuid::new_v5` gives a name under the URL namespace.
pub uninterp spec fn url_name_id(name: Seq<char>) -> u128;

/// `uuid::Uuid::as_simple`, printed: the 32 lower case digits.
#[verifier::external_body]
pub(crate) fn simple_text(id: u128) -> (s: String)
    ensures
        s@ == simple_id(id),
{
    uuid::Uuid::from_u128(id).as_simple().to_string()
}

/// `uuid::Uuid::as_hyphenated`, printed: the lower case digits in groups of 8,
/// 4, 4, 4 and 12.
#[verifier::external_body]
pub(crate) fn hyphenated_text(id: u128) -> (s: String)
    ensures
        s@ == hyphenated_id(id),
{
    uuid::Uuid::from_u128(id).as_hyphenated().to_string()
}

/// `uuid::Uuid::parse_str`: a function of the text, which reads back what
/// `as_simple` and `as_hyphenated` print.
#[verifier::external_body]
pub(crate) fn parse_id(s: &str) -> (r: Option<u128>)
    ensures
        r == parsed_id(s@),
        forall|id: u128| s@ == #[trigger] simple_id(id) ==> r == Some(id),
        forall|id: u128| s@ == #[trigger] hyphenated_id(id) ==> r == Some(id),
{
    uuid::Uuid::parse_str(s).ok().map(|id| id.as_u128())
}

/// `uuid::Uuid::new_v5` under `uuid::Uuid::NAMESPACE_URL`: a function of the
/// name.
#[verifier::external_body]
pub(crate) fn name_id(name: &str) -> (id: u128)
    ensures
        id == url_name_id(name@),
{
    uuid::Uuid::new_v5(&uuid::Uuid::NAMESPACE_URL, name.as_bytes()).as_u128()
}

/// How many numbers have no more than `width` hexadecimal digits.
pub open spec fn hex_range(width: nat) -> nat
    decreases width,
{
    if width == 0 {
        1
    } else {
        16 * hex_range((width - 1) as nat)
    }
}

pub(crate) proof fn lemma_hex_len(n: nat, width: nat)
    ensures
        hex(n, width).len() == width,
    decreases width,
{
    if width > 0 {
        lemma_hex_len(n / 16, (width - 1) as nat);
    }
}

proof fn lemma_hex_injective(a: nat, b: nat, width: nat)
    requires
        a < hex_range(width),
        b < hex_range(width),
        hex(a, width) == hex(b, width),
    ensures
        a == b,
    decreases width,
{
    if width > 0 {
        let w = (width - 1) as nat;
        assert(hex(a, width).drop_last() =~= hex(a / 16, w));
        assert(hex(b, width).drop_last() =~= hex(b / 16, w));
        assert(hex(a, width).last() == hex_digit(a % 16));
        assert(hex(b, width).last() == hex_digit(b % 16));
        lemma_hex_injective(a / 16, b / 16, w);
        assert(a % 16 == b % 16) by {
            assert forall|d: nat| d < 16 implies (#[trigger] hex_digit(d)) as u8 == if d < 10 {
                48 + d
            } else {
                87 + d
            } by {}
        }
    }
}

proof fn lemma_hyphenated_len(id: u128)
    ensures
        hyphenated_id(id).len() == 36,
{
    lemma_hex_len(id as nat, 32);
    reveal_strlit("-");
}

/// Two identifiers have different texts, with hyphens and without.
pub proof fn law_ids_have_texts_of_their_own(a: u128, b: u128)
    ensures
        simple_id(a) == simple_id(b) ==> a == b,
        hyphenated_id(a) == hyphenated_id(b) ==> a == b,
        simple_id(a).len() == 32,
        hyphenated_id(a).len() == 36,
{
    lemma_hex_len(a as nat, 32);
    lemma_hex_len(b as nat, 32);
    lemma_hyphenated_len(a);
    assert(hex_range(32) == 0x1_0000_0000_0000_0000_0000_0000_0000_0000) by {
        reveal_with_fuel(hex_range, 33);
    }
    if simple_id(a) == simple_id(b) {
        lemma_hex_injective(a as nat, b as nat, 32);
    }
    if hyphenated_id(a) == hyphenated_id(b) {
        reveal_strlit("-");
        let s = simple_id(a);
        let t = simple_id(b);
        let h = hyphenated_id(a);
        assert forall|i: int| 0 <= i < 32 implies s[i] == t[i] by {
            let at = if i < 8 {
                i
            } else if i < 12 {
                i + 1
            } else if i < 16 {
                i + 2
            } else if i < 20 {
                i + 3
            } else {
                i + 4
            };
            assert(s[i] == h[at]);
            assert(t[i] == h[at]);
        }
        assert(s =~= t);
        lemma_hex_injective(a as nat, b as nat, 32);
    }
}

} // verus!
