//! Addresses: their parts, their query strings and the encoding of values in
//! them.

use vstd::prelude::*;
use vstd::utf8::encode_utf8;

use crate::text::is_alnum_spec;

verus! {

// ---------------------------------------------------------------------------
// Percent encoding
// ---------------------------------------------------------------------------

pub open spec fn upper_hex_digit(d: nat) -> char {
    if d < 10 {
        ((48 + d) as u8) as char
    } else {
        ((55 + d) as u8) as char
    }
}

/// The bytes that stand for themselves.
pub open spec fn unreserved(b: u8) -> bool {
    let c = b as char;
    b < 0x80 && (is_alnum_spec(c) || c == '-' || c == '_' || c == '.' || c == '~')
}

pub open spec fn percent_byte(b: u8) -> Seq<char> {
    if unreserved(b) {
        seq![b as char]
    } else {
        seq!['%', upper_hex_digit(b as nat / 16), upper_hex_digit(b as nat % 16)]
    }
}

pub open spec fn percent_bytes(bytes: Seq<u8>) -> Seq<char>
    decreases bytes.len(),
{
    if bytes.len() == 0 {
        Seq::empty()
    } else {
        percent_byte(bytes[0]) + percent_bytes(bytes.skip(1))
    }
}

/// A text in UTF-8, each byte but letters, digits and `-_.~` as a percent sign
/// and two capital hexadecimal digits.
pub open spec fn percent_encoded(s: Seq<char>) -> Seq<char> {
    percent_bytes(encode_utf8(s))
}

/// `urlencoding::encode`: percent-encodes every byte of the UTF-8 form but
/// ASCII letters, digits, `-`, `_`, `.` and `~`.
#[verifier::external_body]
pub(crate) fn encode(s: &str) -> (r: String)
    ensures
        r@ == percent_encoded(s@),
{
    urlencoding::encode(s).into_owned()
}

// ---------------------------------------------------------------------------
// Query strings
// ---------------------------------------------------------------------------

/// A field of a query string, written plainly or percent-encoded.
pub ghost struct QueryField {
    pub key: Seq<char>,
    pub value: Seq<char>,
    pub encoded: bool,
}

pub open spec fn plain_value(s: Seq<char>) -> bool {
    forall|i: int|
        0 <= i < s.len() ==> (#[trigger] s[i]) != '&' && s[i] != '+' && s[i] != '%'
}

impl QueryField {
    pub open spec fn text(&self) -> Seq<char> {
        self.key + "="@ + if self.encoded {
            percent_encoded(self.value)
        } else {
            self.value
        }
    }

    /// Nothing in the field is taken for the syntax of a query string.
    pub open spec fn readable(&self) -> bool {
        &&& plain_value(self.key)
        &&& !self.key.contains('=')
        &&& self.encoded || plain_value(self.value)
    }

    pub open spec fn pair(&self) -> (Seq<char>, Seq<char>) {
        (self.key, self.value)
    }
}

/// The fields with an ampersand between each two.
pub open spec fn query_text(fields: Seq<QueryField>) -> Seq<char>
    decreases fields.len(),
{
    if fields.len() == 0 {
        Seq::empty()
    } else if fields.len() == 1 {
        fields[0].text()
    } else {
        query_text(fields.drop_last()) + "&"@ + fields.last().text()
    }
}

pub open spec fn all_readable(fields: Seq<QueryField>) -> bool {
    forall|i: int| 0 <= i < fields.len() ==> (#[trigger] fields[i]).readable()
}

pub open spec fn field_pairs(fields: Seq<QueryField>) -> Seq<(Seq<char>, Seq<char>)> {
    fields.map_values(|f: QueryField| f.pair())
}

pub open spec fn pair_texts(pairs: Seq<(String, String)>) -> Seq<(Seq<char>, Seq<char>)> {
    pairs.map_values(|p: (String, String)| (p.0@, p.1@))
}

/// The names and values that `url::form_urlencoded::parse` reads from a query
/// string.
pub uninterp spec fn form_pairs(query: Seq<char>) -> Seq<(Seq<char>, Seq<char>)>;

/// `url::form_urlencoded::parse`: a function of the query string. It reads
/// back the names and values of fields that are joined by ampersands, whether
/// a value is percent-encoded or holds no `&`, `+` or `%`.
#[verifier::external_body]
pub(crate) fn parse_form(query: &str) -> (pairs: Vec<(String, String)>)
    ensures
        pair_texts(pairs@) == form_pairs(query@),
        forall|fields: Seq<QueryField>|
            query@ == #[trigger] query_text(fields) && all_readable(fields) ==> pair_texts(pairs@)
                == field_pairs(fields),
{
    url::form_urlencoded::parse(query.as_bytes()).into_owned().collect()
}

/// The value of the first pair with the name `key`.
pub open spec fn first_value(pairs: Seq<(Seq<char>, Seq<char>)>, key: Seq<char>) -> Option<
    Seq<char>,
>
    decreases pairs.len(),
{
    if pairs.len() == 0 {
        None
    } else if pairs[0].0 == key {
        Some(pairs[0].1)
    } else {
        first_value(pairs.skip(1), key)
    }
}

/// Finds the value of the first pair with the name `key`.
pub fn find_value(pairs: &Vec<(String, String)>, key: &str) -> (r: Option<String>)
    ensures
        crate::text::text_opt(r) == first_value(pair_texts(pairs@), key@),
{
    let ghost all = pair_texts(pairs@);
    let mut i: usize = 0;
    assert(all.skip(0) =~= all);
    while i < pairs.len()
        invariant
            i <= pairs.len(),
            all == pair_texts(pairs@),
            first_value(all, key@) == first_value(all.skip(i as int), key@),
        decreases pairs.len() - i,
    {
        proof {
            assert(all.skip(i as int).skip(1) =~= all.skip(i + 1));
            assert(all.skip(i as int)[0] == (pairs@[i as int].0@, pairs@[i as int].1@));
        }
        if crate::text::same_text(pairs[i].0.as_str(), key) {
            return Some(pairs[i].1.clone());
        }
        i = i + 1;
    }
    None
}

// ---------------------------------------------------------------------------
// Parts of an address
// ---------------------------------------------------------------------------

/// The parts of an absolute address.
#[derive(Debug, Clone)]
pub struct UrlParts {
    pub scheme: String,
    pub host: Option<String>,
    /// The port, where it is not the scheme's own.
    pub port: Option<u16>,
    pub path: String,
    pub query: Vec<(String, String)>,
}

pub ghost struct UrlView {
    pub scheme: Seq<char>,
    pub host: Option<Seq<char>>,
    pub port: Option<u16>,
    pub path: Seq<char>,
    pub query: Seq<(Seq<char>, Seq<char>)>,
}

impl View for UrlParts {
    type V = UrlView;

    open spec fn view(&self) -> UrlView {
        UrlView {
            scheme: self.scheme@,
            host: crate::text::text_opt(self.host),
            port: self.port,
            path: self.path@,
            query: pair_texts(self.query@),
        }
    }
}

/// The parts that `url::Url::parse` finds in a text.
pub uninterp spec fn url_parts(s: Seq<char>) -> Option<UrlView>;

/// `url::Url::parse`, with the scheme, the host, the port, the path and the
/// query pairs of what it returns: a function of the text.
#[verifier::external_body]
pub(crate) fn parse_url(s: &str) -> (r: Option<UrlParts>)
    ensures
        (match r {
            Some(u) => Some(u@),
            None => None,
        }) == url_parts(s@),
{
    url::Url::parse(s).ok().map(|u| UrlParts {
        scheme: u.scheme().to_string(),
        host: u.host_str().map(|h| h.to_string()),
        port: u.port(),
        path: u.path().to_string(),
        query: u.query_pairs().into_owned().collect(),
    })
}

/// The value of the first query pair with the name `param`.
pub fn extract_query_param(url: &str, param: &str) -> (r: Option<String>)
    ensures
        crate::text::text_opt(r) == match url_parts(url@) {
            Some(u) => first_value(u.query, param@),
            None => None,
        },
{
    match parse_url(url) {
        Some(u) => find_value(&u.query, param),
        None => None,
    }
}

/// The value under a name is that of its first pair; there is one where any pair has
/// the name.
pub proof fn law_first_pair_counts(pairs: Seq<(Seq<char>, Seq<char>)>, key: Seq<char>, k: int)
    requires
        0 <= k < pairs.len(),
    ensures
        pairs[k].0 == key && (forall|j: int| 0 <= j < k ==> (#[trigger] pairs[j]).0 != key)
            ==> first_value(pairs, key) == Some(pairs[k].1),
        pairs[k].0 == key ==> first_value(pairs, key) is Some,
        (forall|j: int| 0 <= j < pairs.len() ==> (#[trigger] pairs[j]).0 != key) ==> first_value(
            pairs,
            key,
        ) is None,
    decreases pairs.len(),
{
    let rest = pairs.skip(1);
    assert forall|j: int| 0 <= j < rest.len() implies #[trigger] rest[j] == pairs[j + 1] by {}
    if rest.len() > 0 {
        law_first_pair_counts(
            rest,
            key,
            if k > 0 {
                k - 1
            } else {
                0
            },
        );
    }
    if pairs[k].0 == key && (forall|j: int| 0 <= j < k ==> (#[trigger] pairs[j]).0 != key)
        && k > 0 {
        assert(pairs[0].0 != key);
        assert forall|j: int| 0 <= j < k - 1 implies (#[trigger] rest[j]).0 != key by {
            assert(pairs[j + 1].0 != key);
        }
    }
    if forall|j: int| 0 <= j < pairs.len() ==> (#[trigger] pairs[j]).0 != key {
        assert(pairs[0].0 != key);
        assert forall|j: int| 0 <= j < rest.len() implies (#[trigger] rest[j]).0 != key by {
            assert(pairs[j + 1].0 != key);
        }
    }
}

} // verus!
