//! What a client is answered when a stream is passed on to it.

use vstd::prelude::*;

use crate::keyed::Keyed;
use crate::stream::{
    bounded_range, bounded_range_spec, content_range, content_range_spec, forwarded,
    is_forwarded_header, mime_from_path, mime_spec, open_or_finite_range,
    parse_open_or_finite_range, parse_range, range_bounds, range_in_file, total_length,
    total_length_spec, BoundedRange, RangeError,
};
use crate::text::{dec, dec_text, is_alnum_spec, lower, str_opt, text_opt};

verus! {

// ---------------------------------------------------------------------------
// Headers
// ---------------------------------------------------------------------------

/// The characters that the name of a header is made of.
pub open spec fn token_char(c: char) -> bool {
    is_alnum_spec(c) || c == '!' || c == '#' || c == '$' || c == '%' || c == '&' || c == '\'' || c
        == '*' || c == '+' || c == '-' || c == '.' || c == '^' || c == '_' || c == '`' || c == '|'
        || c == '~'
}

/// A text as the name of a header, in lower case, where it can be one: it has one
/// to 65535 characters, each of a token.
pub open spec fn header_name_of(s: Seq<char>) -> Option<Seq<char>> {
    if 1 <= s.len() <= 65535 && forall|i: int| 0 <= i < s.len() ==> token_char(#[trigger] s[i]) {
        Some(lower(s))
    } else {
        None
    }
}

/// `http::HeaderName::try_from` on a text, as the name is then written: in lower
/// case, and none for an empty text, one of more than 65535 bytes or one with a
/// character that is not of a token.
#[verifier::external_body]
fn header_name(s: &str) -> (r: Option<String>)
    ensures
        text_opt(r) == header_name_of(s@),
{
    http::HeaderName::try_from(s).ok().map(|name| name.as_str().to_owned())
}

/// A text that can be the value of a header holds no control character but the
/// tabulator.
pub open spec fn header_value(s: Seq<char>) -> bool {
    forall|i: int|
        0 <= i < s.len() ==> (#[trigger] s[i] == '\t' || (s[i] as u32 >= 32 && s[i] as u32 != 127))
}

/// `http::HeaderValue::try_from` on a text: every byte has to be 32 or more and
/// not 127, or a tabulator.
#[verifier::external_body]
fn is_header_value(s: &str) -> (r: bool)
    ensures
        r == header_value(s@),
{
    http::HeaderValue::try_from(s).is_ok()
}

pub open spec fn header_pairs(v: Seq<(String, String)>) -> Seq<(Seq<char>, Seq<char>)> {
    v.map_values(|p: (String, String)| (p.0@, p.1@))
}

/// Those of some headers that can be sent, with their names in lower case.
pub open spec fn sendable(raw: Seq<(Seq<char>, Seq<char>)>) -> Seq<(Seq<char>, Seq<char>)>
    decreases raw.len(),
{
    if raw.len() == 0 {
        Seq::empty()
    } else {
        let before = sendable(raw.drop_last());
        match header_name_of(raw.last().0) {
            Some(name) if header_value(raw.last().1) => before.push((name, raw.last().1)),
            _ => before,
        }
    }
}

/// Keeps the headers that can be sent.
pub fn valid_headers(raw: &Vec<(String, String)>) -> (r: Vec<(String, String)>)
    ensures
        header_pairs(r@) == sendable(header_pairs(raw@)),
{
    let ghost all = header_pairs(raw@);
    let mut r: Vec<(String, String)> = Vec::new();
    assert(header_pairs(r@) =~= sendable(all.take(0)));
    let mut i: usize = 0;
    while i < raw.len()
        invariant
            i <= raw.len(),
            all == header_pairs(raw@),
            header_pairs(r@) == sendable(all.take(i as int)),
        decreases raw.len() - i,
    {
        proof {
            assert(all.take(i + 1).drop_last() =~= all.take(i as int));
            assert(all.take(i + 1).last() == (raw@[i as int].0@, raw@[i as int].1@));
        }
        if let Some(name) = header_name(raw[i].0.as_str()) {
            if is_header_value(raw[i].1.as_str()) {
                let ghost before = r@;
                let value = raw[i].1.clone();
                r.push((name, value));
                assert(header_pairs(r@) =~= header_pairs(before).push((name@, value@)));
            }
        }
        i = i + 1;
    }
    assert(all.take(all.len() as int) =~= all);
    r
}

/// Where the value of a header comes from.
#[derive(Debug)]
pub enum HeaderSource {
    /// From this header of the upstream answer.
    Upstream(usize),
    Text(String),
}

pub ghost enum HeaderView {
    Upstream(int),
    Text(Seq<char>),
}

impl View for HeaderSource {
    type V = HeaderView;

    open spec fn view(&self) -> HeaderView {
        match self {
            HeaderSource::Upstream(i) => HeaderView::Upstream(*i as int),
            HeaderSource::Text(s) => HeaderView::Text(s@),
        }
    }
}

pub open spec fn header_views(m: Map<Seq<char>, HeaderSource>) -> Map<Seq<char>, HeaderView> {
    m.map_values(|h: HeaderSource| h@)
}

/// The headers that are taken over from the upstream answer; of several with
/// one name the last.
pub open spec fn taken_over(names: Seq<Seq<char>>) -> Map<Seq<char>, HeaderView>
    decreases names.len(),
{
    if names.len() == 0 {
        Map::empty()
    } else {
        let before = taken_over(names.drop_last());
        if forwarded(names.last()) {
            before.insert(names.last(), HeaderView::Upstream(names.len() - 1))
        } else {
            before
        }
    }
}

/// Some headers with others put over them.
pub open spec fn overlaid(
    base: Map<Seq<char>, HeaderView>,
    extra: Seq<(Seq<char>, Seq<char>)>,
) -> Map<Seq<char>, HeaderView>
    decreases extra.len(),
{
    if extra.len() == 0 {
        base
    } else {
        overlaid(base, extra.drop_last()).insert(
            extra.last().0,
            HeaderView::Text(extra.last().1),
        )
    }
}

/// The headers of an answer: those taken over, then the range that is sent,
/// then those of the provider; a type where there is none.
pub open spec fn answer_headers(
    names: Seq<Seq<char>>,
    range: Option<BoundedRange>,
    total: Option<u64>,
    extra: Seq<(Seq<char>, Seq<char>)>,
) -> Map<Seq<char>, HeaderView> {
    let upstream = taken_over(names);
    let ranged = match range {
        Some(b) => upstream.insert(
            "content-length"@,
            HeaderView::Text(dec(b.length as nat)),
        ).insert("content-range"@, HeaderView::Text(content_range_spec(b, total))),
        None => upstream,
    };
    let all = overlaid(ranged, extra);
    if all.contains_key("content-type"@) {
        all
    } else {
        all.insert("content-type"@, HeaderView::Text("application/octet-stream"@))
    }
}

fn put(headers: &mut Keyed<HeaderSource>, name: String, value: HeaderSource)
    requires
        old(headers).wf(),
    ensures
        final(headers).wf(),
        header_views(final(headers).view()) == header_views(old(headers).view()).insert(
            name@,
            value@,
        ),
{
    let ghost before = headers.view();
    headers.insert(name, value);
    assert(header_views(headers.view()) =~= header_views(before).insert(name@, value@));
}

/// The headers of an answer. `extra` are the provider's headers that can be
/// sent.
pub fn response_headers(
    upstream_names: &Vec<String>,
    range: Option<BoundedRange>,
    total: Option<u64>,
    extra: &Vec<(String, String)>,
) -> (r: Keyed<HeaderSource>)
    ensures
        r.wf(),
        header_views(r.view()) == answer_headers(
            crate::text::texts(upstream_names@),
            range,
            total,
            header_pairs(extra@),
        ),
{
    let ghost names = crate::text::texts(upstream_names@);
    let mut r: Keyed<HeaderSource> = Keyed::new();
    assert(header_views(r.view()) =~= taken_over(names.take(0)));
    let mut i: usize = 0;
    while i < upstream_names.len()
        invariant
            i <= upstream_names.len(),
            r.wf(),
            names == crate::text::texts(upstream_names@),
            header_views(r.view()) == taken_over(names.take(i as int)),
        decreases upstream_names.len() - i,
    {
        proof {
            assert(names.take(i + 1).drop_last() =~= names.take(i as int));
            assert(names.take(i + 1).last() == upstream_names@[i as int]@);
        }
        if is_forwarded_header(upstream_names[i].as_str()) {
            put(&mut r, upstream_names[i].clone(), HeaderSource::Upstream(i));
        }
        i = i + 1;
    }
    assert(names.take(names.len() as int) =~= names);
    if let Some(b) = range {
        put(&mut r, "content-length".to_owned(), HeaderSource::Text(dec_text(b.length)));
        put(&mut r, "content-range".to_owned(), HeaderSource::Text(content_range(&b, total)));
    }
    let ghost base = header_views(r.view());
    let ghost all = header_pairs(extra@);
    assert(base == overlaid(base, all.take(0)));
    let mut k: usize = 0;
    while k < extra.len()
        invariant
            k <= extra.len(),
            r.wf(),
            all == header_pairs(extra@),
            header_views(r.view()) == overlaid(base, all.take(k as int)),
        decreases extra.len() - k,
    {
        proof {
            assert(all.take(k + 1).drop_last() =~= all.take(k as int));
            assert(all.take(k + 1).last() == (extra@[k as int].0@, extra@[k as int].1@));
        }
        put(&mut r, extra[k].0.clone(), HeaderSource::Text(extra[k].1.clone()));
        k = k + 1;
    }
    assert(all.take(all.len() as int) =~= all);
    let typed = r.get("content-type").is_some();
    assert(typed == header_views(r.view()).contains_key("content-type"@));
    if !typed {
        put(
            &mut r,
            "content-type".to_owned(),
            HeaderSource::Text("application/octet-stream".to_owned()),
        );
    }
    r
}

// ---------------------------------------------------------------------------
// Streams of others
// ---------------------------------------------------------------------------

/// How the client that fetches streams introduces itself.
pub const USER_AGENT: &'static str = "remux-server/1.0";

/// How long it waits for a connection.
pub const CONNECT_TIMEOUT_SECS: u64 = 10;

/// How many idle connections it keeps to a host, and for how long.
pub const POOL_MAX_IDLE_PER_HOST: usize = 20;

pub const POOL_IDLE_SECS: u64 = 90;

/// How often it shows that a connection is alive.
pub const KEEPALIVE_SECS: u64 = 60;

/// The answer to a client whose request was passed on.
pub struct ProxyAnswer {
    /// The range that is sent, where the answer is cut down to one: the status
    /// is then that of a partial answer, else that of upstream.
    pub range: Option<BoundedRange>,
    pub headers: Keyed<HeaderSource>,
}

/// The range that a client asks for, where ranges are cut down.
pub open spec fn asked_range(range: Option<Seq<char>>, bound: bool) -> Option<
    (u64, Option<u64>),
> {
    match range {
        Some(r) if bound => match open_or_finite_range(r) {
            Some((start, None)) => Some((start as u64, None)),
            Some((start, Some(end))) => Some((start as u64, Some(end as u64))),
            None => None,
        },
        _ => None,
    }
}

/// How long the whole stream is, by the upstream answer.
pub open spec fn stated_total(content_range: Option<Seq<char>>) -> Option<u64> {
    match content_range {
        Some(c) => match total_length_spec(c) {
            Some(n) => Some(n as u64),
            None => None,
        },
        None => None,
    }
}

/// Answers a client whose request was passed on. The torrent engine knows only
/// open ranges, so with `bound` a finite range is cut out of its answer.
/// `partial` says whether upstream sent a part, and `upstream_range` which.
pub fn answer_proxied(
    range: Option<&str>,
    bound: bool,
    partial: bool,
    upstream_range: Option<&str>,
    upstream_names: &Vec<String>,
    response_headers_raw: &Vec<(String, String)>,
) -> (r: ProxyAnswer)
    ensures
        r.headers.wf(),
        r.range == bounded_range_spec(
            asked_range(str_opt(range), bound),
            partial,
            stated_total(str_opt(upstream_range)),
        ),
        header_views(r.headers.view()) == answer_headers(
            crate::text::texts(upstream_names@),
            r.range,
            stated_total(str_opt(upstream_range)),
            sendable(header_pairs(response_headers_raw@)),
        ),
{
    let requested = match range {
        Some(text) => if bound {
            parse_open_or_finite_range(text)
        } else {
            None
        },
        None => None,
    };
    let total = match upstream_range {
        Some(text) => total_length(text),
        None => None,
    };
    let cut = bounded_range(requested, partial, total);
    let extra = valid_headers(response_headers_raw);
    let headers = response_headers(upstream_names, cut, total, &extra);
    ProxyAnswer { range: cut, headers }
}

/// A client that asked for a range of a torrent gets no more than that range,
/// whatever else upstream sends, and is told which and how long it is.
pub proof fn law_answers_are_cut_to_the_range(
    names: Seq<Seq<char>>,
    range: BoundedRange,
    total: Option<u64>,
    extra: Seq<(Seq<char>, Seq<char>)>,
)
    requires
        forall|i: int|
            0 <= i < extra.len() ==> (#[trigger] extra[i]).0 != "content-length"@ && extra[i].0
                != "content-range"@,
    ensures
        ({
            let h = answer_headers(names, Some(range), total, extra);
            &&& h.contains_key("content-length"@)
            &&& h["content-length"@] == HeaderView::Text(dec(range.length as nat))
            &&& h.contains_key("content-range"@)
            &&& h["content-range"@] == HeaderView::Text(content_range_spec(range, total))
            &&& h.contains_key("content-type"@)
        }),
{
    reveal_strlit("content-length");
    reveal_strlit("content-range");
    reveal_strlit("content-type");
    assert("content-length"@[8] == 'l');
    assert("content-range"@[8] == 'r');
    assert("content-type"@[8] == 't');
    let base = taken_over(names).insert(
        "content-length"@,
        HeaderView::Text(dec(range.length as nat)),
    ).insert("content-range"@, HeaderView::Text(content_range_spec(range, total)));
    lemma_overlaid(base, extra, "content-length"@);
    lemma_overlaid(base, extra, "content-range"@);
}

proof fn lemma_overlaid(
    base: Map<Seq<char>, HeaderView>,
    extra: Seq<(Seq<char>, Seq<char>)>,
    name: Seq<char>,
)
    requires
        base.contains_key(name),
        forall|i: int| 0 <= i < extra.len() ==> (#[trigger] extra[i]).0 != name,
    ensures
        overlaid(base, extra).contains_key(name),
        overlaid(base, extra)[name] == base[name],
    decreases extra.len(),
{
    if extra.len() > 0 {
        let short = extra.drop_last();
        assert forall|i: int| 0 <= i < short.len() implies (#[trigger] short[i]).0 != name by {
            assert(short[i] == extra[i]);
        }
        lemma_overlaid(base, short, name);
        assert(extra[extra.len() - 1].0 != name);
    }
}

// ---------------------------------------------------------------------------
// Files of the server
// ---------------------------------------------------------------------------

/// The answer to a client that asks for a file of the server.
#[derive(Debug)]
pub struct FileAnswer {
    /// Where to start reading.
    pub start: u64,
    /// How many bytes to send.
    pub length: u64,
    pub content_type: &'static str,
    /// The range that is sent, for a partial answer.
    pub content_range: Option<String>,
}

/// Whether a file can be answered: it is not empty where a well-formed range is
/// asked for, and the range begins in it.
pub open spec fn answerable(range: Option<Seq<char>>, file_size: u64) -> bool {
    match range {
        Some(r) => match range_bounds(r) {
            Ok(b) => file_size > 0 && range_in_file(b, file_size as nat).0 <= range_in_file(
                b,
                file_size as nat,
            ).1,
            Err(_) => true,
        },
        None => true,
    }
}

/// Answers a client that asks for a file of the server, whole or in part.
pub fn answer_file(path: &str, range: Option<&str>, file_size: u64) -> (r: Result<
    FileAnswer,
    RangeError,
>)
    requires
        answerable(str_opt(range), file_size),
    ensures
        match range {
            None => r matches Ok(a) && a.start == 0 && a.length == file_size && a.content_range
                is None && a.content_type@ == mime_spec(path@),
            Some(text) => match range_bounds(text@) {
                Err(e) => r == Err::<FileAnswer, RangeError>(e),
                Ok(b) => {
                    let (first, last) = range_in_file(b, file_size as nat);
                    r matches Ok(a) && a.start == first && a.length == last - first + 1
                        && text_opt(a.content_range) == Some(
                        "bytes "@ + dec(first as nat) + "-"@ + dec(last as nat) + "/"@ + dec(
                            file_size as nat,
                        ),
                    ) && a.content_type@ == mime_spec(path@)
                },
            },
        },
{
    let content_type = mime_from_path(path);
    match range {
        None => Ok(
            FileAnswer { start: 0, length: file_size, content_type, content_range: None },
        ),
        Some(text) => match parse_range(text, file_size) {
            Err(e) => Err(e),
            Ok((first, last)) => {
                proof {
                    crate::stream::law_range_stays_in_the_file(text@, file_size as nat);
                }
                let length: u64 = last - first + 1;
                let sent = BoundedRange { start: first, end: last, length };
                let told = content_range(&sent, Some(file_size));
                Ok(FileAnswer { start: first, length, content_type, content_range: Some(told) })
            },
        },
    }
}

// ---------------------------------------------------------------------------
// Laws
// ---------------------------------------------------------------------------

/// The last header of a name is taken over from the upstream answer where headers of
/// that name are passed on, and no others are.
pub proof fn law_upstream_headers_are_taken_over(names: Seq<Seq<char>>, k: int, name: Seq<char>)
    ensures
        0 <= k < names.len() && forwarded(names[k]) && (forall|j: int|
            k < j < names.len() ==> #[trigger] names[j] != names[k]) ==> taken_over(
            names,
        ).contains_key(names[k]) && taken_over(names)[names[k]] == HeaderView::Upstream(k),
        taken_over(names).contains_key(name) ==> forwarded(name) && names.contains(name),
    decreases names.len(),
{
    if names.len() > 0 {
        let short = names.drop_last();
        law_upstream_headers_are_taken_over(short, k, name);
        assert(names.last() == names[names.len() - 1]);
        if 0 <= k < short.len() {
            assert(short[k] == names[k]);
            if forall|j: int| k < j < names.len() ==> #[trigger] names[j] != names[k] {
                assert(names[names.len() - 1] != names[k]);
                assert forall|j: int| k < j < short.len() implies #[trigger] short[j] != short[k] by {
                    assert(short[j] == names[j]);
                }
            }
        }
        if taken_over(short).contains_key(name) {
            let i = choose|i: int| 0 <= i < short.len() && short[i] == name;
            assert(names[i] == name);
        }
    }
}

/// What a provider says of a header holds, its last word where it has several.
pub proof fn law_providers_have_the_last_word(
    base: Map<Seq<char>, HeaderView>,
    extra: Seq<(Seq<char>, Seq<char>)>,
    k: int,
)
    requires
        0 <= k < extra.len(),
        forall|j: int| k < j < extra.len() ==> (#[trigger] extra[j]).0 != extra[k].0,
    ensures
        overlaid(base, extra).contains_key(extra[k].0),
        overlaid(base, extra)[extra[k].0] == HeaderView::Text(extra[k].1),
    decreases extra.len(),
{
    if k < extra.len() - 1 {
        let short = extra.drop_last();
        assert(extra[extra.len() - 1].0 != extra[k].0);
        assert(short[k] == extra[k]);
        assert forall|j: int| k < j < short.len() implies (#[trigger] short[j]).0 != short[k].0 by {
            assert(short[j] == extra[j]);
        }
        law_providers_have_the_last_word(base, short, k);
    }
}

/// An answer that is not cut keeps what upstream says of its bytes, unless the provider
/// says otherwise, and always has a type.
pub proof fn law_whole_answers_keep_their_headers(
    names: Seq<Seq<char>>,
    total: Option<u64>,
    extra: Seq<(Seq<char>, Seq<char>)>,
    k: int,
)
    requires
        0 <= k < names.len(),
        forwarded(names[k]),
        forall|j: int| k < j < names.len() ==> #[trigger] names[j] != names[k],
        forall|j: int| 0 <= j < extra.len() ==> (#[trigger] extra[j]).0 != names[k],
    ensures
        answer_headers(names, None, total, extra).contains_key(names[k]),
        answer_headers(names, None, total, extra)[names[k]] == HeaderView::Upstream(k),
        answer_headers(names, None, total, extra).contains_key("content-type"@),
{
    law_upstream_headers_are_taken_over(names, k, names[k]);
    lemma_overlaid(taken_over(names), extra, names[k]);
}

/// What a provider says of a header stands in the answer; where nobody tells the type, it
/// is that of mere bytes.
pub proof fn law_provider_headers_are_sent(
    names: Seq<Seq<char>>,
    range: Option<BoundedRange>,
    total: Option<u64>,
    extra: Seq<(Seq<char>, Seq<char>)>,
    k: int,
)
    ensures
        0 <= k < extra.len() && (forall|j: int|
            k < j < extra.len() ==> (#[trigger] extra[j]).0 != extra[k].0) ==> answer_headers(
            names,
            range,
            total,
            extra,
        ).contains_key(extra[k].0) && answer_headers(names, range, total, extra)[extra[k].0]
            == HeaderView::Text(extra[k].1),
        extra.len() == 0 && range is None && !names.contains("content-type"@) ==> answer_headers(
            names,
            range,
            total,
            extra,
        )["content-type"@] == HeaderView::Text("application/octet-stream"@),
{
    let upstream = taken_over(names);
    let ranged = match range {
        Some(b) => upstream.insert(
            "content-length"@,
            HeaderView::Text(dec(b.length as nat)),
        ).insert("content-range"@, HeaderView::Text(content_range_spec(b, total))),
        None => upstream,
    };
    if 0 <= k < extra.len() && (forall|j: int|
        k < j < extra.len() ==> (#[trigger] extra[j]).0 != extra[k].0) {
        law_providers_have_the_last_word(ranged, extra, k);
    }
    law_upstream_headers_are_taken_over(names, 0, "content-type"@);
}

/// A header of a provider is sent where its name and its value can be, under its name in
/// lower case, and every header that is sent is one of the provider's.
pub proof fn law_sendable_headers_are_sent(raw: Seq<(Seq<char>, Seq<char>)>, k: int, i: int)
    ensures
        0 <= k < raw.len() && header_name_of(raw[k].0) is Some && header_value(raw[k].1)
            ==> sendable(raw).contains((lower(raw[k].0), raw[k].1)),
        0 <= i < sendable(raw).len() ==> header_value(sendable(raw)[i].1) && exists|j: int|
            0 <= j < raw.len() && #[trigger] raw[j].1 == sendable(raw)[i].1 && lower(raw[j].0)
                == sendable(raw)[i].0,
        sendable(raw).len() <= raw.len(),
    decreases raw.len(),
{
    if raw.len() > 0 {
        let short = raw.drop_last();
        law_sendable_headers_are_sent(short, k, i);
        let before = sendable(short);
        let all = sendable(raw);
        if 0 <= k < short.len() {
            let want = (lower(raw[k].0), raw[k].1);
            assert(short[k] == raw[k]);
            if before.contains(want) {
                let j = choose|j: int| 0 <= j < before.len() && before[j] == want;
                assert(all[j] == want);
            }
        } else if k == short.len() && all.len() > before.len() {
            assert(all[all.len() - 1] == (lower(raw[k].0), raw[k].1));
        }
        if 0 <= i < before.len() {
            assert(all[i] == before[i]);
            let j = choose|j: int|
                0 <= j < short.len() && #[trigger] short[j].1 == before[i].1 && lower(short[j].0)
                    == before[i].0;
            assert(raw[j] == short[j]);
            assert(raw[j].1 == all[i].1);
        } else if i == before.len() && i < all.len() {
            assert(raw[raw.len() - 1].1 == all[i].1);
        }
    }
}

/// A finite range is cut out for a client only where ranges are cut, and then as it was
/// asked for; the size of the stream is what upstream states.
pub proof fn law_ranges_are_cut_as_asked(
    first: u64,
    last: u64,
    range: Option<Seq<char>>,
    total: u64,
    head: Seq<char>,
)
    requires
        first <= last,
    ensures
        asked_range(range, false) is None,
        asked_range(None, true) is None,
        asked_range(Some("bytes="@ + dec(first as nat) + "-"@ + dec(last as nat)), true) == Some(
            (first, Some(last)),
        ),
        asked_range(
            Some("bytes="@ + dec(first as nat) + "-"@ + Seq::<char>::empty()),
            true,
        ) == Some((first, None::<u64>)),
        stated_total(None) is None,
        stated_total(Some(head + "/"@ + dec(total as nat))) == Some(total),
{
    crate::stream::law_upstream_is_asked_for_the_start(first, last, Seq::empty());
    crate::stream::law_cut_answers_are_labelled(
        BoundedRange { start: 0, end: 0, length: 0 },
        total,
        head,
    );
}

} // verus!
