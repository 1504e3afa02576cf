//! How a stream is reached, what its provider says of it, and which bytes of it
//! a client asks for.

use vstd::prelude::*;

use crate::ids::{hyphenated_id, hyphenated_text};
use crate::paths::{extension, extension_spec};
use crate::release_name::{is_readable_release, readable_release};
use crate::text::{
    begins, chars_of, concat2, concat3, dec, dec_text, digits_value, ends, eq_ignore_case, find_char,
    first_index, is_digit, is_digit_spec, last_index, lower, parse_unsigned, rfind_char,
    same_folded, same_text, slice, starts_with, str_opt, text_opt, texts, to_lower, trim,
    trim_spec, unsigned_value, };
use crate::urls::{
    encode, find_value, first_value, parse_url, query_text, url_parts, QueryField, UrlParts, UrlView,
};

verus! {

// ---------------------------------------------------------------------------
// Trackers
// ---------------------------------------------------------------------------

/// The address of a tracker: UDP with a port, or HTTP with a path.
pub open spec fn tracker_parts(url: UrlView) -> bool {
    url.host is Some && (if url.scheme == "udp"@ {
        url.port is Some
    } else if url.scheme == "http"@ || url.scheme == "https"@ {
        url.path.len() > 0 && url.path != "/"@
    } else {
        false
    })
}

pub open spec fn tracker_url(s: Seq<char>) -> bool {
    url_parts(trim_spec(s)) matches Some(url) && tracker_parts(url)
}

/// Whether the parts are those of a tracker's address.
pub fn is_tracker_address(url: &UrlParts) -> (r: bool)
    ensures
        r == tracker_parts(url@),
{
    if url.host.is_none() {
        return false;
    }
    let scheme = url.scheme.as_str();
    if same_text(scheme, "udp") {
        url.port.is_some()
    } else if same_text(scheme, "http") || same_text(scheme, "https") {
        !url.path.as_str().is_empty() && !same_text(url.path.as_str(), "/")
    } else {
        false
    }
}

/// Whether `s` is a usable HTTP or UDP tracker address.
pub fn is_tracker_url(s: &str) -> (r: bool)
    ensures
        r == tracker_url(s@),
{
    match parse_url(trim(s).as_str()) {
        Some(url) => is_tracker_address(&url),
        None => false,
    }
}

/// A tracker's address that has passed `is_tracker_url`.
#[derive(Debug)]
pub struct TrackerUrl {
    url: String,
}

impl Clone for TrackerUrl {
    fn clone(&self) -> (r: TrackerUrl)
        ensures
            r == *self,
    {
        proof {
            use_type_invariant(self);
        }
        TrackerUrl { url: self.url.clone() }
    }
}

/// The text is not a tracker's address.
#[derive(Debug, Clone, Copy, PartialEq, Eq, Structural)]
pub struct TrackerUrlError;

impl TrackerUrl {
    pub closed spec fn view(&self) -> Seq<char> {
        self.url@
    }

    #[verifier::type_invariant]
    spec fn valid(&self) -> bool {
        tracker_url(self.url@)
    }

    /// Keeps the text as it is where it is a tracker's address.
    pub fn try_new(value: String) -> (r: Result<TrackerUrl, TrackerUrlError>)
        ensures
            match r {
                Ok(t) => tracker_url(value@) && t.view() == value@,
                Err(_) => !tracker_url(value@),
            },
    {
        if is_tracker_url(value.as_str()) {
            Ok(TrackerUrl { url: value })
        } else {
            Err(TrackerUrlError)
        }
    }

    /// The address.
    pub fn as_str(&self) -> (s: &str)
        ensures
            s@ == self.view(),
            tracker_url(s@),
    {
        proof {
            use_type_invariant(self);
        }
        self.url.as_str()
    }
}

pub open spec fn tracker_texts(trackers: Seq<TrackerUrl>) -> Seq<Seq<char>> {
    trackers.map_values(|t: TrackerUrl| t.view())
}

/// The texts that are trackers' addresses, in their order.
pub fn valid_trackers(values: Vec<String>) -> (r: Vec<TrackerUrl>)
    ensures
        tracker_texts(r@) == texts(values@).filter(|s: Seq<char>| tracker_url(s)),
{
    let mut r: Vec<TrackerUrl> = Vec::new();
    let ghost kept = |s: Seq<char>| tracker_url(s);
    let ghost all = texts(values@);
    let mut i: usize = 0;
    while i < values.len()
        invariant
            i <= values.len(),
            all == texts(values@),
            kept == (|s: Seq<char>| tracker_url(s)),
            tracker_texts(r@) == all.take(i as int).filter(kept),
        decreases values.len() - i,
    {
        let ghost before = r@;
        proof {
            assert(all.take(i + 1).drop_last() =~= all.take(i as int));
            reveal(Seq::filter);
        }
        if let Ok(t) = TrackerUrl::try_new(values[i].clone()) {
            r.push(t);
            assert(tracker_texts(r@) =~= tracker_texts(before).push(all[i as int]));
        }
        i = i + 1;
    }
    assert(all.take(all.len() as int) =~= all);
    r
}

/// The public trackers that are asked where a stream names none.
pub open spec fn default_trackers_spec() -> Seq<Seq<char>> {
    seq![
        "udp://tracker.opentrackr.org:1337/announce"@,
        "udp://open.demonii.com:1337/announce"@,
        "udp://open.stealth.si:80/announce"@,
        "udp://tracker.torrent.eu.org:451/announce"@,
        "udp://tracker.qu.ax:6969/announce"@,
        "udp://wepzone.net:6969/announce"@,
        "udp://tracker.srv00.com:6969/announce"@,
    ]
}

pub fn default_trackers() -> (r: Vec<String>)
    ensures
        texts(r@) == default_trackers_spec(),
{
    let mut r: Vec<String> = Vec::new();
    crate::text::push_arg(&mut r, "udp://tracker.opentrackr.org:1337/announce");
    crate::text::push_arg(&mut r, "udp://open.demonii.com:1337/announce");
    crate::text::push_arg(&mut r, "udp://open.stealth.si:80/announce");
    crate::text::push_arg(&mut r, "udp://tracker.torrent.eu.org:451/announce");
    crate::text::push_arg(&mut r, "udp://tracker.qu.ax:6969/announce");
    crate::text::push_arg(&mut r, "udp://wepzone.net:6969/announce");
    crate::text::push_arg(&mut r, "udp://tracker.srv00.com:6969/announce");
    assert(texts(r@) =~= default_trackers_spec());
    r
}

// ---------------------------------------------------------------------------
// Magnets
// ---------------------------------------------------------------------------

/// The fields of a magnet: the hash, the trackers or else the public ones, the
/// number of the file, and its name.
pub open spec fn magnet_fields(
    info_hash: Seq<char>,
    trackers: Seq<Seq<char>>,
    file_idx: Option<usize>,
    file: Option<Seq<char>>,
) -> Seq<QueryField> {
    let asked = if trackers.len() == 0 {
        default_trackers_spec()
    } else {
        trackers
    };
    seq![QueryField { key: "xt"@, value: "urn:btih:"@ + info_hash, encoded: false }]
        + asked.map_values(
        |t: Seq<char>| QueryField { key: "tr"@, value: t, encoded: true },
    ) + (match file_idx {
        Some(i) => seq![QueryField { key: "file_idx"@, value: dec(i as nat), encoded: false }],
        None => seq![],
    }) + (match file {
        Some(f) => seq![QueryField { key: "file"@, value: f, encoded: true }],
        None => seq![],
    })
}

pub open spec fn magnet_text(fields: Seq<QueryField>) -> Seq<char> {
    "magnet:?"@ + query_text(fields)
}

fn push_encoded_field(
    magnet: &mut String,
    Ghost(fields): Ghost<Seq<QueryField>>,
    key: &str,
    value: &str,
)
    requires
        old(magnet)@ == magnet_text(fields),
        fields.len() > 0,
    ensures
        final(magnet)@ == magnet_text(
            fields.push(QueryField { key: key@, value: value@, encoded: true }),
        ),
{
    let ghost added = QueryField { key: key@, value: value@, encoded: true };
    magnet.append("&");
    magnet.append(key);
    magnet.append("=");
    magnet.append(encode(value).as_str());
    proof {
        assert(fields.push(added).drop_last() =~= fields);
        assert(magnet@ =~= magnet_text(fields.push(added)));
    }
}

fn magnet_string(
    info_hash: &str,
    trackers: &Vec<TrackerUrl>,
    file_idx: Option<usize>,
    file: Option<&str>,
) -> (magnet: String)
    ensures
        magnet@ == magnet_text(
            magnet_fields(info_hash@, tracker_texts(trackers@), file_idx, str_opt(file)),
        ),
{
    let ghost xt = QueryField { key: "xt"@, value: "urn:btih:"@ + info_hash@, encoded: false };
    let ghost mut fields = seq![xt];
    let mut magnet = "magnet:?".to_owned();
    magnet.append("xt");
    magnet.append("=");
    magnet.append("urn:btih:");
    magnet.append(info_hash);
    assert(magnet@ =~= magnet_text(fields));
    let mut asked: Vec<String> = Vec::new();
    if trackers.len() == 0 {
        asked = default_trackers();
    } else {
        let mut i: usize = 0;
        while i < trackers.len()
            invariant
                i <= trackers.len(),
                texts(asked@) =~= tracker_texts(trackers@).take(i as int),
            decreases trackers.len() - i,
        {
            let ghost before = asked@;
            crate::text::push_arg(&mut asked, trackers[i].as_str());
            i = i + 1;
        }
    }
    let ghost field = |t: Seq<char>| QueryField { key: "tr"@, value: t, encoded: true };
    let ghost wanted = if trackers@.len() == 0 {
        default_trackers_spec()
    } else {
        tracker_texts(trackers@)
    };
    assert(texts(asked@) =~= wanted);
    let mut i: usize = 0;
    assert(fields =~= seq![xt] + wanted.take(0).map_values(field));
    while i < asked.len()
        invariant
            i <= asked.len(),
            texts(asked@) == wanted,
            field == (|t: Seq<char>| QueryField { key: "tr"@, value: t, encoded: true }),
            fields == seq![xt] + wanted.take(i as int).map_values(field),
            magnet@ == magnet_text(fields),
        decreases asked.len() - i,
    {
        push_encoded_field(&mut magnet, Ghost(fields), "tr", asked[i].as_str());
        proof {
            fields = fields.push(field(wanted[i as int]));
            assert(fields =~= seq![xt] + wanted.take(i + 1).map_values(field));
        }
        i = i + 1;
    }
    assert(wanted.take(wanted.len() as int) =~= wanted);
    if let Some(idx) = file_idx {
        magnet.append("&");
        magnet.append("file_idx");
        magnet.append("=");
        magnet.append(dec_text(idx as u64).as_str());
        proof {
            let added = QueryField { key: "file_idx"@, value: dec(idx as nat), encoded: false };
            assert(fields.push(added).drop_last() =~= fields);
            assert(magnet@ =~= magnet_text(fields.push(added)));
            fields = fields.push(added);
        }
    }
    if let Some(f) = file {
        push_encoded_field(&mut magnet, Ghost(fields), "file", f);
        proof {
            fields = fields.push(QueryField { key: "file"@, value: f@, encoded: true });
        }
    }
    assert(fields =~= magnet_fields(
        info_hash@,
        tracker_texts(trackers@),
        file_idx,
        str_opt(file),
    ));
    magnet
}

/// The info hash in a magnet's first `xt` field, in lower case.
pub open spec fn btih_of(url: UrlView) -> Option<Seq<char>> {
    match first_value(url.query, "xt"@) {
        Some(v) if begins(v, "urn:btih:"@) => Some(lower(v.skip("urn:btih:"@.len() as int))),
        _ => None,
    }
}

/// The info hash among the parts of a magnet.
pub fn btih_of_parts(url: &UrlParts) -> (r: Option<String>)
    ensures
        text_opt(r) == btih_of(url@),
{
    match find_value(&url.query, "xt") {
        Some(v) => {
            match strip_prefix(v.as_str(), "urn:btih:") {
                Some(h) => Some(to_lower(h.as_str())),
                None => None,
            }
        },
        None => None,
    }
}

/// The info hash of a magnet.
pub fn extract_btih(magnet: &str) -> (r: Option<String>)
    ensures
        text_opt(r) == match url_parts(magnet@) {
            Some(url) => btih_of(url),
            None => None,
        },
{
    match parse_url(magnet) {
        Some(url) => btih_of_parts(&url),
        None => None,
    }
}

/// What follows `prefix`, where `s` begins with it.
pub fn strip_prefix(s: &str, prefix: &str) -> (r: Option<String>)
    ensures
        text_opt(r) == if begins(s@, prefix@) {
            Some(s@.skip(prefix@.len() as int))
        } else {
            None
        },
{
    if starts_with(s, prefix) {
        let chars = chars_of(s);
        let n = prefix.unicode_len();
        let rest = slice(&chars, n, chars.len());
        assert(rest@ =~= s@.skip(prefix@.len() as int));
        Some(rest)
    } else {
        None
    }
}

// ---------------------------------------------------------------------------
// Descriptors
// ---------------------------------------------------------------------------

/// How a stream is reached.
#[derive(Debug)]
pub enum StreamDescriptor {
    Http {
        url: String,
        /// Sent along when the stream is fetched.
        request_headers: Vec<(String, String)>,
        /// Passed on to the client.
        response_headers: Vec<(String, String)>,
    },
    /// A file of the server.
    Local(String),
    Rtsp { url: String },
    Torrent {
        info_hash: String,
        /// The name of the wanted file.
        file_hint: Option<String>,
        /// The number of the wanted file.
        file_idx: Option<usize>,
        trackers: Vec<TrackerUrl>,
    },
    /// A file that only its addon can read.
    Opendal { addon_id: u128, path: String },
}

impl Default for StreamDescriptor {
    fn default() -> (r: Self)
        ensures
            r matches StreamDescriptor::Http { url, request_headers, response_headers }
                && url@ == ""@ && request_headers@.len() == 0 && response_headers@.len() == 0,
    {
        StreamDescriptor::Http {
            url: "".to_owned(),
            request_headers: Vec::new(),
            response_headers: Vec::new(),
        }
    }
}

/// A stream served over HTTP.
#[derive(Debug)]
pub struct HttpSource {
    pub url: String,
    pub request_headers: Vec<(String, String)>,
    pub response_headers: Vec<(String, String)>,
}

/// A stream that is a file of the server.
#[derive(Debug)]
pub struct LocalSource {
    pub path: String,
}

/// A stream that is a file of a torrent.
#[derive(Debug)]
pub struct TorrentSource {
    pub info_hash: String,
    pub file_hint: Option<String>,
    pub file_idx: Option<usize>,
    pub trackers: Vec<TrackerUrl>,
}

/// What can be served without an addon.
#[derive(Debug)]
pub enum StreamSource {
    Http(HttpSource),
    Local(LocalSource),
    Torrent(TorrentSource),
}

/// The address of the server's own proxy for a stream.
pub open spec fn proxy_path(media_id: u128) -> Seq<char> {
    "/stream/"@ + hyphenated_id(media_id)
}

/// `s` without the slashes at its end.
pub open spec fn without_slashes(s: Seq<char>) -> Seq<char>
    decreases s.len(),
{
    if s.len() > 0 && s.last() == '/' {
        without_slashes(s.drop_last())
    } else {
        s
    }
}

fn trim_slashes(s: &str) -> (r: String)
    ensures
        r@ == without_slashes(s@),
{
    let chars = chars_of(s);
    let mut n: usize = chars.len();
    assert(chars@.take(n as int) =~= chars@);
    while n > 0 && chars[n - 1] == '/'
        invariant
            n <= chars.len(),
            without_slashes(chars@) == without_slashes(chars@.take(n as int)),
        decreases n,
    {
        assert(chars@.take(n as int).drop_last() =~= chars@.take(n - 1));
        n = n - 1;
    }
    let r = slice(&chars, 0, n);
    assert(r@ =~= chars@.take(n as int));
    r
}

impl StreamDescriptor {
    pub fn http(url: String) -> (r: Self)
        ensures
            r matches StreamDescriptor::Http { url: u, request_headers, response_headers } && u
                == url && request_headers@.len() == 0 && response_headers@.len() == 0,
    {
        StreamDescriptor::Http { url, request_headers: Vec::new(), response_headers: Vec::new() }
    }

    pub fn rtsp(url: String) -> (r: Self)
        ensures
            r == (StreamDescriptor::Rtsp { url }),
    {
        StreamDescriptor::Rtsp { url }
    }

    /// What the transcoder reads: the address or the path itself, or else the
    /// server's proxy.
    pub open spec fn input(&self, media_id: u128, port: u16) -> Seq<char> {
        match self {
            StreamDescriptor::Http { url, .. } => url@,
            StreamDescriptor::Rtsp { url } => url@,
            StreamDescriptor::Local(path) => path@,
            _ => "http://127.0.0.1:"@ + dec(port as nat) + proxy_path(media_id),
        }
    }

    pub fn server_input(&self, media_id: u128, port: u16) -> (s: String)
        ensures
            s@ == self.input(media_id, port),
    {
        match self {
            StreamDescriptor::Http { url, .. } => url.clone(),
            StreamDescriptor::Rtsp { url } => url.clone(),
            StreamDescriptor::Local(path) => path.clone(),
            _ => concat3(
                "http://127.0.0.1:",
                dec_text(port as u64).as_str(),
                concat2("/stream/", hyphenated_text(media_id).as_str()).as_str(),
            ),
        }
    }

    /// What a client plays from: the address itself, or else the server's
    /// proxy.
    pub open spec fn client_address(&self, media_id: u128, server_base: Seq<char>) -> Seq<char> {
        match self {
            StreamDescriptor::Http { url, .. } => url@,
            _ => without_slashes(server_base) + proxy_path(media_id),
        }
    }

    pub fn client_url(&self, media_id: u128, server_base: &str) -> (s: String)
        ensures
            s@ == self.client_address(media_id, server_base@),
    {
        match self {
            StreamDescriptor::Http { url, .. } => url.clone(),
            _ => concat2(
                trim_slashes(server_base).as_str(),
                concat2("/stream/", hyphenated_text(media_id).as_str()).as_str(),
            ),
        }
    }

    pub fn as_http_url(&self) -> (r: Option<&str>)
        ensures
            str_opt(r) == match self {
                StreamDescriptor::Http { url, .. } => Some(url@),
                _ => None,
            },
    {
        match self {
            StreamDescriptor::Http { url, .. } => Some(url.as_str()),
            _ => None,
        }
    }

    /// The addon that alone can serve the stream.
    pub fn addon_id(&self) -> (r: Option<u128>)
        ensures
            r == match self {
                StreamDescriptor::Opendal { addon_id, .. } => Some(*addon_id),
                _ => None,
            },
    {
        match self {
            StreamDescriptor::Opendal { addon_id, .. } => Some(*addon_id),
            _ => None,
        }
    }

    pub open spec fn info_hash(&self) -> Option<Seq<char>> {
        match self {
            StreamDescriptor::Torrent { info_hash, .. } => Some(info_hash@),
            _ => None,
        }
    }

    pub fn torrent_info_hash(&self) -> (r: Option<&str>)
        ensures
            str_opt(r) == self.info_hash(),
    {
        match self {
            StreamDescriptor::Torrent { info_hash, .. } => Some(info_hash.as_str()),
            _ => None,
        }
    }

    pub open spec fn trackers(&self) -> Seq<Seq<char>> {
        match self {
            StreamDescriptor::Torrent { trackers, .. } => tracker_texts(trackers@),
            _ => seq![],
        }
    }

    /// The trackers of a torrent.
    pub fn torrent_trackers(&self) -> (r: Option<&Vec<TrackerUrl>>)
        ensures
            match r {
                Some(t) => self is Torrent && tracker_texts(t@) == self.trackers(),
                None => !(self is Torrent),
            },
    {
        match self {
            StreamDescriptor::Torrent { trackers, .. } => Some(trackers),
            _ => None,
        }
    }

    /// The fields of the magnet of a torrent.
    pub open spec fn fields(&self) -> Option<Seq<QueryField>> {
        match self {
            StreamDescriptor::Torrent { info_hash, file_hint, file_idx, trackers } => Some(
                magnet_fields(
                    info_hash@,
                    tracker_texts(trackers@),
                    *file_idx,
                    text_opt(*file_hint),
                ),
            ),
            _ => None,
        }
    }

    pub fn torrent_magnet(&self) -> (r: Option<String>)
        ensures
            text_opt(r) == match self.fields() {
                Some(f) => Some(magnet_text(f)),
                None => None,
            },
    {
        match self {
            StreamDescriptor::Torrent { info_hash, file_hint, file_idx, trackers } => Some(
                magnet_string(
                    info_hash.as_str(),
                    trackers,
                    *file_idx,
                    match file_hint {
                        Some(h) => Some(h.as_str()),
                        None => None,
                    },
                ),
            ),
            _ => None,
        }
    }

    /// What serves the stream. An RTSP stream is only ever transcoded, and an
    /// addon's stream is served by its addon.
    pub fn into_source(self) -> (r: StreamSource)
        requires
            !(self is Rtsp) && !(self is Opendal),
        ensures
            match self {
                StreamDescriptor::Http { url, request_headers, response_headers } => r
                    == StreamSource::Http(HttpSource { url, request_headers, response_headers }),
                StreamDescriptor::Local(path) => r == StreamSource::Local(LocalSource { path }),
                StreamDescriptor::Torrent { info_hash, file_hint, file_idx, trackers } => r
                    == StreamSource::Torrent(
                    TorrentSource { info_hash, file_hint, file_idx, trackers },
                ),
                _ => true,
            },
    {
        match self {
            StreamDescriptor::Http { url, request_headers, response_headers } => StreamSource::Http(
                HttpSource { url, request_headers, response_headers },
            ),
            StreamDescriptor::Local(path) => StreamSource::Local(LocalSource { path }),
            StreamDescriptor::Torrent { info_hash, file_hint, file_idx, trackers } =>
            StreamSource::Torrent(TorrentSource { info_hash, file_hint, file_idx, trackers }),
            StreamDescriptor::Rtsp { url } => {
                assert(false);
                StreamSource::Local(LocalSource { path: url })
            },
            StreamDescriptor::Opendal { addon_id, path } => {
                assert(false);
                StreamSource::Local(LocalSource { path })
            },
        }
    }
}

impl TorrentSource {
    /// The magnet under which the torrent engine is asked for the stream.
    pub fn to_magnet(&self) -> (r: String)
        ensures
            r@ == magnet_text(
                magnet_fields(
                    self.info_hash@,
                    tracker_texts(self.trackers@),
                    self.file_idx,
                    text_opt(self.file_hint),
                ),
            ),
    {
        magnet_string(
            self.info_hash.as_str(),
            &self.trackers,
            self.file_idx,
            match &self.file_hint {
                Some(h) => Some(h.as_str()),
                None => None,
            },
        )
    }
}

// ---------------------------------------------------------------------------
// What a provider says of a stream
// ---------------------------------------------------------------------------

/// A stream and what its provider says of it.
#[derive(Debug)]
pub struct StreamInfo {
    pub descriptor: StreamDescriptor,
    pub filename: Option<String>,
    pub name: Option<String>,
    pub description: Option<String>,
    pub source: Option<String>,
    pub addon_id: Option<u128>,
    pub service_id: Option<String>,
    pub seeders: Option<i64>,
    pub size: Option<i64>,
    pub duration: Option<i64>,
    /// The subtitles that the provider offers, each as it was sent.
    pub subtitles: Vec<String>,
    pub catchup_source: Option<String>,
    pub catchup_days: Option<i64>,
    pub usenet_guid: Option<String>,
    pub usenet_indexer: Option<String>,
    pub nzb_url: Option<String>,
    pub binge_group: Option<String>,
    pub torrent_info_hash: Option<String>,
    pub torrent_file_idx: Option<i32>,
    /// What the provider found in a probe, as it was sent.
    pub probe_data: Option<String>,
}

impl Default for StreamInfo {
    fn default() -> (r: Self)
        ensures
            r.descriptor matches StreamDescriptor::Http { url, request_headers, response_headers }
                && url@ == ""@ && request_headers@.len() == 0 && response_headers@.len() == 0,
            r.filename is None,
            r.name is None,
            r.description is None,
            r.source is None,
            r.addon_id is None,
            r.service_id is None,
            r.seeders is None,
            r.size is None,
            r.duration is None,
            r.subtitles@.len() == 0,
            r.catchup_source is None,
            r.catchup_days is None,
            r.usenet_guid is None,
            r.usenet_indexer is None,
            r.nzb_url is None,
            r.binge_group is None,
            r.torrent_info_hash is None,
            r.torrent_file_idx is None,
            r.probe_data is None,
    {
        StreamInfo {
            descriptor: StreamDescriptor::default(),
            filename: None,
            name: None,
            description: None,
            source: None,
            addon_id: None,
            service_id: None,
            seeders: None,
            size: None,
            duration: None,
            subtitles: Vec::new(),
            catchup_source: None,
            catchup_days: None,
            usenet_guid: None,
            usenet_indexer: None,
            nzb_url: None,
            binge_group: None,
            torrent_info_hash: None,
            torrent_file_idx: None,
            probe_data: None,
        }
    }
}

/// The screen sizes that `hunch::hunch` finds in a release name.
pub uninterp spec fn release_screen_sizes(name: Seq<char>) -> Seq<Seq<char>>;

/// `hunch::hunch`, with all values of its property `ScreenSize`: a function of
/// the release name. Names that can make it panic, or list more discs than memory
/// holds, are left out.
#[verifier::external_body]
pub(crate) fn screen_sizes(name: &str) -> (r: Vec<String>)
    requires
        readable_release(name@),
    ensures
        texts(r@) == release_screen_sizes(name@),
{
    hunch::hunch(name).all(hunch::Property::ScreenSize).into_iter().map(str::to_string).collect()
}

/// The digits at the start of a text.
pub open spec fn leading_digits(s: Seq<char>) -> Seq<char>
    decreases s.len(),
{
    if s.len() > 0 && is_digit_spec(s[0]) {
        seq![s[0]] + leading_digits(s.skip(1))
    } else {
        Seq::empty()
    }
}

/// The number of lines of a screen size such as `1080p`, held to `u64`.
pub open spec fn screen_lines(size: Seq<char>) -> nat {
    let n = digits_value(leading_digits(size));
    if n <= u64::MAX {
        n
    } else {
        u64::MAX as nat
    }
}

/// The smallest of some screen sizes, the first of several that are equal.
pub open spec fn smallest_size(sizes: Seq<Seq<char>>) -> Option<Seq<char>>
    decreases sizes.len(),
{
    if sizes.len() == 0 {
        None
    } else {
        match smallest_size(sizes.drop_last()) {
            Some(s) if screen_lines(s) <= screen_lines(sizes.last()) => Some(s),
            _ => Some(sizes.last()),
        }
    }
}

fn lines_of(size: &str) -> (n: u64)
    ensures
        n == screen_lines(size@),
{
    let chars = chars_of(size);
    let mut i: usize = 0;
    let ghost mut done = Seq::<char>::empty();
    assert(chars@.skip(0) =~= chars@);
    assert(done + leading_digits(chars@) =~= leading_digits(chars@));
    while i < chars.len() && is_digit(chars[i])
        invariant
            i <= chars.len(),
            done == chars@.take(i as int),
            forall|j: int| 0 <= j < i ==> is_digit_spec(#[trigger] chars@[j]),
            done + leading_digits(chars@.skip(i as int)) == leading_digits(chars@),
        decreases chars.len() - i,
    {
        proof {
            let rest = chars@.skip(i as int);
            assert(rest.skip(1) =~= chars@.skip(i + 1));
            assert(done + (seq![rest[0]] + leading_digits(rest.skip(1))) =~= done.push(rest[0])
                + leading_digits(rest.skip(1)));
            done = done.push(chars@[i as int]);
        }
        assert(done =~= chars@.take(i + 1));
        i = i + 1;
    }
    assert(done + Seq::<char>::empty() =~= done);
    let digits = slice(&chars, 0, i);
    assert(digits@ =~= done);
    if i == 0 {
        return 0;
    }
    assert(digits@[0] != '+');
    match parse_unsigned(digits.as_str(), u64::MAX) {
        Some(n) => n,
        None => u64::MAX,
    }
}

/// The smallest of some screen sizes.
pub fn min_screen_size(sizes: &Vec<String>) -> (r: Option<String>)
    ensures
        text_opt(r) == smallest_size(texts(sizes@)),
{
    let mut best: Option<(usize, u64)> = None;
    let ghost all = texts(sizes@);
    let mut i: usize = 0;
    while i < sizes.len()
        invariant
            i <= sizes.len(),
            all == texts(sizes@),
            match best {
                Some((k, n)) => k < i && smallest_size(all.take(i as int)) == Some(all[k as int])
                    && n == screen_lines(all[k as int]),
                None => i == 0,
            },
        decreases sizes.len() - i,
    {
        let n: u64 = lines_of(sizes[i].as_str());
        proof {
            assert(all.take(i + 1).drop_last() =~= all.take(i as int));
            assert(all.take(i + 1).last() == all[i as int]);
        }
        let better = match best {
            Some((_, least)) => n < least,
            None => true,
        };
        if better {
            best = Some((i, n));
        }
        i = i + 1;
    }
    assert(all.take(all.len() as int) =~= all);
    match best {
        Some((k, _)) => Some(sizes[k].clone()),
        None => None,
    }
}

impl StreamInfo {
    pub open spec fn p2p(&self) -> bool {
        self.descriptor is Torrent
    }

    pub fn is_p2p(&self) -> (r: bool)
        ensures
            r == self.p2p(),
    {
        match &self.descriptor {
            StreamDescriptor::Torrent { .. } => true,
            _ => false,
        }
    }

    /// The name of the release: that of its file, or else the stream's own.
    pub open spec fn release_name(&self) -> Option<Seq<char>> {
        match self.filename {
            Some(f) => Some(f@),
            None => text_opt(self.name),
        }
    }

    /// The resolution that the release name states.
    pub open spec fn resolution(&self) -> Option<Seq<char>> {
        match self.release_name() {
            Some(name) => smallest_size(release_screen_sizes(name)),
            None => None,
        }
    }

    /// Whether the release name, where there is one, can be read.
    pub open spec fn readable(&self) -> bool {
        match self.release_name() {
            Some(name) => readable_release(name),
            None => true,
        }
    }

    pub fn is_readable(&self) -> (r: bool)
        ensures
            r == self.readable(),
    {
        match &self.filename {
            Some(f) => is_readable_release(f.as_str()),
            None => match &self.name {
                Some(n) => is_readable_release(n.as_str()),
                None => true,
            },
        }
    }

    pub fn resolution_tag(&self) -> (r: Option<String>)
        requires
            self.readable(),
        ensures
            text_opt(r) == self.resolution(),
    {
        match &self.filename {
            Some(f) => min_screen_size(&screen_sizes(f.as_str())),
            None => match &self.name {
                Some(n) => min_screen_size(&screen_sizes(n.as_str())),
                None => None,
            },
        }
    }

    /// The fields of the magnet: those of the descriptor, with the file name of
    /// the release where the descriptor names no file.
    pub open spec fn fields(&self) -> Option<Seq<QueryField>> {
        match self.descriptor {
            StreamDescriptor::Torrent { info_hash, file_hint, file_idx, trackers } => Some(
                magnet_fields(
                    info_hash@,
                    tracker_texts(trackers@),
                    file_idx,
                    match file_hint {
                        Some(h) => Some(h@),
                        None => text_opt(self.filename),
                    },
                ),
            ),
            _ => None,
        }
    }

    pub fn torrent_magnet(&self) -> (r: Option<String>)
        ensures
            text_opt(r) == match self.fields() {
                Some(f) => Some(magnet_text(f)),
                None => None,
            },
    {
        match &self.descriptor {
            StreamDescriptor::Torrent { info_hash, file_hint, file_idx, trackers } => Some(
                magnet_string(
                    info_hash.as_str(),
                    trackers,
                    *file_idx,
                    match file_hint {
                        Some(h) => Some(h.as_str()),
                        None => match &self.filename {
                            Some(f) => Some(f.as_str()),
                            None => None,
                        },
                    },
                ),
            ),
            _ => None,
        }
    }
}

// ---------------------------------------------------------------------------
// Ranges
// ---------------------------------------------------------------------------

/// What stands before and after the first minus sign behind `bytes=`.
pub open spec fn range_sides(range: Seq<char>) -> Option<(Seq<char>, Seq<char>)> {
    let bytes = range.skip("bytes="@.len() as int);
    let i = first_index(bytes, '-');
    if begins(range, "bytes="@) && i < bytes.len() {
        Some((bytes.take(i), bytes.skip(i + 1)))
    } else {
        None
    }
}

fn split_range(range: &str) -> (r: Option<(String, String)>)
    ensures
        match r {
            Some((a, b)) => range_sides(range@) == Some((a@, b@)),
            None => range_sides(range@) is None,
        },
{
    match strip_prefix(range, "bytes=") {
        Some(bytes) => {
            let chars = chars_of(bytes.as_str());
            let i = find_char(&chars, '-');
            if i < chars.len() {
                let a = slice(&chars, 0, i);
                let b = slice(&chars, i + 1, chars.len());
                assert(a@ =~= chars@.take(i as int));
                assert(b@ =~= chars@.skip(i + 1));
                Some((a, b))
            } else {
                None
            }
        },
        None => None,
    }
}

/// The first byte and, where one is given, the last byte that a client asks
/// for: a start is needed, several ranges are not accepted, an end that is no
/// number counts as none, and an end before the start is not accepted.
pub open spec fn open_or_finite_range(range: Seq<char>) -> Option<(nat, Option<nat>)> {
    match range_sides(range) {
        Some((start, end)) => if start.len() == 0 || end.contains(',') {
            None
        } else {
            match unsigned_value(start, u64::MAX as nat) {
                Some(s) => match unsigned_value(end, u64::MAX as nat) {
                    Some(e) => if e >= s {
                        Some((s, Some(e)))
                    } else {
                        None
                    },
                    None => Some((s, None)),
                },
                None => None,
            }
        },
        None => None,
    }
}

pub fn parse_open_or_finite_range(range: &str) -> (r: Option<(u64, Option<u64>)>)
    ensures
        match r {
            Some((s, None)) => open_or_finite_range(range@) == Some((s as nat, None::<nat>)),
            Some((s, Some(e))) => open_or_finite_range(range@) == Some((s as nat, Some(e as nat))),
            None => open_or_finite_range(range@) is None,
        },
{
    let (start, end) = match split_range(range) {
        Some(sides) => sides,
        None => {
            return None;
        },
    };
    let end_chars = chars_of(end.as_str());
    let comma = find_char(&end_chars, ',');
    proof {
        crate::text::lemma_first_index(end@, ',');
        if comma < end_chars.len() {
            assert(end@[comma as int] == ',');
        }
    }
    if start.as_str().is_empty() || comma < end_chars.len() {
        return None;
    }
    match parse_unsigned(start.as_str(), u64::MAX) {
        Some(s) => match parse_unsigned(end.as_str(), u64::MAX) {
            Some(e) => {
                if e >= s {
                    Some((s, Some(e)))
                } else {
                    None
                }
            },
            None => Some((s, None)),
        },
        None => None,
    }
}

/// Why a range is not understood.
#[derive(Debug, Clone, Copy, PartialEq, Eq, Structural)]
pub enum RangeError {
    /// The range does not begin with `bytes=`.
    MissingPrefix,
    /// There is no minus sign.
    Malformed,
    /// A bound is not a number.
    BadNumber,
}

/// The bounds of a range as they are written: a suffix length, or a start with
/// an end that may be missing.
pub ghost enum RangeBounds {
    Suffix(nat),
    From(nat, Option<nat>),
}

pub open spec fn range_bounds(range: Seq<char>) -> Result<RangeBounds, RangeError> {
    match range_sides(range) {
        None => if begins(range, "bytes="@) {
            Err(RangeError::Malformed)
        } else {
            Err(RangeError::MissingPrefix)
        },
        Some((start, end)) => {
            let s = unsigned_value(start, u64::MAX as nat);
            let e = unsigned_value(end, u64::MAX as nat);
            if start.len() == 0 {
                match e {
                    Some(n) => Ok(RangeBounds::Suffix(n)),
                    None => Err(RangeError::BadNumber),
                }
            } else if s is None {
                Err(RangeError::BadNumber)
            } else if end.len() == 0 {
                Ok(RangeBounds::From(s->0, None))
            } else {
                match e {
                    Some(n) => Ok(RangeBounds::From(s->0, Some(n))),
                    None => Err(RangeError::BadNumber),
                }
            }
        },
    }
}

/// The first and last byte of a range in a file of `size` bytes. A suffix is
/// at most the whole file, and no range goes beyond the end.
pub open spec fn range_in_file(bounds: RangeBounds, size: nat) -> (int, int) {
    match bounds {
        RangeBounds::Suffix(n) => (
            if n <= size {
                size - n
            } else {
                0
            },
            size - 1,
        ),
        RangeBounds::From(start, Some(end)) => (
            start as int,
            if end < size {
                end as int
            } else {
                size - 1
            },
        ),
        RangeBounds::From(start, None) => (start as int, size - 1),
    }
}

/// The first and last byte that a client asks for in a file. An empty file has
/// no last byte, so that a well-formed range has no meaning there.
pub fn parse_range(range: &str, file_size: u64) -> (r: Result<(u64, u64), RangeError>)
    requires
        file_size > 0 || range_bounds(range@) is Err,
    ensures
        match r {
            Ok((first, last)) => range_bounds(range@) matches Ok(b) && (first as int, last as int)
                == range_in_file(b, file_size as nat),
            Err(e) => range_bounds(range@) == Err::<RangeBounds, RangeError>(e),
        },
{
    let (start, end) = match split_range(range) {
        Some(sides) => sides,
        None => {
            return if starts_with(range, "bytes=") {
                Err(RangeError::Malformed)
            } else {
                Err(RangeError::MissingPrefix)
            };
        },
    };
    if start.as_str().is_empty() {
        return match parse_unsigned(end.as_str(), u64::MAX) {
            Some(suffix) => Ok((file_size.saturating_sub(suffix), file_size - 1)),
            None => Err(RangeError::BadNumber),
        };
    }
    match parse_unsigned(start.as_str(), u64::MAX) {
        Some(first) => {
            if end.as_str().is_empty() {
                Ok((first, file_size - 1))
            } else {
                match parse_unsigned(end.as_str(), u64::MAX) {
                    Some(last) => Ok(
                        (
                            first,
                            if last < file_size {
                                last
                            } else {
                                file_size - 1
                            },
                        ),
                    ),
                    None => Err(RangeError::BadNumber),
                }
            }
        },
        None => Err(RangeError::BadNumber),
    }
}

/// An accepted range never ends beyond the file, and one that starts inside
/// the file is not empty unless it was written backwards.
pub proof fn law_range_stays_in_the_file(range: Seq<char>, size: nat)
    requires
        size > 0,
        range_bounds(range) is Ok,
    ensures
        ({
            let bounds = range_bounds(range)->Ok_0;
            let (first, last) = range_in_file(bounds, size);
            &&& 0 <= first
            &&& 0 <= last < size
            &&& bounds is Suffix ==> first <= last + 1
            &&& bounds matches RangeBounds::From(s, e) ==> (s < size && (e matches Some(x) ==> s
                <= x) ==> first <= last)
        }),
{
}

// ---------------------------------------------------------------------------
// Serving a range through the proxy
// ---------------------------------------------------------------------------

/// A finite range of a proxied stream.
#[derive(Debug, Clone, Copy, PartialEq, Eq, Structural)]
pub struct BoundedRange {
    pub start: u64,
    pub end: u64,
    pub length: u64,
}

/// The `Range` header to send upstream. Where finite ranges are bounded here,
/// only the start is passed on.
pub open spec fn upstream_range(range: Option<Seq<char>>, bound: bool) -> Option<Seq<char>> {
    match range {
        Some(r) => match open_or_finite_range(r) {
            Some((start, _)) if bound => Some("bytes="@ + dec(start) + "-"@),
            _ => Some(r),
        },
        None => None,
    }
}

pub fn upstream_range_header(range: Option<&str>, bound: bool) -> (r: Option<String>)
    ensures
        text_opt(r) == upstream_range(str_opt(range), bound),
{
    match range {
        Some(r) => {
            if bound {
                match parse_open_or_finite_range(r) {
                    Some((start, _)) => Some(
                        concat3("bytes=", dec_text(start).as_str(), "-"),
                    ),
                    None => Some(r.to_owned()),
                }
            } else {
                Some(r.to_owned())
            }
        },
        None => None,
    }
}

/// The size of the whole file, behind the last slash of a `Content-Range`
/// header.
pub open spec fn total_length_spec(content_range: Seq<char>) -> Option<nat> {
    let i = last_index(content_range, '/');
    if i >= 0 {
        unsigned_value(content_range.skip(i + 1), u64::MAX as nat)
    } else {
        None
    }
}

pub fn total_length(content_range: &str) -> (r: Option<u64>)
    ensures
        match r {
            Some(n) => total_length_spec(content_range@) == Some(n as nat),
            None => total_length_spec(content_range@) is None,
        },
{
    let chars = chars_of(content_range);
    match rfind_char(&chars, '/') {
        Some(i) => {
            let total = slice(&chars, i + 1, chars.len());
            assert(total@ =~= content_range@.skip(i + 1));
            parse_unsigned(total.as_str(), u64::MAX)
        },
        None => None,
    }
}

/// The bytes that are passed on of a partial response to a finite range: up to
/// the wanted end or the end of the file.
pub open spec fn bounded_range_spec(
    requested: Option<(u64, Option<u64>)>,
    partial: bool,
    total: Option<u64>,
) -> Option<BoundedRange> {
    match requested {
        Some((start, Some(wanted))) if partial => {
            let end = match total {
                Some(t) => {
                    let last = if t == 0 {
                        0
                    } else {
                        (t - 1) as u64
                    };
                    if wanted <= last {
                        wanted
                    } else {
                        last
                    }
                },
                None => wanted,
            };
            let span = if end >= start {
                end - start
            } else {
                0
            };
            Some(
                BoundedRange {
                    start,
                    end,
                    length: if span < u64::MAX {
                        (span + 1) as u64
                    } else {
                        u64::MAX
                    },
                },
            )
        },
        _ => None,
    }
}

pub fn bounded_range(
    requested: Option<(u64, Option<u64>)>,
    partial: bool,
    total: Option<u64>,
) -> (r: Option<BoundedRange>)
    ensures
        r == bounded_range_spec(requested, partial, total),
{
    match requested {
        Some((start, Some(wanted))) => {
            if !partial {
                return None;
            }
            let end: u64 = match total {
                Some(t) => {
                    let last: u64 = t.saturating_sub(1);
                    if wanted <= last {
                        wanted
                    } else {
                        last
                    }
                },
                None => wanted,
            };
            let length: u64 = end.saturating_sub(start).saturating_add(1);
            Some(BoundedRange { start, end, length })
        },
        _ => None,
    }
}

/// The `Content-Range` header of a bounded response.
pub open spec fn content_range_spec(range: BoundedRange, total: Option<u64>) -> Seq<char> {
    "bytes "@ + dec(range.start as nat) + "-"@ + dec(range.end as nat) + "/"@ + match total {
        Some(t) => dec(t as nat),
        None => "*"@,
    }
}

pub fn content_range(range: &BoundedRange, total: Option<u64>) -> (s: String)
    ensures
        s@ == content_range_spec(*range, total),
{
    let mut s = concat3("bytes ", dec_text(range.start).as_str(), "-");
    s.append(dec_text(range.end).as_str());
    s.append("/");
    match total {
        Some(t) => s.append(dec_text(t).as_str()),
        None => s.append("*"),
    }
    s
}

/// A bounded response holds the bytes that its header names, none of them
/// beyond the end of the file.
pub proof fn law_bounded_range(start: u64, wanted: u64, total: Option<u64>)
    requires
        start <= wanted,
        total matches Some(t) ==> start < t,
        wanted - start < u64::MAX,
    ensures
        ({
            let r = bounded_range_spec(Some((start, Some(wanted))), true, total);
            &&& r matches Some(b) && b.start == start && b.length == b.end - b.start + 1 && b.end
                <= wanted && (total matches Some(t) ==> b.end < t)
        }),
{
}

/// The upstream headers that are passed on to the client.
pub open spec fn forwarded(name: Seq<char>) -> bool {
    name == "content-length"@ || name == "content-type"@ || name == "accept-ranges"@ || name
        == "content-range"@ || name == "last-modified"@
}

pub fn is_forwarded_header(name: &str) -> (r: bool)
    ensures
        r == forwarded(name@),
{
    same_text(name, "content-length") || same_text(name, "content-type") || same_text(
        name,
        "accept-ranges",
    ) || same_text(name, "content-range") || same_text(name, "last-modified")
}

// ---------------------------------------------------------------------------
// Media types
// ---------------------------------------------------------------------------

/// The media type of a video container, known by its file name extension.
pub open spec fn video_mime(ext: Seq<char>) -> Option<Seq<char>> {
    if same_folded(ext, "mkv"@) {
        Some("video/x-matroska"@)
    } else if same_folded(ext, "mp4"@) || same_folded(ext, "m4v"@) {
        Some("video/mp4"@)
    } else if same_folded(ext, "mov"@) {
        Some("video/quicktime"@)
    } else if same_folded(ext, "avi"@) {
        Some("video/x-msvideo"@)
    } else if same_folded(ext, "webm"@) {
        Some("video/webm"@)
    } else if same_folded(ext, "ts"@) {
        Some("video/mp2t"@)
    } else {
        None
    }
}

/// The media type of an audio container, known by its file name extension.
pub open spec fn audio_mime(ext: Seq<char>) -> Option<Seq<char>> {
    if same_folded(ext, "mp3"@) {
        Some("audio/mpeg"@)
    } else if same_folded(ext, "flac"@) {
        Some("audio/flac"@)
    } else if same_folded(ext, "m4a"@) {
        Some("audio/mp4"@)
    } else if same_folded(ext, "ogg"@) {
        Some("audio/ogg"@)
    } else if same_folded(ext, "opus"@) {
        Some("audio/opus"@)
    } else if same_folded(ext, "wav"@) {
        Some("audio/wav"@)
    } else if same_folded(ext, "aac"@) {
        Some("audio/aac"@)
    } else {
        None
    }
}

pub fn video_mime_type(ext: &str) -> (r: Option<&'static str>)
    ensures
        str_opt(r) == video_mime(ext@),
{
    if eq_ignore_case(ext, "mkv") {
        Some("video/x-matroska")
    } else if eq_ignore_case(ext, "mp4") || eq_ignore_case(ext, "m4v") {
        Some("video/mp4")
    } else if eq_ignore_case(ext, "mov") {
        Some("video/quicktime")
    } else if eq_ignore_case(ext, "avi") {
        Some("video/x-msvideo")
    } else if eq_ignore_case(ext, "webm") {
        Some("video/webm")
    } else if eq_ignore_case(ext, "ts") {
        Some("video/mp2t")
    } else {
        None
    }
}

pub fn audio_mime_type(ext: &str) -> (r: Option<&'static str>)
    ensures
        str_opt(r) == audio_mime(ext@),
{
    if eq_ignore_case(ext, "mp3") {
        Some("audio/mpeg")
    } else if eq_ignore_case(ext, "flac") {
        Some("audio/flac")
    } else if eq_ignore_case(ext, "m4a") {
        Some("audio/mp4")
    } else if eq_ignore_case(ext, "ogg") {
        Some("audio/ogg")
    } else if eq_ignore_case(ext, "opus") {
        Some("audio/opus")
    } else if eq_ignore_case(ext, "wav") {
        Some("audio/wav")
    } else if eq_ignore_case(ext, "aac") {
        Some("audio/aac")
    } else {
        None
    }
}

/// The media type of a file, known by its extension.
pub open spec fn mime_spec(path: Seq<char>) -> Seq<char> {
    match extension_spec(path) {
        Some(ext) => match video_mime(ext) {
            Some(m) => m,
            None => match audio_mime(ext) {
                Some(m) => m,
                None => "application/octet-stream"@,
            },
        },
        None => "application/octet-stream"@,
    }
}

pub fn mime_from_path(path: &str) -> (r: &'static str)
    ensures
        r@ == mime_spec(path@),
{
    match extension(path) {
        Some(ext) => match video_mime_type(ext.as_str()) {
            Some(m) => m,
            None => match audio_mime_type(ext.as_str()) {
                Some(m) => m,
                None => "application/octet-stream",
            },
        },
        None => "application/octet-stream",
    }
}

// ---------------------------------------------------------------------------
// Laws of ranges
// ---------------------------------------------------------------------------

proof fn lemma_sides(a: Seq<char>, b: Seq<char>)
    requires
        forall|i: int| 0 <= i < a.len() ==> #[trigger] a[i] != '-',
    ensures
        range_sides("bytes="@ + a + "-"@ + b) == Some((a, b)),
        begins("bytes="@ + a + "-"@ + b, "bytes="@),
{
    reveal_strlit("bytes=");
    reveal_strlit("-");
    let range = "bytes="@ + a + "-"@ + b;
    let bytes = range.skip(6);
    assert("bytes="@.len() == 6 && "-"@.len() == 1);
    assert(range.subrange(0, 6) =~= "bytes="@);
    assert(bytes =~= a + "-"@ + b);
    crate::text::lemma_first_index(bytes, '-');
    let i = first_index(bytes, '-');
    assert(bytes[a.len() as int] == '-');
    if i < a.len() {
        assert(bytes[i] == a[i]);
    }
    assert(bytes.take(i) =~= a);
    assert(bytes.skip(i + 1) =~= b);
}

proof fn lemma_no_minus(n: nat)
    ensures
        dec(n).len() > 0,
        forall|i: int| 0 <= i < dec(n).len() ==> #[trigger] dec(n)[i] != '-' && dec(n)[i] != ','
            && dec(n)[i] != '/',
{
    crate::text::lemma_dec_chars(n);
    assert forall|i: int| 0 <= i < dec(n).len() implies #[trigger] dec(n)[i] != '-' && dec(n)[i]
        != ',' && dec(n)[i] != '/' by {
        assert(is_digit_spec(dec(n)[i]));
    }
}

/// A client that asks for the bytes from one place to another of a file gets those, as
/// far as they are there; one that asks from a place on gets the rest, and one that asks
/// for the last bytes gets as many of them as there are.
pub proof fn law_asked_bytes_are_served(first: u64, last: u64, size: nat)
    requires
        size > 0,
    ensures
        range_bounds("bytes="@ + dec(first as nat) + "-"@ + dec(last as nat)) matches Ok(b) && ({
            let r = range_in_file(b, size);
            r.0 == first && (last < size ==> r.1 == last) && (last >= size ==> r.1 == size - 1)
        }),
        range_bounds("bytes="@ + dec(first as nat) + "-"@ + Seq::<char>::empty()) matches Ok(b)
            && range_in_file(b, size) == (first as int, size - 1),
        range_bounds("bytes="@ + Seq::<char>::empty() + "-"@ + dec(last as nat)) matches Ok(b) && ({
            let r = range_in_file(b, size);
            r.1 == size - 1 && (last <= size ==> r.0 == size - last) && (last > size ==> r.0 == 0)
        }),
{
    lemma_no_minus(first as nat);
    lemma_no_minus(last as nat);
    crate::text::law_decimal_reads_back(first as nat);
    crate::text::law_decimal_reads_back(last as nat);
    lemma_sides(dec(first as nat), dec(last as nat));
    lemma_sides(dec(first as nat), Seq::empty());
    lemma_sides(Seq::empty(), dec(last as nat));
}

/// A range that does not count bytes is refused as such, and so is one without a minus
/// sign or with a bound that is no number.
pub proof fn law_other_ranges_are_refused(range: Seq<char>, a: Seq<char>, b: Seq<char>)
    requires
        forall|i: int| 0 <= i < a.len() ==> #[trigger] a[i] != '-',
    ensures
        !begins(range, "bytes="@) ==> range_bounds(range) == Err::<RangeBounds, RangeError>(
            RangeError::MissingPrefix,
        ),
        range_bounds("bytes="@ + a) == Err::<RangeBounds, RangeError>(RangeError::Malformed),
        a.len() > 0 && unsigned_value(a, u64::MAX as nat) is None ==> range_bounds(
            "bytes="@ + a + "-"@ + b,
        ) == Err::<RangeBounds, RangeError>(RangeError::BadNumber),
        b.len() > 0 && unsigned_value(b, u64::MAX as nat) is None ==> range_bounds(
            "bytes="@ + a + "-"@ + b,
        ) == Err::<RangeBounds, RangeError>(RangeError::BadNumber),
        unsigned_value(Seq::empty(), u64::MAX as nat) is None,
{
    lemma_sides(a, b);
    reveal_strlit("bytes=");
    let open = "bytes="@ + a;
    assert(open.subrange(0, 6) =~= "bytes="@);
    assert(open.skip(6) =~= a);
    crate::text::lemma_first_index(a, '-');
}

/// Of the torrent engine only the start of a range is asked, and of all others the range
/// as it is.
pub proof fn law_upstream_is_asked_for_the_start(first: u64, last: u64, range: Seq<char>)
    requires
        first <= last,
    ensures
        upstream_range(Some(range), false) == Some(range),
        upstream_range(None, true) is None && upstream_range(None, false) is None,
        upstream_range(
            Some("bytes="@ + dec(first as nat) + "-"@ + dec(last as nat)),
            true,
        ) == Some("bytes="@ + dec(first as nat) + "-"@),
        open_or_finite_range("bytes="@ + dec(first as nat) + "-"@ + dec(last as nat)) == Some(
            (first as nat, Some(last as nat)),
        ),
        open_or_finite_range("bytes="@ + dec(first as nat) + "-"@ + Seq::<char>::empty()) == Some(
            (first as nat, None::<nat>),
        ),
        first < last ==> open_or_finite_range(
            "bytes="@ + dec(last as nat) + "-"@ + dec(first as nat),
        ) is None,
        open_or_finite_range("bytes="@ + Seq::<char>::empty() + "-"@ + dec(last as nat)) is None,
{
    lemma_no_minus(first as nat);
    lemma_no_minus(last as nat);
    crate::text::law_decimal_reads_back(first as nat);
    crate::text::law_decimal_reads_back(last as nat);
    lemma_sides(dec(first as nat), dec(last as nat));
    lemma_sides(dec(last as nat), dec(first as nat));
    lemma_sides(dec(first as nat), Seq::empty());
    lemma_sides(Seq::empty(), dec(last as nat));
    assert(!dec(last as nat).contains(','));
    assert(!dec(first as nat).contains(','));
}

/// What is cut out of an answer ends where it was asked to, or at the end of the file,
/// and only a finite range of a partial answer is cut.
pub proof fn law_cut_ends_where_it_should(start: u64, wanted: u64, total: u64)
    requires
        start <= wanted < u64::MAX,
        start < total,
    ensures
        bounded_range_spec(Some((start, Some(wanted))), true, Some(total)) matches Some(b)
            && b.start
            == start && (wanted < total ==> b.end == wanted) && (wanted >= total ==> b.end == total
            - 1) && b.length == b.end - start + 1,
        bounded_range_spec(Some((start, Some(wanted))), true, None) matches Some(b) && b.start
            == start && b.end == wanted && b.length == wanted - start + 1,
        bounded_range_spec(Some((start, Some(wanted))), false, Some(total)) is None,
        bounded_range_spec(Some((start, None)), true, Some(total)) is None,
        bounded_range_spec(None, true, Some(total)) is None,
{
}

/// The header of a cut answer names its first and its last byte, and the size of the
/// file is read back from it.
pub proof fn law_cut_answers_are_labelled(range: BoundedRange, total: u64, head: Seq<char>)
    ensures
        content_range_spec(range, Some(total)) == "bytes "@ + dec(range.start as nat) + "-"@ + dec(
            range.end as nat,
        ) + "/"@ + dec(total as nat),
        content_range_spec(range, None) == "bytes "@ + dec(range.start as nat) + "-"@ + dec(
            range.end as nat,
        ) + "/"@ + "*"@,
        total_length_spec(head + "/"@ + dec(total as nat)) == Some(total as nat),
        total_length_spec(content_range_spec(range, Some(total))) == Some(total as nat),
        total_length_spec(content_range_spec(range, None)) is None,
{
    lemma_behind_slash(head, dec(total as nat));
    lemma_no_minus(total as nat);
    crate::text::law_decimal_reads_back(total as nat);
    let front = "bytes "@ + dec(range.start as nat) + "-"@ + dec(range.end as nat);
    lemma_behind_slash(front, dec(total as nat));
    lemma_behind_slash(front, "*"@);
    reveal_strlit("*");
    assert("*"@.len() == 1 && !is_digit_spec("*"@[0]));
}

proof fn lemma_behind_slash(head: Seq<char>, tail: Seq<char>)
    ensures
        (forall|i: int| 0 <= i < tail.len() ==> #[trigger] tail[i] != '/') ==> total_length_spec(
            head + "/"@ + tail,
        ) == unsigned_value(tail, u64::MAX as nat),
{
    if forall|i: int| 0 <= i < tail.len() ==> #[trigger] tail[i] != '/' {
        reveal_strlit("/");
        let s = head + "/"@ + tail;
        crate::text::lemma_last_index(s, '/');
        let k = last_index(s, '/');
        assert(s[head.len() as int] == '/');
        if k > head.len() {
            assert(s[k] == tail[k - head.len() - 1]);
        }
        assert(s.skip(k + 1) =~= tail);
    }
}

/// Of the headers of an answer those are passed on that tell what its bytes are, and no
/// others.
pub proof fn law_headers_that_are_passed_on(name: Seq<char>)
    ensures
        name == "content-length"@ ==> forwarded(name),
        name == "content-type"@ ==> forwarded(name),
        name == "accept-ranges"@ ==> forwarded(name),
        name == "content-range"@ ==> forwarded(name),
        name == "last-modified"@ ==> forwarded(name),
        forwarded(name) ==> name == "content-length"@ || name == "content-type"@ || name
            == "accept-ranges"@ || name == "content-range"@ || name == "last-modified"@,
{
}

// ---------------------------------------------------------------------------
// Laws of types and addresses
// ---------------------------------------------------------------------------

/// The type of a file goes by its extension, in whatever case it is written.
pub proof fn law_types_go_by_the_extension(path: Seq<char>, ext: Seq<char>)
    requires
        extension_spec(path) == Some(ext),
    ensures
        lower(ext) == "mkv"@ ==> video_mime(ext) == Some("video/x-matroska"@)
            && mime_spec(path) == "video/x-matroska"@,
        lower(ext) == "mp4"@ ==> video_mime(ext) == Some("video/mp4"@)
            && mime_spec(path) == "video/mp4"@,
        lower(ext) == "m4v"@ ==> video_mime(ext) == Some("video/mp4"@)
            && mime_spec(path) == "video/mp4"@,
        lower(ext) == "mov"@ ==> video_mime(ext) == Some("video/quicktime"@)
            && mime_spec(path) == "video/quicktime"@,
        lower(ext) == "avi"@ ==> video_mime(ext) == Some("video/x-msvideo"@)
            && mime_spec(path) == "video/x-msvideo"@,
        lower(ext) == "webm"@ ==> video_mime(ext) == Some("video/webm"@)
            && mime_spec(path) == "video/webm"@,
        lower(ext) == "ts"@ ==> video_mime(ext) == Some("video/mp2t"@)
            && mime_spec(path) == "video/mp2t"@,
        lower(ext) == "mp3"@ ==> video_mime(ext) is None && mime_spec(path) == "audio/mpeg"@,
        lower(ext) == "flac"@ ==> video_mime(ext) is None && mime_spec(path) == "audio/flac"@,
        lower(ext) == "m4a"@ ==> video_mime(ext) is None && mime_spec(path) == "audio/mp4"@,
        lower(ext) == "ogg"@ ==> video_mime(ext) is None && mime_spec(path) == "audio/ogg"@,
        lower(ext) == "opus"@ ==> video_mime(ext) is None && mime_spec(path) == "audio/opus"@,
        lower(ext) == "wav"@ ==> video_mime(ext) is None && mime_spec(path) == "audio/wav"@,
        lower(ext) == "aac"@ ==> video_mime(ext) is None && mime_spec(path) == "audio/aac"@,
        ext.len() == 0 || ext.len() == 1 || ext.len() > 4 ==> video_mime(ext) is None && mime_spec(
            path,
        ) == "application/octet-stream"@,
        lower(ext) == "srt"@ || lower(ext) == "nfo"@ || lower(ext) == "txt"@ || lower(ext)
            == "jpg"@ ==> video_mime(ext) is None,
{
    assert(lower(ext).len() == ext.len());
    reveal_strlit("mkv");
    reveal_strlit("mp4");
    reveal_strlit("m4v");
    reveal_strlit("mov");
    reveal_strlit("avi");
    reveal_strlit("webm");
    reveal_strlit("ts");
    reveal_strlit("mp3");
    reveal_strlit("flac");
    reveal_strlit("m4a");
    reveal_strlit("ogg");
    reveal_strlit("opus");
    reveal_strlit("wav");
    reveal_strlit("aac");
    reveal_strlit("srt");
    reveal_strlit("nfo");
    reveal_strlit("txt");
    reveal_strlit("jpg");
    assert(lower("mkv"@) =~= "mkv"@ && "mkv"@.len() == 3);
    assert("mkv"@[0] == 'm' && "mkv"@[1] == 'k' && "mkv"@[2] == 'v');
    assert(lower("mp4"@) =~= "mp4"@ && "mp4"@.len() == 3);
    assert("mp4"@[0] == 'm' && "mp4"@[1] == 'p' && "mp4"@[2] == '4');
    assert(lower("m4v"@) =~= "m4v"@ && "m4v"@.len() == 3);
    assert("m4v"@[0] == 'm' && "m4v"@[1] == '4' && "m4v"@[2] == 'v');
    assert(lower("mov"@) =~= "mov"@ && "mov"@.len() == 3);
    assert("mov"@[0] == 'm' && "mov"@[1] == 'o' && "mov"@[2] == 'v');
    assert(lower("avi"@) =~= "avi"@ && "avi"@.len() == 3);
    assert("avi"@[0] == 'a' && "avi"@[1] == 'v' && "avi"@[2] == 'i');
    assert(lower("webm"@) =~= "webm"@ && "webm"@.len() == 4);
    assert("webm"@[0] == 'w' && "webm"@[1] == 'e' && "webm"@[2] == 'b' && "webm"@[3] == 'm');
    assert(lower("ts"@) =~= "ts"@ && "ts"@.len() == 2);
    assert("ts"@[0] == 't' && "ts"@[1] == 's');
    assert(lower("mp3"@) =~= "mp3"@ && "mp3"@.len() == 3);
    assert("mp3"@[0] == 'm' && "mp3"@[1] == 'p' && "mp3"@[2] == '3');
    assert(lower("flac"@) =~= "flac"@ && "flac"@.len() == 4);
    assert("flac"@[0] == 'f' && "flac"@[1] == 'l' && "flac"@[2] == 'a' && "flac"@[3] == 'c');
    assert(lower("m4a"@) =~= "m4a"@ && "m4a"@.len() == 3);
    assert("m4a"@[0] == 'm' && "m4a"@[1] == '4' && "m4a"@[2] == 'a');
    assert(lower("ogg"@) =~= "ogg"@ && "ogg"@.len() == 3);
    assert("ogg"@[0] == 'o' && "ogg"@[1] == 'g' && "ogg"@[2] == 'g');
    assert(lower("opus"@) =~= "opus"@ && "opus"@.len() == 4);
    assert("opus"@[0] == 'o' && "opus"@[1] == 'p' && "opus"@[2] == 'u' && "opus"@[3] == 's');
    assert(lower("wav"@) =~= "wav"@ && "wav"@.len() == 3);
    assert("wav"@[0] == 'w' && "wav"@[1] == 'a' && "wav"@[2] == 'v');
    assert(lower("aac"@) =~= "aac"@ && "aac"@.len() == 3);
    assert("aac"@[0] == 'a' && "aac"@[1] == 'a' && "aac"@[2] == 'c');
    assert("srt"@.len() == 3 && "srt"@[0] == 's' && "srt"@[1] == 'r' && "srt"@[2] == 't');
    assert("nfo"@.len() == 3 && "nfo"@[0] == 'n' && "nfo"@[1] == 'f' && "nfo"@[2] == 'o');
    assert("txt"@.len() == 3 && "txt"@[0] == 't' && "txt"@[1] == 'x' && "txt"@[2] == 't');
    assert("jpg"@.len() == 3 && "jpg"@[0] == 'j' && "jpg"@[1] == 'p' && "jpg"@[2] == 'g');
}

/// A tracker has a host; over UDP it has a port, and over HTTP a path. Nothing else is a
/// tracker.
pub proof fn law_trackers_can_be_reached(url: UrlView)
    ensures
        tracker_parts(url) ==> url.host is Some && (url.scheme == "udp"@ || url.scheme == "http"@
            || url.scheme == "https"@),
        url.scheme == "udp"@ && url.host is Some ==> (tracker_parts(url) <==> url.port is Some),
        (url.scheme == "http"@ || url.scheme == "https"@) && url.host is Some
            ==> (tracker_parts(url)
            <==> url.path.len() > 1 || (url.path.len() == 1 && url.path[0] != '/')),
{
    reveal_strlit("udp");
    reveal_strlit("http");
    reveal_strlit("https");
    reveal_strlit("/");
    assert("udp"@.len() == 3 && "http"@.len() == 4 && "https"@.len() == 5 && "/"@.len() == 1);
    if url.path.len() == 1 && url.path[0] == '/' {
        assert(url.path =~= "/"@);
    }
    if url.path.len() == 1 && url.path[0] != '/' {
        assert(url.path != "/"@) by {
            assert("/"@[0] == '/');
        }
    }
}

/// Where a stream names no tracker, seven public ones are asked, all over UDP.
pub proof fn law_public_trackers(i: int)
    requires
        0 <= i < default_trackers_spec().len(),
    ensures
        default_trackers_spec().len() == 7,
        begins(default_trackers_spec()[i], "udp://"@),
        default_trackers_spec().no_duplicates(),
{
    reveal_strlit("udp://");
    reveal_strlit("udp://tracker.opentrackr.org:1337/announce");
    reveal_strlit("udp://open.demonii.com:1337/announce");
    reveal_strlit("udp://open.stealth.si:80/announce");
    reveal_strlit("udp://tracker.torrent.eu.org:451/announce");
    reveal_strlit("udp://tracker.qu.ax:6969/announce");
    reveal_strlit("udp://wepzone.net:6969/announce");
    reveal_strlit("udp://tracker.srv00.com:6969/announce");
    let t = default_trackers_spec()[i];
    assert("udp://"@.len() == 6);
    assert(t.subrange(0, 6) =~= "udp://"@);
    assert("udp://tracker.opentrackr.org:1337/announce"@.len() == 42);
    assert("udp://open.demonii.com:1337/announce"@.len() == 36);
    assert("udp://open.stealth.si:80/announce"@.len() == 33);
    assert("udp://tracker.torrent.eu.org:451/announce"@.len() == 41);
    assert("udp://tracker.qu.ax:6969/announce"@.len() == 33);
    assert("udp://wepzone.net:6969/announce"@.len() == 31);
    assert("udp://tracker.srv00.com:6969/announce"@.len() == 37);
    assert("udp://open.stealth.si:80/announce"@[6] == 'o');
    assert("udp://tracker.qu.ax:6969/announce"@[6] == 't');
}

/// The transcoder reads an address or a file itself, and everything else through the
/// server's proxy; a client reads everything but an address through it.
pub proof fn law_streams_are_reached(
    stream: StreamDescriptor,
    media_id: u128,
    port: u16,
    server_base: Seq<char>,
)
    ensures
        stream matches StreamDescriptor::Http { url, .. } ==> stream.input(media_id, port) == url@
            && stream.client_address(media_id, server_base) == url@,
        stream matches StreamDescriptor::Rtsp { url } ==> stream.input(media_id, port) == url@,
        stream matches StreamDescriptor::Local(path) ==> stream.input(media_id, port) == path@,
        stream is Torrent || stream is Opendal ==> stream.input(media_id, port)
            == "http://127.0.0.1:"@ + dec(port as nat) + ("/stream/"@ + hyphenated_id(media_id)),
        !(stream is Http) ==> ends(
            stream.client_address(media_id, server_base),
            "/stream/"@ + hyphenated_id(media_id),
        ),
        !(stream is Http) && server_base.len() > 0 && server_base.last() != '/'
            ==> stream.client_address(media_id, server_base) == server_base + ("/stream/"@
            + hyphenated_id(media_id)),
        !(stream is Http) ==> stream.client_address(media_id, server_base.push('/'))
            == stream.client_address(media_id, server_base),
{
    crate::text::lemma_ends_of_sum(without_slashes(server_base), proxy_path(media_id));
    assert(server_base.push('/').drop_last() =~= server_base);
}

/// A magnet names the file that the stream's provider names, and the file name of the
/// release where it names none.
pub proof fn law_magnets_name_the_file(info: StreamInfo)
    ensures
        !(info.descriptor is Torrent) ==> info.fields() is None && info.descriptor.fields() is None,
        (info.descriptor matches StreamDescriptor::Torrent {
            info_hash,
            file_hint,
            file_idx,
            trackers,
        } && file_hint is Some) ==> info.fields() == info.descriptor.fields(),
        info.descriptor matches StreamDescriptor::Torrent {
            info_hash,
            file_hint: None,
            file_idx,
            trackers,
        } ==> info.fields() == Some(
            magnet_fields(
                info_hash@,
                tracker_texts(trackers@),
                file_idx,
                text_opt(info.filename),
            ),
        ) && info.descriptor.fields() == Some(
            magnet_fields(info_hash@, tracker_texts(trackers@), file_idx, None),
        ),
{
}

/// The hash of a magnet stands behind `urn:btih:` and is written in lower case.
pub proof fn law_hash_stands_in_its_field(url: UrlView, hash: Seq<char>, value: Seq<char>)
    ensures
        first_value(url.query, "xt"@) == Some("urn:btih:"@ + hash) ==> btih_of(url) == Some(
            lower(hash),
        ),
        first_value(url.query, "xt"@) is None ==> btih_of(url) is None,
        first_value(url.query, "xt"@) == Some(value) && !begins(value, "urn:btih:"@)
            ==> btih_of(url)
            is None,
{
    let v = "urn:btih:"@ + hash;
    let n = "urn:btih:"@.len() as int;
    assert(v.subrange(0, n) =~= "urn:btih:"@);
    assert(v.skip(n) =~= hash);
}

/// The resolution of a release is the smallest of the screen sizes in its name, and the
/// first of those that are as small.
pub proof fn law_smallest_size_counts(sizes: Seq<Seq<char>>, k: int)
    requires
        0 <= k < sizes.len(),
    ensures
        smallest_size(sizes) matches Some(s) && sizes.contains(s)
            && screen_lines(s) <= screen_lines(
            sizes[k],
        ),
        (forall|j: int| 0 <= j < k ==> screen_lines(#[trigger] sizes[j]) > screen_lines(sizes[k]))
            && (forall|j: int|
            k < j < sizes.len() ==> screen_lines(#[trigger] sizes[j]) >= screen_lines(sizes[k]))
            ==> smallest_size(sizes) == Some(sizes[k]),
    decreases sizes.len(),
{
    let short = sizes.drop_last();
    assert(sizes[sizes.len() - 1] == sizes.last());
    assert forall|j: int| 0 <= j < short.len() implies #[trigger] short[j] == sizes[j] by {}
    if short.len() > 0 {
        law_smallest_size_counts(
            short,
            if k < short.len() {
                k
            } else {
                0
            },
        );
        let s = smallest_size(short)->Some_0;
        let i = choose|i: int| 0 <= i < short.len() && short[i] == s;
        assert(sizes[i] == s);
    }
}

proof fn lemma_leading(s: Seq<char>, rest: Seq<char>)
    requires
        forall|i: int| 0 <= i < s.len() ==> is_digit_spec(#[trigger] s[i]),
        rest.len() > 0 ==> !is_digit_spec(rest[0]),
    ensures
        leading_digits(s + rest) == s,
    decreases s.len(),
{
    if s.len() > 0 {
        assert((s + rest).skip(1) =~= s.skip(1) + rest);
        assert forall|i: int| 0 <= i < s.skip(1).len() implies is_digit_spec(
            #[trigger] s.skip(1)[i],
        ) by {
            assert(s.skip(1)[i] == s[i + 1]);
        }
        lemma_leading(s.skip(1), rest);
        assert(seq![s[0]] + s.skip(1) =~= s);
    }
}

/// A screen size has as many lines as the number in front of it says.
pub proof fn law_lines_stand_in_front(n: u64, unit: Seq<char>)
    requires
        unit.len() > 0 ==> !is_digit_spec(unit[0]),
    ensures
        screen_lines(dec(n as nat) + unit) == n,
        screen_lines(unit) == 0,
{
    crate::text::lemma_dec_chars(n as nat);
    crate::text::law_decimal_reads_back(n as nat);
    lemma_leading(dec(n as nat), unit);
    lemma_leading(Seq::empty(), unit);
    assert(Seq::<char>::empty() + unit =~= unit);
}

/// A release is named after its file, and else as its stream is.
pub proof fn law_releases_are_named_after_files(info: StreamInfo)
    ensures
        info.filename matches Some(f) ==> info.release_name() == Some(f@),
        info.filename is None ==> info.release_name() == text_opt(info.name),
        info.p2p() <==> info.descriptor is Torrent,
        info.filename is None && info.name is None ==> info.resolution() is None,
        info.filename matches Some(f) ==> info.resolution() == smallest_size(
            release_screen_sizes(f@),
        ),
{
}

/// A part that cannot be there is still answered with its first byte: where the file is
/// empty or ends before it.
pub proof fn law_parts_beyond_the_end(start: u64, wanted: u64, total: u64)
    requires
        start <= wanted,
        total <= start,
    ensures
        bounded_range_spec(Some((start, Some(wanted))), true, Some(total)) matches Some(b) && b.start
            == start && b.length == 1 && (total > 0 ==> b.end == total - 1) && (total == 0 ==> b.end
            == 0),
        start == 0 && wanted == u64::MAX ==> (bounded_range_spec(
            Some((start, Some(wanted))),
            true,
            None,
        ) matches Some(b) && b.length == u64::MAX),
{
}

} // verus!
