//! The names under which streams are offered to a viewer.

use vstd::prelude::*;

use super::media::VideoRange;
use crate::languages::{code_to_name, name_of_code};
use crate::text::{
    begins, chars_of, concat2, dec_int, dec_int_text, has, lemma_has_itself, lemma_has_of_sum, lower,
    push_arg, same_text, slice, str_opt, text_opt, texts, to_lower, to_upper, upper,
    upper_char_spec,
};

verus! {

/// The capital form that `char::to_uppercase` gives a character.
pub uninterp spec fn unicode_upper(c: char) -> Seq<char>;

/// `char::to_uppercase`: a function of the character; an ASCII character has
/// its ASCII capital.
#[verifier::external_body]
fn uppercase_char(c: char) -> (s: String)
    ensures
        s@ == unicode_upper(c),
        (c as u32) < 0x80 ==> s@ == seq![upper_char_spec(c)],
{
    c.to_uppercase().collect()
}

/// A text with its first character as a capital.
pub open spec fn first_upper(s: Seq<char>) -> Seq<char> {
    if s.len() == 0 {
        Seq::empty()
    } else {
        unicode_upper(s[0]) + s.skip(1)
    }
}

/// A text whose first character is replaced by its capital form.
pub fn with_capital(capital: &str, s: &str) -> (r: String)
    requires
        s@.len() > 0,
    ensures
        r@ == capital@ + s@.skip(1),
{
    let chars = chars_of(s);
    let rest = slice(&chars, 1, chars.len());
    assert(rest@ =~= s@.skip(1));
    concat2(capital, rest.as_str())
}

pub fn first_to_upper(s: &str) -> (r: String)
    ensures
        r@ == first_upper(s@),
        s@.len() > 0 && (s@[0] as u32) < 0x80 ==> r@ == seq![upper_char_spec(s@[0])] + s@.skip(1),
{
    if s.is_empty() {
        return String::new();
    }
    let capital = uppercase_char(s.get_char(0));
    with_capital(capital.as_str(), s)
}

/// The name of a resolution. The width or the height alone decides.
pub open spec fn resolution_text(width: Option<i64>, height: Option<i64>) -> Option<Seq<char>> {
    let w = match width {
        Some(w) => w as int,
        None => i64::MIN as int,
    };
    let h = match height {
        Some(h) => h as int,
        None => i64::MIN as int,
    };
    if width is None && height is None {
        None
    } else if w >= 3840 || h >= 2160 {
        Some("4K"@)
    } else if w >= 1920 || h >= 1080 {
        Some("1080p"@)
    } else if w >= 1280 || h >= 720 {
        Some("720p"@)
    } else if w >= 720 || h >= 480 {
        Some("480p"@)
    } else {
        Some("SD"@)
    }
}

pub fn video_resolution_text(width: Option<i64>, height: Option<i64>) -> (r: Option<String>)
    ensures
        text_opt(r) == resolution_text(width, height),
{
    if width.is_none() && height.is_none() {
        return None;
    }
    let w: i64 = match width {
        Some(w) => w,
        None => i64::MIN,
    };
    let h: i64 = match height {
        Some(h) => h,
        None => i64::MIN,
    };
    let text = if w >= 3840 || h >= 2160 {
        "4K"
    } else if w >= 1920 || h >= 1080 {
        "1080p"
    } else if w >= 1280 || h >= 720 {
        "720p"
    } else if w >= 720 || h >= 480 {
        "480p"
    } else {
        "SD"
    };
    Some(text.to_owned())
}

/// A title followed by the tags that do not stand in it already.
pub open spec fn tagged_title(title: Seq<char>, tags: Seq<Seq<char>>) -> Seq<char>
    decreases tags.len(),
{
    if tags.len() == 0 {
        title
    } else {
        let before = tagged_title(title, tags.drop_last());
        if has(lower(title), lower(tags.last())) {
            before
        } else {
            before + " - "@ + tags.last()
        }
    }
}

pub fn append_tags_to_title(title: &str, tags: &Vec<String>) -> (r: String)
    ensures
        r@ == tagged_title(title@, texts(tags@)),
{
    let low = to_lower(title);
    let mut r = title.to_owned();
    let ghost all = texts(tags@);
    let mut i: usize = 0;
    while i < tags.len()
        invariant
            i <= tags.len(),
            all == texts(tags@),
            low@ == lower(title@),
            r@ == tagged_title(title@, all.take(i as int)),
        decreases tags.len() - i,
    {
        proof {
            assert(all.take(i + 1).drop_last() =~= all.take(i as int));
            assert(all.take(i + 1).last() == tags@[i as int]@);
        }
        let tag = to_lower(tags[i].as_str());
        if !crate::text::contains(low.as_str(), tag.as_str()) {
            r.append(" - ");
            r.append(tags[i].as_str());
        }
        i = i + 1;
    }
    assert(all.take(all.len() as int) =~= all);
    r
}

/// Some texts with another between each two.
pub open spec fn joined_with(parts: Seq<Seq<char>>, sep: Seq<char>) -> Seq<char>
    decreases parts.len(),
{
    if parts.len() == 0 {
        Seq::empty()
    } else if parts.len() == 1 {
        parts[0]
    } else {
        joined_with(parts.drop_last(), sep) + sep + parts.last()
    }
}

pub fn join(parts: &Vec<String>, sep: &str) -> (r: String)
    ensures
        r@ == joined_with(texts(parts@), sep@),
{
    let ghost all = texts(parts@);
    let mut r = String::new();
    let mut i: usize = 0;
    while i < parts.len()
        invariant
            i <= parts.len(),
            all == texts(parts@),
            r@ == joined_with(all.take(i as int), sep@),
        decreases parts.len() - i,
    {
        proof {
            assert(all.take(i + 1).drop_last() =~= all.take(i as int));
            assert(all.take(i + 1).last() == parts@[i as int]@);
            assert(all.take(i + 1)[0] == all[0]);
        }
        if i > 0 {
            r.append(sep);
            r.append(parts[i].as_str());
        } else {
            r = parts[i].clone();
        }
        i = i + 1;
    }
    assert(all.take(all.len() as int) =~= all);
    r
}

/// What the name of a stream is made of.
pub struct StreamMeta<'a> {
    pub language: Option<&'a str>,
    pub codec: Option<&'a str>,
    /// The name under which viewers know an audio codec.
    pub friendly_codec: &'a str,
    pub profile: Option<&'a str>,
    pub channels: Option<i64>,
    pub channel_layout: Option<&'a str>,
    pub width: Option<i64>,
    pub height: Option<i64>,
    pub video_range: Option<VideoRange>,
    pub is_default: bool,
    pub is_forced: bool,
    pub is_external: bool,
    pub is_hearing_impaired: bool,
    pub title: Option<&'a str>,
}

/// The English name of a language, or its code where it has none.
pub open spec fn language_name(code: Seq<char>) -> Seq<char> {
    match name_of_code(code) {
        Some(name) => name,
        None => code,
    }
}

fn language_title(code: &str) -> (r: String)
    ensures
        r@ == first_upper(language_name(code@)),
{
    match code_to_name(code) {
        Some(name) => first_to_upper(name.as_str()),
        None => first_to_upper(code),
    }
}

/// The codes that name no language.
pub open spec fn no_language(code: Seq<char>) -> bool {
    let c = lower(code);
    c == "und"@ || c == "mis"@ || c == "zxx"@ || c == "mul"@
}

fn is_no_language(code: &str) -> (r: bool)
    ensures
        r == no_language(code@),
{
    let c = to_lower(code);
    same_text(c.as_str(), "und") || same_text(c.as_str(), "mis") || same_text(c.as_str(), "zxx")
        || same_text(c.as_str(), "mul")
}

/// A list of one text, or of none.
pub open spec fn when(shown: bool, s: Seq<char>) -> Seq<Seq<char>> {
    if shown {
        seq![s]
    } else {
        seq![]
    }
}

fn push_when(list: &mut Vec<String>, shown: bool, s: &str)
    ensures
        texts(final(list)@) == texts(old(list)@) + when(shown, s@),
{
    if shown {
        push_arg(list, s);
    }
    assert(texts(list@) =~= texts(old(list)@) + when(shown, s@));
}

/// The same, as contracts speak of it.
pub ghost struct MetaView {
    pub language: Option<Seq<char>>,
    pub codec: Option<Seq<char>>,
    pub friendly_codec: Seq<char>,
    pub profile: Option<Seq<char>>,
    pub channels: Option<i64>,
    pub channel_layout: Option<Seq<char>>,
    pub width: Option<i64>,
    pub height: Option<i64>,
    pub video_range: Option<VideoRange>,
    pub is_default: bool,
    pub is_forced: bool,
    pub is_external: bool,
    pub is_hearing_impaired: bool,
    pub title: Option<Seq<char>>,
}

impl<'a> StreamMeta<'a> {
    pub open spec fn view(&self) -> MetaView {
        MetaView {
            language: str_opt(self.language),
            codec: str_opt(self.codec),
            friendly_codec: self.friendly_codec@,
            profile: str_opt(self.profile),
            channels: self.channels,
            channel_layout: str_opt(self.channel_layout),
            width: self.width,
            height: self.height,
            video_range: self.video_range,
            is_default: self.is_default,
            is_forced: self.is_forced,
            is_external: self.is_external,
            is_hearing_impaired: self.is_hearing_impaired,
            title: str_opt(self.title),
        }
    }
}

impl MetaView {
    pub open spec fn audio_language(&self) -> Seq<Seq<char>> {
        match self.language {
            Some(l) => when(!no_language(l), first_upper(language_name(l))),
            None => seq![],
        }
    }

    /// The profile, but for the common one, or else the codec.
    pub open spec fn audio_format(&self) -> Seq<Seq<char>> {
        match self.profile {
            Some(p) => when(lower(p) != "lc"@, p),
            None => when(self.codec is Some, self.friendly_codec),
        }
    }

    pub open spec fn audio_layout(&self) -> Seq<Seq<char>> {
        match self.channel_layout {
            Some(l) => seq![first_upper(l)],
            None => match self.channels {
                Some(c) => seq![dec_int(c as int) + " ch"@],
                None => seq![],
            },
        }
    }

    pub open spec fn audio_parts(&self) -> Seq<Seq<char>> {
        self.audio_language() + self.audio_format() + self.audio_layout() + when(
            self.is_default,
            "Default"@,
        ) + when(self.is_external, "External"@)
    }

    pub open spec fn video_parts(&self) -> Seq<Seq<char>> {
        (match resolution_text(self.width, self.height) {
            Some(r) => seq![r],
            None => seq![],
        }) + (match self.codec {
            Some(c) => seq![upper(c)],
            None => seq![],
        }) + (match self.video_range {
            Some(VideoRange::Sdr) => seq!["Sdr"@],
            Some(VideoRange::Hdr) => seq!["Hdr"@],
            _ => seq![],
        })
    }

    pub open spec fn subtitle_parts(&self) -> Seq<Seq<char>> {
        seq![
            match self.language {
                Some(l) => first_upper(language_name(l)),
                None => "Und"@,
            },
        ] + when(self.is_hearing_impaired, "Hearing Impaired"@) + when(self.is_forced, "Forced"@) + (
        match self.codec {
            Some(c) => seq![upper(c)],
            None => seq![],
        }) + when(self.is_external, "External"@)
    }

    /// The title with what is missing in it, or else the parts alone.
    pub open spec fn titled(&self, parts: Seq<Seq<char>>, sep: Seq<char>) -> Option<Seq<char>> {
        match self.title {
            Some(t) => Some(tagged_title(t, parts)),
            None => if parts.len() == 0 {
                None
            } else {
                Some(joined_with(parts, sep))
            },
        }
    }
}

fn make_title(title: Option<&str>, parts: &Vec<String>, sep: &str) -> (r: Option<String>)
    ensures
        text_opt(r) == match title {
            Some(t) => Some(tagged_title(t@, texts(parts@))),
            None => if texts(parts@).len() == 0 {
                None
            } else {
                Some(joined_with(texts(parts@), sep@))
            },
        },
{
    match title {
        Some(t) => Some(append_tags_to_title(t, parts)),
        None => if parts.len() == 0 {
            assert(texts(parts@).len() == 0);
            None
        } else {
            assert(texts(parts@).len() > 0);
            Some(join(parts, sep))
        },
    }
}

/// The name of an audio stream.
pub fn display_title_audio(m: &StreamMeta) -> (r: Option<String>)
    ensures
        text_opt(r) == m.view().titled(m.view().audio_parts(), " - "@),
{
    let mut parts: Vec<String> = Vec::new();
    if let Some(l) = m.language {
        if !is_no_language(l) {
            push_arg(&mut parts, language_title(l).as_str());
        }
    }
    assert(texts(parts@) =~= m.view().audio_language());
    match m.profile {
        Some(p) => {
            let low = to_lower(p);
            push_when(&mut parts, !same_text(low.as_str(), "lc"), p);
        },
        None => {
            push_when(&mut parts, m.codec.is_some(), m.friendly_codec);
        },
    }
    let ghost before = texts(parts@);
    match m.channel_layout {
        Some(l) => {
            push_arg(&mut parts, first_to_upper(l).as_str());
        },
        None => {
            if let Some(c) = m.channels {
                push_arg(&mut parts, concat2(dec_int_text(c).as_str(), " ch").as_str());
            }
        },
    }
    assert(texts(parts@) =~= before + m.view().audio_layout());
    push_when(&mut parts, m.is_default, "Default");
    push_when(&mut parts, m.is_external, "External");
    make_title(m.title, &parts, " - ")
}

/// The name of a video stream.
pub fn display_title_video(m: &StreamMeta) -> (r: Option<String>)
    ensures
        text_opt(r) == m.view().titled(m.view().video_parts(), " "@),
{
    let mut parts: Vec<String> = Vec::new();
    if let Some(res) = video_resolution_text(m.width, m.height) {
        push_arg(&mut parts, res.as_str());
    }
    if let Some(c) = m.codec {
        push_arg(&mut parts, to_upper(c).as_str());
    }
    match m.video_range {
        Some(VideoRange::Sdr) => push_arg(&mut parts, "Sdr"),
        Some(VideoRange::Hdr) => push_arg(&mut parts, "Hdr"),
        _ => {},
    }
    assert(texts(parts@) =~= m.view().video_parts());
    make_title(m.title, &parts, " ")
}

/// The name of a subtitle stream, which its title has no part in.
pub fn display_title_subtitle(m: &StreamMeta) -> (r: Option<String>)
    ensures
        text_opt(r) == Some(joined_with(m.view().subtitle_parts(), " - "@)),
{
    let mut parts: Vec<String> = Vec::new();
    match m.language {
        Some(l) => push_arg(&mut parts, language_title(l).as_str()),
        None => push_arg(&mut parts, "Und"),
    }
    push_when(&mut parts, m.is_hearing_impaired, "Hearing Impaired");
    push_when(&mut parts, m.is_forced, "Forced");
    if let Some(c) = m.codec {
        push_arg(&mut parts, to_upper(c).as_str());
    }
    push_when(&mut parts, m.is_external, "External");
    assert(texts(parts@) =~= m.view().subtitle_parts());
    Some(join(&parts, " - "))
}

// ---------------------------------------------------------------------------
// Laws
// ---------------------------------------------------------------------------

/// A picture is named after the larger class that its width or its height is in.
pub proof fn law_resolutions_are_classes(width: Option<i64>, height: Option<i64>)
    ensures
        ({
            let r = resolution_text(width, height);
            let at_least = |w: i64, h: i64|
                (width matches Some(x) && x >= w) || (height matches Some(y) && y >= h);
            &&& width is None && height is None <==> r is None
            &&& at_least(3840, 2160) ==> r == Some("4K"@)
            &&& !at_least(3840, 2160) && at_least(1920, 1080) ==> r == Some("1080p"@)
            &&& !at_least(1920, 1080) && !at_least(3840, 2160) && at_least(1280, 720) ==> r == Some(
                "720p"@,
            )
            &&& !at_least(1280, 720) && !at_least(1920, 1080) && !at_least(3840, 2160) && at_least(
                720,
                480,
            ) ==> r == Some("480p"@)
            &&& r is Some && !at_least(720, 480) && !at_least(1280, 720) && !at_least(1920, 1080)
                && !at_least(3840, 2160) ==> r == Some("SD"@)
        }),
{
}

/// Every part stands in the texts that are joined.
pub proof fn law_joined_texts_hold_their_parts(parts: Seq<Seq<char>>, sep: Seq<char>, k: int)
    requires
        0 <= k < parts.len(),
    ensures
        has(joined_with(parts, sep), parts[k]),
    decreases parts.len(),
{
    broadcast use {lemma_has_of_sum, lemma_has_itself};

    if parts.len() > 1 && k < parts.len() - 1 {
        assert(parts.drop_last()[k] == parts[k]);
        law_joined_texts_hold_their_parts(parts.drop_last(), sep, k);
    }
}

proof fn lemma_lower_sum(x: Seq<char>, y: Seq<char>)
    ensures
        lower(x + y) == lower(x) + lower(y),
{
    assert(lower(x + y) =~= lower(x) + lower(y));
}

/// A title keeps its own words in front, and every tag stands in what becomes of it.
pub proof fn law_titles_keep_their_words(title: Seq<char>, tags: Seq<Seq<char>>, k: int)
    requires
        0 <= k < tags.len(),
    ensures
        begins(tagged_title(title, tags), title),
        has(lower(tagged_title(title, tags)), lower(tags[k])),
        has(lower(title), lower(tags[k])) && tags.len() == 1 ==> tagged_title(title, tags) == title,
    decreases tags.len(),
{
    broadcast use {lemma_has_of_sum, lemma_has_itself};

    let short = tags.drop_last();
    let before = tagged_title(title, short);
    let added = before + " - "@ + tags.last();
    lemma_lower_sum(before, " - "@);
    lemma_lower_sum(before + " - "@, tags.last());
    lemma_title_first(title, tags);
    if k < short.len() {
        assert(short[k] == tags[k]);
        law_titles_keep_their_words(title, short, k);
    } else if has(lower(title), lower(tags.last())) {
        lemma_title_first(title, short);
        let rest = before.skip(title.len() as int);
        assert(before =~= title + rest);
        lemma_lower_sum(title, rest);
    }
}

proof fn lemma_title_first(title: Seq<char>, tags: Seq<Seq<char>>)
    ensures
        begins(tagged_title(title, tags), title),
        tagged_title(title, tags).len() >= title.len(),
        tagged_title(title, tags).take(title.len() as int) == title,
    decreases tags.len(),
{
    let all = tagged_title(title, tags);
    if tags.len() > 0 {
        lemma_title_first(title, tags.drop_last());
        let before = tagged_title(title, tags.drop_last());
        assert(all.take(title.len() as int) =~= before.take(title.len() as int));
    } else {
        assert(title.take(title.len() as int) =~= title);
    }
    assert(all.subrange(0, title.len() as int) =~= all.take(title.len() as int));
}

/// A video is named by its resolution, its codec in capitals and its range.
pub proof fn law_videos_are_named(m: MetaView)
    requires
        m.title is None,
    ensures
        ({
            let t = m.titled(m.video_parts(), " "@);
            &&& m.codec matches Some(c) ==> t is Some && has(t->Some_0, upper(c))
            &&& m.video_range == Some(VideoRange::Hdr) ==> t is Some && has(t->Some_0, "Hdr"@)
            &&& m.video_range == Some(VideoRange::Sdr) ==> t is Some && has(t->Some_0, "Sdr"@)
            &&& resolution_text(m.width, m.height) matches Some(r) ==> t is Some && begins(
                t->Some_0,
                r,
            )
            &&& m.codec is None && m.width is None && m.height is None && m.video_range is None
                ==> t is None
        }),
{
    let parts = m.video_parts();
    let r = resolution_text(m.width, m.height);
    let n: int = if r is Some {
        1
    } else {
        0
    };
    if m.codec is Some {
        assert(parts[n] == upper(m.codec->Some_0));
        law_joined_texts_hold_their_parts(parts, " "@, n);
    }
    if m.video_range == Some(VideoRange::Hdr) || m.video_range == Some(VideoRange::Sdr) {
        law_joined_texts_hold_their_parts(parts, " "@, parts.len() - 1);
    }
    if r is Some {
        assert(parts[0] == r->Some_0);
        lemma_first_part(parts, " "@);
    }
}

proof fn lemma_first_part(parts: Seq<Seq<char>>, sep: Seq<char>)
    requires
        parts.len() > 0,
    ensures
        begins(joined_with(parts, sep), parts[0]),
    decreases parts.len(),
{
    let all = joined_with(parts, sep);
    if parts.len() > 1 {
        let short = parts.drop_last();
        lemma_first_part(short, sep);
        let before = joined_with(short, sep);
        assert(all.subrange(0, parts[0].len() as int) =~= before.subrange(
            0,
            parts[0].len() as int,
        ));
    } else {
        assert(all.subrange(0, all.len() as int) =~= all);
    }
}

/// A sound stream is named by its language, but where that is none, by its profile or
/// its codec, by its layout or the number of its channels, and whether it is the
/// default or comes from outside.
pub proof fn law_sound_is_named(m: MetaView)
    requires
        m.title is None,
    ensures
        ({
            let t = m.titled(m.audio_parts(), " - "@);
            &&& (m.language matches Some(l) && lower(l) != "und"@ && lower(l) != "mis"@ && lower(l)
                != "zxx"@ && lower(l) != "mul"@) ==> t is Some && begins(
                t->Some_0,
                first_upper(language_name(m.language->Some_0)),
            )
            &&& (m.profile matches Some(p) && lower(p) != "lc"@) ==> t is Some && has(
                t->Some_0,
                m.profile->Some_0,
            )
            &&& m.profile is None && m.codec is Some ==> t is Some && has(
                t->Some_0,
                m.friendly_codec,
            )
            &&& m.channel_layout matches Some(l) ==> t is Some && has(t->Some_0, first_upper(l))
            &&& m.channel_layout is None && m.channels is Some ==> t is Some && has(
                t->Some_0,
                dec_int(m.channels->Some_0 as int) + " ch"@,
            )
            &&& m.is_default ==> t is Some && has(t->Some_0, "Default"@)
            &&& m.is_external ==> t is Some && has(t->Some_0, "External"@)
        }),
{
    let parts = m.audio_parts();
    let a = m.audio_language();
    let b = m.audio_format();
    let c = m.audio_layout();
    let d = when(m.is_default, "Default"@);
    let e = when(m.is_external, "External"@);
    let n1 = a.len() as int;
    let n2 = n1 + b.len();
    let n3 = n2 + c.len();
    let n4 = n3 + d.len();
    if a.len() > 0 {
        assert(parts[0] == a[0]);
        lemma_first_part(parts, " - "@);
    }
    if b.len() > 0 {
        assert(parts[n1] == b[0]);
        law_joined_texts_hold_their_parts(parts, " - "@, n1);
    }
    if c.len() > 0 {
        assert(parts[n2] == c[0]);
        law_joined_texts_hold_their_parts(parts, " - "@, n2);
    }
    if d.len() > 0 {
        assert(parts[n3] == d[0]);
        law_joined_texts_hold_their_parts(parts, " - "@, n3);
    }
    if e.len() > 0 {
        assert(parts[n4] == e[0]);
        law_joined_texts_hold_their_parts(parts, " - "@, n4);
    }
}

/// A subtitle is named by its language first, and by what sets it apart: whether it is
/// for the hard of hearing, forced or from outside, and its codec.
pub proof fn law_subtitles_are_named(m: MetaView)
    ensures
        ({
            let t = joined_with(m.subtitle_parts(), " - "@);
            &&& m.language matches Some(l) ==> begins(t, first_upper(language_name(l)))
            &&& m.language is None ==> begins(t, "Und"@)
            &&& m.is_hearing_impaired ==> has(t, "Hearing Impaired"@)
            &&& m.is_forced ==> has(t, "Forced"@)
            &&& m.is_external ==> has(t, "External"@)
            &&& m.codec matches Some(c) ==> has(t, upper(c))
        }),
{
    let parts = m.subtitle_parts();
    let b = when(m.is_hearing_impaired, "Hearing Impaired"@);
    let c = when(m.is_forced, "Forced"@);
    let d = match m.codec {
        Some(x) => seq![upper(x)],
        None => seq![],
    };
    let e = when(m.is_external, "External"@);
    lemma_first_part(parts, " - "@);
    let n1 = 1int;
    let n2 = n1 + b.len();
    let n3 = n2 + c.len();
    let n4 = n3 + d.len();
    if b.len() > 0 {
        assert(parts[n1] == b[0]);
        law_joined_texts_hold_their_parts(parts, " - "@, n1);
    }
    if c.len() > 0 {
        assert(parts[n2] == c[0]);
        law_joined_texts_hold_their_parts(parts, " - "@, n2);
    }
    if d.len() > 0 {
        assert(parts[n3] == d[0]);
        law_joined_texts_hold_their_parts(parts, " - "@, n3);
    }
    if e.len() > 0 {
        assert(parts[n4] == e[0]);
        law_joined_texts_hold_their_parts(parts, " - "@, n4);
    }
}

/// The first letter of a name is a capital, and the rest is as it was.
pub proof fn law_names_begin_with_a_capital(s: Seq<char>)
    ensures
        s.len() > 0 ==> first_upper(s) == unicode_upper(s[0]) + s.skip(1),
        s.len() == 0 ==> first_upper(s).len() == 0,
{
}

} // verus!
