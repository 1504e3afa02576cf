//! Torrents: which of their files is played, which subtitles go with it, and
//! what a magnet says.

use vstd::prelude::*;

use crate::languages::{lang_to_two_letter, two_letters};
use crate::order::{key_seqs, positions, rank, ranked};
use crate::paths::{
    dir_view, extension, extension_spec, file_name, file_name_spec, file_stem, last_component,
    last_name, parent_of, stem_spec, Dir, DirView,
};
use crate::stream::{magnet_text, video_mime, video_mime_type};
use crate::text::{
    begins, chars_of, dec, eq_ignore_case, lower, pieces, same_folded, same_text, split, split_words,
    starts_with, str_opt, text_opt, texts, to_lower, words, Separator,
};
use crate::torrent_availability::{copy_peers, hex_value, Peer};
use crate::urls::{
    all_readable, field_pairs, find_value, first_value, form_pairs, pair_texts, parse_form,
    query_text, QueryField,
};

verus! {

// ---------------------------------------------------------------------------
// Files
// ---------------------------------------------------------------------------

/// A file of a torrent.
#[derive(Debug)]
pub struct CachedTorrentFile {
    pub name: String,
    pub length: u64,
}

/// Whether a download is complete. A file without bytes never is.
pub fn file_download_complete(progress_bytes: u64, file_bytes: u64) -> (r: bool)
    ensures
        r == (file_bytes > 0 && progress_bytes >= file_bytes),
{
    file_bytes > 0 && progress_bytes >= file_bytes
}

/// Whether a file is a video, by its extension.
pub open spec fn video_file(name: Seq<char>) -> bool {
    extension_spec(name) matches Some(ext) && video_mime(ext) is Some
}

pub fn is_video_file(name: &str) -> (r: bool)
    ensures
        r == video_file(name@),
{
    match extension(name) {
        Some(ext) => video_mime_type(ext.as_str()).is_some(),
        None => false,
    }
}

/// Whether a file is a subtitle that can be shown.
pub open spec fn subtitle_file(name: Seq<char>) -> bool {
    extension_spec(name) matches Some(ext) && same_folded(ext, "srt"@)
}

pub fn is_supported_sidecar_subtitle(name: &str) -> (r: bool)
    ensures
        r == subtitle_file(name@),
{
    match extension(name) {
        Some(ext) => eq_ignore_case(ext.as_str(), "srt"),
        None => false,
    }
}

/// Whether a file is the video that is asked for by name, with or without its
/// directory.
pub open spec fn wanted_video(name: Seq<char>, wanted: Seq<char>) -> bool {
    video_file(name) && (same_folded(name, wanted) || (file_name_spec(name) matches Some(n)
        && same_folded(n, wanted)))
}

fn is_wanted_video(name: &str, wanted: &str) -> (r: bool)
    ensures
        r == wanted_video(name@, wanted@),
{
    if !is_video_file(name) {
        return false;
    }
    if eq_ignore_case(name, wanted) {
        return true;
    }
    match file_name(name) {
        Some(n) => eq_ignore_case(n.as_str(), wanted),
        None => false,
    }
}

/// The first file that is the wanted video.
pub open spec fn wanted_index(files: Seq<CachedTorrentFile>, wanted: Seq<char>) -> Option<int>
    decreases files.len(),
{
    if files.len() == 0 {
        None
    } else {
        match wanted_index(files.drop_last(), wanted) {
            Some(i) => Some(i),
            None => if wanted_video(files.last().name@, wanted) {
                Some(files.len() - 1)
            } else {
                None
            },
        }
    }
}

/// The places of the videos, in order.
pub open spec fn video_places(files: Seq<CachedTorrentFile>) -> Seq<int>
    decreases files.len(),
{
    if files.len() == 0 {
        Seq::empty()
    } else {
        let before = video_places(files.drop_last());
        if video_file(files.last().name@) {
            before.push(files.len() - 1)
        } else {
            before
        }
    }
}

/// The sizes of the videos, each as a key.
pub open spec fn size_keys(files: Seq<CachedTorrentFile>) -> Seq<Seq<u64>> {
    video_places(files).map_values(|i: int| seq![files[i].length])
}

/// Why no file of a torrent can be played.
#[derive(Debug, Clone, Copy, PartialEq, Eq, Structural)]
pub enum FileSelectionError {
    NoFiles,
    /// The file that is asked for is not a video, and the others are no clear
    /// choice.
    BadIndex { index: usize, files: usize },
    /// There are several videos, or none, and nothing says which is meant.
    Ambiguous { videos: usize },
}

/// The place of the video to play: the one that is asked for by name, else by
/// number, else the only one, else one that is at least twice as large as every
/// other.
pub open spec fn selected_file(
    files: Seq<CachedTorrentFile>,
    requested: Option<usize>,
    wanted: Option<Seq<char>>,
) -> Result<int, FileSelectionError> {
    let videos = video_places(files);
    let by_size = ranked(size_keys(files));
    if files.len() == 0 {
        Err(FileSelectionError::NoFiles)
    } else if wanted matches Some(w) && wanted_index(files, w) is Some {
        Ok(wanted_index(files, wanted->0)->0)
    } else if requested matches Some(i) && i < files.len() && video_file(files[i as int].name@) {
        Ok(requested->0 as int)
    } else if videos.len() == 1 {
        Ok(videos[0])
    } else if videos.len() >= 2 && dwarfs(
        files[videos[by_size[0]]].length,
        files[videos[by_size[1]]].length,
    ) {
        Ok(videos[by_size[0]])
    } else {
        match requested {
            Some(i) => Err(
                FileSelectionError::BadIndex { index: i, files: files.len() as usize },
            ),
            None => Err(FileSelectionError::Ambiguous { videos: videos.len() as usize }),
        }
    }
}

/// Whether one size is at least twice another, or as large as a number can be.
pub open spec fn dwarfs(a: u64, b: u64) -> bool {
    a >= 2 * b || a == u64::MAX
}

fn find_wanted(files: &Vec<CachedTorrentFile>, wanted: &str) -> (r: Option<usize>)
    ensures
        match r {
            Some(i) => wanted_index(files@, wanted@) == Some(i as int) && i < files.len(),
            None => wanted_index(files@, wanted@) is None,
        },
{
    let mut i: usize = 0;
    while i < files.len()
        invariant
            i <= files.len(),
            wanted_index(files@.take(i as int), wanted@) is None,
        decreases files.len() - i,
    {
        proof {
            assert(files@.take(i + 1).drop_last() =~= files@.take(i as int));
        }
        if is_wanted_video(files[i].name.as_str(), wanted) {
            proof {
                lemma_wanted_prefix(files@, wanted@, i + 1);
            }
            return Some(i);
        }
        i = i + 1;
    }
    assert(files@.take(files@.len() as int) =~= files@);
    None
}

/// A wanted video among the first files is the wanted one among all.
proof fn lemma_wanted_prefix(files: Seq<CachedTorrentFile>, wanted: Seq<char>, n: int)
    requires
        0 <= n <= files.len(),
        wanted_index(files.take(n), wanted) is Some,
    ensures
        wanted_index(files, wanted) == wanted_index(files.take(n), wanted),
    decreases files.len() - n,
{
    if n < files.len() {
        assert(files.take(n + 1).drop_last() =~= files.take(n));
        lemma_wanted_prefix(files, wanted, n + 1);
    } else {
        assert(files.take(n) =~= files);
    }
}

fn find_videos(files: &Vec<CachedTorrentFile>) -> (r: Vec<usize>)
    ensures
        positions(r@) == video_places(files@),
        forall|k: int| 0 <= k < r@.len() ==> (#[trigger] r@[k]) < files.len(),
        r.len() <= files.len(),
{
    let mut r: Vec<usize> = Vec::new();
    let mut i: usize = 0;
    while i < files.len()
        invariant
            i <= files.len(),
            positions(r@) =~= video_places(files@.take(i as int)),
            forall|k: int| 0 <= k < r@.len() ==> (#[trigger] r@[k]) < i,
            r.len() <= i,
        decreases files.len() - i,
    {
        let ghost before = positions(r@);
        proof {
            assert(files@.take(i + 1).drop_last() =~= files@.take(i as int));
        }
        if is_video_file(files[i].name.as_str()) {
            r.push(i);
            assert(positions(r@) =~= before.push(i as int));
        }
        i = i + 1;
    }
    assert(files@.take(files@.len() as int) =~= files@);
    r
}

/// Chooses the video of a torrent to play.
pub fn select_file_index(
    files: &Vec<CachedTorrentFile>,
    requested_idx: Option<usize>,
    wanted_file: Option<&str>,
) -> (r: Result<usize, FileSelectionError>)
    ensures
        match r {
            Ok(i) => selected_file(files@, requested_idx, str_opt(wanted_file)) == Ok::<
                int,
                FileSelectionError,
            >(i as int) && i < files.len(),
            Err(e) => selected_file(files@, requested_idx, str_opt(wanted_file)) == Err::<
                int,
                FileSelectionError,
            >(e),
        },
{
    if files.len() == 0 {
        return Err(FileSelectionError::NoFiles);
    }
    if let Some(wanted) = wanted_file {
        if let Some(i) = find_wanted(files, wanted) {
            return Ok(i);
        }
    }
    if let Some(i) = requested_idx {
        if i < files.len() && is_video_file(files[i].name.as_str()) {
            return Ok(i);
        }
    }
    let videos = find_videos(files);
    assert(positions(videos@).len() == videos@.len());
    if videos.len() == 1 {
        assert(positions(videos@)[0] == videos@[0]);
        return Ok(videos[0]);
    }
    if videos.len() >= 2 {
        let mut keys: Vec<Vec<u64>> = Vec::new();
        let mut k: usize = 0;
        while k < videos.len()
            invariant
                k <= videos.len(),
                positions(videos@) == video_places(files@),
                forall|j: int| 0 <= j < videos@.len() ==> (#[trigger] videos@[j]) < files.len(),
                key_seqs(keys@) =~= size_keys(files@).take(k as int),
            decreases videos.len() - k,
        {
            let mut key: Vec<u64> = Vec::new();
            key.push(files[videos[k]].length);
            let ghost before = key_seqs(keys@);
            proof {
                assert(positions(videos@)[k as int] == videos@[k as int]);
                assert(key@ =~= seq![files@[videos@[k as int] as int].length]);
                assert(size_keys(files@)[k as int] == key@);
            }
            keys.push(key);
            assert(key_seqs(keys@) =~= before.push(key@));
            k = k + 1;
        }
        assert(size_keys(files@).take(videos@.len() as int) =~= size_keys(files@));
        assert(keys@.len() == key_seqs(keys@).len());
        let order = rank(&keys);
        let first: usize = videos[order[0]];
        let second: usize = videos[order[1]];
        proof {
            assert(positions(order@)[0] == order@[0] && positions(order@)[1] == order@[1]);
            assert(positions(videos@)[order@[0] as int] == first);
            assert(positions(videos@)[order@[1] as int] == second);
        }
        let large: u64 = files[first].length;
        let small: u64 = files[second].length;
        if large == u64::MAX || large as u128 >= 2 * (small as u128) {
            return Ok(first);
        }
    }
    match requested_idx {
        Some(i) => Err(FileSelectionError::BadIndex { index: i, files: files.len() }),
        None => Err(FileSelectionError::Ambiguous { videos: videos.len() }),
    }
}

/// Only a video is ever chosen, whatever a provider asks for.
pub proof fn law_a_video_is_chosen(
    files: Seq<CachedTorrentFile>,
    requested: Option<usize>,
    wanted: Option<Seq<char>>,
)
    ensures
        selected_file(files, requested, wanted) matches Ok(i) ==> 0 <= i < files.len()
            && video_file(files[i].name@),
{
    if wanted is Some {
        lemma_wanted_is_video(files, wanted->0);
    }
    lemma_places_are_videos(files);
    crate::order::law_ranking(size_keys(files));
}

proof fn lemma_wanted_is_video(files: Seq<CachedTorrentFile>, wanted: Seq<char>)
    ensures
        wanted_index(files, wanted) matches Some(i) ==> 0 <= i < files.len() && wanted_video(
            files[i].name@,
            wanted,
        ),
    decreases files.len(),
{
    if files.len() > 0 {
        lemma_wanted_is_video(files.drop_last(), wanted);
    }
}

proof fn lemma_places_are_videos(files: Seq<CachedTorrentFile>)
    ensures
        forall|k: int|
            0 <= k < video_places(files).len() ==> 0 <= #[trigger] video_places(files)[k]
                < files.len() && video_file(files[video_places(files)[k]].name@),
    decreases files.len(),
{
    if files.len() > 0 {
        lemma_places_are_videos(files.drop_last());
        assert forall|k: int| 0 <= k < video_places(files).len() implies 0 <= #[trigger] video_places(
            files,
        )[k] < files.len() && video_file(files[video_places(files)[k]].name@) by {
            let before = video_places(files.drop_last());
            if k < before.len() {
                assert(video_places(files)[k] == before[k]);
                assert(files[before[k]] == files.drop_last()[before[k]]);
            }
        }
    }
}

// ---------------------------------------------------------------------------
// Subtitles beside a video
// ---------------------------------------------------------------------------

/// The largest file that is taken for a subtitle.
pub const MAX_SUBTITLE_BYTES: u64 = 20_971_520;

/// A subtitle file that goes with a video.
#[derive(Debug)]
pub struct TorrentSidecarSubtitle {
    pub file_idx: usize,
    pub path: String,
    pub language: Option<String>,
    pub is_forced: bool,
    pub is_hearing_impaired: bool,
}

pub ghost struct SidecarView {
    pub file_idx: int,
    pub path: Seq<char>,
    pub language: Option<Seq<char>>,
    pub is_forced: bool,
    pub is_hearing_impaired: bool,
}

impl View for TorrentSidecarSubtitle {
    type V = SidecarView;

    open spec fn view(&self) -> SidecarView {
        SidecarView {
            file_idx: self.file_idx as int,
            path: self.path@,
            language: text_opt(self.language),
            is_forced: self.is_forced,
            is_hearing_impaired: self.is_hearing_impaired,
        }
    }
}

/// A file name with slashes in place of backslashes.
pub open spec fn with_slashes(name: Seq<char>) -> Seq<char> {
    name.map_values(
        |c: char|
            if c == '\\' {
                '/'
            } else {
                c
            },
    )
}

fn to_slashes(name: &str) -> (r: String)
    ensures
        r@ == with_slashes(name@),
{
    let chars = chars_of(name);
    let mut r = String::new();
    let mut i: usize = 0;
    while i < chars.len()
        invariant
            i <= chars.len(),
            r@ =~= with_slashes(chars@.take(i as int)),
        decreases chars.len() - i,
    {
        let c = chars[i];
        r.push(
            if c == '\\' {
                '/'
            } else {
                c
            },
        );
        i = i + 1;
    }
    assert(chars@.take(chars@.len() as int) == chars@);
    r
}

/// The last of some words that is a language.
pub open spec fn last_language(words: Seq<Seq<char>>) -> Option<Seq<char>>
    decreases words.len(),
{
    if words.len() == 0 {
        None
    } else {
        match two_letters(lower(words.last())) {
            Some(l) => Some(l),
            None => last_language(words.drop_last()),
        }
    }
}

/// The language that the name of a subtitle file states.
pub open spec fn name_language(name: Seq<char>) -> Option<Seq<char>> {
    last_language(pieces(stem_spec(name), Separator::NotAlphabetic))
}

pub fn subtitle_language_from_name(name: &str) -> (r: Option<String>)
    ensures
        text_opt(r) == name_language(name@),
{
    let stem = file_stem(name);
    let tokens = split(stem.as_str(), Separator::NotAlphabetic);
    let ghost all = texts(tokens@);
    let mut n: usize = tokens.len();
    assert(all.take(n as int) =~= all);
    while n > 0
        invariant
            n <= tokens.len(),
            all == texts(tokens@),
            last_language(all) == name_language(name@),
            last_language(all) == last_language(all.take(n as int)),
        decreases n,
    {
        proof {
            assert(all.take(n as int).drop_last() =~= all.take(n - 1));
            assert(all.take(n as int).last() == tokens@[n - 1]@);
        }
        let token = to_lower(tokens[n - 1].as_str());
        if let Some(l) = lang_to_two_letter(token.as_str()) {
            return Some(l);
        }
        n = n - 1;
    }
    None
}

/// The directory of a file of a torrent.
pub open spec fn file_dir(name: Seq<char>) -> DirView {
    parent_of(dir_view(with_slashes(name)))
}

/// The number of videos in a directory.
pub open spec fn videos_in(files: Seq<CachedTorrentFile>, dir: DirView) -> nat
    decreases files.len(),
{
    if files.len() == 0 {
        0
    } else {
        videos_in(files.drop_last(), dir) + if video_file(files.last().name@) && file_dir(
            files.last().name@,
        ) == dir {
            1nat
        } else {
            0
        }
    }
}

/// Whether a directory holds the subtitles of the directory above it.
pub open spec fn subtitle_dir(dir: DirView, above: DirView) -> bool {
    (last_name(dir.parts) matches Some(n) && (same_folded(n, "subs"@) || same_folded(
        n,
        "subtitles"@,
    ))) && parent_of(dir) == above
}

/// Whether a subtitle goes with the chosen video. Its name must begin like the
/// video's, or else the video must be the only one in its directory and the
/// subtitle must lie there or in its subtitle directory.
pub open spec fn goes_with(
    files: Seq<CachedTorrentFile>,
    selected: int,
    subtitle: Seq<char>,
) -> bool {
    let dir = file_dir(files[selected].name@);
    let stem = lower(stem_spec(with_slashes(files[selected].name@)));
    let sub_dir = file_dir(subtitle);
    let sub_stem = lower(stem_spec(with_slashes(subtitle)));
    ||| stem.len() > 0 && begins(sub_stem, stem)
    ||| videos_in(files, dir) == 1 && (sub_dir == dir || subtitle_dir(sub_dir, dir))
}

/// The words of a subtitle's name.
pub open spec fn name_words(name: Seq<char>) -> Seq<Seq<char>> {
    words(lower(lower(stem_spec(with_slashes(name)))), Separator::NotAlphanumeric)
}

/// What file `i` of a torrent is as a subtitle of the chosen video.
pub open spec fn sidecar(files: Seq<CachedTorrentFile>, selected: int, i: int) -> Option<
    SidecarView,
> {
    let file = files[i];
    let tokens = name_words(file.name@);
    if file.length == 0 || file.length > MAX_SUBTITLE_BYTES || !subtitle_file(file.name@)
        || !goes_with(files, selected, file.name@) {
        None
    } else {
        Some(
            SidecarView {
                file_idx: i,
                path: with_slashes(file.name@),
                language: name_language(with_slashes(file.name@)),
                is_forced: tokens.contains("forced"@) || tokens.contains("foreign"@)
                    || tokens.contains("signs"@),
                is_hearing_impaired: tokens.contains("sdh"@) || tokens.contains("cc"@)
                    || tokens.contains("hi"@) || tokens.contains("hearingimpaired"@),
            },
        )
    }
}

/// The subtitles of the chosen video among the first `n` files.
pub open spec fn sidecars(files: Seq<CachedTorrentFile>, selected: int, n: nat) -> Seq<SidecarView>
    decreases n,
{
    if n == 0 {
        Seq::empty()
    } else {
        let before = sidecars(files, selected, (n - 1) as nat);
        match sidecar(files, selected, n - 1) {
            Some(s) => before.push(s),
            None => before,
        }
    }
}

pub open spec fn sidecar_views(list: Seq<TorrentSidecarSubtitle>) -> Seq<SidecarView> {
    list.map_values(|s: TorrentSidecarSubtitle| s@)
}

fn count_videos_in(files: &Vec<CachedTorrentFile>, dir: &Dir) -> (n: usize)
    ensures
        n == videos_in(files@, dir@),
{
    let mut n: usize = 0;
    let mut i: usize = 0;
    while i < files.len()
        invariant
            i <= files.len(),
            n == videos_in(files@.take(i as int), dir@),
            n <= i,
        decreases files.len() - i,
    {
        proof {
            assert(files@.take(i + 1).drop_last() =~= files@.take(i as int));
        }
        if is_video_file(files[i].name.as_str()) {
            let slashed = to_slashes(files[i].name.as_str());
            let parent = Dir::of(slashed.as_str()).into_parent();
            if parent.same(dir) {
                n = n + 1;
            }
        }
        i = i + 1;
    }
    assert(files@.take(files@.len() as int) =~= files@);
    n
}

fn is_subtitle_dir(dir: Dir, above: &Dir) -> (r: bool)
    ensures
        r == subtitle_dir(dir@, above@),
{
    let named = match last_component(&dir.parts) {
        Some(n) => eq_ignore_case(n.as_str(), "subs") || eq_ignore_case(n.as_str(), "subtitles"),
        None => false,
    };
    named && dir.into_parent().same(above)
}

fn make_sidecar(
    files: &Vec<CachedTorrentFile>,
    Ghost(selected): Ghost<int>,
    dir: &Dir,
    stem: &str,
    only_video: bool,
    i: usize,
) -> (r: Option<TorrentSidecarSubtitle>)
    requires
        0 <= selected < files@.len(),
        i < files@.len(),
        dir@ == file_dir(files@[selected].name@),
        stem@ == lower(stem_spec(with_slashes(files@[selected].name@))),
        only_video == (videos_in(files@, dir@) == 1),
    ensures
        (match r {
            Some(s) => Some(s@),
            None => None,
        }) == sidecar(files@, selected, i as int),
{
    let file = &files[i];
    if file.length == 0 || file.length > MAX_SUBTITLE_BYTES || !is_supported_sidecar_subtitle(
        file.name.as_str(),
    ) {
        return None;
    }
    let slashed = to_slashes(file.name.as_str());
    let sub_stem = to_lower(file_stem(slashed.as_str()).as_str());
    let by_name = !stem.is_empty() && starts_with(sub_stem.as_str(), stem);
    let sub_dir = Dir::of(slashed.as_str()).into_parent();
    let near = sub_dir.same(dir) || is_subtitle_dir(sub_dir, dir);
    if !by_name && !(only_video && near) {
        return None;
    }
    let low = to_lower(sub_stem.as_str());
    let tokens = split_words(low.as_str(), Separator::NotAlphanumeric);
    let language = subtitle_language_from_name(slashed.as_str());
    let is_forced = crate::text::list_has(&tokens, "forced") || crate::text::list_has(
        &tokens,
        "foreign",
    ) || crate::text::list_has(&tokens, "signs");
    let is_hearing_impaired = crate::text::list_has(&tokens, "sdh") || crate::text::list_has(
        &tokens,
        "cc",
    ) || crate::text::list_has(&tokens, "hi") || crate::text::list_has(&tokens, "hearingimpaired");
    Some(
        TorrentSidecarSubtitle {
            file_idx: i,
            path: slashed,
            language,
            is_forced,
            is_hearing_impaired,
        },
    )
}

/// The subtitle files that go with the video at `selected_idx`; none where
/// there is no such file.
pub fn select_sidecar_subtitles(files: &Vec<CachedTorrentFile>, selected_idx: usize) -> (r: Vec<
    TorrentSidecarSubtitle,
>)
    ensures
        sidecar_views(r@) == if selected_idx < files@.len() {
            sidecars(files@, selected_idx as int, files@.len())
        } else {
            Seq::empty()
        },
{
    let mut r: Vec<TorrentSidecarSubtitle> = Vec::new();
    if selected_idx >= files.len() {
        assert(sidecar_views(r@) =~= Seq::empty());
        return r;
    }
    let slashed = to_slashes(files[selected_idx].name.as_str());
    let dir = Dir::of(slashed.as_str()).into_parent();
    let stem = to_lower(file_stem(slashed.as_str()).as_str());
    let only_video = count_videos_in(files, &dir) == 1;
    let mut i: usize = 0;
    assert(sidecar_views(r@) =~= sidecars(files@, selected_idx as int, 0));
    while i < files.len()
        invariant
            i <= files.len(),
            selected_idx < files.len(),
            dir@ == file_dir(files@[selected_idx as int].name@),
            stem@ == lower(stem_spec(with_slashes(files@[selected_idx as int].name@))),
            only_video == (videos_in(files@, dir@) == 1),
            sidecar_views(r@) == sidecars(files@, selected_idx as int, i as nat),
        decreases files.len() - i,
    {
        let ghost before = sidecar_views(r@);
        if let Some(s) = make_sidecar(
            files,
            Ghost(selected_idx as int),
            &dir,
            stem.as_str(),
            only_video,
            i,
        ) {
            r.push(s);
            assert(sidecar_views(r@) =~= before.push(s@));
        }
        i = i + 1;
    }
    r
}

/// In a directory with several videos a subtitle goes with one of them only by
/// its name.
pub proof fn law_no_ambiguous_subtitles(
    files: Seq<CachedTorrentFile>,
    selected: int,
    subtitle: Seq<char>,
)
    requires
        0 <= selected < files.len(),
        videos_in(files, file_dir(files[selected].name@)) != 1,
        goes_with(files, selected, subtitle),
    ensures
        begins(
            lower(stem_spec(with_slashes(subtitle))),
            lower(stem_spec(with_slashes(files[selected].name@))),
        ),
{
}

// ---------------------------------------------------------------------------
// What a magnet says
// ---------------------------------------------------------------------------

/// What stands behind the first question mark.
pub open spec fn query_of(magnet: Seq<char>) -> Option<Seq<char>> {
    let i = crate::text::first_index(magnet, '?');
    if i < magnet.len() {
        Some(magnet.skip(i + 1))
    } else {
        None
    }
}

/// The fields of a magnet.
pub open spec fn magnet_pairs(magnet: Seq<char>) -> Seq<(Seq<char>, Seq<char>)> {
    match query_of(magnet) {
        Some(q) => form_pairs(q),
        None => Seq::empty(),
    }
}

proof fn lemma_query_of_magnet(fields: Seq<QueryField>)
    ensures
        query_of(magnet_text(fields)) == Some(query_text(fields)),
{
    reveal_strlit("magnet:?");
    let m = magnet_text(fields);
    let i = crate::text::first_index(m, '?');
    crate::text::lemma_first_index(m, '?');
    assert(m[7] == '?');
    assert(m[0] != '?' && m[1] != '?' && m[2] != '?' && m[3] != '?' && m[4] != '?' && m[5] != '?'
        && m[6] != '?');
    assert(i == 7);
    assert(m.skip(8) =~= query_text(fields));
}

/// The fields of a magnet; those that were written are read back.
fn read_magnet(magnet: &str) -> (pairs: Vec<(String, String)>)
    ensures
        pair_texts(pairs@) == magnet_pairs(magnet@),
        forall|fields: Seq<QueryField>|
            magnet@ == #[trigger] magnet_text(fields) && all_readable(fields) ==> pair_texts(pairs@)
                == field_pairs(fields),
{
    let chars = chars_of(magnet);
    let i = crate::text::find_char(&chars, '?');
    if i >= chars.len() {
        let pairs: Vec<(String, String)> = Vec::new();
        proof {
            assert(pair_texts(pairs@) =~= Seq::empty());
            assert forall|fields: Seq<QueryField>| magnet@ == #[trigger] magnet_text(fields)
                && all_readable(fields) implies pair_texts(pairs@) == field_pairs(fields) by {
                lemma_query_of_magnet(fields);
            }
        }
        return pairs;
    }
    let query = crate::text::slice(&chars, i + 1, chars.len());
    assert(query@ =~= magnet@.skip(i + 1));
    let pairs = parse_form(query.as_str());
    proof {
        assert forall|fields: Seq<QueryField>| magnet@ == #[trigger] magnet_text(fields)
            && all_readable(fields) implies pair_texts(pairs@) == field_pairs(fields) by {
            lemma_query_of_magnet(fields);
        }
    }
    pairs
}

/// Whether a text is an info hash: forty hexadecimal digits.
pub open spec fn is_hash(s: Seq<char>) -> bool {
    s.len() == 40 && forall|i: int| 0 <= i < s.len() ==> hex_value(#[trigger] s[i]) is Some
}

fn is_hash_text(s: &str) -> (r: bool)
    ensures
        r == is_hash(s@),
{
    let chars = chars_of(s);
    if chars.len() != 40 {
        return false;
    }
    let mut i: usize = 0;
    while i < chars.len()
        invariant
            i <= chars.len(),
            chars@ == s@,
            forall|j: int| 0 <= j < i ==> hex_value(#[trigger] chars@[j]) is Some,
        decreases chars.len() - i,
    {
        let c = chars[i];
        let hex = ('0' <= c && c <= '9') || ('a' <= c && c <= 'f') || ('A' <= c && c <= 'F');
        if !hex {
            assert(hex_value(s@[i as int]) is None);
            return false;
        }
        i = i + 1;
    }
    true
}

/// What stands behind the last colon.
pub open spec fn after_colon(s: Seq<char>) -> Seq<char> {
    s.skip(crate::text::last_index(s, ':') + 1)
}

/// The first `xt` field with an info hash.
pub open spec fn first_hash(pairs: Seq<(Seq<char>, Seq<char>)>) -> Option<Seq<char>>
    decreases pairs.len(),
{
    if pairs.len() == 0 {
        None
    } else if pairs[0].0 == "xt"@ && is_hash(after_colon(pairs[0].1)) {
        Some(lower(after_colon(pairs[0].1)))
    } else {
        first_hash(pairs.skip(1))
    }
}

/// The info hash of a magnet, or of a text that is one.
pub open spec fn magnet_hash(magnet: Seq<char>) -> Option<Seq<char>> {
    if is_hash(magnet) {
        Some(lower(magnet))
    } else {
        first_hash(magnet_pairs(magnet))
    }
}

fn find_hash(pairs: &Vec<(String, String)>) -> (r: Option<String>)
    ensures
        text_opt(r) == first_hash(pair_texts(pairs@)),
{
    let ghost all = pair_texts(pairs@);
    let mut i: usize = 0;
    assert(all.skip(0) =~= all);
    while i < pairs.len()
        invariant
            i <= pairs.len(),
            all == pair_texts(pairs@),
            first_hash(all) == first_hash(all.skip(i as int)),
        decreases pairs.len() - i,
    {
        proof {
            assert(all.skip(i as int).skip(1) =~= all.skip(i + 1));
            assert(all.skip(i as int)[0] == (pairs@[i as int].0@, pairs@[i as int].1@));
        }
        if same_text(pairs[i].0.as_str(), "xt") {
            let chars = chars_of(pairs[i].1.as_str());
            let from: usize = match crate::text::rfind_char(&chars, ':') {
                Some(k) => k + 1,
                None => 0,
            };
            let hash = crate::text::slice(&chars, from, chars.len());
            assert(hash@ =~= after_colon(pairs@[i as int].1@));
            if is_hash_text(hash.as_str()) {
                return Some(to_lower(hash.as_str()));
            }
        }
        i = i + 1;
    }
    None
}

/// The info hash of a magnet.
pub fn parse_info_hash_param(magnet: &str) -> (r: Option<String>)
    ensures
        text_opt(r) == magnet_hash(magnet@),
        forall|fields: Seq<QueryField>|
            magnet@ == #[trigger] magnet_text(fields) && all_readable(fields) && !is_hash(magnet@)
                ==> text_opt(r) == first_hash(field_pairs(fields)),
{
    if is_hash_text(magnet) {
        return Some(to_lower(magnet));
    }
    find_hash(&read_magnet(magnet))
}

/// The values of the fields with the name `key`, each once.
pub open spec fn values_of(pairs: Seq<(Seq<char>, Seq<char>)>, key: Seq<char>) -> Seq<Seq<char>> {
    crate::order::distinct(
        pairs.filter(|p: (Seq<char>, Seq<char>)| p.0 == key).map_values(
            |p: (Seq<char>, Seq<char>)| p.1,
        ),
    )
}

/// The trackers of a magnet.
pub fn parse_tracker_params(magnet: &str) -> (r: Vec<String>)
    ensures
        texts(r@) == values_of(magnet_pairs(magnet@), "tr"@),
        forall|fields: Seq<QueryField>|
            magnet@ == #[trigger] magnet_text(fields) && all_readable(fields) ==> texts(r@)
                == values_of(field_pairs(fields), "tr"@),
{
    let pairs = read_magnet(magnet);
    let ghost all = pair_texts(pairs@);
    let ghost named = |p: (Seq<char>, Seq<char>)| p.0 == "tr"@;
    let ghost value = |p: (Seq<char>, Seq<char>)| p.1;
    let mut r: Vec<String> = Vec::new();
    let mut i: usize = 0;
    proof {
        reveal(Seq::filter);
        assert(all.take(0).filter(named).map_values(value) =~= Seq::<Seq<char>>::empty());
        assert(texts(r@) =~= Seq::<Seq<char>>::empty());
    }
    while i < pairs.len()
        invariant
            i <= pairs.len(),
            all == pair_texts(pairs@),
            named == (|p: (Seq<char>, Seq<char>)| p.0 == "tr"@),
            value == (|p: (Seq<char>, Seq<char>)| p.1),
            texts(r@) == crate::order::distinct(
                all.take(i as int).filter(named).map_values(value),
            ),
        decreases pairs.len() - i,
    {
        let ghost done = all.take(i as int).filter(named);
        proof {
            assert(all.take(i + 1).drop_last() =~= all.take(i as int));
            assert(all.take(i + 1).last() == (pairs@[i as int].0@, pairs@[i as int].1@));
            reveal(Seq::filter);
        }
        if same_text(pairs[i].0.as_str(), "tr") {
            crate::order::push_distinct(&mut r, pairs[i].1.as_str());
            proof {
                let p = (pairs@[i as int].0@, pairs@[i as int].1@);
                assert(done.push(p).map_values(value) =~= done.map_values(value).push(p.1));
                crate::order::lemma_extended_push(
                    Seq::<Seq<char>>::empty(),
                    done.map_values(value),
                    p.1,
                );
            }
        }
        i = i + 1;
    }
    assert(all.take(all.len() as int) =~= all);
    r
}

/// The name of the file that a magnet asks for.
pub fn parse_file_param(magnet: &str) -> (r: Option<String>)
    ensures
        text_opt(r) == first_value(magnet_pairs(magnet@), "file"@),
        forall|fields: Seq<QueryField>|
            magnet@ == #[trigger] magnet_text(fields) && all_readable(fields) ==> text_opt(r)
                == first_value(field_pairs(fields), "file"@),
{
    find_value(&read_magnet(magnet), "file")
}

/// The number that a field holds.
pub open spec fn first_number(pairs: Seq<(Seq<char>, Seq<char>)>, key: Seq<char>) -> Option<nat> {
    match first_value(pairs, key) {
        Some(v) => crate::text::unsigned_value(v, usize::MAX as nat),
        None => None,
    }
}

/// The number of the file that a magnet asks for.
pub fn parse_file_idx_param(magnet: &str) -> (r: Option<usize>)
    ensures
        (match r {
            Some(n) => Some(n as nat),
            None => None,
        }) == first_number(magnet_pairs(magnet@), "file_idx"@),
        forall|fields: Seq<QueryField>|
            magnet@ == #[trigger] magnet_text(fields) && all_readable(fields) ==> (match r {
                Some(n) => Some(n as nat),
                None => None,
            }) == first_number(field_pairs(fields), "file_idx"@),
{
    match find_value(&read_magnet(magnet), "file_idx") {
        Some(v) => match crate::text::parse_unsigned(v.as_str(), usize::MAX as u64) {
            Some(n) => Some(n as usize),
            None => None,
        },
        None => None,
    }
}

proof fn lemma_filter_none<A>(s: Seq<A>, f: spec_fn(A) -> bool)
    requires
        forall|i: int| 0 <= i < s.len() ==> !f(#[trigger] s[i]),
    ensures
        s.filter(f) == Seq::<A>::empty(),
    decreases s.len(),
{
    reveal(Seq::filter);
    if s.len() > 0 {
        assert forall|i: int| 0 <= i < s.drop_last().len() implies !f(
            #[trigger] s.drop_last()[i],
        ) by {
            assert(s.drop_last()[i] == s[i]);
        }
        lemma_filter_none(s.drop_last(), f);
        assert(!f(s[s.len() - 1]));
    }
}

proof fn lemma_filter_all<A>(s: Seq<A>, f: spec_fn(A) -> bool)
    requires
        forall|i: int| 0 <= i < s.len() ==> f(#[trigger] s[i]),
    ensures
        s.filter(f) == s,
    decreases s.len(),
{
    reveal(Seq::filter);
    if s.len() > 0 {
        assert forall|i: int| 0 <= i < s.drop_last().len() implies f(#[trigger] s.drop_last()[i]) by {
            assert(s.drop_last()[i] == s[i]);
        }
        lemma_filter_all(s.drop_last(), f);
        assert(f(s[s.len() - 1]));
        assert(s.drop_last().push(s.last()) =~= s);
    }
}

/// The value of a name that comes only behind the first `n` pairs.
proof fn lemma_first_value_behind(pairs: Seq<(Seq<char>, Seq<char>)>, key: Seq<char>, n: int)
    requires
        0 <= n <= pairs.len(),
        forall|i: int| 0 <= i < n ==> (#[trigger] pairs[i]).0 != key,
    ensures
        first_value(pairs, key) == first_value(pairs.skip(n), key),
    decreases n,
{
    if n > 0 {
        assert(pairs[0].0 != key);
        assert forall|i: int| 0 <= i < n - 1 implies (#[trigger] pairs.skip(1)[i]).0 != key by {
            assert(pairs.skip(1)[i] == pairs[i + 1]);
        }
        lemma_first_value_behind(pairs.skip(1), key, n - 1);
        assert(pairs.skip(1).skip(n - 1) =~= pairs.skip(n));
    } else {
        assert(pairs.skip(0) =~= pairs);
    }
}

proof fn lemma_magnet_keys()
    ensures
        "xt"@ != "tr"@,
        "xt"@ != "file"@,
        "xt"@ != "file_idx"@,
        "tr"@ != "file"@,
        "tr"@ != "file_idx"@,
        "file"@ != "file_idx"@,
        crate::urls::plain_value("xt"@) && !"xt"@.contains('='),
        crate::urls::plain_value("tr"@) && !"tr"@.contains('='),
        crate::urls::plain_value("file"@) && !"file"@.contains('='),
        crate::urls::plain_value("file_idx"@) && !"file_idx"@.contains('='),
{
    reveal_strlit("xt");
    reveal_strlit("tr");
    reveal_strlit("file");
    reveal_strlit("file_idx");
    assert("xt"@[0] != "tr"@[0]);
    assert("xt"@.len() == 2 && "tr"@.len() == 2 && "file"@.len() == 4 && "file_idx"@.len() == 8);
}

proof fn lemma_hash_value(hash: Seq<char>)
    requires
        is_hash(hash),
    ensures
        crate::urls::plain_value("urn:btih:"@ + hash),
        after_colon("urn:btih:"@ + hash) == hash,
{
    reveal_strlit("urn:btih:");
    let v = "urn:btih:"@ + hash;
    assert("urn:btih:"@.len() == 9);
    assert forall|i: int| 0 <= i < v.len() implies (#[trigger] v[i]) != '&' && v[i] != '+' && v[i]
        != '%' by {
        if i >= 9 {
            assert(v[i] == hash[i - 9]);
            assert(hex_value(hash[i - 9]) is Some);
        }
    }
    crate::text::lemma_last_index(v, ':');
    let k = crate::text::last_index(v, ':');
    assert(v[8] == ':');
    assert(k >= 8);
    if k > 8 {
        assert(v[k] == hash[k - 9]);
        assert(hex_value(hash[k - 9]) is Some);
    }
    assert(v.skip(9) =~= hash);
}

/// The trackers that a magnet names.
pub open spec fn asked_trackers(trackers: Seq<Seq<char>>) -> Seq<Seq<char>> {
    if trackers.len() == 0 {
        crate::stream::default_trackers_spec()
    } else {
        trackers
    }
}

spec fn tracker_pairs(asked: Seq<Seq<char>>) -> Seq<(Seq<char>, Seq<char>)> {
    asked.map_values(|t: Seq<char>| ("tr"@, t))
}

spec fn file_pairs(file_idx: Option<usize>, file: Option<Seq<char>>) -> Seq<
    (Seq<char>, Seq<char>),
> {
    (match file_idx {
        Some(i) => seq![("file_idx"@, dec(i as nat))],
        None => seq![],
    }) + (match file {
        Some(f) => seq![("file"@, f)],
        None => seq![],
    })
}

proof fn lemma_magnet_shape(
    info_hash: Seq<char>,
    trackers: Seq<Seq<char>>,
    file_idx: Option<usize>,
    file: Option<Seq<char>>,
)
    ensures
        field_pairs(crate::stream::magnet_fields(info_hash, trackers, file_idx, file)) == seq![
            ("xt"@, "urn:btih:"@ + info_hash),
        ] + tracker_pairs(asked_trackers(trackers)) + file_pairs(file_idx, file),
{
    assert(field_pairs(crate::stream::magnet_fields(info_hash, trackers, file_idx, file)) =~= seq![
        ("xt"@, "urn:btih:"@ + info_hash),
    ] + tracker_pairs(asked_trackers(trackers)) + file_pairs(file_idx, file));
}

proof fn lemma_magnet_readable(
    info_hash: Seq<char>,
    trackers: Seq<Seq<char>>,
    file_idx: Option<usize>,
    file: Option<Seq<char>>,
)
    requires
        is_hash(info_hash),
    ensures
        all_readable(crate::stream::magnet_fields(info_hash, trackers, file_idx, file)),
{
    let fields = crate::stream::magnet_fields(info_hash, trackers, file_idx, file);
    let n = asked_trackers(trackers).len() as int;
    lemma_magnet_keys();
    lemma_hash_value(info_hash);
    if file_idx is Some {
        crate::text::law_decimal_reads_back(file_idx->0 as nat);
        let d = dec(file_idx->0 as nat);
        assert forall|i: int| 0 <= i < d.len() implies (#[trigger] d[i]) != '&' && d[i] != '+'
            && d[i] != '%' by {
            assert(crate::text::is_digit_spec(d[i]));
        }
    }
    assert forall|i: int| 0 <= i < fields.len() implies (#[trigger] fields[i]).readable() by {
        if 1 <= i <= n {
            assert(fields[i].key == "tr"@ && fields[i].encoded);
        } else if i > n {
            assert(fields[i].key == "file"@ && fields[i].encoded || fields[i].key == "file_idx"@);
        }
    }
}

proof fn lemma_magnet_trackers(
    xt: (Seq<char>, Seq<char>),
    asked: Seq<Seq<char>>,
    file_idx: Option<usize>,
    file: Option<Seq<char>>,
)
    requires
        xt.0 == "xt"@,
    ensures
        values_of(seq![xt] + tracker_pairs(asked) + file_pairs(file_idx, file), "tr"@)
            == crate::order::distinct(asked),
{
    lemma_magnet_keys();
    let named = |p: (Seq<char>, Seq<char>)| p.0 == "tr"@;
    let value = |p: (Seq<char>, Seq<char>)| p.1;
    let head = seq![xt];
    let middle = tracker_pairs(asked);
    let tail = file_pairs(file_idx, file);
    Seq::filter_distributes_over_add(head + middle, tail, named);
    Seq::filter_distributes_over_add(head, middle, named);
    lemma_filter_none(head, named);
    lemma_filter_none(tail, named);
    lemma_filter_all(middle, named);
    assert((head + middle + tail).filter(named) =~= middle);
    assert(middle.map_values(value) =~= asked);
}

proof fn lemma_magnet_file(
    xt: (Seq<char>, Seq<char>),
    asked: Seq<Seq<char>>,
    file_idx: Option<usize>,
    file: Option<Seq<char>>,
)
    requires
        xt.0 == "xt"@,
    ensures
        ({
            let pairs = seq![xt] + tracker_pairs(asked) + file_pairs(file_idx, file);
            &&& first_value(pairs, "file"@) == file
            &&& first_number(pairs, "file_idx"@) == match file_idx {
                Some(i) => Some(i as nat),
                None => None,
            }
        }),
{
    lemma_magnet_keys();
    let pairs = seq![xt] + tracker_pairs(asked) + file_pairs(file_idx, file);
    let n = asked.len() as int;
    let tail = file_pairs(file_idx, file);
    assert(pairs.skip(n + 1) =~= tail);
    lemma_first_value_behind(pairs, "file"@, n + 1);
    lemma_first_value_behind(pairs, "file_idx"@, n + 1);
    if file_idx is Some {
        crate::text::law_decimal_reads_back(file_idx->0 as nat);
        assert(tail[0] == ("file_idx"@, dec(file_idx->0 as nat)));
    }
    reveal_with_fuel(first_value, 3);
    if tail.len() > 0 {
        assert(tail.skip(1).len() == tail.len() - 1);
        if tail.len() == 2 {
            assert(tail.skip(1)[0] == tail[1]);
        }
    }
}

/// A magnet tells the torrent engine exactly what its stream says: the hash, in
/// lower case, the number and the name of the file, and the trackers, each
/// once.
pub proof fn law_magnet_reads_back(
    info_hash: Seq<char>,
    trackers: Seq<Seq<char>>,
    file_idx: Option<usize>,
    file: Option<Seq<char>>,
)
    requires
        is_hash(info_hash),
    ensures
        ({
            let fields = crate::stream::magnet_fields(info_hash, trackers, file_idx, file);
            let pairs = field_pairs(fields);
            &&& all_readable(fields)
            &&& first_hash(pairs) == Some(lower(info_hash))
            &&& values_of(pairs, "tr"@) == crate::order::distinct(asked_trackers(trackers))
            &&& first_value(pairs, "file"@) == file
            &&& first_number(pairs, "file_idx"@) == match file_idx {
                Some(i) => Some(i as nat),
                None => None,
            }
        }),
{
    let xt = ("xt"@, "urn:btih:"@ + info_hash);
    lemma_magnet_shape(info_hash, trackers, file_idx, file);
    lemma_magnet_readable(info_hash, trackers, file_idx, file);
    lemma_hash_value(info_hash);
    lemma_magnet_trackers(xt, asked_trackers(trackers), file_idx, file);
    lemma_magnet_file(xt, asked_trackers(trackers), file_idx, file);
    let pairs = seq![xt] + tracker_pairs(asked_trackers(trackers)) + file_pairs(file_idx, file);
    assert(pairs[0] == xt);
}

// ---------------------------------------------------------------------------
// Adding a torrent
// ---------------------------------------------------------------------------

/// The characters with a meaning in a regular expression.
pub open spec fn regex_meta(c: char) -> bool {
    c == '\\' || c == '.' || c == '+' || c == '*' || c == '?' || c == '(' || c == ')' || c == '|'
        || c == '[' || c == ']' || c == '{' || c == '}' || c == '^' || c == '$' || c == '#' || c
        == '&' || c == '-' || c == '~'
}

/// A text with a backslash before each character that has a meaning in a
/// regular expression.
pub open spec fn regex_escaped(s: Seq<char>) -> Seq<char>
    decreases s.len(),
{
    if s.len() == 0 {
        Seq::empty()
    } else {
        let before = regex_escaped(s.drop_last());
        if regex_meta(s.last()) {
            before.push('\\').push(s.last())
        } else {
            before.push(s.last())
        }
    }
}

/// `regex::escape`: puts a backslash before each meta character.
#[verifier::external_body]
fn escape_regex(s: &str) -> (r: String)
    ensures
        r@ == regex_escaped(s@),
{
    regex::escape(s)
}

/// What is kept of a torrent whose metadata has been fetched.
#[derive(Debug)]
pub struct CachedTorrentMetadata {
    pub torrent_bytes: Vec<u8>,
    pub seen_peers: Vec<Peer>,
    pub trackers: Vec<String>,
    pub files: Vec<CachedTorrentFile>,
}

pub ghost struct MetadataView {
    pub torrent_bytes: Seq<u8>,
    pub seen_peers: Seq<Peer>,
    pub trackers: Seq<Seq<char>>,
    pub files: Seq<CachedTorrentFile>,
}

impl View for CachedTorrentMetadata {
    type V = MetadataView;

    open spec fn view(&self) -> MetadataView {
        MetadataView {
            torrent_bytes: self.torrent_bytes@,
            seen_peers: self.seen_peers@,
            trackers: texts(self.trackers@),
            files: self.files@,
        }
    }
}

impl Clone for CachedTorrentFile {
    fn clone(&self) -> (r: CachedTorrentFile)
        ensures
            r == *self,
    {
        CachedTorrentFile { name: self.name.clone(), length: self.length }
    }
}

impl Clone for CachedTorrentMetadata {
    fn clone(&self) -> (r: CachedTorrentMetadata)
        ensures
            r@ == self@,
    {
        let torrent_bytes = self.torrent_bytes.clone();
        assert(torrent_bytes@ =~= self.torrent_bytes@);
        let mut files: Vec<CachedTorrentFile> = Vec::new();
        let mut i: usize = 0;
        while i < self.files.len()
            invariant
                i <= self.files.len(),
                files@ =~= self.files@.take(i as int),
            decreases self.files.len() - i,
        {
            files.push(self.files[i].clone());
            i = i + 1;
        }
        assert(files@ =~= self.files@);
        CachedTorrentMetadata {
            torrent_bytes,
            seen_peers: copy_peers(&self.seen_peers),
            trackers: copy_texts(&self.trackers),
            files,
        }
    }
}

/// How a torrent is added.
#[derive(Debug)]
pub struct AddOptions {
    /// The files to download; all where there is no list.
    pub only_files: Option<Vec<usize>>,
    /// A pattern for the names of the files to download.
    pub only_files_regex: Option<String>,
    pub initial_peers: Option<Vec<Peer>>,
    pub trackers: Option<Vec<String>>,
    /// How long a connection to a peer may take.
    pub connect_timeout_ms: u64,
}

/// How long a connection to a peer may take, in milliseconds.
pub const CONNECT_TIMEOUT_MS: u64 = 1200;

/// A copy of a list of texts.
pub fn copy_texts(list: &Vec<String>) -> (r: Vec<String>)
    ensures
        texts(r@) == texts(list@),
{
    let mut r: Vec<String> = Vec::new();
    let mut i: usize = 0;
    while i < list.len()
        invariant
            i <= list.len(),
            texts(r@) =~= texts(list@).take(i as int),
        decreases list.len() - i,
    {
        crate::text::push_arg(&mut r, list[i].as_str());
        i = i + 1;
    }
    assert(texts(list@).take(list@.len() as int) =~= texts(list@));
    r
}

/// The options for a torrent of which one file, or none, is wanted. A file is
/// chosen by its number or else by its name; without a choice nothing is
/// downloaded. The peers and the trackers that are known are passed on.
pub fn add_options(
    file_idx: Option<usize>,
    wanted_file: Option<&str>,
    cached: Option<&CachedTorrentMetadata>,
) -> (r: AddOptions)
    ensures
        match (file_idx, wanted_file) {
            (Some(i), _) => (r.only_files matches Some(l) && l@ == seq![i])
                && r.only_files_regex is None,
            (None, Some(name)) => r.only_files is None && text_opt(r.only_files_regex) == Some(
                "(?i)"@ + regex_escaped(name@) + "$"@,
            ),
            (None, None) => (r.only_files matches Some(l) && l@.len() == 0)
                && r.only_files_regex is None,
        },
        match cached {
            Some(c) if c.seen_peers@.len() > 0 => r.initial_peers matches Some(p) && p@
                == c.seen_peers@,
            _ => r.initial_peers is None,
        },
        match cached {
            Some(c) if c.trackers@.len() > 0 => r.trackers matches Some(t) && texts(t@) == texts(
                c.trackers@,
            ),
            _ => r.trackers is None,
        },
        r.connect_timeout_ms == CONNECT_TIMEOUT_MS,
        r.connect_timeout_ms == 1200,
{
    let (only_files, only_files_regex) = match (file_idx, wanted_file) {
        (Some(i), _) => {
            let mut l: Vec<usize> = Vec::new();
            l.push(i);
            assert(l@ =~= seq![i]);
            (Some(l), None)
        },
        (None, Some(name)) => (
            None,
            Some(crate::text::concat3("(?i)", escape_regex(name).as_str(), "$")),
        ),
        (None, None) => (Some(Vec::new()), None),
    };
    let initial_peers = match cached {
        Some(c) => if c.seen_peers.len() > 0 {
            Some(copy_peers(&c.seen_peers))
        } else {
            None
        },
        None => None,
    };
    let trackers = match cached {
        Some(c) => if c.trackers.len() > 0 {
            Some(copy_texts(&c.trackers))
        } else {
            None
        },
        None => None,
    };
    AddOptions {
        only_files,
        only_files_regex,
        initial_peers,
        trackers,
        connect_timeout_ms: CONNECT_TIMEOUT_MS,
    }
}

/// The peers that answered, followed by those that were known, each once.
pub open spec fn prioritized(responsive: Seq<Peer>, seen: Seq<Peer>) -> Seq<Peer> {
    crate::order::distinct(responsive + seen)
}

/// Puts the peers that answered before those that were known.
pub fn prioritize_peers(responsive: &Vec<Peer>, seen: &Vec<Peer>) -> (r: Vec<Peer>)
    ensures
        r@ == prioritized(responsive@, seen@),
{
    let mut r: Vec<Peer> = Vec::new();
    let ghost all = responsive@ + seen@;
    let n: usize = responsive.len();
    let mut i: usize = 0;
    while i < n
        invariant
            n == responsive.len(),
            i <= n,
            all == responsive@ + seen@,
            r@ == crate::order::distinct(all.take(i as int)),
        decreases n - i,
    {
        assert(all.take(i + 1).drop_last() =~= all.take(i as int));
        if !crate::torrent_availability::has_peer(&r, responsive[i]) {
            r.push(responsive[i]);
        }
        i = i + 1;
    }
    let mut j: usize = 0;
    while j < seen.len()
        invariant
            n == responsive.len(),
            j <= seen.len(),
            all == responsive@ + seen@,
            r@ == crate::order::distinct(all.take(n + j)),
        decreases seen.len() - j,
    {
        assert(all.take(n + j + 1).drop_last() =~= all.take(n + j));
        assert(all[n + j] == seen@[j as int]);
        if !crate::torrent_availability::has_peer(&r, seen[j]) {
            r.push(seen[j]);
        }
        j = j + 1;
    }
    assert(all.take(all.len() as int) =~= all);
    r
}

// ---------------------------------------------------------------------------
// Looking at a torrent before it is played
// ---------------------------------------------------------------------------

/// The state of a torrent that is being downloaded.
#[derive(Debug, Clone, Copy, PartialEq, Eq, Structural)]
pub struct ManagedTorrentAvailability {
    pub finished: bool,
    pub live_peers: usize,
    pub progress_bytes: u64,
    pub total_bytes: u64,
}

/// The state of a download by its numbers. The engine calls a torrent finished
/// when nothing is left to fetch, which holds of one whose files are only
/// streamed; here the bytes count.
pub fn managed_availability(progress_bytes: u64, total_bytes: u64, live_peers: Option<usize>) -> (r:
    ManagedTorrentAvailability)
    ensures
        r == (ManagedTorrentAvailability {
            finished: total_bytes > 0 && progress_bytes >= total_bytes,
            live_peers: match live_peers {
                Some(n) => n,
                None => 0,
            },
            progress_bytes,
            total_bytes,
        }),
{
    ManagedTorrentAvailability {
        finished: file_download_complete(progress_bytes, total_bytes),
        live_peers: match live_peers {
            Some(n) => n,
            None => 0,
        },
        progress_bytes,
        total_bytes,
    }
}

/// Where a torrent stands among some info hashes, in whatever case they are
/// written.
pub open spec fn hash_place(hashes: Seq<Seq<char>>, hash: Seq<char>) -> Option<int>
    decreases hashes.len(),
{
    if hashes.len() == 0 {
        None
    } else if same_folded(hashes[0], hash) {
        Some(0)
    } else {
        match hash_place(hashes.skip(1), hash) {
            Some(i) => Some(i + 1),
            None => None,
        }
    }
}

pub fn find_torrent(hashes: &Vec<String>, info_hash: &str) -> (r: Option<usize>)
    ensures
        match r {
            Some(i) => hash_place(texts(hashes@), info_hash@) == Some(i as int) && i < hashes.len(),
            None => hash_place(texts(hashes@), info_hash@) is None,
        },
{
    let ghost all = texts(hashes@);
    let mut i: usize = 0;
    assert(all.skip(0) =~= all);
    while i < hashes.len()
        invariant
            i <= hashes.len(),
            all == texts(hashes@),
            hash_place(all, info_hash@) == match hash_place(all.skip(i as int), info_hash@) {
                Some(k) => Some(k + i),
                None => None,
            },
        decreases hashes.len() - i,
    {
        assert(all.skip(i as int)[0] == hashes@[i as int]@);
        if eq_ignore_case(hashes[i].as_str(), info_hash) {
            return Some(i);
        }
        assert(all.skip(i as int).skip(1) =~= all.skip(i + 1));
        i = i + 1;
    }
    None
}

/// What is learnt of a torrent without downloading it.
#[derive(Debug)]
pub struct TorrentPreflight {
    pub elapsed_ms: u64,
    pub seen_peers: usize,
    pub peers: Vec<Peer>,
    pub from_cache: bool,
    pub selected_file_bytes: Option<u64>,
    pub total_bytes: u64,
    pub file_count: usize,
    pub managed: Option<ManagedTorrentAvailability>,
}

pub ghost struct PreflightView {
    pub elapsed_ms: u64,
    pub seen_peers: nat,
    pub peers: Seq<Peer>,
    pub from_cache: bool,
    pub selected_file_bytes: Option<u64>,
    pub total_bytes: nat,
    pub file_count: nat,
    pub managed: Option<ManagedTorrentAvailability>,
}

impl View for TorrentPreflight {
    type V = PreflightView;

    open spec fn view(&self) -> PreflightView {
        PreflightView {
            elapsed_ms: self.elapsed_ms,
            seen_peers: self.seen_peers as nat,
            peers: self.peers@,
            from_cache: self.from_cache,
            selected_file_bytes: self.selected_file_bytes,
            total_bytes: self.total_bytes as nat,
            file_count: self.file_count as nat,
            managed: self.managed,
        }
    }
}

/// The bytes of all files.
pub open spec fn total_length(files: Seq<CachedTorrentFile>) -> nat
    decreases files.len(),
{
    if files.len() == 0 {
        0
    } else {
        total_length(files.drop_last()) + files.last().length as nat
    }
}

proof fn lemma_total_length_grows(files: Seq<CachedTorrentFile>, n: int)
    requires
        0 <= n <= files.len(),
    ensures
        total_length(files.take(n)) <= total_length(files),
    decreases files.len() - n,
{
    if n < files.len() {
        lemma_total_length_grows(files, n + 1);
        assert(files.take(n + 1).drop_last() =~= files.take(n));
    } else {
        assert(files.take(n) =~= files);
    }
}

fn sum_lengths(files: &Vec<CachedTorrentFile>) -> (n: u64)
    requires
        total_length(files@) <= u64::MAX,
    ensures
        n == total_length(files@),
{
    let mut n: u64 = 0;
    let mut i: usize = 0;
    while i < files.len()
        invariant
            i <= files.len(),
            total_length(files@) <= u64::MAX,
            n == total_length(files@.take(i as int)),
        decreases files.len() - i,
    {
        proof {
            assert(files@.take(i + 1).drop_last() =~= files@.take(i as int));
            lemma_total_length_grows(files@, i + 1);
        }
        n = n + files[i].length;
        i = i + 1;
    }
    assert(files@.take(files@.len() as int) =~= files@);
    n
}

/// The file that a magnet asks for.
pub open spec fn magnet_file(files: Seq<CachedTorrentFile>, magnet: Seq<char>) -> Option<int> {
    match file_for(files, magnet) {
        Ok(i) => Some(i),
        Err(_) => None,
    }
}

fn select_for_magnet(files: &Vec<CachedTorrentFile>, magnet: &str) -> (r: Option<usize>)
    ensures
        match r {
            Some(i) => magnet_file(files@, magnet@) == Some(i as int) && i < files.len(),
            None => magnet_file(files@, magnet@) is None,
        },
{
    match choose_file(files, magnet) {
        Ok(i) => Some(i),
        Err(_) => None,
    }
}

/// The size of the file that a magnet asks for.
pub open spec fn magnet_file_bytes(files: Seq<CachedTorrentFile>, magnet: Seq<char>) -> Option<
    u64,
> {
    match magnet_file(files, magnet) {
        Some(i) => Some(files[i].length),
        None => None,
    }
}

/// The state of the file that a magnet asks for, within a torrent that is being
/// downloaded. It counts as finished only where it is known and whole.
pub open spec fn file_state(
    managed: ManagedTorrentAvailability,
    files: Seq<CachedTorrentFile>,
    progress: Seq<u64>,
    magnet: Seq<char>,
) -> ManagedTorrentAvailability {
    match magnet_file(files, magnet) {
        Some(i) => {
            let done = if i < progress.len() {
                progress[i]
            } else {
                0
            };
            ManagedTorrentAvailability {
                finished: files[i].length > 0 && done >= files[i].length,
                live_peers: managed.live_peers,
                progress_bytes: done,
                total_bytes: files[i].length,
            }
        },
        None => ManagedTorrentAvailability { finished: false, ..managed },
    }
}

/// What is learnt of a torrent that is being downloaded.
pub open spec fn managed_view(
    managed: ManagedTorrentAvailability,
    files: Seq<CachedTorrentFile>,
    progress: Seq<u64>,
    magnet: Seq<char>,
) -> PreflightView {
    PreflightView {
        elapsed_ms: 0,
        seen_peers: 0,
        peers: Seq::empty(),
        from_cache: false,
        selected_file_bytes: magnet_file_bytes(files, magnet),
        total_bytes: total_length(files),
        file_count: files.len(),
        managed: Some(file_state(managed, files, progress, magnet)),
    }
}

pub fn managed_preflight(
    managed: ManagedTorrentAvailability,
    files: &Vec<CachedTorrentFile>,
    file_progress: &Vec<u64>,
    magnet: &str,
) -> (r: TorrentPreflight)
    requires
        total_length(files@) <= u64::MAX,
    ensures
        r@ == managed_view(managed, files@, file_progress@, magnet@),
{
    let selected = select_for_magnet(files, magnet);
    let mut state = managed;
    let mut bytes: Option<u64> = None;
    match selected {
        Some(i) => {
            let progress: u64 = if i < file_progress.len() {
                file_progress[i]
            } else {
                0
            };
            state.progress_bytes = progress;
            state.total_bytes = files[i].length;
            state.finished = file_download_complete(progress, files[i].length);
            bytes = Some(files[i].length);
        },
        None => {
            state.finished = false;
        },
    }
    TorrentPreflight {
        elapsed_ms: 0,
        seen_peers: 0,
        peers: Vec::new(),
        from_cache: false,
        selected_file_bytes: bytes,
        total_bytes: sum_lengths(files),
        file_count: files.len(),
        managed: Some(state),
    }
}

/// The first thirty-two peers.
pub open spec fn some_peers(peers: Seq<Peer>) -> Seq<Peer> {
    if peers.len() <= 32 {
        peers
    } else {
        peers.take(32)
    }
}

fn take_peers(peers: &Vec<Peer>) -> (r: Vec<Peer>)
    ensures
        r@ == some_peers(peers@),
{
    let mut r: Vec<Peer> = Vec::new();
    let mut i: usize = 0;
    while i < peers.len() && i < 32
        invariant
            i <= peers.len(),
            i <= 32,
            r@ == peers@.take(i as int),
        decreases peers.len() - i,
    {
        r.push(peers[i]);
        i = i + 1;
        assert(r@ =~= peers@.take(i as int));
    }
    assert(peers@.take(peers@.len() as int) =~= peers@);
    r
}

/// What is learnt of a torrent whose peers and files are known.
pub open spec fn listed_preflight_spec(
    peers: Seq<Peer>,
    files: Seq<CachedTorrentFile>,
    magnet: Seq<char>,
    elapsed_ms: u64,
    from_cache: bool,
) -> PreflightView {
    PreflightView {
        elapsed_ms,
        seen_peers: peers.len(),
        peers: some_peers(peers),
        from_cache,
        selected_file_bytes: magnet_file_bytes(files, magnet),
        total_bytes: total_length(files),
        file_count: files.len(),
        managed: None,
    }
}

fn listed_preflight(
    peers: &Vec<Peer>,
    files: &Vec<CachedTorrentFile>,
    magnet: &str,
    elapsed_ms: u64,
    from_cache: bool,
) -> (r: TorrentPreflight)
    requires
        total_length(files@) <= u64::MAX,
    ensures
        r@ == listed_preflight_spec(peers@, files@, magnet@, elapsed_ms, from_cache),
{
    let bytes = match select_for_magnet(files, magnet) {
        Some(i) => Some(files[i].length),
        None => None,
    };
    TorrentPreflight {
        elapsed_ms,
        seen_peers: peers.len(),
        peers: take_peers(peers),
        from_cache,
        selected_file_bytes: bytes,
        total_bytes: sum_lengths(files),
        file_count: files.len(),
        managed: None,
    }
}

/// What is learnt of a torrent whose metadata is remembered.
pub fn cached_preflight(cached: &CachedTorrentMetadata, magnet: &str) -> (r: TorrentPreflight)
    requires
        total_length(cached.files@) <= u64::MAX,
    ensures
        r@ == listed_preflight_spec(cached.seen_peers@, cached.files@, magnet@, 0, true),
{
    listed_preflight(&cached.seen_peers, &cached.files, magnet, 0, true)
}

/// What the torrent engine answers to a request for metadata.
pub enum PreflightResponse {
    /// The metadata.
    Listed { torrent_bytes: Vec<u8>, seen_peers: Vec<Peer>, files: Vec<CachedTorrentFile> },
    /// The torrent is being downloaded, in this state.
    AlreadyManaged(Option<ManagedTorrentAvailability>),
    /// A download was started.
    Added,
}

/// A torrent that is being downloaded.
pub struct ManagedTorrent {
    pub state: ManagedTorrentAvailability,
    pub files: Vec<CachedTorrentFile>,
    /// The bytes that are there of each file.
    pub file_progress: Vec<u64>,
}

/// A request for the metadata of a torrent.
pub struct MetadataRequest {
    pub info_hash: String,
    /// Nothing is downloaded.
    pub list_only: bool,
    pub initial_peers: Option<Vec<Peer>>,
    pub connect_timeout_ms: u64,
    pub read_write_timeout_ms: u64,
}

/// How long a peer may take to answer a look, in milliseconds.
pub const PREFLIGHT_READ_WRITE_TIMEOUT_MS: u64 = 2500;

/// How a torrent is looked at.
pub enum PreflightPlan {
    /// What is known says it all.
    Answer(TorrentPreflight),
    /// The torrent engine is asked.
    Ask(MetadataRequest),
}

pub ghost struct RequestView {
    pub info_hash: Seq<char>,
    pub list_only: bool,
    pub initial_peers: Option<Seq<Peer>>,
    pub connect_timeout_ms: u64,
    pub read_write_timeout_ms: u64,
}

impl View for MetadataRequest {
    type V = RequestView;

    open spec fn view(&self) -> RequestView {
        RequestView {
            info_hash: self.info_hash@,
            list_only: self.list_only,
            initial_peers: match self.initial_peers {
                Some(peers) => Some(peers@),
                None => None,
            },
            connect_timeout_ms: self.connect_timeout_ms,
            read_write_timeout_ms: self.read_write_timeout_ms,
        }
    }
}

/// What a look at a torrent comes to before the torrent engine is asked.
pub ghost enum PlanView {
    /// The magnet names no torrent.
    NoInfoHash,
    Answer(PreflightView),
    Ask(RequestView),
}

/// A torrent that is being downloaded answers for itself, and else the metadata
/// that is remembered of it. Where neither is there, the torrent engine is asked
/// for the metadata alone, of the peers that are known first.
pub open spec fn planned(
    magnet: Seq<char>,
    managed: Option<ManagedTorrent>,
    cached: Option<MetadataView>,
    known_peers: Seq<Peer>,
) -> PlanView {
    match magnet_hash(magnet) {
        None => PlanView::NoInfoHash,
        Some(hash) => match managed {
            Some(m) => PlanView::Answer(
                managed_view(m.state, m.files@, m.file_progress@, magnet),
            ),
            None => match cached {
                Some(c) => PlanView::Answer(
                    listed_preflight_spec(c.seen_peers, c.files, magnet, 0, true),
                ),
                None => PlanView::Ask(
                    RequestView {
                        info_hash: hash,
                        list_only: true,
                        initial_peers: if known_peers.len() > 0 {
                            Some(known_peers)
                        } else {
                            None
                        },
                        connect_timeout_ms: CONNECT_TIMEOUT_MS,
                        read_write_timeout_ms: PREFLIGHT_READ_WRITE_TIMEOUT_MS,
                    },
                ),
            },
        },
    }
}

pub open spec fn managed_of(managed: Option<&ManagedTorrent>) -> Option<ManagedTorrent> {
    match managed {
        Some(m) => Some(*m),
        None => None,
    }
}

pub open spec fn plan_view(plan: Result<PreflightPlan, ResolveError>) -> PlanView {
    match plan {
        Err(_) => PlanView::NoInfoHash,
        Ok(PreflightPlan::Answer(p)) => PlanView::Answer(p@),
        Ok(PreflightPlan::Ask(request)) => PlanView::Ask(request@),
    }
}

/// Decides how a torrent is looked at: from what the engine or the memory knows
/// under its hash, or by a request that downloads nothing, with the peers that
/// are known.
pub fn plan_preflight(
    magnet: &str,
    managed: Option<&ManagedTorrent>,
    cached: Option<&CachedTorrentMetadata>,
    initial_peers: &Vec<Peer>,
) -> (r: Result<PreflightPlan, ResolveError>)
    requires
        managed matches Some(m) ==> total_length(m.files@) <= u64::MAX,
        cached matches Some(c) ==> total_length(c.files@) <= u64::MAX,
    ensures
        plan_view(r) == planned(
            magnet@,
            managed_of(managed),
            match cached {
                Some(c) => Some(c@),
                None => None,
            },
            initial_peers@,
        ),
        r is Err ==> r == Err::<PreflightPlan, ResolveError>(ResolveError::NoInfoHash),
{
    let info_hash = match parse_info_hash_param(magnet) {
        Some(h) => h,
        None => {
            return Err(ResolveError::NoInfoHash);
        },
    };
    if let Some(m) = managed {
        return Ok(
            PreflightPlan::Answer(managed_preflight(m.state, &m.files, &m.file_progress, magnet)),
        );
    }
    if let Some(c) = cached {
        return Ok(PreflightPlan::Answer(cached_preflight(c, magnet)));
    }
    let peers = if initial_peers.len() > 0 {
        Some(copy_peers(initial_peers))
    } else {
        None
    };
    Ok(
        PreflightPlan::Ask(
            MetadataRequest {
                info_hash,
                list_only: true,
                initial_peers: peers,
                connect_timeout_ms: CONNECT_TIMEOUT_MS,
                read_write_timeout_ms: PREFLIGHT_READ_WRITE_TIMEOUT_MS,
            },
        ),
    )
}

/// A request for metadata started a download.
#[derive(Debug, Clone, Copy, PartialEq, Eq, Structural)]
pub struct UnexpectedDownload;

/// What is learnt of a torrent of which nothing but its state is told.
pub open spec fn unlisted_view(
    elapsed_ms: u64,
    managed: Option<ManagedTorrentAvailability>,
) -> PreflightView {
    PreflightView {
        elapsed_ms,
        seen_peers: 0,
        peers: Seq::empty(),
        from_cache: false,
        selected_file_bytes: None,
        total_bytes: 0,
        file_count: 0,
        managed,
    }
}

/// What is learnt from the engine's answer, and what is to be remembered. A
/// download is never what was asked for.
pub open spec fn learnt(response: PreflightResponse, magnet: Seq<char>, elapsed_ms: u64) -> Result<
    (PreflightView, Option<MetadataView>),
    UnexpectedDownload,
> {
    match response {
        PreflightResponse::Listed { torrent_bytes, seen_peers, files } => Ok(
            (
                listed_preflight_spec(seen_peers@, files@, magnet, elapsed_ms, false),
                Some(
                    MetadataView {
                        torrent_bytes: torrent_bytes@,
                        seen_peers: seen_peers@,
                        trackers: values_of(magnet_pairs(magnet), "tr"@),
                        files: files@,
                    },
                ),
            ),
        ),
        PreflightResponse::AlreadyManaged(state) => Ok((unlisted_view(elapsed_ms, state), None)),
        PreflightResponse::Added => Err(UnexpectedDownload),
    }
}

pub open spec fn learnt_view(
    r: Result<(TorrentPreflight, Option<CachedTorrentMetadata>), UnexpectedDownload>,
) -> Result<(PreflightView, Option<MetadataView>), UnexpectedDownload> {
    match r {
        Ok((p, kept)) => Ok(
            (
                p@,
                match kept {
                    Some(c) => Some(c@),
                    None => None,
                },
            ),
        ),
        Err(e) => Err(e),
    }
}

pub fn fresh_preflight(response: PreflightResponse, magnet: &str, elapsed_ms: u64) -> (r: Result<
    (TorrentPreflight, Option<CachedTorrentMetadata>),
    UnexpectedDownload,
>)
    requires
        response matches PreflightResponse::Listed { files, .. } ==> total_length(files@)
            <= u64::MAX,
    ensures
        learnt_view(r) == learnt(response, magnet@, elapsed_ms),
{
    match response {
        PreflightResponse::Listed { torrent_bytes, seen_peers, files } => {
            let trackers = parse_tracker_params(magnet);
            let p = listed_preflight(&seen_peers, &files, magnet, elapsed_ms, false);
            Ok((p, Some(CachedTorrentMetadata { torrent_bytes, seen_peers, trackers, files })))
        },
        PreflightResponse::AlreadyManaged(state) => Ok(
            (
                TorrentPreflight {
                    elapsed_ms,
                    seen_peers: 0,
                    peers: Vec::new(),
                    from_cache: false,
                    selected_file_bytes: None,
                    total_bytes: 0,
                    file_count: 0,
                    managed: state,
                },
                None,
            ),
        ),
        PreflightResponse::Added => Err(UnexpectedDownload),
    }
}

/// Looking at a torrent that is not being downloaded starts no download, and
/// looking twice tells the same:
/// - a magnet without a hash is refused, whatever is known;
/// - the engine is only ever asked to list, under the magnet's hash, and an answer
///   that says it started a download is refused;
/// - what the first look learnt from a list is what the second one tells from what
///   was remembered of it, in no time and marked as remembered: the same sizes and
///   the same number of files, and no more than thirty-two peers either time.
pub proof fn law_second_look_agrees(
    magnet: Seq<char>,
    response: PreflightResponse,
    elapsed_ms: u64,
    known_peers: Seq<Peer>,
    later_peers: Seq<Peer>,
)
    ensures
        magnet_hash(magnet) is None <==> planned(magnet, None, None, known_peers) is NoInfoHash,
        planned(magnet, None, None, known_peers) matches PlanView::Ask(request) ==> {
            &&& request.list_only
            &&& magnet_hash(magnet) == Some(request.info_hash)
        },
        response is Added ==> learnt(response, magnet, elapsed_ms) is Err,
        response is Listed ==> learnt(response, magnet, elapsed_ms) is Ok && learnt(
            response,
            magnet,
            elapsed_ms,
        )->Ok_0.1 is Some,
        magnet_hash(magnet) is Some && response is Listed ==> {
            let first = learnt(response, magnet, elapsed_ms)->Ok_0.0;
            let kept = learnt(response, magnet, elapsed_ms)->Ok_0.1;
            let second = planned(magnet, None, kept, later_peers);
            &&& second is Answer
            &&& second->Answer_0.from_cache && !first.from_cache
            &&& second->Answer_0.selected_file_bytes == first.selected_file_bytes
            &&& second->Answer_0.total_bytes == first.total_bytes
            &&& second->Answer_0.file_count == first.file_count
            &&& second->Answer_0.peers == first.peers && first.peers.len() <= 32
            &&& second->Answer_0 == (PreflightView { elapsed_ms: 0, from_cache: true, ..first })
        },
{
}

/// A torrent that is being downloaded is looked at as it stands, not as it is
/// remembered, and the engine is not asked.
pub proof fn law_look_prefers_the_download(
    magnet: Seq<char>,
    managed: ManagedTorrent,
    cached: Option<MetadataView>,
    known_peers: Seq<Peer>,
)
    ensures
        planned(magnet, Some(managed), cached, known_peers) == planned(
            magnet,
            Some(managed),
            None,
            known_peers,
        ),
        !(planned(magnet, Some(managed), cached, known_peers) is Ask),
        magnet_hash(magnet) is None <==> planned(magnet, Some(managed), cached, known_peers)
            is NoInfoHash,
{
}

// ---------------------------------------------------------------------------
// The torrent engine's own addresses and limits
// ---------------------------------------------------------------------------

/// Where the torrent engine serves a file.
pub open spec fn stream_address(port: u16, torrent_id: usize, file_idx: usize) -> Seq<char> {
    "http://127.0.0.1:"@ + dec(port as nat) + "/torrents/"@ + dec(torrent_id as nat) + "/stream/"@
        + dec(file_idx as nat)
}

pub fn stream_url(port: u16, torrent_id: usize, file_idx: usize) -> (url: String)
    ensures
        url@ == stream_address(port, torrent_id, file_idx),
{
    let mut url = crate::text::concat3(
        "http://127.0.0.1:",
        crate::text::dec_text(port as u64).as_str(),
        "/torrents/",
    );
    url.append(crate::text::dec_text(torrent_id as u64).as_str());
    url.append("/stream/");
    url.append(crate::text::dec_text(file_idx as u64).as_str());
    url
}

/// The place of the first two slashes in a row, or the length of the text.
pub open spec fn double_slash(s: Seq<char>) -> int
    decreases s.len(),
{
    if s.len() < 2 {
        s.len() as int
    } else if s[0] == '/' && s[1] == '/' {
        0
    } else {
        1 + double_slash(s.skip(1))
    }
}

proof fn lemma_double_slash(s: Seq<char>)
    ensures
        0 <= double_slash(s) <= s.len(),
        double_slash(s) < s.len() ==> double_slash(s) + 1 < s.len() && s[double_slash(s)] == '/'
            && s[double_slash(s) + 1] == '/',
        forall|j: int|
            0 <= j < double_slash(s) && j + 1 < s.len() ==> !(#[trigger] s[j] == '/' && s[j + 1]
                == '/'),
    decreases s.len(),
{
    if s.len() >= 2 && !(s[0] == '/' && s[1] == '/') {
        lemma_double_slash(s.skip(1));
        assert forall|j: int| 0 <= j < double_slash(s) && j + 1 < s.len() implies !(#[trigger] s[j]
            == '/' && s[j + 1] == '/') by {
            if j > 0 {
                assert(s.skip(1)[j - 1] == s[j]);
                assert(s.skip(1)[j] == s[j + 1]);
            }
        }
    }
}

/// What stands behind the first `c`, where it occurs.
pub open spec fn behind(s: Seq<char>, c: char) -> Option<Seq<char>> {
    let i = crate::text::first_index(s, c);
    if i < s.len() {
        Some(s.skip(i + 1))
    } else {
        None
    }
}

/// The path of an address: what follows the first slash behind `//`.
pub open spec fn path_of(url: Seq<char>) -> Option<Seq<char>> {
    let i = double_slash(url);
    if i < url.len() {
        behind(url.skip(i + 2), '/')
    } else {
        None
    }
}

/// The torrent that an address of the torrent engine names.
pub open spec fn torrent_of(url: Seq<char>) -> Option<nat> {
    match path_of(url) {
        Some(path) => {
            let i = crate::text::first_index(path, '/');
            let rest = path.skip(i + 1);
            if i < path.len() && path.take(i) == "torrents"@ {
                crate::text::unsigned_value(
                    rest.take(crate::text::first_index(rest, '/')),
                    usize::MAX as nat,
                )
            } else {
                None
            }
        },
        None => None,
    }
}

/// Reads the torrent's number from an address of the torrent engine.
pub fn torrent_id_from_url(url: &str) -> (r: Option<usize>)
    ensures
        (match r {
            Some(n) => Some(n as nat),
            None => None,
        }) == torrent_of(url@),
{
    let chars = chars_of(url);
    let n: usize = chars.len();
    let mut i: usize = 0;
    while i + 1 < n && !(chars[i] == '/' && chars[i + 1] == '/')
        invariant
            i <= n,
            n == chars.len(),
            n <= 1 || i + 1 <= n,
            forall|j: int| 0 <= j < i ==> !(#[trigger] chars@[j] == '/' && chars@[j + 1] == '/'),
        decreases n - i,
    {
        i = i + 1;
    }
    proof {
        lemma_double_slash(url@);
        let d = double_slash(url@);
        if i + 1 < n {
            assert(url@[i as int] == '/' && url@[i + 1] == '/');
            assert(d == i);
        } else {
            if d < url@.len() {
                assert(url@[d] == '/');
            }
            assert(d == url@.len());
        }
    }
    if i + 1 >= n {
        return None;
    }
    let host = chars_of(crate::text::slice(&chars, i + 2, n).as_str());
    assert(host@ =~= url@.skip(i + 2));
    let a = crate::text::find_char(&host, '/');
    if a >= host.len() {
        return None;
    }
    let path = chars_of(crate::text::slice(&host, a + 1, host.len()).as_str());
    assert(path@ =~= host@.skip(a + 1));
    let b = crate::text::find_char(&path, '/');
    if b >= path.len() {
        return None;
    }
    let first = crate::text::slice(&path, 0, b);
    assert(first@ =~= path@.take(b as int));
    if !same_text(first.as_str(), "torrents") {
        return None;
    }
    let rest = chars_of(crate::text::slice(&path, b + 1, path.len()).as_str());
    assert(rest@ =~= path@.skip(b + 1));
    let c = crate::text::find_char(&rest, '/');
    let number = crate::text::slice(&rest, 0, c);
    assert(number@ =~= rest@.take(c as int));
    match crate::text::parse_unsigned(number.as_str(), usize::MAX as u64) {
        Some(n) => Some(n as usize),
        None => None,
    }
}

/// The first place of a character that the beginning of a text does not hold.
proof fn lemma_first_index_behind(a: Seq<char>, b: Seq<char>, c: char)
    requires
        forall|i: int| 0 <= i < a.len() ==> #[trigger] a[i] != c,
        b.len() > 0,
        b[0] == c,
    ensures
        crate::text::first_index(a + b, c) == a.len(),
{
    let s = a + b;
    crate::text::lemma_first_index(s, c);
    let i = crate::text::first_index(s, c);
    assert(s[a.len() as int] == c);
    if i < a.len() {
        assert(s[i] == a[i]);
    }
}

proof fn lemma_digits_have_no_slash(n: nat)
    ensures
        forall|i: int| 0 <= i < dec(n).len() ==> #[trigger] dec(n)[i] != '/',
{
    crate::text::law_decimal_reads_back(n);
    assert forall|i: int| 0 <= i < dec(n).len() implies #[trigger] dec(n)[i] != '/' by {
        assert(crate::text::is_digit_spec(dec(n)[i]));
    }
}

proof fn lemma_path_behind_host(port: nat, path: Seq<char>)
    ensures
        path_of("http://127.0.0.1:"@ + dec(port) + "/"@ + path) == Some(path),
{
    reveal_strlit("http://127.0.0.1:");
    reveal_strlit("127.0.0.1:");
    reveal_strlit("/");
    let host = "127.0.0.1:"@;
    let d = dec(port);
    let url = "http://127.0.0.1:"@ + d + "/"@ + path;
    lemma_digits_have_no_slash(port);
    lemma_double_slash(url);
    assert(url[5] == '/' && url[6] == '/');
    assert(url[0] == 'h' && url[1] == 't' && url[2] == 't' && url[3] == 'p' && url[4] == ':');
    assert(double_slash(url) == 5);
    assert("http://127.0.0.1:"@.skip(7) =~= host);
    let rest = url.skip(7);
    assert(rest =~= (host + d) + ("/"@ + path));
    assert forall|i: int| 0 <= i < (host + d).len() implies #[trigger] (host + d)[i] != '/' by {
        if i >= host.len() {
            assert((host + d)[i] == d[i - host.len()]);
        }
    }
    lemma_first_index_behind(host + d, "/"@ + path, '/');
    assert(rest.skip(((host + d).len() + 1) as int) =~= path);
}

/// The number of a torrent is read back from the address at which it is served.
pub proof fn law_torrent_is_read_from_its_address(port: u16, torrent_id: usize, file_idx: usize)
    ensures
        torrent_of(stream_address(port, torrent_id, file_idx)) == Some(torrent_id as nat),
{
    let t = dec(torrent_id as nat);
    let tail = "/stream/"@ + dec(file_idx as nat);
    let path = "torrents"@ + ("/"@ + (t + tail));
    assert("/torrents/"@ =~= "/"@ + "torrents"@ + "/"@) by {
        reveal_strlit("/torrents/");
        reveal_strlit("torrents");
        reveal_strlit("/");
    }
    assert(stream_address(port, torrent_id, file_idx) =~= "http://127.0.0.1:"@ + dec(port as nat)
        + "/"@ + path);
    lemma_path_behind_host(port as nat, path);
    lemma_digits_have_no_slash(torrent_id as nat);
    crate::text::law_decimal_reads_back(torrent_id as nat);
    reveal_strlit("torrents");
    reveal_strlit("/");
    assert(tail[0] == '/') by {
        reveal_strlit("/stream/");
    }
    assert forall|i: int| 0 <= i < "torrents"@.len() implies #[trigger] "torrents"@[i] != '/' by {}
    lemma_first_index_behind("torrents"@, "/"@ + (t + tail), '/');
    assert(path.take(8) =~= "torrents"@);
    assert(path.skip(9) =~= t + tail);
    lemma_first_index_behind(t, tail, '/');
    assert((t + tail).take(t.len() as int) =~= t);
}

/// A rate in bytes of a rate in kilobytes: the low 32 bits, times 1024, held to
/// `u32`.
pub open spec fn rate(kbps: i64) -> int {
    let low = kbps as int % 0x1_0000_0000;
    if low * 1024 <= u32::MAX {
        low * 1024
    } else {
        u32::MAX as int
    }
}

fn rate_of(kbps: i64) -> (r: u32)
    requires
        kbps > 0,
    ensures
        r == rate(kbps),
{
    let low: u64 = kbps as u64 % 0x1_0000_0000;
    if low * 1024 <= u32::MAX as u64 {
        (low * 1024) as u32
    } else {
        u32::MAX
    }
}

fn nonzero_rate(n: u32) -> (r: Option<u32>)
    ensures
        r == if n > 0 {
            Some(n)
        } else {
            None
        },
{
    if n > 0 {
        Some(n)
    } else {
        None
    }
}

/// The limits of the torrent engine; a rate of no bytes is no limit. An upload rate of zero or less is as low
/// as can be; a download rate of zero or less is no limit.
pub fn speed_limits(upload_kbps: i64, download_kbps: i64) -> (r: (Option<u32>, Option<u32>))
    ensures
        ({
            let upload = if upload_kbps <= 0 {
                1
            } else {
                rate(upload_kbps)
            };
            match r.0 {
                Some(n) => n == upload && n > 0,
                None => upload == 0,
            }
        }),
        match r.1 {
            Some(n) => download_kbps > 0 && n == rate(download_kbps) && n > 0,
            None => download_kbps <= 0 || rate(download_kbps) == 0,
        },
{
    let upload: u32 = if upload_kbps <= 0 {
        1
    } else {
        rate_of(upload_kbps)
    };
    let download: u32 = if download_kbps <= 0 {
        0
    } else {
        rate_of(download_kbps)
    };
    (nonzero_rate(upload), nonzero_rate(download))
}

// ---------------------------------------------------------------------------
// Playing a torrent
// ---------------------------------------------------------------------------

/// Why a torrent cannot be played.
#[derive(Debug, Clone, Copy, PartialEq, Eq, Structural)]
pub enum ResolveError {
    /// The magnet names no torrent.
    NoInfoHash,
    /// The file to play cannot be told.
    File(FileSelectionError),
}

/// The file that a magnet asks for, or why there is none.
pub open spec fn file_for(files: Seq<CachedTorrentFile>, magnet: Seq<char>) -> Result<
    int,
    FileSelectionError,
> {
    let requested = match first_number(magnet_pairs(magnet), "file_idx"@) {
        Some(n) => Some(n as usize),
        None => None,
    };
    selected_file(files, requested, first_value(magnet_pairs(magnet), "file"@))
}

/// Chooses the file that a magnet asks for.
pub fn choose_file(files: &Vec<CachedTorrentFile>, magnet: &str) -> (r: Result<
    usize,
    FileSelectionError,
>)
    ensures
        match r {
            Ok(i) => file_for(files@, magnet@) == Ok::<int, FileSelectionError>(i as int) && i
                < files.len(),
            Err(e) => file_for(files@, magnet@) == Err::<int, FileSelectionError>(e),
        },
{
    let requested = parse_file_idx_param(magnet);
    let wanted = parse_file_param(magnet);
    let wanted_text = match &wanted {
        Some(w) => Some(w.as_str()),
        None => None,
    };
    select_file_index(files, requested, wanted_text)
}

/// The info hash of a torrent that is to be played. Where its metadata is
/// known, the file to play has to be told from it before the torrent is added.
pub fn plan_resolve(magnet: &str, cached: Option<&CachedTorrentMetadata>) -> (r: Result<
    String,
    ResolveError,
>)
    ensures
        match magnet_hash(magnet@) {
            None => r == Err::<String, ResolveError>(ResolveError::NoInfoHash),
            Some(hash) => match cached {
                Some(c) => match file_for(c.files@, magnet@) {
                    Ok(_) => r matches Ok(h) && h@ == hash,
                    Err(e) => r == Err::<String, ResolveError>(ResolveError::File(e)),
                },
                None => r matches Ok(h) && h@ == hash,
            },
        },
{
    let hash = match parse_info_hash_param(magnet) {
        Some(h) => h,
        None => {
            return Err(ResolveError::NoInfoHash);
        },
    };
    if let Some(c) = cached {
        if let Err(e) = choose_file(&c.files, magnet) {
            return Err(ResolveError::File(e));
        }
    }
    Ok(hash)
}

/// The file to play and where the torrent engine serves it.
pub fn resolve_stream(
    port: u16,
    torrent_id: usize,
    files: &Vec<CachedTorrentFile>,
    magnet: &str,
) -> (r: Result<(usize, String), ResolveError>)
    ensures
        match file_for(files@, magnet@) {
            Ok(i) => r matches Ok((file_idx, url)) && file_idx == i && url@ == stream_address(
                port,
                torrent_id,
                file_idx,
            ),
            Err(e) => r == Err::<(usize, String), ResolveError>(ResolveError::File(e)),
        },
{
    match choose_file(files, magnet) {
        Ok(i) => Ok((i, stream_url(port, torrent_id, i))),
        Err(e) => Err(ResolveError::File(e)),
    }
}

// ---------------------------------------------------------------------------
// Laws of the files
// ---------------------------------------------------------------------------

proof fn lemma_wanted_comes_first(files: Seq<CachedTorrentFile>, wanted: Seq<char>, k: int)
    requires
        0 <= k < files.len(),
        wanted_video(files[k].name@, wanted),
    ensures
        wanted_index(files, wanted) matches Some(i) && i <= k,
    decreases files.len(),
{
    if k < files.len() - 1 {
        assert(files.drop_last()[k] == files[k]);
        lemma_wanted_comes_first(files.drop_last(), wanted, k);
    } else {
        lemma_wanted_is_video(files.drop_last(), wanted);
    }
}

/// A video that is asked for by its name is played, whatever number is asked for: the
/// first of that name, in whatever case it is written.
pub proof fn law_file_of_that_name_is_played(
    files: Seq<CachedTorrentFile>,
    requested: Option<usize>,
    wanted: Seq<char>,
    k: int,
)
    requires
        0 <= k < files.len(),
        video_file(files[k].name@),
        lower(files[k].name@) == lower(wanted) || (file_name_spec(files[k].name@) matches Some(n)
            && lower(n) == lower(wanted)),
    ensures
        selected_file(files, requested, Some(wanted)) matches Ok(i) && 0 <= i <= k && video_file(
            files[i].name@,
        ) && (lower(files[i].name@) == lower(wanted)
            || (file_name_spec(files[i].name@) matches Some(
            n,
        ) && lower(n) == lower(wanted))),
{
    lemma_wanted_comes_first(files, wanted, k);
    lemma_wanted_is_video(files, wanted);
}

/// Whether none of the files is the video that is asked for by name.
pub open spec fn none_of_that_name(
    files: Seq<CachedTorrentFile>,
    wanted: Option<Seq<char>>,
) -> bool {
    wanted matches Some(w) ==> forall|j: int|
        0 <= j < files.len() && video_file(#[trigger] files[j].name@) ==> lower(files[j].name@)
            != lower(w) && (file_name_spec(files[j].name@) matches Some(n) ==> lower(n) != lower(w))
}

proof fn lemma_none_of_that_name(files: Seq<CachedTorrentFile>, wanted: Option<Seq<char>>)
    requires
        none_of_that_name(files, wanted),
    ensures
        wanted matches Some(w) ==> wanted_index(files, w) is None,
{
    if let Some(w) = wanted {
        lemma_wanted_is_video(files, w);
        if let Some(i) = wanted_index(files, w) {
            assert(video_file(files[i].name@));
        }
    }
}

/// Where no file has the name that is asked for, the video with the number that is
/// asked for is played.
pub proof fn law_file_of_that_number_is_played(
    files: Seq<CachedTorrentFile>,
    requested: usize,
    wanted: Option<Seq<char>>,
)
    requires
        requested < files.len(),
        video_file(files[requested as int].name@),
        none_of_that_name(files, wanted),
    ensures
        selected_file(files, Some(requested), wanted) == Ok::<int, FileSelectionError>(
            requested as int,
        ),
{
    lemma_none_of_that_name(files, wanted);
}

proof fn lemma_place_of(files: Seq<CachedTorrentFile>, k: int)
    requires
        0 <= k < files.len(),
        video_file(files[k].name@),
    ensures
        video_places(files).contains(k),
    decreases files.len(),
{
    let all = video_places(files);
    if k == files.len() - 1 {
        assert(all[all.len() - 1] == k);
    } else {
        assert(files.drop_last()[k] == files[k]);
        lemma_place_of(files.drop_last(), k);
        let before = video_places(files.drop_last());
        let j = choose|j: int| 0 <= j < before.len() && before[j] == k;
        assert(all[j] == k);
    }
}

proof fn lemma_places_differ(files: Seq<CachedTorrentFile>)
    ensures
        video_places(files).no_duplicates(),
        forall|j: int|
            0 <= j < video_places(files).len() ==> 0 <= #[trigger] video_places(files)[j]
                < files.len(),
    decreases files.len(),
{
    if files.len() > 0 {
        lemma_places_differ(files.drop_last());
    }
}

/// Where nothing says which file is meant, a video is played that is at least twice as
/// large as every other, and so the only one; where there is no such video, none is.
pub proof fn law_clear_choice_is_played(
    files: Seq<CachedTorrentFile>,
    requested: Option<usize>,
    wanted: Option<Seq<char>>,
    k: int,
)
    requires
        0 <= k < files.len(),
        video_file(files[k].name@),
        files[k].length > 0,
        none_of_that_name(files, wanted),
        requested matches Some(i) ==> i >= files.len() || !video_file(files[i as int].name@),
    ensures
        (forall|j: int|
            0 <= j < files.len() && j != k && video_file(#[trigger] files[j].name@)
                ==> files[k].length >= 2 * files[j].length) ==> selected_file(
            files,
            requested,
            wanted,
        ) == Ok::<int, FileSelectionError>(k),
        selected_file(files, requested, wanted) matches Ok(i) ==> i == k || files[i].length >= 2
            * files[k].length || files[i].length == u64::MAX,
{
    lemma_none_of_that_name(files, wanted);
    lemma_places_differ(files);
    lemma_places_are_videos(files);
    lemma_place_of(files, k);
    let videos = video_places(files);
    let keys = size_keys(files);
    let order = ranked(keys);
    crate::order::law_ranking(keys);
    let p = choose|p: int| 0 <= p < videos.len() && videos[p] == k;
    assert(order.contains(p));
    let q = choose|q: int| 0 <= q < order.len() && order[q] == p;
    if videos.len() >= 2 {
        let a = videos[order[0]];
        let b = videos[order[1]];
        assert(keys[order[0]] == seq![files[a].length]);
        assert(keys[order[1]] == seq![files[b].length]);
        assert(keys[p] == seq![files[k].length]);
        assert(video_file(files[a].name@) && video_file(files[b].name@));
        if q > 0 {
            assert(crate::order::key_ge(keys[order[0]], keys[order[q]]));
            assert(files[a].length >= files[k].length) by {
                reveal_with_fuel(crate::order::key_ge, 2);
            }
            if q > 1 {
                assert(crate::order::key_ge(keys[order[1]], keys[order[q]]));
                assert(files[b].length >= files[k].length) by {
                    reveal_with_fuel(crate::order::key_ge, 2);
                }
            }
        }
    }
}

/// A torrent whose videos cannot be told apart is refused, and the refusal tells what
/// was asked for.
pub proof fn law_unclear_choices_are_refused(
    files: Seq<CachedTorrentFile>,
    requested: Option<usize>,
    wanted: Option<Seq<char>>,
)
    requires
        files.len() <= usize::MAX,
        none_of_that_name(files, wanted),
        requested matches Some(i) ==> i >= files.len() || !video_file(files[i as int].name@),
        forall|j: int, k: int|
            0 <= j < files.len() && 0 <= k < files.len() && video_file(#[trigger] files[j].name@)
                && video_file(#[trigger] files[k].name@) ==> files[j].length == files[k].length
                && 0 < files[j].length < u64::MAX,
    ensures
        files.len() == 0 ==> selected_file(files, requested, wanted) == Err::<
            int,
            FileSelectionError,
        >(FileSelectionError::NoFiles),
        files.len() > 0 && video_places(files).len() != 1
            ==> selected_file(files, requested, wanted)
            == Err::<int, FileSelectionError>(
            match requested {
                Some(index) => FileSelectionError::BadIndex { index, files: files.len() as usize },
                None => FileSelectionError::Ambiguous {
                    videos: video_places(files).len() as usize,
                },
            },
        ),
{
    lemma_none_of_that_name(files, wanted);
    lemma_places_are_videos(files);
    crate::order::law_ranking(size_keys(files));
    let videos = video_places(files);
    let order = ranked(size_keys(files));
    if videos.len() >= 2 {
        assert(video_file(files[videos[order[0]]].name@));
        assert(video_file(files[videos[order[1]]].name@));
    }
}

/// Every subtitle that goes with the video is listed, under its number and its path: an
/// `srt` file of twenty mebibytes at most that is not empty. Nothing else is.
pub proof fn law_subtitles_are_listed(
    files: Seq<CachedTorrentFile>,
    selected: int,
    n: nat,
    k: int,
    i: int,
)
    requires
        0 <= selected < files.len(),
        n <= files.len(),
    ensures
        ({
            let list = sidecars(files, selected, n);
            &&& 0 <= k < list.len() ==> {
                let s = list[k];
                let file = files[s.file_idx];
                &&& 0 <= s.file_idx < n
                &&& 0 < file.length <= 20 * 1024 * 1024
                &&& extension_spec(file.name@) matches Some(e) && lower(e) == lower("srt"@)
                &&& goes_with(files, selected, file.name@)
                &&& s.path == with_slashes(file.name@)
            }
            &&& (0 <= i < n && 0 < files[i].length <= 20 * 1024 * 1024 && (extension_spec(
                files[i].name@,
            ) matches Some(e) && lower(e) == lower("srt"@)) && goes_with(
                files,
                selected,
                files[i].name@,
            )) ==> exists|j: int| 0 <= j < list.len() && (#[trigger] list[j]).file_idx == i
        }),
    decreases n,
{
    if n > 0 {
        let before = sidecars(files, selected, (n - 1) as nat);
        let list = sidecars(files, selected, n);
        if k < before.len() {
            law_subtitles_are_listed(files, selected, (n - 1) as nat, k, i);
            if 0 <= k {
                assert(list[k] == before[k]);
            }
        } else {
            law_subtitles_are_listed(files, selected, (n - 1) as nat, 0, i);
        }
        if i == n - 1 && sidecar(files, selected, i) is Some {
            assert(list[list.len() - 1].file_idx == i);
        } else if exists|j: int| 0 <= j < before.len() && (#[trigger] before[j]).file_idx == i {
            let j = choose|j: int| 0 <= j < before.len() && (#[trigger] before[j]).file_idx == i;
            assert(list[j].file_idx == i);
        }
    }
}

/// What a subtitle is for is read from the words of its name.
pub proof fn law_subtitles_are_what_they_say(
    files: Seq<CachedTorrentFile>,
    selected: int,
    i: int,
)
    requires
        0 <= i < files.len(),
    ensures
        sidecar(files, selected, i) matches Some(s) ==> {
            let said = name_words(files[i].name@);
            &&& s.file_idx == i
            &&& said.contains("forced"@) ==> s.is_forced
            &&& said.contains("foreign"@) ==> s.is_forced
            &&& said.contains("signs"@) ==> s.is_forced
            &&& said.contains("sdh"@) ==> s.is_hearing_impaired
            &&& said.contains("cc"@) ==> s.is_hearing_impaired
            &&& said.contains("hi"@) ==> s.is_hearing_impaired
            &&& said.contains("hearingimpaired"@) ==> s.is_hearing_impaired
            &&& s.is_forced ==> said.contains("forced"@) || said.contains("foreign"@)
                || said.contains("signs"@)
            &&& s.is_hearing_impaired ==> said.contains("sdh"@) || said.contains("cc"@)
                || said.contains("hi"@) || said.contains("hearingimpaired"@)
        },
{
}

/// A subtitle beside the only video of its directory goes with it, whatever it is
/// called, also in a directory of subtitles below; one that is named like the video
/// goes with it from anywhere.
pub proof fn law_near_subtitles_go_along(
    files: Seq<CachedTorrentFile>,
    selected: int,
    subtitle: Seq<char>,
)
    requires
        0 <= selected < files.len(),
    ensures
        ({
            let video = with_slashes(files[selected].name@);
            let at = dir_view(with_slashes(subtitle)).parts;
            let home = dir_view(video).parts;
            let only = videos_in(files, parent_of(dir_view(video))) == 1;
            let same_root = crate::paths::rooted(video) == crate::paths::rooted(
                with_slashes(subtitle),
            );
            &&& only && same_root && at.len() > 0 && home.len() > 0 && at.drop_last()
                == home.drop_last() ==> goes_with(files, selected, subtitle)
            &&& only && same_root && at.len() > 1 && home.len() > 0
                && at.drop_last().drop_last() == home.drop_last() && (lower(
                at[at.len() - 2],
            ) == lower("subs"@) || lower(at[at.len() - 2]) == lower("subtitles"@)) && at[at.len()
                - 2] != "."@ && at[at.len() - 2] != ".."@ ==> goes_with(files, selected, subtitle)
            &&& stem_spec(video).len() > 0 && begins(
                lower(stem_spec(with_slashes(subtitle))),
                lower(stem_spec(video)),
            ) ==> goes_with(files, selected, subtitle)
        }),
{
}

/// The language of a subtitle is that of the last word in its name that is one.
pub proof fn law_last_language_counts(names: Seq<Seq<char>>, k: int)
    requires
        0 <= k < names.len(),
        two_letters(lower(names[k])) is Some,
        forall|j: int| k < j < names.len() ==> two_letters(lower(#[trigger] names[j])) is None,
    ensures
        last_language(names) == two_letters(lower(names[k])),
    decreases names.len(),
{
    if k < names.len() - 1 {
        assert(two_letters(lower(names[names.len() - 1])) is None);
        let short = names.drop_last();
        assert(short[k] == names[k]);
        assert forall|j: int| k < j < short.len() implies two_letters(lower(#[trigger] short[j]))
            is None by {
            assert(short[j] == names[j]);
        }
        law_last_language_counts(short, k);
    }
}

// ---------------------------------------------------------------------------
// Laws of magnets and looks
// ---------------------------------------------------------------------------

/// The hash of a magnet is that of its first `xt` field with one, behind the last
/// colon, in lower case; a hash alone is taken as it is.
pub proof fn law_first_hash_counts(magnet: Seq<char>, k: int)
    ensures
        is_hash(magnet) ==> magnet_hash(magnet) == Some(lower(magnet)),
        ({
            let pairs = magnet_pairs(magnet);
            !is_hash(magnet) && 0 <= k < pairs.len() && pairs[k].0 == "xt"@ && is_hash(
                after_colon(pairs[k].1),
            ) && (forall|j: int|
                0 <= j < k ==> (#[trigger] pairs[j]).0 != "xt"@
                    || !is_hash(after_colon(pairs[j].1)))
                ==> magnet_hash(magnet) == Some(lower(after_colon(pairs[k].1)))
        }),
        magnet_hash(magnet) matches Some(h) ==> h.len() == 40,
{
    let pairs = magnet_pairs(magnet);
    lemma_first_hash(pairs, k);
}

proof fn lemma_first_hash(pairs: Seq<(Seq<char>, Seq<char>)>, k: int)
    ensures
        0 <= k < pairs.len() && pairs[k].0 == "xt"@ && is_hash(after_colon(pairs[k].1)) && (forall|
            j: int,
        |
            0 <= j < k ==> (#[trigger] pairs[j]).0 != "xt"@ || !is_hash(after_colon(pairs[j].1)))
            ==> first_hash(pairs) == Some(lower(after_colon(pairs[k].1))),
        first_hash(pairs) matches Some(h) ==> h.len() == 40,
    decreases pairs.len(),
{
    if pairs.len() > 0 {
        let rest = pairs.skip(1);
        lemma_first_hash(rest, k - 1);
        if 0 < k < pairs.len() {
            assert(rest[k - 1] == pairs[k]);
            assert(forall|j: int| 0 <= j < k - 1 ==> #[trigger] rest[j] == pairs[j + 1]);
            if forall|j: int|
                0 <= j < k ==> (#[trigger] pairs[j]).0 != "xt"@ || !is_hash(
                    after_colon(pairs[j].1),
                ) {
                assert(pairs[0].0 != "xt"@ || !is_hash(after_colon(pairs[0].1)));
                assert forall|j: int| 0 <= j < k - 1 implies (#[trigger] rest[j]).0 != "xt"@
                    || !is_hash(after_colon(rest[j].1)) by {
                    assert(rest[j] == pairs[j + 1]);
                }
            }
        }
    }
}

/// The file that a magnet asks for by name or by number is the one that is played.
pub proof fn law_magnets_choose_the_file(files: Seq<CachedTorrentFile>, magnet: Seq<char>, k: int)
    requires
        0 <= k < files.len() <= usize::MAX,
        video_file(files[k].name@),
    ensures
        first_value(magnet_pairs(magnet), "file"@) == Some(files[k].name@) ==> (magnet_file(
            files,
            magnet,
        ) matches Some(i) && i <= k && magnet_file_bytes(files, magnet) == Some(files[i].length)),
        first_value(magnet_pairs(magnet), "file"@) is None && first_number(
            magnet_pairs(magnet),
            "file_idx"@,
        ) == Some(k as nat) ==> magnet_file(files, magnet) == Some(k) && magnet_file_bytes(
            files,
            magnet,
        ) == Some(files[k].length),
{
    let pairs = magnet_pairs(magnet);
    let requested = match first_number(pairs, "file_idx"@) {
        Some(n) => Some(n as usize),
        None => None,
    };
    if first_value(pairs, "file"@) == Some(files[k].name@) {
        law_file_of_that_name_is_played(files, requested, files[k].name@, k);
    }
    if first_value(pairs, "file"@) is None && first_number(pairs, "file_idx"@) == Some(k as nat) {
        law_file_of_that_number_is_played(files, k as usize, None);
    }
}

/// A torrent holds as many bytes as its files together.
pub proof fn law_lengths_add_up(a: Seq<CachedTorrentFile>, b: Seq<CachedTorrentFile>)
    ensures
        total_length(a + b) == total_length(a) + total_length(b),
        a.len() == 1 ==> total_length(a) == a[0].length,
        a.len() == 0 ==> total_length(a) == 0,
    decreases b.len(),
{
    if b.len() == 0 {
        assert(a + b =~= a);
    } else {
        assert((a + b).drop_last() =~= a + b.drop_last());
        law_lengths_add_up(a, b.drop_last());
    }
    if a.len() == 1 {
        assert(total_length(a.drop_last()) == 0);
    }
}

/// A torrent that is being downloaded counts as finished where every byte of the chosen
/// file is there, and never where no file can be chosen; its peers are those that are
/// connected.
pub proof fn law_downloads_are_judged_by_the_file(
    managed: ManagedTorrentAvailability,
    files: Seq<CachedTorrentFile>,
    progress: Seq<u64>,
    magnet: Seq<char>,
)
    ensures
        ({
            let look = managed_view(managed, files, progress, magnet);
            &&& look.managed matches Some(state) && state.live_peers == managed.live_peers
                && match (
            magnet_file(files, magnet)) {
                Some(i) => {
                    &&& look.selected_file_bytes == Some(files[i].length)
                    &&& state.total_bytes == files[i].length
                    &&& 0 <= i < progress.len() ==> state.progress_bytes == progress[i] && (
                    state.finished <==> 0 < files[i].length <= progress[i])
                    &&& i >= progress.len() ==> state.progress_bytes == 0 && !state.finished
                },
                None => !state.finished && look.selected_file_bytes is None
                    && state.progress_bytes == managed.progress_bytes && state.total_bytes
                    == managed.total_bytes,
            }
            &&& look.total_bytes == total_length(files)
            &&& look.file_count == files.len()
            &&& !look.from_cache && look.elapsed_ms == 0 && look.peers.len() == 0
                && look.seen_peers == 0
        }),
{
}

/// A look at a list counts all peers and hands on the first thirty-two of them.
pub proof fn law_looks_count_all_peers(
    peers: Seq<Peer>,
    files: Seq<CachedTorrentFile>,
    magnet: Seq<char>,
    elapsed_ms: u64,
    from_cache: bool,
    i: int,
)
    ensures
        ({
            let look = listed_preflight_spec(peers, files, magnet, elapsed_ms, from_cache);
            &&& look.seen_peers == peers.len()
            &&& peers.len() <= 32 ==> look.peers.len() == peers.len()
            &&& peers.len() > 32 ==> look.peers.len() == 32
            &&& 0 <= i < look.peers.len() ==> look.peers[i] == peers[i]
            &&& look.elapsed_ms == elapsed_ms && look.from_cache == from_cache
            &&& look.total_bytes == total_length(files) && look.file_count == files.len()
            &&& look.selected_file_bytes is Some <==> magnet_file(files, magnet) is Some
            &&& magnet_file(files, magnet) matches Some(j) ==> look.selected_file_bytes == Some(
                files[j].length,
            )
            &&& look.managed is None
        }),
{
}

/// The torrent engine is asked for a torrent that nothing is known of: with the peers
/// that are known, where there are any, each of which may take 1.2 seconds to connect
/// and 2.5 seconds to answer.
pub proof fn law_engine_is_asked_last(
    magnet: Seq<char>,
    managed: ManagedTorrent,
    cached: MetadataView,
    known_peers: Seq<Peer>,
)
    requires
        magnet_hash(magnet) is Some,
    ensures
        planned(magnet, None, None, known_peers) matches PlanView::Ask(q) && q.list_only
            && magnet_hash(magnet) == Some(q.info_hash) && q.connect_timeout_ms == 1200
            && q.read_write_timeout_ms == 2500 && (known_peers.len() > 0 ==> q.initial_peers
            == Some(known_peers)) && (known_peers.len() == 0 ==> q.initial_peers is None),
        planned(magnet, None, Some(cached), known_peers) matches PlanView::Answer(look)
            && look.from_cache && look.elapsed_ms == 0 && look.seen_peers
            == cached.seen_peers.len() && look.total_bytes == total_length(cached.files)
            && look.managed is None,
        planned(magnet, Some(managed), Some(cached), known_peers) matches PlanView::Answer(look)
            && !look.from_cache && look.managed is Some && look.total_bytes == total_length(
            managed.files@,
        ),
{
}

/// What the engine lists is remembered whole, with the trackers of the magnet; of a
/// torrent that is being downloaded already nothing is remembered, and its state is
/// handed on.
pub proof fn law_lists_are_remembered(
    response: PreflightResponse,
    magnet: Seq<char>,
    elapsed_ms: u64,
)
    ensures
        response matches PreflightResponse::Listed { torrent_bytes, seen_peers, files } ==> (learnt(
            response,
            magnet,
            elapsed_ms,
        ) matches Ok(pair) && pair.0.elapsed_ms == elapsed_ms && !pair.0.from_cache
            && pair.0.seen_peers == seen_peers@.len() && (pair.1 matches Some(kept)
            && kept.torrent_bytes == torrent_bytes@ && kept.seen_peers == seen_peers@ && kept.files
            == files@ && kept.trackers == values_of(magnet_pairs(magnet), "tr"@))),
        response matches PreflightResponse::AlreadyManaged(state) ==> (learnt(
            response,
            magnet,
            elapsed_ms,
        ) matches Ok(pair) && pair.1 is None && pair.0.managed == state && pair.0.elapsed_ms
            == elapsed_ms && pair.0.selected_file_bytes is None && pair.0.peers.len() == 0),
{
}

/// Of the torrents with a hash, in whatever case it is written, the first is found.
pub proof fn law_torrents_are_found_by_hash(hashes: Seq<Seq<char>>, hash: Seq<char>, k: int)
    requires
        0 <= k < hashes.len(),
    ensures
        lower(hashes[k]) == lower(hash) ==> hash_place(hashes, hash) is Some,
        hash_place(hashes, hash) matches Some(i) ==> 0 <= i < hashes.len() && lower(hashes[i])
            == lower(hash) && (k < i ==> lower(hashes[k]) != lower(hash)),
    decreases hashes.len(),
{
    let rest = hashes.skip(1);
    if !same_folded(hashes[0], hash) && rest.len() > 0 {
        if k > 0 {
            assert(rest[k - 1] == hashes[k]);
            law_torrents_are_found_by_hash(rest, hash, k - 1);
        } else {
            law_torrents_are_found_by_hash(rest, hash, 0);
        }
        if let Some(i) = hash_place(rest, hash) {
            assert(rest[i] == hashes[i + 1]);
        }
    }
}

/// Every peer that answered comes before those that were only known, each once.
pub proof fn law_responsive_peers_come_first(responsive: Seq<Peer>, seen: Seq<Peer>, k: int, p: Peer)
    requires
        0 <= k < responsive.len(),
    ensures
        ({
            let all = prioritized(responsive, seen);
            let first = crate::order::distinct(responsive);
            &&& all.no_duplicates()
            &&& all.contains(p) <==> responsive.contains(p) || seen.contains(p)
            &&& first.len() <= all.len() && all.take(first.len() as int) == first
            &&& first.contains(responsive[k])
        }),
{
    let all = responsive + seen;
    crate::order::law_distinct(all);
    crate::order::law_distinct(responsive);
    crate::order::law_first_occurrences_stay_in_order(responsive, seen);
    assert(responsive.contains(responsive[k]));
    if all.contains(p) {
        let i = choose|i: int| 0 <= i < all.len() && all[i] == p;
        if i < responsive.len() {
            assert(responsive[i] == p);
        } else {
            assert(seen[i - responsive.len()] == p);
        }
    }
    if responsive.contains(p) {
        let i = choose|i: int| 0 <= i < responsive.len() && responsive[i] == p;
        assert(all[i] == p);
    }
    if seen.contains(p) {
        let i = choose|i: int| 0 <= i < seen.len() && seen[i] == p;
        assert(all[i + responsive.len()] == p);
    }
}

/// A rate in kilobytes is that many times 1024 bytes, as far as a number can tell, and
/// a greater rate is never a lower limit.
pub proof fn law_rates_are_in_kilobytes(kbps: i64, more: i64)
    requires
        0 <= kbps <= more < 0x1_0000_0000,
    ensures
        kbps < 0x40_0000 ==> rate(kbps) == kbps * 1024,
        kbps >= 0x40_0000 ==> rate(kbps) == 0xffff_ffff,
        rate(kbps) <= rate(more),
{
    assert(kbps as int % 0x1_0000_0000 == kbps);
    assert(more as int % 0x1_0000_0000 == more);
}

/// The videos of a directory are counted, each once.
pub proof fn law_videos_are_counted(
    files: Seq<CachedTorrentFile>,
    file: CachedTorrentFile,
    dir: DirView,
)
    ensures
        videos_in(Seq::empty(), dir) == 0,
        video_file(file.name@) && parent_of(dir_view(with_slashes(file.name@))) == dir ==> videos_in(
            files.push(file),
            dir,
        ) == videos_in(files, dir) + 1,
        !video_file(file.name@) || parent_of(dir_view(with_slashes(file.name@))) != dir
            ==> videos_in(files.push(file), dir) == videos_in(files, dir),
{
    assert(files.push(file).drop_last() =~= files);
}

} // verus!
