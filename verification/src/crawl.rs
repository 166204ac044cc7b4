//! The media crawler: classifies a directory snapshot into catalog
//! entries. The filesystem is read outside; these functions take the
//! listing as plain values and are pure.

use vstd::prelude::*;
use vstd::string::*;
use crate::format::{spec_extension, spec_is_supported_video_name, spec_stem};
use crate::language::{spec_language_from, LanguageCode};
use crate::media::{
    FsEntry, Media, MediaContent, MediaMetaData, MediaPaths, SeasonEntry, SeriesContents, Subtitle,
    season_wf, series_wf, spec_join,
};
use crate::parse::{digits_value, leading_digits, sat32};

verus! {

/// A subtitle file name taken apart: `<digits?><lang3><name>.<ext>`.
#[derive(Debug, Clone, PartialEq, Eq)]
pub struct ParsedSubtitle {
    pub name: String,
    pub language: LanguageCode,
    pub episode: Option<u32>,
    pub extension: String,
}

/// What a subtitle file name means, if it has the expected form: its
/// stem is optional digits (the episode number), then a three-letter
/// language code from the closed set, then the display name.
pub open spec fn spec_parse_sub(f: Seq<char>) -> Option<
    (Seq<char>, LanguageCode, Option<u32>, Seq<char>),
> {
    match spec_extension(f) {
        Option::None => Option::None,
        Option::Some(ext) => {
            let st = spec_stem(f);
            let digits = leading_digits(st);
            let epi: Option<u32> = if digits.len() == 0 {
                Option::None
            } else {
                Option::Some(sat32(digits_value(digits)))
            };
            let ls = digits.len() as int;
            if st.len() >= ls + 3 {
                match spec_language_from(st.subrange(ls, ls + 3)) {
                    Option::None => Option::None,
                    Option::Some(l) => Option::Some((st.skip(ls + 3), l, epi, ext)),
                }
            } else {
                Option::None
            }
        },
    }
}

/// Takes a subtitle file name apart; rejects names without an extension,
/// too short a stem, or an unknown language code.
pub fn parse_subtitle_name(file_name: &str) -> (r: Option<ParsedSubtitle>)
    ensures
        r matches Some(p) ==> spec_parse_sub(file_name@) == Option::Some(
            (p.name@, p.language, p.episode, p.extension@),
        ),
        r is None ==> spec_parse_sub(file_name@) is None,
{
    let (stem, ext_opt) = crate::format::split_extension(file_name);
    let ext = match ext_opt {
        Some(e) => e,
        None => {
            return None;
        },
    };
    let (ls, episode) = crate::parse::leading_number(stem.as_str());
    let n: usize = stem.as_str().unicode_len();
    if n < 3 || ls > n - 3 {
        return None;
    }
    let code = stem.as_str().substring_char(ls, ls + 3);
    let language = match LanguageCode::try_from_str(code) {
        Some(l) => l,
        None => {
            return None;
        },
    };
    let name = stem.as_str().substring_char(ls + 3, n).to_owned();
    proof {
        let st = spec_stem(file_name@);
        assert(st.subrange(ls as int, ls + 3) =~= code@);
        assert(st.subrange(ls + 3, n as int) =~= st.skip(ls + 3));
    }
    Some(ParsedSubtitle { name, language, episode, extension: ext })
}

/// The movie flavor of subtitle names: no digits, just the language code
/// and the display name.
pub open spec fn spec_movie_sub(f: Seq<char>) -> Option<(LanguageCode, Seq<char>)> {
    let st = spec_stem(f);
    if st.len() >= 3 {
        match spec_language_from(st.take(3)) {
            Option::None => Option::None,
            Option::Some(l) => Option::Some((l, st.skip(3))),
        }
    } else {
        Option::None
    }
}

/// Reads a movie subtitle file name: the first three stem characters are
/// the language, the rest is the display name.
pub fn parse_movie_subtitle_name(file_name: &str) -> (r: Option<(LanguageCode, String)>)
    ensures
        r matches Some((l, nm)) ==> spec_movie_sub(file_name@) == Option::Some((l, nm@)),
        r is None ==> spec_movie_sub(file_name@) is None,
{
    let (stem, _) = crate::format::split_extension(file_name);
    let n: usize = stem.as_str().unicode_len();
    if n < 3 {
        return None;
    }
    let code = stem.as_str().substring_char(0, 3);
    let language = match LanguageCode::try_from_str(code) {
        Some(l) => l,
        None => {
            return None;
        },
    };
    let name = stem.as_str().substring_char(3, n).to_owned();
    proof {
        let st = spec_stem(file_name@);
        assert(st.subrange(0, 3) =~= st.take(3));
        assert(st.subrange(3, n as int) =~= st.skip(3));
    }
    Some((language, name))
}

// ---------------------------------------------------------------------------
// Subtitle pairing: each stem pairs a text subtitle with its mp4 track.
// ---------------------------------------------------------------------------

/// One stem's pair: the parsed text subtitle and whether the derived mp4
/// container already exists beside it.
#[derive(Debug, Clone, PartialEq, Eq)]
pub struct SubtitlePair {
    pub stem: String,
    pub sub: ParsedSubtitle,
    pub has_mp4: bool,
}

/// The views of a list of file names.
pub open spec fn views_of(files: Seq<String>) -> Seq<Seq<char>> {
    files.map_values(|s: String| s@)
}

/// A parseable text subtitle file.
pub open spec fn spec_is_text_sub(f: Seq<char>) -> bool {
    spec_parse_sub(f) is Some && (spec_extension(f) == Option::Some("srt"@) || spec_extension(f)
        == Option::Some("vtt"@))
}

/// Some parseable file with this stem carries the mp4 track.
pub open spec fn spec_has_mp4(files: Seq<Seq<char>>, stem: Seq<char>) -> bool {
    exists|i: int|
        0 <= i < files.len() && spec_stem(#[trigger] files[i]) == stem && spec_extension(files[i])
            == Option::Some("mp4"@) && spec_parse_sub(files[i]) is Some
}

/// A stem already appears among the collected pairs.
pub open spec fn spec_pairs_have_stem(
    ps: Seq<(Seq<char>, (Seq<char>, LanguageCode, Option<u32>, Seq<char>))>,
    stem: Seq<char>,
) -> bool {
    exists|k: int| 0 <= k < ps.len() && (#[trigger] ps[k]).0 == stem
}

/// The text-subtitle pairs of a file list, keyed by stem, first
/// occurrence of each stem winning, in order of appearance.
pub open spec fn spec_text_pairs(files: Seq<Seq<char>>) -> Seq<
    (Seq<char>, (Seq<char>, LanguageCode, Option<u32>, Seq<char>)),
>
    decreases files.len(),
{
    if files.len() == 0 {
        Seq::empty()
    } else {
        let prefix = spec_text_pairs(files.drop_last());
        let f = files.last();
        if spec_is_text_sub(f) && !spec_pairs_have_stem(prefix, spec_stem(f)) {
            prefix.push((spec_stem(f), spec_parse_sub(f)->Some_0))
        } else {
            prefix
        }
    }
}

/// The view of one collected pair.
pub open spec fn pair_view(p: SubtitlePair) -> (
    Seq<char>,
    (Seq<char>, LanguageCode, Option<u32>, Seq<char>),
) {
    (p.stem@, (p.sub.name@, p.sub.language, p.sub.episode, p.sub.extension@))
}

/// The views of a list of collected pairs.
pub open spec fn pair_views(ps: Seq<SubtitlePair>) -> Seq<
    (Seq<char>, (Seq<char>, LanguageCode, Option<u32>, Seq<char>)),
> {
    ps.map_values(|p: SubtitlePair| pair_view(p))
}

/// The full view of one collected pair, mp4 presence included.
pub open spec fn full_pair_view(p: SubtitlePair) -> (
    Seq<char>,
    (Seq<char>, LanguageCode, Option<u32>, Seq<char>),
    bool,
) {
    (p.stem@, (p.sub.name@, p.sub.language, p.sub.episode, p.sub.extension@), p.has_mp4)
}

/// The full views of a list of collected pairs.
pub open spec fn full_pair_views(ps: Seq<SubtitlePair>) -> Seq<
    (Seq<char>, (Seq<char>, LanguageCode, Option<u32>, Seq<char>), bool),
> {
    ps.map_values(|p: SubtitlePair| full_pair_view(p))
}

/// The pairs of a file list with the mp4 presence of each stem attached.
pub open spec fn spec_full_pairs(files: Seq<Seq<char>>) -> Seq<
    (Seq<char>, (Seq<char>, LanguageCode, Option<u32>, Seq<char>), bool),
> {
    spec_text_pairs(files).map_values(
        |p: (Seq<char>, (Seq<char>, LanguageCode, Option<u32>, Seq<char>))|
            (p.0, p.1, spec_has_mp4(files, p.0)),
    )
}

/// Walks a subtitle directory listing and pairs each text subtitle with
/// the presence of its mp4 track. One pair per stem; the first text file
/// of a stem wins. A stem with only an mp4 yields no pair: nothing
/// downstream reads one, since the catalog takes paired stems and the
/// generation list takes pairs without a track.
pub fn explore_subtitles(files: &Vec<String>) -> (r: Vec<SubtitlePair>)
    ensures
        pair_views(r@) == spec_text_pairs(views_of(files@)),
        forall|k: int|
            0 <= k < r@.len() ==> (#[trigger] r@[k]).has_mp4 == spec_has_mp4(
                views_of(files@),
                r@[k].stem@,
            ),
{
    let ghost fv = views_of(files@);
    let mut out: Vec<SubtitlePair> = Vec::new();
    let n = files.len();
    let mut i: usize = 0;
    while i < n
        invariant
            n == files@.len(),
            i <= n,
            fv == views_of(files@),
            pair_views(out@) == spec_text_pairs(fv.take(i as int)),
            forall|k: int|
                0 <= k < out@.len() ==> (#[trigger] out@[k]).has_mp4 == spec_has_mp4(
                    fv,
                    out@[k].stem@,
                ),
        decreases n - i,
    {
        let f = &files[i];
        proof {
            assert(fv[i as int] == f@);
            assert(fv.take(i + 1).drop_last() =~= fv.take(i as int));
            assert(fv.take(i + 1).last() == f@);
        }
        let parsed = parse_subtitle_name(f.as_str());
        let (stem, ext_opt) = crate::format::split_extension(f.as_str());
        let is_text = match (&parsed, &ext_opt) {
            (Some(_), Some(e)) => crate::text::str_eq(e.as_str(), "srt") || crate::text::str_eq(
                e.as_str(),
                "vtt",
            ),
            _ => false,
        };
        if is_text {
            // Already collected under this stem?
            let mut seen = false;
            let mut k: usize = 0;
            while k < out.len()
                invariant
                    k <= out@.len(),
                    seen ==> spec_pairs_have_stem(pair_views(out@), stem@),
                    !seen ==> forall|m: int| 0 <= m < k ==> (#[trigger] out@[m]).stem@ != stem@,
                decreases out@.len() - k,
            {
                if crate::text::str_eq(out[k].stem.as_str(), stem.as_str()) {
                    proof {
                        assert(pair_views(out@)[k as int].0 == stem@);
                    }
                    seen = true;
                    k = out.len();
                } else {
                    k = k + 1;
                }
            }
            proof {
                if !seen {
                    assert forall|m: int|
                        0 <= m < pair_views(out@).len() implies (#[trigger] pair_views(out@)[m]).0
                        != stem@ by {
                        assert(pair_views(out@)[m].0 == out@[m].stem@);
                    }
                    assert(!spec_pairs_have_stem(pair_views(out@), stem@));
                }
            }
            if !seen {
                // Does any file carry the mp4 track for this stem?
                let mut has_mp4 = false;
                let mut m: usize = 0;
                while m < n
                    invariant
                        n == files@.len(),
                        m <= n,
                        fv == views_of(files@),
                        has_mp4 ==> spec_has_mp4(fv, stem@),
                        !has_mp4 ==> forall|q: int|
                            0 <= q < m ==> !(spec_stem(#[trigger] fv[q]) == stem@ && spec_extension(
                                fv[q],
                            ) == Option::Some("mp4"@) && spec_parse_sub(fv[q]) is Some),
                    decreases n - m,
                {
                    let g = &files[m];
                    proof {
                        assert(fv[m as int] == g@);
                    }
                    let gp = parse_subtitle_name(g.as_str());
                    let (gstem, gext) = crate::format::split_extension(g.as_str());
                    let is_track = match (&gp, &gext) {
                        (Some(_), Some(e)) => crate::text::str_eq(e.as_str(), "mp4")
                            && crate::text::str_eq(gstem.as_str(), stem.as_str()),
                        _ => false,
                    };
                    if is_track {
                        has_mp4 = true;
                        m = n;
                    } else {
                        m = m + 1;
                    }
                }
                let p = parsed.unwrap();
                let pair = SubtitlePair { stem, sub: p, has_mp4 };
                out.push(pair);
                proof {
                    assert(pair_views(out@) =~= spec_text_pairs(fv.take(i + 1)));
                }
            } else {
                proof {
                    assert(pair_views(out@) =~= spec_text_pairs(fv.take(i + 1)));
                }
            }
        } else {
            proof {
                if spec_is_text_sub(f@) {
                    // A text subtitle always parses and carries srt or vtt.
                    assert(spec_parse_sub(f@) is Some);
                    assert(false);
                }
                assert(pair_views(out@) =~= spec_text_pairs(fv.take(i + 1)));
            }
        }
        i = i + 1;
    }
    proof {
        assert(fv.take(n as int) =~= fv);
    }
    out
}

// ---------------------------------------------------------------------------
// The view-level catalog: what the crawler computes, as plain sequences.
// ---------------------------------------------------------------------------

/// A subtitle as the catalog stores it, at the view level.
#[verifier::ext_equal]
pub struct SubtitleV {
    pub name: Seq<char>,
    pub language: Seq<char>,
    pub path: Seq<char>,
    pub track_path: Seq<char>,
}

/// A playable file's paths at the view level.
#[verifier::ext_equal]
pub struct PathsV {
    pub media: Seq<char>,
    pub subtitles: Seq<SubtitleV>,
}

/// One episode at the view level.
#[verifier::ext_equal]
pub struct EpisodeV {
    pub number: u32,
    pub paths: PathsV,
}

/// One season at the view level.
#[verifier::ext_equal]
pub struct SeasonV {
    pub number: u32,
    pub episodes: Seq<EpisodeV>,
}

/// An entry's content at the view level.
#[verifier::ext_equal]
pub enum ContentV {
    Movie(PathsV),
    Series(Seq<SeasonV>),
}

/// One catalog entry at the view level.
#[verifier::ext_equal]
pub struct MediaV {
    pub id: Seq<char>,
    pub thumbnail: Seq<char>,
    pub title: Seq<char>,
    pub content: ContentV,
}

/// The view of a stored subtitle.
pub open spec fn subtitle_v(s: Subtitle) -> SubtitleV {
    SubtitleV {
        name: s.name@,
        language: s.language_iso639_2t@,
        path: s.path@,
        track_path: s.track_path@,
    }
}

/// The view of stored paths.
pub open spec fn paths_v(p: MediaPaths) -> PathsV {
    PathsV {
        media: p.media@,
        subtitles: p.subtitles@.map_values(|s: Subtitle| subtitle_v(s)),
    }
}

/// The view of a stored episode.
pub open spec fn episode_v(e: crate::media::EpisodeEntry) -> EpisodeV {
    EpisodeV { number: e.number, paths: paths_v(e.paths) }
}

/// The view of a stored season.
pub open spec fn season_v(s: SeasonEntry) -> SeasonV {
    SeasonV { number: s.number, episodes: s.episodes@.map_values(|e: crate::media::EpisodeEntry| episode_v(e)) }
}

/// The view of stored content.
pub open spec fn content_v(c: MediaContent) -> ContentV {
    match c {
        MediaContent::Movie(p) => ContentV::Movie(paths_v(p)),
        MediaContent::Series(sc) => ContentV::Series(
            sc.seasons@.map_values(|s: SeasonEntry| season_v(s)),
        ),
    }
}

/// The view of a catalog entry.
pub open spec fn media_v(m: Media) -> MediaV {
    MediaV {
        id: m.id@,
        thumbnail: m.metadata.thumbnail@,
        title: m.metadata.title@,
        content: content_v(m.content),
    }
}

// ---------------------------------------------------------------------------
// What a directory snapshot looks like.
// ---------------------------------------------------------------------------

/// A season subdirectory as listed from disk.
#[derive(Debug, Clone, PartialEq, Eq)]
pub struct SeasonSnapshot {
    pub dir_name: String,
    pub entries: Vec<FsEntry>,
    /// The file names in the season's `subtitles/` directory, when that
    /// directory exists.
    pub subtitles: Option<Vec<String>>,
}

/// One top-level media folder as listed from disk.
#[derive(Debug, Clone, PartialEq, Eq)]
pub struct EntrySnapshot {
    /// The folder name, relative to the media root.
    pub name: String,
    /// The contents of `meta.json`, when present and readable.
    pub meta_json: Option<String>,
    /// The folder's own entries.
    pub entries: Vec<FsEntry>,
    /// The file names in the folder's `subtitles/` directory, if any.
    pub subtitles: Option<Vec<String>>,
    /// The folder's subdirectories, candidates for seasons.
    pub seasons: Vec<SeasonSnapshot>,
}

/// Why a folder yields no catalog entry.
#[derive(Debug, Clone, PartialEq, Eq)]
pub enum CrawlError {
    NoMetadata,
    CorruptedMetadata,
    NoMediaContent,
}

// ---------------------------------------------------------------------------
// The crawler at the view level.
// ---------------------------------------------------------------------------

/// The subtitles a pair list yields for one slot: every pair whose mp4
/// track is present and that carries the wanted episode number (any
/// episode for a movie), with its paths under `dir`. A text subtitle
/// without its track stays out of the catalog.
pub open spec fn spec_subs_of_pairs(
    dir: Seq<char>,
    ps: Seq<(Seq<char>, (Seq<char>, LanguageCode, Option<u32>, Seq<char>), bool)>,
    episode: Option<u32>,
) -> Seq<SubtitleV>
    decreases ps.len(),
{
    if ps.len() == 0 {
        Seq::empty()
    } else {
        let prefix = spec_subs_of_pairs(dir, ps.drop_last(), episode);
        let p = ps.last();
        let wanted = p.2 && match episode {
            Option::None => true,
            Option::Some(ep) => p.1.2 == Option::Some(ep),
        };
        if wanted {
            prefix.push(
                SubtitleV {
                    name: p.1.0,
                    language: crate::language::spec_iso639_2t(p.1.1),
                    path: spec_join(dir, p.0 + seq!['.'] + p.1.3),
                    track_path: spec_join(dir, p.0 + seq!['.'] + "mp4"@),
                },
            )
        } else {
            prefix
        }
    }
}

/// The subtitle pairs of an optional `subtitles/` listing.
pub open spec fn spec_dir_pairs(files: Option<Vec<String>>) -> Seq<
    (Seq<char>, (Seq<char>, LanguageCode, Option<u32>, Seq<char>), bool),
> {
    match files {
        Option::None => Seq::empty(),
        Option::Some(fs) => spec_full_pairs(views_of(fs@)),
    }
}

/// The index of the first supported playable file at or after `i`.
pub open spec fn first_movie_from(entries: Seq<FsEntry>, i: int) -> Option<int>
    decreases entries.len() - i,
{
    if i < 0 || i >= entries.len() {
        Option::None
    } else if entries[i].is_file && spec_is_supported_video_name(entries[i].name@) {
        Option::Some(i)
    } else {
        first_movie_from(entries, i + 1)
    }
}

/// The movie content of a folder, when a supported playable file sits at
/// its top level.
pub open spec fn spec_movie_paths(e: EntrySnapshot) -> Option<PathsV> {
    match first_movie_from(e.entries@, 0) {
        Option::None => Option::None,
        Option::Some(idx) => Option::Some(
            PathsV {
                media: spec_join(e.name@, e.entries@[idx].name@),
                subtitles: spec_subs_of_pairs(
                    spec_join(e.name@, "subtitles"@),
                    spec_dir_pairs(e.subtitles),
                    Option::None,
                ),
            },
        ),
    }
}

/// The number a folder or file name carries, clamped into 32 bits.
pub open spec fn spec_num_of(name: Seq<char>) -> Option<u32> {
    match crate::parse::spec_numeric_content(name) {
        Option::None => Option::None,
        Option::Some(v) => Option::Some(sat32(v)),
    }
}

/// Whether an episode number is already taken.
pub open spec fn spec_eps_have(eps: Seq<EpisodeV>, n: u32) -> bool {
    exists|k: int| 0 <= k < eps.len() && (#[trigger] eps[k]).number == n
}

/// Inserts an episode into a list sorted by episode number. The number is
/// assumed absent.
pub open spec fn spec_insert_ep(eps: Seq<EpisodeV>, e: EpisodeV) -> Seq<EpisodeV>
    decreases eps.len(),
{
    if eps.len() == 0 {
        seq![e]
    } else if e.number < eps[0].number {
        seq![e] + eps
    } else {
        seq![eps[0]] + spec_insert_ep(eps.drop_first(), e)
    }
}

/// The episodes of one season directory: each supported video file whose
/// name carries a number claims that episode; the first file with a
/// number wins it.
pub open spec fn spec_season_eps(
    season_dir: Seq<char>,
    pairs: Seq<(Seq<char>, (Seq<char>, LanguageCode, Option<u32>, Seq<char>), bool)>,
    entries: Seq<FsEntry>,
) -> Seq<EpisodeV>
    decreases entries.len(),
{
    if entries.len() == 0 {
        Seq::empty()
    } else {
        let prefix = spec_season_eps(season_dir, pairs, entries.drop_last());
        let f = entries.last();
        if f.is_file && spec_is_supported_video_name(f.name@) && spec_num_of(f.name@) is Some {
            let ep = spec_num_of(f.name@)->Some_0;
            if spec_eps_have(prefix, ep) {
                prefix
            } else {
                spec_insert_ep(
                    prefix,
                    EpisodeV {
                        number: ep,
                        paths: PathsV {
                            media: spec_join(season_dir, f.name@),
                            subtitles: spec_subs_of_pairs(
                                spec_join(season_dir, "subtitles"@),
                                pairs,
                                Option::Some(ep),
                            ),
                        },
                    },
                )
            }
        } else {
            prefix
        }
    }
}

/// One season of a series, when its directory name carries a number and
/// it holds at least one episode.
pub open spec fn spec_season(entry_name: Seq<char>, s: SeasonSnapshot) -> Option<SeasonV> {
    match spec_num_of(s.dir_name@) {
        Option::None => Option::None,
        Option::Some(n) => {
            let season_dir = spec_join(entry_name, s.dir_name@);
            let eps = spec_season_eps(season_dir, spec_dir_pairs(s.subtitles), s.entries@);
            if eps.len() > 0 {
                Option::Some(SeasonV { number: n, episodes: eps })
            } else {
                Option::None
            }
        },
    }
}

/// Whether a season number is already taken.
pub open spec fn spec_seasons_have(ss: Seq<SeasonV>, n: u32) -> bool {
    exists|k: int| 0 <= k < ss.len() && (#[trigger] ss[k]).number == n
}

/// Inserts a season into a list sorted by season number. The number is
/// assumed absent.
pub open spec fn spec_insert_season(ss: Seq<SeasonV>, s: SeasonV) -> Seq<SeasonV>
    decreases ss.len(),
{
    if ss.len() == 0 {
        seq![s]
    } else if s.number < ss[0].number {
        seq![s] + ss
    } else {
        seq![ss[0]] + spec_insert_season(ss.drop_first(), s)
    }
}

/// The seasons of a folder: every subdirectory whose name carries a
/// number and holds episodes; the first directory with a number wins it.
pub open spec fn spec_series_seasons(entry_name: Seq<char>, seasons: Seq<SeasonSnapshot>) -> Seq<
    SeasonV,
>
    decreases seasons.len(),
{
    if seasons.len() == 0 {
        Seq::empty()
    } else {
        let prefix = spec_series_seasons(entry_name, seasons.drop_last());
        let sd = seasons.last();
        match spec_season(entry_name, sd) {
            Option::None => prefix,
            Option::Some(sv) => if spec_seasons_have(prefix, sv.number) {
                prefix
            } else {
                spec_insert_season(prefix, sv)
            },
        }
    }
}

/// The content of a folder: a movie when a supported playable file sits
/// at the top level, else a series when numbered subdirectories with
/// episodes exist, else nothing.
pub open spec fn spec_content(e: EntrySnapshot) -> Option<ContentV> {
    match spec_movie_paths(e) {
        Option::Some(p) => Option::Some(ContentV::Movie(p)),
        Option::None => {
            let ss = spec_series_seasons(e.name@, e.seasons@);
            if ss.len() > 0 {
                Option::Some(ContentV::Series(ss))
            } else {
                Option::None
            }
        },
    }
}

/// The catalog entry a folder yields: valid metadata plus classifiable
/// content; the id is the sanitized title.
pub open spec fn spec_crawl_folder(e: EntrySnapshot) -> Option<MediaV> {
    match e.meta_json {
        Option::None => Option::None,
        Option::Some(mj) => match crate::codec::sp_metadata_doc(mj@) {
            Option::None => Option::None,
            Option::Some((th, ti)) => match spec_content(e) {
                Option::None => Option::None,
                Option::Some(c) => Option::Some(
                    MediaV {
                        id: crate::sanitize::spec_sanitize(ti),
                        thumbnail: th,
                        title: ti,
                        content: c,
                    },
                ),
            },
        },
    }
}

/// The whole catalog of a media root listing, in folder order.
pub open spec fn spec_crawl_all(entries: Seq<EntrySnapshot>) -> Seq<MediaV>
    decreases entries.len(),
{
    if entries.len() == 0 {
        Seq::empty()
    } else {
        let prefix = spec_crawl_all(entries.drop_last());
        match spec_crawl_folder(entries.last()) {
            Option::None => prefix,
            Option::Some(m) => prefix.push(m),
        }
    }
}

/// Crawling is a function of the snapshot alone: two crawls of the same
/// unchanged directory yield equal catalogs.
pub proof fn lemma_crawl_idempotent(
    entries: Seq<EntrySnapshot>,
    r1: Seq<MediaV>,
    r2: Seq<MediaV>,
)
    requires
        r1 == spec_crawl_all(entries),
        r2 == spec_crawl_all(entries),
    ensures
        r1 == r2,
{
}

/// The collected pairs, with their mp4 bits, are exactly the full pairs
/// of the file list.
pub(crate) proof fn lemma_full_pairs(ps: Seq<SubtitlePair>, files: Seq<Seq<char>>)
    requires
        pair_views(ps) == spec_text_pairs(files),
        forall|k: int|
            0 <= k < ps.len() ==> (#[trigger] ps[k]).has_mp4 == spec_has_mp4(files, ps[k].stem@),
    ensures
        full_pair_views(ps) == spec_full_pairs(files),
{
    let lhs = full_pair_views(ps);
    let rhs = spec_full_pairs(files);
    assert(lhs.len() == rhs.len()) by {
        assert(pair_views(ps).len() == ps.len());
    }
    assert forall|k: int| 0 <= k < lhs.len() implies lhs[k] == rhs[k] by {
        assert(pair_views(ps)[k] == pair_view(ps[k]));
        assert(rhs[k] == (
            spec_text_pairs(files)[k].0,
            spec_text_pairs(files)[k].1,
            spec_has_mp4(files, spec_text_pairs(files)[k].0),
        ));
        assert(spec_text_pairs(files)[k] == pair_view(ps[k]));
        assert(ps[k].has_mp4 == spec_has_mp4(files, ps[k].stem@));
    }
    assert(lhs =~= rhs);
}

// ---------------------------------------------------------------------------
// Sortedness of episode and season lists.
// ---------------------------------------------------------------------------

/// Episode numbers strictly increasing.
pub open spec fn eps_sorted(eps: Seq<EpisodeV>) -> bool {
    forall|i: int, j: int| 0 <= i < j < eps.len() ==> eps[i].number < eps[j].number
}

/// Season numbers strictly increasing.
pub open spec fn seasons_sorted(ss: Seq<SeasonV>) -> bool {
    forall|i: int, j: int| 0 <= i < j < ss.len() ==> ss[i].number < ss[j].number
}

pub(crate) proof fn lemma_insert_ep_props(eps: Seq<EpisodeV>, e: EpisodeV)
    requires
        eps_sorted(eps),
        !spec_eps_have(eps, e.number),
    ensures
        eps_sorted(spec_insert_ep(eps, e)),
        spec_insert_ep(eps, e).len() == eps.len() + 1,
        forall|n: u32|
            spec_eps_have(spec_insert_ep(eps, e), n) <==> (spec_eps_have(eps, n) || n == e.number),
    decreases eps.len(),
{
    let r = spec_insert_ep(eps, e);
    if eps.len() == 0 {
        assert(r =~= seq![e]);
        assert forall|n: u32| spec_eps_have(r, n) implies (spec_eps_have(eps, n) || n
            == e.number) by {
            let k = choose|k: int| 0 <= k < r.len() && (#[trigger] r[k]).number == n;
            assert(r[k] == e);
        }
        assert(spec_eps_have(r, e.number)) by {
            assert(r[0].number == e.number);
        }
    } else if e.number < eps[0].number {
        assert(r =~= seq![e] + eps);
        assert forall|n: u32| spec_eps_have(r, n) implies (spec_eps_have(eps, n) || n
            == e.number) by {
            let k = choose|k: int| 0 <= k < r.len() && (#[trigger] r[k]).number == n;
            if k > 0 {
                assert(eps[k - 1].number == n);
            }
        }
        assert(spec_eps_have(r, e.number)) by {
            assert(r[0].number == e.number);
        }
        assert forall|n: u32| spec_eps_have(eps, n) implies spec_eps_have(r, n) by {
            let k = choose|k: int| 0 <= k < eps.len() && (#[trigger] eps[k]).number == n;
            assert(r[k + 1].number == n);
        }
    } else {
        let tail = eps.drop_first();
        assert(eps[0].number != e.number) by {
            assert(eps[0].number == eps[0].number);
        }
        assert(forall|k: int|
            0 <= k < tail.len() ==> (#[trigger] tail[k]).number == eps[k + 1].number);
        assert(eps_sorted(tail));
        assert(!spec_eps_have(tail, e.number)) by {
            if spec_eps_have(tail, e.number) {
                let k = choose|k: int|
                    0 <= k < tail.len() && (#[trigger] tail[k]).number == e.number;
                assert(eps[k + 1].number == e.number);
            }
        }
        lemma_insert_ep_props(tail, e);
        let rt = spec_insert_ep(tail, e);
        assert(forall|n2: u32|
            spec_eps_have(rt, n2) <==> (spec_eps_have(tail, n2) || n2 == e.number));
        assert(r =~= seq![eps[0]] + rt);
        // Every element of rt is either from tail or is e; all have
        // numbers above eps[0].
        assert forall|k: int| 0 <= k < rt.len() implies eps[0].number < (
        #[trigger] rt[k]).number by {
            assert(spec_eps_have(rt, rt[k].number));
            if rt[k].number == e.number {
                assert(eps[0].number < e.number);
            } else {
                assert(spec_eps_have(tail, rt[k].number));
                let m = choose|m: int|
                    0 <= m < tail.len() && (#[trigger] tail[m]).number == rt[k].number;
                assert(eps[0].number < eps[m + 1].number);
            }
        }
        assert(eps_sorted(r)) by {
            assert(forall|k: int| 0 < k < r.len() ==> (#[trigger] r[k]).number == rt[k - 1].number);
        }
        assert forall|n: u32| spec_eps_have(r, n) implies (spec_eps_have(eps, n) || n
            == e.number) by {
            let k = choose|k: int| 0 <= k < r.len() && (#[trigger] r[k]).number == n;
            if k == 0 {
                assert(eps[0].number == n);
            } else {
                assert(r[k] == rt[k - 1]);
                assert(spec_eps_have(rt, n)) by {
                    assert(rt[k - 1].number == n);
                }
                if n != e.number {
                    assert(spec_eps_have(tail, n));
                    let m = choose|m: int|
                        0 <= m < tail.len() && (#[trigger] tail[m]).number == n;
                    assert(tail[m] == eps[m + 1]);
                    assert(eps[m + 1].number == n);
                }
            }
        }
        assert forall|n: u32| spec_eps_have(eps, n) || n == e.number implies spec_eps_have(
            r,
            n,
        ) by {
            if n == e.number {
                assert(spec_eps_have(rt, n));
                let m = choose|m: int| 0 <= m < rt.len() && (#[trigger] rt[m]).number == n;
                assert(r[m + 1] == rt[m]);
                assert(r[m + 1].number == n);
            } else {
                let k = choose|k: int| 0 <= k < eps.len() && (#[trigger] eps[k]).number == n;
                if k == 0 {
                    assert(r[0].number == n);
                } else {
                    assert(tail[k - 1] == eps[k]);
                    assert(tail[k - 1].number == n);
                    assert(spec_eps_have(tail, n));
                    assert(spec_eps_have(rt, n));
                    let m = choose|m: int| 0 <= m < rt.len() && (#[trigger] rt[m]).number == n;
                    assert(r[m + 1] == rt[m]);
                    assert(r[m + 1].number == n);
                }
            }
        }
    }
}

pub(crate) proof fn lemma_insert_season_props(ss: Seq<SeasonV>, s0: SeasonV)
    requires
        seasons_sorted(ss),
        !spec_seasons_have(ss, s0.number),
    ensures
        seasons_sorted(spec_insert_season(ss, s0)),
        spec_insert_season(ss, s0).len() == ss.len() + 1,
        forall|n: u32|
            spec_seasons_have(spec_insert_season(ss, s0), n) <==> (spec_seasons_have(ss, n) || n
                == s0.number),
        forall|k: int|
            0 <= k < spec_insert_season(ss, s0).len() ==> ((#[trigger] spec_insert_season(
                ss,
                s0,
            )[k]) == s0 || ss.contains(spec_insert_season(ss, s0)[k])),
    decreases ss.len(),
{
    let r = spec_insert_season(ss, s0);
    if ss.len() == 0 {
        assert(r =~= seq![s0]);
        assert forall|n: u32| spec_seasons_have(r, n) implies (spec_seasons_have(ss, n) || n
            == s0.number) by {
            let k = choose|k: int| 0 <= k < r.len() && (#[trigger] r[k]).number == n;
        }
        assert(r[0].number == s0.number);
    } else if s0.number < ss[0].number {
        assert(r =~= seq![s0] + ss);
        assert(r[0].number == s0.number);
        assert forall|n: u32| spec_seasons_have(r, n) implies (spec_seasons_have(ss, n) || n
            == s0.number) by {
            let k = choose|k: int| 0 <= k < r.len() && (#[trigger] r[k]).number == n;
            if k > 0 {
                assert(ss[k - 1].number == n);
            }
        }
        assert forall|n: u32| spec_seasons_have(ss, n) implies spec_seasons_have(r, n) by {
            let k = choose|k: int| 0 <= k < ss.len() && (#[trigger] ss[k]).number == n;
            assert(r[k + 1].number == n);
        }
        assert forall|k: int| 0 <= k < r.len() implies ((#[trigger] r[k]) == s0 || ss.contains(
            r[k],
        )) by {
            if k > 0 {
                assert(r[k] == ss[k - 1]);
            }
        }
    } else {
        let tail = ss.drop_first();
        assert(forall|k: int|
            0 <= k < tail.len() ==> (#[trigger] tail[k]).number == ss[k + 1].number);
        assert(seasons_sorted(tail));
        assert(!spec_seasons_have(tail, s0.number)) by {
            if spec_seasons_have(tail, s0.number) {
                let k = choose|k: int|
                    0 <= k < tail.len() && (#[trigger] tail[k]).number == s0.number;
                assert(ss[k + 1].number == s0.number);
            }
        }
        lemma_insert_season_props(tail, s0);
        let rt = spec_insert_season(tail, s0);
        assert(forall|n2: u32|
            spec_seasons_have(rt, n2) <==> (spec_seasons_have(tail, n2) || n2 == s0.number));
        assert(r =~= seq![ss[0]] + rt);
        assert forall|k: int| 0 <= k < rt.len() implies ss[0].number < (
        #[trigger] rt[k]).number by {
            assert(spec_seasons_have(rt, rt[k].number));
            if rt[k].number == s0.number {
                assert(ss[0].number < s0.number || ss[0].number == s0.number);
                assert(ss[0].number != s0.number);
            } else {
                assert(spec_seasons_have(tail, rt[k].number));
                let m = choose|m: int|
                    0 <= m < tail.len() && (#[trigger] tail[m]).number == rt[k].number;
                assert(ss[0].number < ss[m + 1].number);
            }
        }
        assert(seasons_sorted(r)) by {
            assert(forall|k: int| 0 < k < r.len() ==> (#[trigger] r[k]).number == rt[k - 1].number);
        }
        assert forall|n: u32| spec_seasons_have(r, n) implies (spec_seasons_have(ss, n) || n
            == s0.number) by {
            let k = choose|k: int| 0 <= k < r.len() && (#[trigger] r[k]).number == n;
            if k == 0 {
                assert(ss[0].number == n);
            } else {
                assert(r[k] == rt[k - 1]);
                assert(spec_seasons_have(rt, n)) by {
                    assert(rt[k - 1].number == n);
                }
                if n != s0.number {
                    assert(spec_seasons_have(tail, n));
                    let m = choose|m: int|
                        0 <= m < tail.len() && (#[trigger] tail[m]).number == n;
                    assert(tail[m] == ss[m + 1]);
                    assert(ss[m + 1].number == n);
                }
            }
        }
        assert forall|n: u32| spec_seasons_have(ss, n) || n == s0.number implies spec_seasons_have(
            r,
            n,
        ) by {
            if n == s0.number {
                assert(spec_seasons_have(rt, n));
                let m = choose|m: int| 0 <= m < rt.len() && (#[trigger] rt[m]).number == n;
                assert(r[m + 1] == rt[m]);
                assert(r[m + 1].number == n);
            } else {
                let k = choose|k: int| 0 <= k < ss.len() && (#[trigger] ss[k]).number == n;
                if k == 0 {
                    assert(r[0].number == n);
                } else {
                    assert(tail[k - 1] == ss[k]);
                    assert(tail[k - 1].number == n);
                    assert(spec_seasons_have(tail, n));
                    assert(spec_seasons_have(rt, n));
                    let m = choose|m: int| 0 <= m < rt.len() && (#[trigger] rt[m]).number == n;
                    assert(r[m + 1] == rt[m]);
                    assert(r[m + 1].number == n);
                }
            }
        }
        assert forall|k: int| 0 <= k < r.len() implies ((#[trigger] r[k]) == s0 || ss.contains(
            r[k],
        )) by {
            if k == 0 {
                assert(ss[0] == ss[0]);
                assert(ss.contains(ss[0]));
            } else {
                assert(r[k] == rt[k - 1]);
                if rt[k - 1] == s0 {
                } else {
                    assert(tail.contains(rt[k - 1]));
                    let m = choose|m: int| 0 <= m < tail.len() && tail[m] == rt[k - 1];
                    assert(ss[m + 1] == rt[k - 1]);
                    assert(ss.contains(ss[m + 1]));
                }
            }
        }
    }
}

// ---------------------------------------------------------------------------
// The executable crawler.
// ---------------------------------------------------------------------------

/// Builds the catalog subtitles a pair list yields for one slot: all
/// pairs for a movie, the pairs carrying the wanted episode number for a
/// series episode.
pub fn subtitles_from_pairs(dir: &str, pairs: &Vec<SubtitlePair>, episode: Option<u32>) -> (r: Vec<
    Subtitle,
>)
    ensures
        r@.map_values(|sv: Subtitle| subtitle_v(sv)) == spec_subs_of_pairs(
            dir@,
            full_pair_views(pairs@),
            episode,
        ),
{
    let ghost pv = full_pair_views(pairs@);
    let mut out: Vec<Subtitle> = Vec::new();
    let n = pairs.len();
    let mut i: usize = 0;
    while i < n
        invariant
            n == pairs@.len(),
            i <= n,
            pv == full_pair_views(pairs@),
            out@.map_values(|sv: Subtitle| subtitle_v(sv)) == spec_subs_of_pairs(
                dir@,
                pv.take(i as int),
                episode,
            ),
        decreases n - i,
    {
        let p = &pairs[i];
        proof {
            assert(pv[i as int] == full_pair_view(pairs@[i as int]));
            assert(pv.take(i + 1).drop_last() =~= pv.take(i as int));
            assert(pv.take(i + 1).last() == pv[i as int]);
        }
        let wanted = p.has_mp4 && match episode {
            Option::None => true,
            Option::Some(ep) => match p.sub.episode {
                Option::Some(pe) => pe == ep,
                Option::None => false,
            },
        };
        if wanted {
            let mut file = p.stem.clone();
            crate::text::push_char(&mut file, '.');
            file.append(p.sub.extension.as_str());
            let mut track = p.stem.clone();
            track.append(".mp4");
            let sub = Subtitle {
                name: p.sub.name.clone(),
                language_iso639_2t: p.sub.language.to_iso639_2t().to_owned(),
                path: crate::media::join_path(dir, file.as_str()),
                track_path: crate::media::join_path(dir, track.as_str()),
            };
            out.push(sub);
            proof {
                reveal_strlit(".mp4");
                reveal_strlit("mp4");
                assert(track@ =~= pv[i as int].0 + seq!['.'] + "mp4"@);
                assert(file@ =~= pv[i as int].0 + seq!['.'] + pv[i as int].1.3);
                assert(out@.map_values(|sv: Subtitle| subtitle_v(sv)) =~= spec_subs_of_pairs(
                    dir@,
                    pv.take(i + 1),
                    episode,
                ));
            }
        } else {
            proof {
                assert(out@.map_values(|sv: Subtitle| subtitle_v(sv)) =~= spec_subs_of_pairs(
                    dir@,
                    pv.take(i + 1),
                    episode,
                ));
            }
        }
        i = i + 1;
    }
    proof {
        assert(pv.take(n as int) =~= pv);
    }
    out
}

/// The text subtitles whose mp4 track is missing and must be generated:
/// each one's file path under `dir` and its language.
pub fn missing_track_files(dir: &str, pairs: &Vec<SubtitlePair>) -> (r: Vec<(String, LanguageCode)>)
    ensures
        forall|k: int|
            0 <= k < r@.len() ==> exists|m: int|
                0 <= m < pairs@.len() && !(#[trigger] pairs@[m]).has_mp4 && (#[trigger] r@[k]).0@
                    == spec_join(dir@, pairs@[m].stem@ + seq!['.'] + pairs@[m].sub.extension@)
                    && r@[k].1 == pairs@[m].sub.language,
        forall|m: int|
            0 <= m < pairs@.len() && !(#[trigger] pairs@[m]).has_mp4 ==> exists|k: int|
                0 <= k < r@.len() && (#[trigger] r@[k]).0@ == spec_join(
                    dir@,
                    pairs@[m].stem@ + seq!['.'] + pairs@[m].sub.extension@,
                ) && r@[k].1 == pairs@[m].sub.language,
{
    let mut out: Vec<(String, LanguageCode)> = Vec::new();
    let n = pairs.len();
    let mut i: usize = 0;
    while i < n
        invariant
            n == pairs@.len(),
            i <= n,
            forall|k: int|
                0 <= k < out@.len() ==> exists|m: int|
                    0 <= m < pairs@.len() && !(#[trigger] pairs@[m]).has_mp4 && (
                    #[trigger] out@[k]).0@ == spec_join(
                        dir@,
                        pairs@[m].stem@ + seq!['.'] + pairs@[m].sub.extension@,
                    ) && out@[k].1 == pairs@[m].sub.language,
            forall|m: int|
                0 <= m < i && !(#[trigger] pairs@[m]).has_mp4 ==> exists|k: int|
                    0 <= k < out@.len() && (#[trigger] out@[k]).0@ == spec_join(
                        dir@,
                        pairs@[m].stem@ + seq!['.'] + pairs@[m].sub.extension@,
                    ) && out@[k].1 == pairs@[m].sub.language,
        decreases n - i,
    {
        let p = &pairs[i];
        if !p.has_mp4 {
            let mut file = p.stem.clone();
            crate::text::push_char(&mut file, '.');
            file.append(p.sub.extension.as_str());
            let path = crate::media::join_path(dir, file.as_str());
            let ghost before = out@;
            out.push((path, p.sub.language));
            proof {
                assert(file@ =~= pairs@[i as int].stem@ + seq!['.']
                    + pairs@[i as int].sub.extension@);
                assert(out@[before.len() as int].0@ == spec_join(
                    dir@,
                    pairs@[i as int].stem@ + seq!['.'] + pairs@[i as int].sub.extension@,
                ));
                assert forall|m: int|
                    0 <= m < i + 1 && !(#[trigger] pairs@[m]).has_mp4 implies exists|k: int|
                    0 <= k < out@.len() && (#[trigger] out@[k]).0@ == spec_join(
                        dir@,
                        pairs@[m].stem@ + seq!['.'] + pairs@[m].sub.extension@,
                    ) && out@[k].1 == pairs@[m].sub.language by {
                    if m < i {
                        let k0 = choose|k0: int|
                            0 <= k0 < before.len() && (#[trigger] before[k0]).0@ == spec_join(
                                dir@,
                                pairs@[m].stem@ + seq!['.'] + pairs@[m].sub.extension@,
                            ) && before[k0].1 == pairs@[m].sub.language;
                        assert(out@[k0] == before[k0]);
                    } else {
                        assert(out@[before.len() as int].1 == pairs@[m].sub.language);
                    }
                }
            }
        }
        i = i + 1;
    }
    out
}

/// The transcoder arguments that wrap a text subtitle into an mp4
/// container with the right language tag: input file, subtitle codec,
/// stream language, overwrite, output file.
pub fn build_subtitle_mp4_args(input_path: &str, language: &LanguageCode) -> (r: Vec<String>)
    ensures
        r@.len() == 8,
        r@[0]@ == "-i"@,
        r@[1]@ == input_path@,
        r@[2]@ == "-c:s"@,
        r@[3]@ == "mov_text"@,
        r@[4]@ == "-metadata:s:s:0"@,
        r@[5]@ == "language="@ + crate::language::spec_iso639_1(*language),
        r@[6]@ == "-y"@,
        r@[7]@ == crate::format::spec_stem(input_path@) + "."@ + "mp4"@,
{
    let mut args: Vec<String> = Vec::new();
    args.push("-i".to_owned());
    args.push(input_path.to_owned());
    args.push("-c:s".to_owned());
    args.push("mov_text".to_owned());
    args.push("-metadata:s:s:0".to_owned());
    let mut lang = "language=".to_owned();
    lang.append(language.to_iso639_1());
    args.push(lang);
    args.push("-y".to_owned());
    let (stem, _) = crate::format::split_extension(input_path);
    let mut outp = stem;
    outp.append(".");
    outp.append("mp4");
    args.push(outp);
    args
}

/// The movie content of a folder: the first supported playable file at
/// the top level, with the folder's paired subtitles.
pub fn try_extract_movie_paths(e: &EntrySnapshot) -> (r: Option<MediaPaths>)
    ensures
        r matches Some(p) ==> spec_movie_paths(*e) == Option::Some(paths_v(p)),
        r is None ==> spec_movie_paths(*e) is None,
{
    let n = e.entries.len();
    let mut i: usize = 0;
    while i < n && !crate::format::is_supported_video_file(&e.entries[i])
        invariant
            n == e.entries@.len(),
            i <= n,
            first_movie_from(e.entries@, 0) == first_movie_from(e.entries@, i as int),
        decreases n - i,
    {
        i = i + 1;
    }
    if i == n {
        return None;
    }
    let media = crate::media::join_path(e.name.as_str(), e.entries[i].name.as_str());
    let subtitles = match &e.subtitles {
        Some(files) => {
            let pairs = explore_subtitles(files);
            let sdir = crate::media::join_path(e.name.as_str(), "subtitles");
            proof {
                lemma_full_pairs(pairs@, views_of(files@));
            }
            subtitles_from_pairs(sdir.as_str(), &pairs, None)
        },
        None => Vec::new(),
    };
    proof {
        reveal_strlit("subtitles");
        assert(first_movie_from(e.entries@, i as int) == Option::Some(i as int));
        if e.subtitles is None {
            assert(spec_dir_pairs(e.subtitles) =~= Seq::<
                (Seq<char>, (Seq<char>, LanguageCode, Option<u32>, Seq<char>), bool),
            >::empty());
            assert(Seq::<Subtitle>::empty().map_values(|sv: Subtitle| subtitle_v(sv))
                =~= Seq::<SubtitleV>::empty());
        }
    }
    Some(MediaPaths { media, subtitles })
}

/// The episode-number view of collected episodes.
pub open spec fn eps_views(eps: Seq<crate::media::EpisodeEntry>) -> Seq<EpisodeV> {
    eps.map_values(|e: crate::media::EpisodeEntry| episode_v(e))
}

/// Inserts an episode into a list kept sorted by episode number.
fn insert_episode(eps: &mut Vec<crate::media::EpisodeEntry>, e: crate::media::EpisodeEntry)
    ensures
        eps_views(final(eps)@) == spec_insert_ep(eps_views(old(eps)@), episode_v(e)),
{
    let ghost oldv = eps_views(old(eps)@);
    proof {
        assert(oldv.take(0) =~= Seq::<EpisodeV>::empty());
        assert(oldv.skip(0) =~= oldv);
        assert(oldv.take(0) + spec_insert_ep(oldv.skip(0), episode_v(e)) =~= spec_insert_ep(
            oldv,
            episode_v(e),
        ));
    }
    let n = eps.len();
    let mut i: usize = 0;
    while i < n && eps[i].number <= e.number
        invariant
            n == eps@.len(),
            eps@ == old(eps)@,
            oldv == eps_views(eps@),
            i <= n,
            forall|m: int| 0 <= m < i ==> (#[trigger] eps@[m]).number <= e.number,
            spec_insert_ep(oldv, episode_v(e)) == oldv.take(i as int) + spec_insert_ep(
                oldv.skip(i as int),
                episode_v(e),
            ),
        decreases n - i,
    {
        proof {
            let pre = oldv.skip(i as int);
            assert(pre[0] == oldv[i as int]);
            assert(pre[0].number == eps@[i as int].number);
            assert(spec_insert_ep(pre, episode_v(e)) == seq![pre[0]] + spec_insert_ep(
                pre.drop_first(),
                episode_v(e),
            ));
            assert(pre.drop_first() =~= oldv.skip(i + 1));
            assert(oldv.take(i as int) + (seq![pre[0]] + spec_insert_ep(
                oldv.skip(i + 1),
                episode_v(e),
            )) =~= oldv.take(i + 1) + spec_insert_ep(oldv.skip(i + 1), episode_v(e)));
        }
        i = i + 1;
    }
    eps.insert(i, e);
    proof {
        let pre = oldv.skip(i as int);
        if i < n {
            assert(pre[0] == oldv[i as int]);
            assert(episode_v(e).number < pre[0].number);
            assert(spec_insert_ep(pre, episode_v(e)) == seq![episode_v(e)] + pre);
        } else {
            assert(pre =~= Seq::<EpisodeV>::empty());
            assert(spec_insert_ep(pre, episode_v(e)) == seq![episode_v(e)]);
        }
        assert(eps_views(eps@) =~= oldv.take(i as int) + (seq![episode_v(e)] + oldv.skip(
            i as int,
        )));
        assert(oldv.take(i as int) + (seq![episode_v(e)] + oldv.skip(i as int)) =~= oldv.take(
            i as int,
        ) + spec_insert_ep(oldv.skip(i as int), episode_v(e)));
    }
}

/// One season directory's episodes: each supported video file whose name
/// carries a number claims that episode; the first such file wins it.
pub fn try_extract_season(entry_name: &str, s: &SeasonSnapshot) -> (r: Option<SeasonEntry>)
    ensures
        r matches Some(se) ==> spec_season(entry_name@, *s) == Option::Some(season_v(se))
            && season_wf(se) && se.episodes@.len() > 0,
        r is None ==> spec_season(entry_name@, *s) is None,
{
    let number = match crate::parse::get_numeric_content(s.dir_name.as_str()) {
        Some(v) => v,
        None => {
            return None;
        },
    };
    let season_dir = crate::media::join_path(entry_name, s.dir_name.as_str());
    let pairs = match &s.subtitles {
        Some(files) => explore_subtitles(files),
        None => Vec::new(),
    };
    let ghost pv = spec_dir_pairs(s.subtitles);
    proof {
        if s.subtitles is Some {
            lemma_full_pairs(pairs@, views_of(s.subtitles->Some_0@));
        } else {
            assert(full_pair_views(pairs@) =~= pv);
        }
    }
    let sub_dir = crate::media::join_path(season_dir.as_str(), "subtitles");
    let mut eps: Vec<crate::media::EpisodeEntry> = Vec::new();
    let n = s.entries.len();
    let mut i: usize = 0;
    while i < n
        invariant
            n == s.entries@.len(),
            pv == spec_dir_pairs(s.subtitles),
            full_pair_views(pairs@) == pv,
            season_dir@ == spec_join(entry_name@, s.dir_name@),
            sub_dir@ == spec_join(season_dir@, "subtitles"@),
            i <= n,
            eps_views(eps@) == spec_season_eps(season_dir@, pv, s.entries@.take(i as int)),
        decreases n - i,
    {
        let f = &s.entries[i];
        proof {
            assert(s.entries@.take(i + 1).drop_last() =~= s.entries@.take(i as int));
            assert(s.entries@.take(i + 1).last() == s.entries@[i as int]);
        }
        let is_vid = crate::format::is_supported_video_file(f);
        let num = crate::parse::get_numeric_content(f.name.as_str());
        if is_vid && num.is_some() {
            let ep = num.unwrap();
            // Already claimed by an earlier file?
            let mut seen = false;
            let mut k: usize = 0;
            while k < eps.len()
                invariant
                    k <= eps@.len(),
                    seen ==> spec_eps_have(eps_views(eps@), ep),
                    !seen ==> forall|m: int| 0 <= m < k ==> (#[trigger] eps@[m]).number != ep,
                decreases eps@.len() - k,
            {
                if eps[k].number == ep {
                    proof {
                        assert(eps_views(eps@)[k as int].number == ep);
                    }
                    seen = true;
                    k = eps.len();
                } else {
                    k = k + 1;
                }
            }
            proof {
                if !seen {
                    assert forall|m: int|
                        0 <= m < eps_views(eps@).len() implies (#[trigger] eps_views(
                        eps@,
                    )[m]).number != ep by {
                        assert(eps_views(eps@)[m].number == eps@[m].number);
                    }
                    assert(!spec_eps_have(eps_views(eps@), ep));
                }
            }
            if !seen {
                let subtitles = subtitles_from_pairs(sub_dir.as_str(), &pairs, Some(ep));
                let entry = crate::media::EpisodeEntry {
                    number: ep,
                    paths: MediaPaths {
                        media: crate::media::join_path(season_dir.as_str(), f.name.as_str()),
                        subtitles,
                    },
                };
                insert_episode(&mut eps, entry);
                proof {
                    assert(eps_views(eps@) =~= spec_season_eps(
                        season_dir@,
                        pv,
                        s.entries@.take(i + 1),
                    ));
                }
            } else {
                proof {
                    assert(eps_views(eps@) =~= spec_season_eps(
                        season_dir@,
                        pv,
                        s.entries@.take(i + 1),
                    ));
                }
            }
        } else {
            proof {
                assert(eps_views(eps@) =~= spec_season_eps(
                    season_dir@,
                    pv,
                    s.entries@.take(i + 1),
                ));
            }
        }
        i = i + 1;
    }
    proof {
        assert(s.entries@.take(n as int) =~= s.entries@);
    }
    if eps.len() == 0 {
        return None;
    }
    proof {
        lemma_season_eps_sorted(season_dir@, pv, s.entries@);
        assert forall|a: int, b: int| 0 <= a < b < eps@.len() implies (#[trigger] eps@[a]).number
            < (#[trigger] eps@[b]).number by {
            assert(eps_views(eps@)[a].number == eps@[a].number);
            assert(eps_views(eps@)[b].number == eps@[b].number);
        }
    }
    Some(SeasonEntry { number, episodes: eps })
}

/// The season-number view of collected seasons.
pub open spec fn season_views(ss: Seq<SeasonEntry>) -> Seq<SeasonV> {
    ss.map_values(|s: SeasonEntry| season_v(s))
}

/// Inserts a season into a list kept sorted by season number.
fn insert_season(ss: &mut Vec<SeasonEntry>, s: SeasonEntry)
    ensures
        season_views(final(ss)@) == spec_insert_season(season_views(old(ss)@), season_v(s)),
{
    let ghost oldv = season_views(old(ss)@);
    proof {
        assert(oldv.take(0) =~= Seq::<SeasonV>::empty());
        assert(oldv.skip(0) =~= oldv);
        assert(oldv.take(0) + spec_insert_season(oldv.skip(0), season_v(s)) =~= spec_insert_season(
            oldv,
            season_v(s),
        ));
    }
    let n = ss.len();
    let mut i: usize = 0;
    while i < n && ss[i].number <= s.number
        invariant
            n == ss@.len(),
            ss@ == old(ss)@,
            oldv == season_views(ss@),
            i <= n,
            forall|m: int| 0 <= m < i ==> (#[trigger] ss@[m]).number <= s.number,
            spec_insert_season(oldv, season_v(s)) == oldv.take(i as int) + spec_insert_season(
                oldv.skip(i as int),
                season_v(s),
            ),
        decreases n - i,
    {
        proof {
            let pre = oldv.skip(i as int);
            assert(pre[0] == oldv[i as int]);
            assert(pre[0].number == ss@[i as int].number);
            assert(spec_insert_season(pre, season_v(s)) == seq![pre[0]] + spec_insert_season(
                pre.drop_first(),
                season_v(s),
            ));
            assert(pre.drop_first() =~= oldv.skip(i + 1));
            assert(oldv.take(i as int) + (seq![pre[0]] + spec_insert_season(
                oldv.skip(i + 1),
                season_v(s),
            )) =~= oldv.take(i + 1) + spec_insert_season(oldv.skip(i + 1), season_v(s)));
        }
        i = i + 1;
    }
    ss.insert(i, s);
    proof {
        let pre = oldv.skip(i as int);
        if i < n {
            assert(pre[0] == oldv[i as int]);
            assert(season_v(s).number < pre[0].number);
            assert(spec_insert_season(pre, season_v(s)) == seq![season_v(s)] + pre);
        } else {
            assert(pre =~= Seq::<SeasonV>::empty());
            assert(spec_insert_season(pre, season_v(s)) == seq![season_v(s)]);
        }
        assert(season_views(ss@) =~= oldv.take(i as int) + (seq![season_v(s)] + oldv.skip(
            i as int,
        )));
        assert(oldv.take(i as int) + (seq![season_v(s)] + oldv.skip(i as int)) =~= oldv.take(
            i as int,
        ) + spec_insert_season(oldv.skip(i as int), season_v(s)));
    }
}

/// The series content of a folder: every numbered subdirectory with
/// episodes becomes a season; the first directory with a number wins it.
pub fn try_extract_series(e: &EntrySnapshot) -> (r: Option<SeriesContents>)
    ensures
        r matches Some(sc) ==> season_views(sc.seasons@) == spec_series_seasons(
            e.name@,
            e.seasons@,
        ) && sc.seasons@.len() > 0 && series_wf(sc) && crate::series::seasons_nonempty(sc),
        r is None ==> spec_series_seasons(e.name@, e.seasons@).len() == 0,
{
    let mut seasons: Vec<SeasonEntry> = Vec::new();
    let n = e.seasons.len();
    let mut i: usize = 0;
    while i < n
        invariant
            n == e.seasons@.len(),
            i <= n,
            season_views(seasons@) == spec_series_seasons(e.name@, e.seasons@.take(i as int)),
        decreases n - i,
    {
        let sd = &e.seasons[i];
        proof {
            assert(e.seasons@.take(i + 1).drop_last() =~= e.seasons@.take(i as int));
            assert(e.seasons@.take(i + 1).last() == e.seasons@[i as int]);
        }
        match try_extract_season(e.name.as_str(), sd) {
            Some(se) => {
                // Already claimed by an earlier directory?
                let mut seen = false;
                let mut k: usize = 0;
                while k < seasons.len()
                    invariant
                        k <= seasons@.len(),
                        seen ==> spec_seasons_have(season_views(seasons@), se.number),
                        !seen ==> forall|m: int|
                            0 <= m < k ==> (#[trigger] seasons@[m]).number != se.number,
                    decreases seasons@.len() - k,
                {
                    if seasons[k].number == se.number {
                        proof {
                            assert(season_views(seasons@)[k as int].number == se.number);
                        }
                        seen = true;
                        k = seasons.len();
                    } else {
                        k = k + 1;
                    }
                }
                proof {
                    if !seen {
                        assert forall|m: int|
                            0 <= m < season_views(seasons@).len() implies (#[trigger] season_views(
                            seasons@,
                        )[m]).number != se.number by {
                            assert(season_views(seasons@)[m].number == seasons@[m].number);
                        }
                        assert(!spec_seasons_have(season_views(seasons@), se.number));
                    }
                }
                if !seen {
                    insert_season(&mut seasons, se);
                    proof {
                        assert(season_views(seasons@) =~= spec_series_seasons(
                            e.name@,
                            e.seasons@.take(i + 1),
                        ));
                    }
                } else {
                    proof {
                        assert(season_views(seasons@) =~= spec_series_seasons(
                            e.name@,
                            e.seasons@.take(i + 1),
                        ));
                    }
                }
            },
            None => {
                proof {
                    assert(season_views(seasons@) =~= spec_series_seasons(
                        e.name@,
                        e.seasons@.take(i + 1),
                    ));
                }
            },
        }
        i = i + 1;
    }
    proof {
        assert(e.seasons@.take(n as int) =~= e.seasons@);
    }
    if seasons.len() == 0 {
        return None;
    }
    let sc = SeriesContents { seasons };
    proof {
        lemma_series_seasons_props(e.name@, e.seasons@);
        let sv = season_views(sc.seasons@);
        assert forall|a: int, b: int|
            0 <= a < b < sc.seasons@.len() implies (#[trigger] sc.seasons@[a]).number < (
        #[trigger] sc.seasons@[b]).number by {
            assert(sv[a].number == sc.seasons@[a].number);
            assert(sv[b].number == sc.seasons@[b].number);
        }
        assert forall|k: int| 0 <= k < sc.seasons@.len() implies season_wf(
            #[trigger] sc.seasons@[k],
        ) && sc.seasons@[k].episodes@.len() > 0 by {
            assert(sv[k] == season_v(sc.seasons@[k]));
            assert(eps_sorted(sv[k].episodes) && sv[k].episodes.len() > 0);
            let evs = sc.seasons@[k].episodes@;
            assert forall|a: int, b: int| 0 <= a < b < evs.len() implies (
            #[trigger] evs[a]).number < (#[trigger] evs[b]).number by {
                assert(sv[k].episodes[a].number == evs[a].number);
                assert(sv[k].episodes[b].number == evs[b].number);
            }
        }
    }
    Some(sc)
}

/// The entry's metadata, read from `meta.json`: absent metadata and
/// unparseable metadata are distinguished.
pub fn try_extract_metadata(e: &EntrySnapshot) -> (r: Result<MediaMetaData, CrawlError>)
    ensures
        e.meta_json is None ==> r == Err::<MediaMetaData, CrawlError>(CrawlError::NoMetadata),
        e.meta_json matches Some(mj) ==> match crate::codec::sp_metadata_doc(mj@) {
            Option::Some((th, ti)) => r matches Ok(m) && m.thumbnail@ == th && m.title@ == ti,
            Option::None => r == Err::<MediaMetaData, CrawlError>(CrawlError::CorruptedMetadata),
        },
{
    match &e.meta_json {
        None => Err(CrawlError::NoMetadata),
        Some(mj) => match crate::codec::decode_metadata(mj.as_str()) {
            Some(m) => Ok(m),
            None => Err(CrawlError::CorruptedMetadata),
        },
    }
}

/// The entry's content: a movie when a supported playable file sits at
/// the top level, else a series, else an error.
pub fn try_extract_media_content(e: &EntrySnapshot) -> (r: Result<MediaContent, CrawlError>)
    ensures
        r matches Ok(c) ==> spec_content(*e) == Option::Some(content_v(c)),
        r matches Ok(c) ==> (c matches MediaContent::Series(sc) ==> series_wf(sc)
            && crate::series::seasons_nonempty(sc)),
        r is Err ==> spec_content(*e) is None && r == Err::<MediaContent, CrawlError>(
            CrawlError::NoMediaContent,
        ),
{
    if let Some(mp) = try_extract_movie_paths(e) {
        return Ok(MediaContent::Movie(mp));
    }
    match try_extract_series(e) {
        Some(sc) => Ok(MediaContent::Series(sc)),
        None => Err(CrawlError::NoMediaContent),
    }
}

/// One folder's catalog entry: valid metadata plus classifiable content.
/// The id is the sanitized title.
pub fn try_extract_media(e: &EntrySnapshot) -> (r: Result<Media, CrawlError>)
    ensures
        r matches Ok(m) ==> spec_crawl_folder(*e) == Option::Some(media_v(m)),
        r matches Ok(m) ==> (m.content matches MediaContent::Series(sc) ==> series_wf(sc)
            && crate::series::seasons_nonempty(sc)),
        r is Err ==> spec_crawl_folder(*e) is None,
{
    let metadata = match try_extract_metadata(e) {
        Ok(m) => m,
        Err(err) => {
            return Err(err);
        },
    };
    let content = match try_extract_media_content(e) {
        Ok(c) => c,
        Err(err) => {
            return Err(err);
        },
    };
    let id = crate::sanitize::sanitize_name_for_url(metadata.title.as_str());
    Ok(Media { id, metadata, content })
}

/// Crawls one folder; folders without valid metadata or classifiable
/// content yield nothing.
pub fn crawl_folder(e: &EntrySnapshot) -> (r: Option<Media>)
    ensures
        r matches Some(m) ==> spec_crawl_folder(*e) == Option::Some(media_v(m)),
        r matches Some(m) ==> (m.content matches MediaContent::Series(sc) ==> series_wf(sc)
            && crate::series::seasons_nonempty(sc)),
        r is None ==> spec_crawl_folder(*e) is None,
{
    match try_extract_media(e) {
        Ok(m) => Some(m),
        Err(_) => None,
    }
}

/// Crawls the whole media root listing into the catalog, in folder
/// order.
pub fn crawl_all_folders(entries: &Vec<EntrySnapshot>) -> (r: Vec<Media>)
    ensures
        r@.map_values(|m: Media| media_v(m)) == spec_crawl_all(entries@),
{
    let mut out: Vec<Media> = Vec::new();
    let n = entries.len();
    let mut i: usize = 0;
    while i < n
        invariant
            n == entries@.len(),
            i <= n,
            out@.map_values(|m: Media| media_v(m)) == spec_crawl_all(entries@.take(i as int)),
        decreases n - i,
    {
        proof {
            assert(entries@.take(i + 1).drop_last() =~= entries@.take(i as int));
            assert(entries@.take(i + 1).last() == entries@[i as int]);
        }
        match crawl_folder(&entries[i]) {
            Some(m) => {
                out.push(m);
                proof {
                    assert(out@.map_values(|m2: Media| media_v(m2)) =~= spec_crawl_all(
                        entries@.take(i + 1),
                    ));
                }
            },
            None => {
                proof {
                    assert(out@.map_values(|m2: Media| media_v(m2)) =~= spec_crawl_all(
                        entries@.take(i + 1),
                    ));
                }
            },
        }
        i = i + 1;
    }
    proof {
        assert(entries@.take(n as int) =~= entries@);
    }
    out
}

/// A command to the crawler's service loop.
#[derive(Debug, Clone, PartialEq, Eq)]
pub enum MediaSignal {
    /// Rebuild the entire catalog.
    CrawlAll,
    /// Re-scan one entry; a vanished folder drops out of the catalog.
    CrawlPartial { media_id: String },
}

/// The episodes a season directory yields are sorted by episode number.
pub(crate) proof fn lemma_season_eps_sorted(
    season_dir: Seq<char>,
    pairs: Seq<(Seq<char>, (Seq<char>, LanguageCode, Option<u32>, Seq<char>), bool)>,
    entries: Seq<FsEntry>,
)
    ensures
        eps_sorted(spec_season_eps(season_dir, pairs, entries)),
    decreases entries.len(),
{
    if entries.len() > 0 {
        lemma_season_eps_sorted(season_dir, pairs, entries.drop_last());
        let prefix = spec_season_eps(season_dir, pairs, entries.drop_last());
        let f = entries.last();
        if f.is_file && spec_is_supported_video_name(f.name@) && spec_num_of(f.name@) is Some {
            let ep = spec_num_of(f.name@)->Some_0;
            if !spec_eps_have(prefix, ep) {
                lemma_insert_ep_props(
                    prefix,
                    EpisodeV {
                        number: ep,
                        paths: PathsV {
                            media: spec_join(season_dir, f.name@),
                            subtitles: spec_subs_of_pairs(
                                spec_join(season_dir, "subtitles"@),
                                pairs,
                                Option::Some(ep),
                            ),
                        },
                    },
                );
            }
        }
    }
}

/// Every season the series builder yields is sorted inside and holds at
/// least one episode, and the seasons are sorted by season number.
pub(crate) proof fn lemma_series_seasons_props(entry_name: Seq<char>, seasons: Seq<SeasonSnapshot>)
    ensures
        seasons_sorted(spec_series_seasons(entry_name, seasons)),
        forall|k: int|
            0 <= k < spec_series_seasons(entry_name, seasons).len() ==> eps_sorted(
                (#[trigger] spec_series_seasons(entry_name, seasons)[k]).episodes,
            ) && spec_series_seasons(entry_name, seasons)[k].episodes.len() > 0,
    decreases seasons.len(),
{
    if seasons.len() > 0 {
        lemma_series_seasons_props(entry_name, seasons.drop_last());
        let prefix = spec_series_seasons(entry_name, seasons.drop_last());
        let sd = seasons.last();
        match spec_season(entry_name, sd) {
            Option::None => {},
            Option::Some(sv) => {
                if !spec_seasons_have(prefix, sv.number) {
                    lemma_insert_season_props(prefix, sv);
                    let r = spec_insert_season(prefix, sv);
                    assert(eps_sorted(sv.episodes)) by {
                        lemma_season_eps_sorted(
                            spec_join(entry_name, sd.dir_name@),
                            spec_dir_pairs(sd.subtitles),
                            sd.entries@,
                        );
                    }
                    assert forall|k: int| 0 <= k < r.len() implies eps_sorted(
                        (#[trigger] r[k]).episodes,
                    ) && r[k].episodes.len() > 0 by {
                        if r[k] == sv {
                        } else {
                            assert(prefix.contains(r[k]));
                            let m = choose|m: int| 0 <= m < prefix.len() && prefix[m] == r[k];
                        }
                    }
                }
            },
        }
    }
}

/// A listing with a supported playable file somewhere always has a first
/// one.
pub(crate) proof fn lemma_first_movie_exists(entries: Seq<FsEntry>, i: int, idx: int)
    requires
        0 <= i <= idx < entries.len(),
        entries[idx].is_file,
        spec_is_supported_video_name(entries[idx].name@),
    ensures
        first_movie_from(entries, i) is Some,
    decreases entries.len() - i,
{
    if !(entries[i].is_file && spec_is_supported_video_name(entries[i].name@)) {
        lemma_first_movie_exists(entries, i + 1, idx);
    }
}

/// Crawl-after-prepare, movie case: a folder left behind by a finished
/// movie preparation — named with the sanitized title, holding the
/// written `meta.json` and a playable file — crawls back into an entry
/// whose id is the sanitized title and whose content is that movie.
#[verifier::spinoff_prover]
pub proof fn lemma_crawl_after_prepare_movie(
    e: EntrySnapshot,
    th: Seq<char>,
    ti: Seq<char>,
    idx: int,
)
    requires
        e.meta_json matches Some(mj) && mj@ == crate::codec::enc_metadata_pretty(th, ti),
        e.name@ == crate::sanitize::spec_sanitize(ti),
        0 <= idx < e.entries@.len(),
        e.entries@[idx].is_file,
        spec_is_supported_video_name(e.entries@[idx].name@),
    ensures
        spec_crawl_folder(e) matches Some(m) && m.id == crate::sanitize::spec_sanitize(ti)
            && m.thumbnail == th && m.title == ti && (m.content matches ContentV::Movie(p)
            && p.media == spec_join(
            e.name@,
            e.entries@[first_movie_from(e.entries@, 0)->Some_0].name@,
        )),
{
    crate::codec::lemma_metadata_pretty_roundtrip(th, ti);
    lemma_first_movie_exists(e.entries@, 0, idx);
}

/// A listing with no supported playable file has no first one.
pub(crate) proof fn lemma_first_movie_none(entries: Seq<FsEntry>, i: int)
    requires
        0 <= i <= entries.len(),
        forall|k: int|
            0 <= k < entries.len() ==> !((#[trigger] entries[k]).is_file
                && spec_is_supported_video_name(entries[k].name@)),
    ensures
        first_movie_from(entries, i) is None,
    decreases entries.len() - i,
{
    if i < entries.len() {
        lemma_first_movie_none(entries, i + 1);
    }
}

/// The number a decimal name carries is the number itself.
pub(crate) proof fn lemma_num_of_decimal(n: u32, rest: Seq<char>)
    requires
        rest.len() > 0 ==> !crate::parse::is_digit_char(rest[0]),
    ensures
        spec_num_of(crate::text::spec_dec_digits(n as nat) + rest) == Option::Some(n),
        spec_num_of(crate::text::spec_dec_digits(n as nat)) == Option::Some(n),
{
    let d = crate::text::spec_dec_digits(n as nat);
    crate::text::lemma_dec_digits_value(n as nat);
    crate::json::lemma_leading_digits_concat(d, rest);
    let f = d + rest;
    assert(f[0] == d[0]);
    assert(crate::parse::digit_run(f) == crate::parse::leading_digits(f));
    assert(crate::parse::digits_value(crate::parse::leading_digits(f)) == n);
    crate::json::lemma_leading_digits_concat(d, Seq::<char>::empty());
    assert(d + Seq::<char>::empty() =~= d);
    assert(crate::parse::digit_run(d) == crate::parse::leading_digits(d));
}

/// Crawl-after-prepare, series case (one episode): a folder left behind
/// by a finished series preparation — the written `meta.json`, no
/// playable file at the top level, and one season directory named with
/// the season number holding one playable episode file named
/// `<episodeNo>-<basename>` — crawls back into a series entry with
/// exactly that season and episode.
#[verifier::rlimit(100)]
#[verifier::spinoff_prover]
pub proof fn lemma_crawl_after_prepare_series(
    e: EntrySnapshot,
    th: Seq<char>,
    ti: Seq<char>,
    sn: u32,
    en: u32,
    base: Seq<char>,
)
    requires
        e.meta_json matches Some(mj) && mj@ == crate::codec::enc_metadata_pretty(th, ti),
        forall|k: int|
            0 <= k < e.entries@.len() ==> !((#[trigger] e.entries@[k]).is_file
                && spec_is_supported_video_name(e.entries@[k].name@)),
        e.seasons@.len() == 1,
        e.seasons@[0].dir_name@ == crate::text::spec_dec_digits(sn as nat),
        e.seasons@[0].subtitles is None,
        e.seasons@[0].entries@.len() == 1,
        e.seasons@[0].entries@[0].is_file,
        e.seasons@[0].entries@[0].name@ == crate::text::spec_dec_digits(en as nat) + seq!['-']
            + base,
        spec_is_supported_video_name(e.seasons@[0].entries@[0].name@),
    ensures
        ({
            let season_dir = spec_join(e.name@, crate::text::spec_dec_digits(sn as nat));
            let media = spec_join(
                season_dir,
                crate::text::spec_dec_digits(en as nat) + seq!['-'] + base,
            );
            spec_crawl_folder(e) == Option::Some(
                MediaV {
                    id: crate::sanitize::spec_sanitize(ti),
                    thumbnail: th,
                    title: ti,
                    content: ContentV::Series(
                        seq![
                            SeasonV {
                                number: sn,
                                episodes: seq![
                                    EpisodeV {
                                        number: en,
                                        paths: PathsV { media, subtitles: Seq::empty() },
                                    }
                                ],
                            }
                        ],
                    ),
                },
            )
        }),
{
    crate::codec::lemma_metadata_pretty_roundtrip(th, ti);
    lemma_first_movie_none(e.entries@, 0);
    let sd = e.seasons@[0];
    let f = sd.entries@[0];
    // The season directory's name carries the season number, the file's
    // name carries the episode number.
    lemma_num_of_decimal(sn, Seq::<char>::empty());
    assert(crate::text::spec_dec_digits(sn as nat) + Seq::<char>::empty()
        =~= crate::text::spec_dec_digits(sn as nat));
    lemma_num_of_decimal(en, seq!['-'] + base);
    assert((seq!['-'] + base)[0] == '-');
    assert(crate::text::spec_dec_digits(en as nat) + (seq!['-'] + base) =~= f.name@);
    assert(spec_num_of(f.name@) == Option::Some(en));
    // One file, one episode.
    let season_dir = spec_join(e.name@, sd.dir_name@);
    let pairs = spec_dir_pairs(sd.subtitles);
    assert(sd.entries@.drop_last() =~= Seq::<FsEntry>::empty());
    assert(sd.entries@.last() == f);
    let ep = EpisodeV {
        number: en,
        paths: PathsV {
            media: spec_join(season_dir, f.name@),
            subtitles: spec_subs_of_pairs(
                spec_join(season_dir, "subtitles"@),
                pairs,
                Option::Some(en),
            ),
        },
    };
    assert(spec_season_eps(season_dir, pairs, sd.entries@) =~= seq![ep]) by {
        assert(spec_season_eps(season_dir, pairs, Seq::<FsEntry>::empty())
            =~= Seq::<EpisodeV>::empty());
        assert(!spec_eps_have(Seq::<EpisodeV>::empty(), en));
        assert(spec_insert_ep(Seq::<EpisodeV>::empty(), ep) =~= seq![ep]);
    }
    assert(ep.paths.subtitles =~= Seq::<SubtitleV>::empty());
    let sv = SeasonV { number: sn, episodes: seq![ep] };
    assert(spec_season(e.name@, sd) == Option::Some(sv));
    assert(e.seasons@.drop_last() =~= Seq::<SeasonSnapshot>::empty());
    assert(e.seasons@.last() == sd);
    assert(spec_series_seasons(e.name@, e.seasons@) =~= seq![sv]) by {
        assert(spec_series_seasons(e.name@, Seq::<SeasonSnapshot>::empty())
            =~= Seq::<SeasonV>::empty());
        assert(!spec_seasons_have(Seq::<SeasonV>::empty(), sn));
        assert(spec_insert_season(Seq::<SeasonV>::empty(), sv) =~= seq![sv]);
    }
}

/// A folder that crawls into an entry puts that entry into the whole
/// root's catalog. Together with the crawl-after-prepare lemmas: after a
/// preparation finishes, the next full crawl contains its entry.
pub proof fn lemma_crawl_all_contains(entries: Seq<EntrySnapshot>, k: int)
    requires
        0 <= k < entries.len(),
        spec_crawl_folder(entries[k]) is Some,
    ensures
        spec_crawl_all(entries).contains(spec_crawl_folder(entries[k])->Some_0),
    decreases entries.len(),
{
    let m = spec_crawl_folder(entries[k])->Some_0;
    let prefix = spec_crawl_all(entries.drop_last());
    if k == entries.len() - 1 {
        match spec_crawl_folder(entries.last()) {
            Option::None => {},
            Option::Some(m2) => {
                assert(spec_crawl_all(entries)[prefix.len() as int] == m2);
            },
        }
    } else {
        assert(entries.drop_last()[k] == entries[k]);
        lemma_crawl_all_contains(entries.drop_last(), k);
        let j = choose|j: int| 0 <= j < prefix.len() && prefix[j] == m;
        assert(spec_crawl_all(entries)[j] == m) by {
            match spec_crawl_folder(entries.last()) {
                Option::None => {},
                Option::Some(m2) => {
                    assert(spec_crawl_all(entries) == prefix.push(m2));
                },
            }
        }
        assert(spec_crawl_all(entries).contains(m));
    }
}

} // verus!
