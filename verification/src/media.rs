//! The catalog data model: media entries, their content and their paths.

use vstd::prelude::*;
use vstd::string::*;

verus! {

/// Metadata of one media entry, as stored in its `meta.json`.
#[derive(Debug, Clone, PartialEq, Eq)]
pub struct MediaMetaData {
    pub thumbnail: String,
    pub title: String,
}

impl MediaMetaData {
    /// A field-for-field copy.
    pub fn duplicate(&self) -> (r: MediaMetaData)
        ensures
            r.thumbnail@ == self.thumbnail@,
            r.title@ == self.title@,
    {
        MediaMetaData { thumbnail: self.thumbnail.clone(), title: self.title.clone() }
    }
}

/// One subtitle of a media file: a text file plus the mp4 container that
/// carries the same subtitle as a stream.
#[derive(Debug, Clone, PartialEq, Eq)]
pub struct Subtitle {
    pub name: String,
    pub language_iso639_2t: String,
    pub path: String,
    /// A container such as mp4 that has a subtitle stream.
    pub track_path: String,
}

/// The paths belonging to one playable media file.
#[derive(Debug, Clone, PartialEq, Eq)]
pub struct MediaPaths {
    pub media: String,
    pub subtitles: Vec<Subtitle>,
}

/// One episode of a season, keyed by its episode number.
#[derive(Debug, Clone, PartialEq, Eq)]
pub struct EpisodeEntry {
    pub number: u32,
    pub paths: MediaPaths,
}

/// One season of a series, keyed by its season number.
#[derive(Debug, Clone, PartialEq, Eq)]
pub struct SeasonEntry {
    pub number: u32,
    pub episodes: Vec<EpisodeEntry>,
}

/// Season number -> season contents; kept sorted by season number.
#[derive(Debug, Clone, PartialEq, Eq)]
pub struct SeriesContents {
    pub seasons: Vec<SeasonEntry>,
}

/// What a media entry holds: a single movie or a series of seasons.
#[derive(Debug, Clone, PartialEq, Eq)]
pub enum MediaContent {
    Movie(MediaPaths),
    Series(SeriesContents),
}

/// One entry of the catalog.
#[derive(Debug, Clone, PartialEq, Eq)]
pub struct Media {
    pub id: String,
    pub metadata: MediaMetaData,
    pub content: MediaContent,
}

/// The stage a download is in, as shown to clients.
#[derive(Debug, Clone, PartialEq, Eq)]
pub enum DownloadState {
    Paused,
    Failed,
    InProgress,
    Processing,
    Complete,
}

/// The form a client submits to start a download.
#[derive(Debug, Clone, PartialEq, Eq)]
pub struct DownloadForm {
    pub hash: String,
    pub metadata: MediaMetaData,
    pub is_series: bool,
}

/// Which stream of a media container is meant.
#[derive(Debug, Clone, PartialEq, Eq)]
pub enum MediaStream {
    Video,
    Audio,
}

/// A directory entry as the filesystem reported it: its name and whether
/// it is a plain file.
#[derive(Debug, Clone, PartialEq, Eq)]
pub struct FsEntry {
    pub name: String,
    pub is_file: bool,
}

/// Seasons sorted strictly by season number, episodes sorted strictly by
/// episode number: the well-formedness every series value keeps.
pub open spec fn series_wf(s: SeriesContents) -> bool {
    &&& forall|i: int, j: int|
        0 <= i < j < s.seasons@.len() ==> s.seasons@[i].number < s.seasons@[j].number
    &&& forall|i: int| 0 <= i < s.seasons@.len() ==> season_wf(#[trigger] s.seasons@[i])
}

/// Episodes sorted strictly by episode number.
pub open spec fn season_wf(s: SeasonEntry) -> bool {
    forall|i: int, j: int|
        0 <= i < j < s.episodes@.len() ==> s.episodes@[i].number < s.episodes@[j].number
}

// ---------------------------------------------------------------------------
// Path prefix handling. Stored paths are relative to the media root; these
// helpers attach and detach an absolute prefix.
// ---------------------------------------------------------------------------

/// Joining a prefix onto a relative path: a `/` goes between them unless
/// the prefix is empty.
pub open spec fn spec_join(prefix: Seq<char>, rel: Seq<char>) -> Seq<char> {
    if prefix.len() == 0 {
        rel
    } else {
        prefix + seq!['/'] + rel
    }
}

/// Drops every leading `/`.
pub open spec fn spec_trim_slashes(s: Seq<char>) -> Seq<char>
    decreases s.len(),
{
    if s.len() > 0 && s[0] == '/' {
        spec_trim_slashes(s.drop_first())
    } else {
        s
    }
}

/// Removing a prefix from a stored path: the prefix must be a literal
/// prefix of the path; what remains is taken past any separating `/`.
pub open spec fn spec_strip(prefix: Seq<char>, s: Seq<char>) -> Option<Seq<char>> {
    if crate::text::spec_starts_with(s, prefix) {
        Some(spec_trim_slashes(s.skip(prefix.len() as int)))
    } else {
        None
    }
}

/// Joins `prefix` and `rel` with a `/` between them.
pub fn join_path(prefix: &str, rel: &str) -> (r: String)
    ensures
        r@ == spec_join(prefix@, rel@),
{
    if prefix.unicode_len() == 0 {
        return rel.to_owned();
    }
    let mut out = prefix.to_owned();
    crate::text::push_char(&mut out, '/');
    out.append(rel);
    proof {
        assert(out@ =~= prefix@ + seq!['/'] + rel@);
    }
    out
}

/// Strips `prefix` off the front of `s`, then any leading `/`.
pub fn strip_path_prefix(prefix: &str, s: &str) -> (r: Option<String>)
    ensures
        r matches Some(v) ==> spec_strip(prefix@, s@) == Some(v@),
        r is Some <==> spec_strip(prefix@, s@) is Some,
{
    if !crate::text::starts_with(s, prefix) {
        return None;
    }
    let n: usize = s.unicode_len();
    let np: usize = prefix.unicode_len();
    let mut i: usize = np;
    while i < n && s.get_char(i) == '/'
        invariant
            n == s@.len(),
            np <= i <= n,
            spec_trim_slashes(s@.skip(np as int)) == spec_trim_slashes(s@.skip(i as int)),
        decreases n - i,
    {
        proof {
            let t = s@.skip(i as int);
            assert(t[0] == '/');
            assert(t.drop_first() =~= s@.skip(i + 1));
        }
        i = i + 1;
    }
    let out = s.substring_char(i, n);
    proof {
        let t = s@.skip(i as int);
        if i < n {
            assert(t[0] != '/');
        }
        assert(t =~= s@.subrange(i as int, n as int));
        assert(spec_trim_slashes(t) == t);
    }
    Some(out.to_owned())
}

/// `r` is `mp` with every stored path carrying `prefix` in front.
pub open spec fn paths_with_prefix(prefix: Seq<char>, mp: MediaPaths, r: MediaPaths) -> bool {
    &&& r.media@ == spec_join(prefix, mp.media@)
    &&& r.subtitles@.len() == mp.subtitles@.len()
    &&& forall|i: int|
        0 <= i < mp.subtitles@.len() ==> subtitle_with_prefix(
            prefix,
            mp.subtitles@[i],
            #[trigger] r.subtitles@[i],
        )
}

/// `r` is `sub` with its two path fields carrying `prefix` in front.
pub open spec fn subtitle_with_prefix(prefix: Seq<char>, sub: Subtitle, r: Subtitle) -> bool {
    &&& r.name@ == sub.name@
    &&& r.language_iso639_2t@ == sub.language_iso639_2t@
    &&& r.path@ == spec_join(prefix, sub.path@)
    &&& r.track_path@ == spec_join(prefix, sub.track_path@)
}

/// Stripping `prefix` off these paths cannot succeed: the media path or
/// one of the subtitle paths does not start with it.
pub open spec fn paths_strip_fails(prefix: Seq<char>, mp: MediaPaths) -> bool {
    spec_strip(prefix, mp.media@) is None || exists|i: int|
        0 <= i < mp.subtitles@.len() && (spec_strip(
            prefix,
            (#[trigger] mp.subtitles@[i]).path@,
        ) is None || spec_strip(prefix, mp.subtitles@[i].track_path@) is None)
}

/// `r` is `mp` with `prefix` stripped off every stored path.
pub open spec fn paths_without_prefix(prefix: Seq<char>, mp: MediaPaths, r: MediaPaths) -> bool {
    &&& Some(r.media@) == spec_strip(prefix, mp.media@)
    &&& r.subtitles@.len() == mp.subtitles@.len()
    &&& forall|i: int|
        0 <= i < mp.subtitles@.len() ==> subtitle_without_prefix(
            prefix,
            mp.subtitles@[i],
            #[trigger] r.subtitles@[i],
        )
}

/// `r` is `sub` with `prefix` stripped off its two path fields.
pub open spec fn subtitle_without_prefix(prefix: Seq<char>, sub: Subtitle, r: Subtitle) -> bool {
    &&& r.name@ == sub.name@
    &&& r.language_iso639_2t@ == sub.language_iso639_2t@
    &&& Some(r.path@) == spec_strip(prefix, sub.path@)
    &&& Some(r.track_path@) == spec_strip(prefix, sub.track_path@)
}

impl MediaPaths {
    /// Returns these paths with `prefix` attached in front of each.
    pub fn add_prefix(&self, prefix: &str) -> (r: MediaPaths)
        ensures
            paths_with_prefix(prefix@, *self, r),
    {
        let media = join_path(prefix, self.media.as_str());
        let mut subtitles: Vec<Subtitle> = Vec::new();
        let mut i: usize = 0;
        while i < self.subtitles.len()
            invariant
                i <= self.subtitles@.len(),
                subtitles@.len() == i,
                forall|m: int|
                    0 <= m < i ==> subtitle_with_prefix(
                        prefix@,
                        self.subtitles@[m],
                        #[trigger] subtitles@[m],
                    ),
            decreases self.subtitles@.len() - i,
        {
            let sub = &self.subtitles[i];
            subtitles.push(
                Subtitle {
                    name: sub.name.clone(),
                    language_iso639_2t: sub.language_iso639_2t.clone(),
                    path: join_path(prefix, sub.path.as_str()),
                    track_path: join_path(prefix, sub.track_path.as_str()),
                },
            );
            i = i + 1;
        }
        MediaPaths { media, subtitles }
    }

    /// Returns these paths with `prefix` removed from the front of each,
    /// or nothing when some path does not start with `prefix`.
    pub fn strip_prefix(&self, prefix: &str) -> (r: Option<MediaPaths>)
        ensures
            r matches Some(v) ==> paths_without_prefix(prefix@, *self, v),
            r is None ==> paths_strip_fails(prefix@, *self),
    {
        let media = match strip_path_prefix(prefix, self.media.as_str()) {
            Some(m) => m,
            None => {
                return None;
            },
        };
        let mut subtitles: Vec<Subtitle> = Vec::new();
        let mut i: usize = 0;
        while i < self.subtitles.len()
            invariant
                i <= self.subtitles@.len(),
                subtitles@.len() == i,
                forall|m: int|
                    0 <= m < i ==> subtitle_without_prefix(
                        prefix@,
                        self.subtitles@[m],
                        #[trigger] subtitles@[m],
                    ),
            decreases self.subtitles@.len() - i,
        {
            let sub = &self.subtitles[i];
            let path = match strip_path_prefix(prefix, sub.path.as_str()) {
                Some(p) => p,
                None => {
                    return None;
                },
            };
            let track_path = match strip_path_prefix(prefix, sub.track_path.as_str()) {
                Some(p) => p,
                None => {
                    return None;
                },
            };
            subtitles.push(
                Subtitle {
                    name: sub.name.clone(),
                    language_iso639_2t: sub.language_iso639_2t.clone(),
                    path,
                    track_path,
                },
            );
            i = i + 1;
        }
        Some(MediaPaths { media, subtitles })
    }
}

/// `r` is `c` with `prefix` attached to every stored path.
pub open spec fn content_with_prefix(prefix: Seq<char>, c: MediaContent, r: MediaContent) -> bool {
    match c {
        MediaContent::Movie(mp) => r matches MediaContent::Movie(rp) && paths_with_prefix(
            prefix,
            mp,
            rp,
        ),
        MediaContent::Series(sc) => r matches MediaContent::Series(rc) && {
            &&& rc.seasons@.len() == sc.seasons@.len()
            &&& forall|i: int|
                0 <= i < sc.seasons@.len() ==> season_with_prefix(
                    prefix,
                    sc.seasons@[i],
                    #[trigger] rc.seasons@[i],
                )
        },
    }
}

/// `r` is season `s` with `prefix` attached to each episode's paths.
pub open spec fn season_with_prefix(prefix: Seq<char>, s: SeasonEntry, r: SeasonEntry) -> bool {
    &&& r.number == s.number
    &&& r.episodes@.len() == s.episodes@.len()
    &&& forall|i: int|
        0 <= i < s.episodes@.len() ==> (#[trigger] r.episodes@[i]).number == s.episodes@[i].number
            && paths_with_prefix(prefix, s.episodes@[i].paths, r.episodes@[i].paths)
}

/// `r` is `c` with `prefix` stripped from every stored path.
pub open spec fn content_without_prefix(prefix: Seq<char>, c: MediaContent, r: MediaContent) -> bool {
    match c {
        MediaContent::Movie(mp) => r matches MediaContent::Movie(rp) && paths_without_prefix(
            prefix,
            mp,
            rp,
        ),
        MediaContent::Series(sc) => r matches MediaContent::Series(rc) && {
            &&& rc.seasons@.len() == sc.seasons@.len()
            &&& forall|i: int|
                0 <= i < sc.seasons@.len() ==> season_without_prefix(
                    prefix,
                    sc.seasons@[i],
                    #[trigger] rc.seasons@[i],
                )
        },
    }
}

/// `r` is season `s` with `prefix` stripped from each episode's paths.
pub open spec fn season_without_prefix(prefix: Seq<char>, s: SeasonEntry, r: SeasonEntry) -> bool {
    &&& r.number == s.number
    &&& r.episodes@.len() == s.episodes@.len()
    &&& forall|i: int|
        0 <= i < s.episodes@.len() ==> (#[trigger] r.episodes@[i]).number == s.episodes@[i].number
            && paths_without_prefix(prefix, s.episodes@[i].paths, r.episodes@[i].paths)
}

impl MediaContent {
    /// Returns this content with `prefix` attached to every stored path.
    pub fn add_prefix(&self, prefix: &str) -> (r: MediaContent)
        ensures
            content_with_prefix(prefix@, *self, r),
    {
        match self {
            MediaContent::Movie(mp) => MediaContent::Movie(mp.add_prefix(prefix)),
            MediaContent::Series(sc) => {
                let mut seasons: Vec<SeasonEntry> = Vec::new();
                let mut i: usize = 0;
                while i < sc.seasons.len()
                    invariant
                        i <= sc.seasons@.len(),
                        seasons@.len() == i,
                        forall|m: int|
                            0 <= m < i ==> season_with_prefix(
                                prefix@,
                                sc.seasons@[m],
                                #[trigger] seasons@[m],
                            ),
                    decreases sc.seasons@.len() - i,
                {
                    let season = &sc.seasons[i];
                    let mut episodes: Vec<EpisodeEntry> = Vec::new();
                    let mut j: usize = 0;
                    while j < season.episodes.len()
                        invariant
                            j <= season.episodes@.len(),
                            episodes@.len() == j,
                            forall|m: int|
                                0 <= m < j ==> (#[trigger] episodes@[m]).number
                                    == season.episodes@[m].number && paths_with_prefix(
                                    prefix@,
                                    season.episodes@[m].paths,
                                    episodes@[m].paths,
                                ),
                        decreases season.episodes@.len() - j,
                    {
                        let ep = &season.episodes[j];
                        episodes.push(
                            EpisodeEntry { number: ep.number, paths: ep.paths.add_prefix(prefix) },
                        );
                        j = j + 1;
                    }
                    seasons.push(SeasonEntry { number: season.number, episodes });
                    i = i + 1;
                }
                MediaContent::Series(SeriesContents { seasons })
            },
        }
    }

    /// Returns this content with `prefix` stripped from every stored path,
    /// or nothing exactly when some contained paths do not carry `prefix`.
    pub fn strip_prefix(&self, prefix: &str) -> (r: Option<MediaContent>)
        ensures
            r matches Some(v) ==> content_without_prefix(prefix@, *self, v),
            r is None ==> match *self {
                MediaContent::Movie(mp) => paths_strip_fails(prefix@, mp),
                MediaContent::Series(sc) => exists|i: int, j: int|
                    0 <= i < sc.seasons@.len() && 0 <= j < (
                    #[trigger] sc.seasons@[i]).episodes@.len() && paths_strip_fails(
                        prefix@,
                        (#[trigger] sc.seasons@[i].episodes@[j]).paths,
                    ),
            },
    {
        match self {
            MediaContent::Movie(mp) => match mp.strip_prefix(prefix) {
                Some(rp) => Some(MediaContent::Movie(rp)),
                None => None,
            },
            MediaContent::Series(sc) => {
                let mut seasons: Vec<SeasonEntry> = Vec::new();
                let mut i: usize = 0;
                while i < sc.seasons.len()
                    invariant
                        *self is Series && self->Series_0 == *sc,
                        i <= sc.seasons@.len(),
                        seasons@.len() == i,
                        forall|m: int|
                            0 <= m < i ==> season_without_prefix(
                                prefix@,
                                sc.seasons@[m],
                                #[trigger] seasons@[m],
                            ),
                    decreases sc.seasons@.len() - i,
                {
                    let season = &sc.seasons[i];
                    let mut episodes: Vec<EpisodeEntry> = Vec::new();
                    let mut j: usize = 0;
                    while j < season.episodes.len()
                        invariant
                            *self is Series && self->Series_0 == *sc,
                            i < sc.seasons@.len(),
                            season == sc.seasons@[i as int],
                            j <= season.episodes@.len(),
                            episodes@.len() == j,
                            forall|m: int|
                                0 <= m < j ==> (#[trigger] episodes@[m]).number
                                    == season.episodes@[m].number && paths_without_prefix(
                                    prefix@,
                                    season.episodes@[m].paths,
                                    episodes@[m].paths,
                                ),
                        decreases season.episodes@.len() - j,
                    {
                        let ep = &season.episodes[j];
                        let paths = match ep.paths.strip_prefix(prefix) {
                            Some(p) => p,
                            None => {
                                proof {
                                    let scv = self->Series_0;
                                    assert(scv == *sc);
                                    assert(exists|a: int, b: int|
                                        0 <= a < scv.seasons@.len() && 0 <= b < (
                                        #[trigger] scv.seasons@[a]).episodes@.len()
                                            && paths_strip_fails(
                                            prefix@,
                                            (#[trigger] scv.seasons@[a].episodes@[b]).paths,
                                        )) by {
                                        assert((i as int) < scv.seasons@.len());
                                        assert((j as int) < scv.seasons@[
                                            i as int].episodes@.len());
                                        assert(paths_strip_fails(
                                            prefix@,
                                            scv.seasons@[i as int].episodes@[j as int].paths,
                                        ));
                                    }
                                }
                                return None;
                            },
                        };
                        episodes.push(EpisodeEntry { number: ep.number, paths });
                        j = j + 1;
                    }
                    seasons.push(SeasonEntry { number: season.number, episodes });
                    i = i + 1;
                }
                Some(MediaContent::Series(SeriesContents { seasons }))
            },
        }
    }
}

} // verus!
