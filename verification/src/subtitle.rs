//! The subtitle service's decisions: where a downloaded subtitle lands,
//! how the search query is derived, and which errors the flow surfaces.
//! The provider calls and the file writes happen outside.

use vstd::prelude::*;
use vstd::string::*;
use crate::language::LanguageCode;
use crate::media::spec_join;
use crate::prepare::spec_basename;
use crate::series::EpisodeIdentifier;
use crate::text::spec_dec_digits;

verus! {

/// What a subtitle download can fail with.
#[derive(Debug, Clone, Copy, PartialEq, Eq, Structural)]
pub enum SubtitleDownloadError {
    /// The target file already exists; surfaced before any quota is
    /// spent, and again when the exclusive create loses a race.
    SubtitleAlreadyExists,
    /// The provider refused the download; assumed to be the quota.
    DownloadQuotaReached,
    /// Writing the fetched text failed.
    InternalFileSystemError,
}

/// A request to fetch one subtitle for a media entry.
#[derive(Debug, Clone, PartialEq, Eq)]
pub struct SubtitleRequest {
    /// Present for series; the episode number prefixes the file name.
    pub episode_identifier: Option<EpisodeIdentifier>,
    pub subtitle_id: String,
}

/// One option the provider offers for a search.
#[derive(Debug, Clone, PartialEq, Eq)]
pub struct SubtitleDownloadOption<Id> {
    pub id: Id,
    pub title: String,
    pub download_count: usize,
    pub language: LanguageCode,
}

/// A client-submitted subtitle upload.
#[derive(Debug, Clone, PartialEq, Eq)]
pub struct AddSubtitleForm {
    pub media_id: String,
    pub episode_identifier: Option<EpisodeIdentifier>,
    pub language_iso639: String,
    pub name: String,
    pub extension: String,
    pub file_contents: String,
}

/// The media path with its final component replaced.
pub open spec fn spec_with_file_name(s: Seq<char>, name: Seq<char>) -> Seq<char> {
    s.take(s.len() - spec_basename(s).len()) + name
}

/// The `subtitles/` directory beside a media file, and the target file
/// inside it: `<episodeNo>-<subtitleID>.srt` for series,
/// `<subtitleID>.srt` for movies.
pub fn subtitle_target_path(media_path: &str, request: &SubtitleRequest) -> (r: (String, String))
    ensures
        r.0@ == spec_with_file_name(media_path@, "subtitles"@),
        request.episode_identifier matches Some(e) ==> r.1@ == spec_join(
            r.0@,
            spec_dec_digits(e.episode_no as nat) + seq!['-'] + request.subtitle_id@ + ".srt"@,
        ),
        request.episode_identifier is None ==> r.1@ == spec_join(
            r.0@,
            request.subtitle_id@ + ".srt"@,
        ),
{
    let bn = crate::prepare::basename(media_path);
    let n: usize = media_path.unicode_len();
    let bl: usize = bn.as_str().unicode_len();
    proof {
        crate::prepare::lemma_basename_len(media_path@);
    }
    let prefix = media_path.substring_char(0, n - bl);
    let mut folder = prefix.to_owned();
    folder.append("subtitles");
    proof {
        assert(media_path@.subrange(0, n - bl) =~= media_path@.take(n - bl));
        assert(folder@ =~= spec_with_file_name(media_path@, "subtitles"@));
    }
    let mut file = String::new();
    match &request.episode_identifier {
        Some(e) => {
            let num = crate::text::u32_to_string(e.episode_no);
            file.append(num.as_str());
            crate::text::push_char(&mut file, '-');
        },
        None => {},
    }
    file.append(request.subtitle_id.as_str());
    file.append(".srt");
    let target = crate::media::join_path(folder.as_str(), file.as_str());
    proof {
        match request.episode_identifier {
            Option::Some(e) => {
                assert(file@ =~= spec_dec_digits(e.episode_no as nat) + seq!['-']
                    + request.subtitle_id@ + ".srt"@);
            },
            Option::None => {
                assert(file@ =~= request.subtitle_id@ + ".srt"@);
            },
        }
    }
    (folder, target)
}

/// The display name a media file searches under: its stored stem,
/// base64url-decoded when it decodes, the raw stem otherwise.
pub fn track_name(stem: &str) -> (r: String)
    ensures
        match crate::codec::b64url_decoded(stem@) {
            Option::Some(t) => r@ == t,
            Option::None => r@ == stem@,
        },
{
    match crate::codec::decode_url_safe(stem) {
        Ok(t) => t,
        Err(_) => stem.to_owned(),
    }
}

/// A short name safe to appear in a stored path: one to sixty-four
/// letters, digits, underscores or hyphens.
pub open spec fn spec_path_safe(s: Seq<char>) -> bool {
    1 <= s.len() <= 64 && forall|m: int|
        0 <= m < s.len() ==> {
            let c = #[trigger] s[m];
            ('a' <= c && c <= 'z') || ('A' <= c && c <= 'Z') || ('0' <= c && c <= '9') || c == '_'
                || c == '-'
        }
}

/// Whether a client-supplied name may appear in a stored path.
pub fn is_path_safe(name: &str) -> (r: bool)
    ensures
        r == spec_path_safe(name@),
{
    let n: usize = name.unicode_len();
    if n < 1 || n > 64 {
        return false;
    }
    let mut i: usize = 0;
    while i < n
        invariant
            n == name@.len(),
            i <= n,
            forall|m: int|
                0 <= m < i ==> {
                    let c = #[trigger] name@[m];
                    ('a' <= c && c <= 'z') || ('A' <= c && c <= 'Z') || ('0' <= c && c <= '9') || c
                        == '_' || c == '-'
                },
        decreases n - i,
    {
        let c = name.get_char(i);
        let ok = ('a' <= c && c <= 'z') || ('A' <= c && c <= 'Z') || ('0' <= c && c <= '9') || c
            == '_' || c == '-';
        if !ok {
            return false;
        }
        i = i + 1;
    }
    true
}

/// Where a client-uploaded subtitle is stored: the entry's directory
/// (plus the season directory for series), its `subtitles/` child, and
/// the file `<episodeNo?><lang3><name>.<ext>` inside it.
pub fn add_subtitle_save_path(
    media_dir: &str,
    media_id: &str,
    episode: &Option<EpisodeIdentifier>,
    language: &LanguageCode,
    name: &str,
    extension: &str,
) -> (r: (String, String))
    ensures
        episode matches Some(e) ==> r.0@ == spec_join(
            spec_join(media_dir@, media_id@),
            spec_dec_digits(e.season_no as nat),
        ),
        episode is None ==> r.0@ == spec_join(media_dir@, media_id@),
        episode matches Some(e) ==> r.1@ == spec_join(
            spec_join(r.0@, "subtitles"@),
            spec_dec_digits(e.episode_no as nat) + crate::language::spec_iso639_2t(*language)
                + name@ + seq!['.'] + extension@,
        ),
        episode is None ==> r.1@ == spec_join(
            spec_join(r.0@, "subtitles"@),
            crate::language::spec_iso639_2t(*language) + name@ + seq!['.'] + extension@,
        ),
{
    let entry_dir = crate::media::join_path(media_dir, media_id);
    let media_path = match episode {
        Some(e) => {
            let season = crate::text::u32_to_string(e.season_no);
            crate::media::join_path(entry_dir.as_str(), season.as_str())
        },
        None => entry_dir,
    };
    let subtitles_path = crate::media::join_path(media_path.as_str(), "subtitles");
    let mut file = String::new();
    match episode {
        Some(e) => {
            let num = crate::text::u32_to_string(e.episode_no);
            file.append(num.as_str());
        },
        None => {},
    }
    file.append(language.to_iso639_2t());
    file.append(name);
    crate::text::push_char(&mut file, '.');
    file.append(extension);
    let save_path = crate::media::join_path(subtitles_path.as_str(), file.as_str());
    proof {
        match *episode {
            Option::Some(e) => {
                assert(file@ =~= spec_dec_digits(e.episode_no as nat)
                    + crate::language::spec_iso639_2t(*language) + name@ + seq!['.'] + extension@);
            },
            Option::None => {
                assert(file@ =~= crate::language::spec_iso639_2t(*language) + name@ + seq!['.']
                    + extension@);
            },
        }
    }
    (media_path, save_path)
}

} // verus!
