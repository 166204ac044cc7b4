//! Preparation planning: how a completed torrent's files are moved and
//! transcoded into the library layout. The plans are computed here and
//! pinned exactly; carrying them out is plain file I/O that happens
//! outside.

use vstd::prelude::*;
use vstd::string::*;
use crate::format::{spec_extension, spec_is_video_name, spec_should_convert, spec_stem};
use crate::media::{MediaMetaData, MediaStream, spec_join};
use crate::sanitize::spec_sanitize;
use crate::series::{EditSeriesFileMappingForm, Valid};
use crate::text::spec_dec_digits;

verus! {

/// Why a preparation cannot be planned or carried out.
#[derive(Debug, Clone, PartialEq, Eq)]
pub enum PrepareError {
    ConvertError(String),
    MoveError(String),
    PrepareError(String),
}

/// The index of the first video file at or after `i` in a listing.
pub open spec fn first_video_from(paths: Seq<Seq<char>>, i: int) -> Option<int>
    decreases paths.len() - i,
{
    if i < 0 || i >= paths.len() {
        Option::None
    } else if spec_is_video_name(paths[i]) {
        Option::Some(i)
    } else {
        first_video_from(paths, i + 1)
    }
}

/// The first file with a video extension in a recursive directory
/// listing, in listing order.
pub fn find_movie_file(paths: &Vec<String>) -> (r: Option<String>)
    ensures
        r matches Some(p) ==> exists|idx: int|
            first_video_from(crate::crawl::views_of(paths@), 0) == Option::Some(idx) && p@
                == paths@[idx]@,
        r is None ==> first_video_from(crate::crawl::views_of(paths@), 0) is None,
{
    let ghost pv = crate::crawl::views_of(paths@);
    let n = paths.len();
    let mut i: usize = 0;
    while i < n && !crate::format::check_if_video_file(paths[i].as_str())
        invariant
            n == paths@.len(),
            pv == crate::crawl::views_of(paths@),
            i <= n,
            first_video_from(pv, 0) == first_video_from(pv, i as int),
        decreases n - i,
    {
        proof {
            assert(pv[i as int] == paths@[i as int]@);
        }
        i = i + 1;
    }
    if i == n {
        return None;
    }
    proof {
        assert(pv[i as int] == paths@[i as int]@);
        assert(first_video_from(pv, i as int) == Option::Some(i as int));
    }
    Some(paths[i].clone())
}

/// A found first video file is indeed a video file.
pub(crate) proof fn lemma_first_video_props(paths: Seq<Seq<char>>, i: int)
    requires
        first_video_from(paths, i) is Some,
    ensures
        ({
            let idx = first_video_from(paths, i)->Some_0;
            i <= idx < paths.len() && spec_is_video_name(paths[idx])
        }),
    decreases paths.len() - i,
{
    if !(i < 0 || i >= paths.len()) {
        if spec_is_video_name(paths[i]) {
        } else {
            lemma_first_video_props(paths, i + 1);
        }
    }
}

/// The plan for turning a completed movie torrent into a library entry:
/// one move, one metadata write, and possibly one conversion.
#[derive(Debug, Clone, PartialEq, Eq)]
pub struct MoviePlan {
    /// The source file, as listed from the torrent's save directory.
    pub source: String,
    /// The entry directory to create: sanitized title under the root.
    pub target_dir: String,
    /// Where the source moves: `movie-tbd.<ext>` inside the entry.
    pub dest: String,
    /// Where `meta.json` is written (created or truncated).
    pub meta_path: String,
    /// The pretty-printed metadata document.
    pub meta_contents: String,
    /// Whether the moved file must be transcoded to mp4.
    pub needs_convert: bool,
    /// The conversion output: the moved file with an mp4 extension. The
    /// moved source is deleted after a successful conversion.
    pub convert_output: String,
}

/// What a movie plan promises about its fields.
pub open spec fn movie_plan_ok(
    media_dir: Seq<char>,
    metadata: MediaMetaData,
    source: Seq<char>,
    p: MoviePlan,
) -> bool {
    &&& p.source@ == source
    &&& p.target_dir@ == spec_join(media_dir, spec_sanitize(metadata.title@))
    &&& p.dest@ == spec_join(p.target_dir@, "movie-tbd."@ + spec_extension(source)->Some_0)
    &&& p.meta_path@ == spec_join(p.target_dir@, "meta.json"@)
    &&& p.meta_contents@ == crate::codec::enc_metadata_pretty(metadata.thumbnail@, metadata.title@)
    &&& p.needs_convert == spec_should_convert(p.dest@)
    &&& p.convert_output@ == spec_join(p.target_dir@, "movie-tbd."@ + "mp4"@)
}

/// Plans the movie preparation: find the first video file in the
/// torrent's listing, move it under the sanitized title as
/// `movie-tbd.<ext>`, write `meta.json`, and convert when the container
/// requires it. Fails exactly when the listing holds no video file.
pub fn prepare_movie(media_dir: &str, metadata: &MediaMetaData, source_files: &Vec<String>) -> (r:
    Result<MoviePlan, PrepareError>)
    ensures
        r matches Ok(p) ==> exists|idx: int|
            first_video_from(crate::crawl::views_of(source_files@), 0) == Option::Some(idx)
                && movie_plan_ok(media_dir@, *metadata, source_files@[idx]@, p),
        r is Err ==> first_video_from(crate::crawl::views_of(source_files@), 0) is None && (
        r matches Err(e) && e is PrepareError),
{
    let source = match find_movie_file(source_files) {
        Some(p) => p,
        None => {
            return Err(
                PrepareError::PrepareError("no movie file found in the torrent".to_owned()),
            );
        },
    };
    proof {
        let pv = crate::crawl::views_of(source_files@);
        let idx = choose|idx: int|
            first_video_from(pv, 0) == Option::Some(idx) && source@ == source_files@[idx]@;
        lemma_first_video_props(pv, 0);
        assert(pv[idx] == source_files@[idx]@);
        assert(spec_is_video_name(source@));
    }
    let sanitized = crate::sanitize::sanitize_name_for_url(metadata.title.as_str());
    let target_dir = crate::media::join_path(media_dir, sanitized.as_str());
    let (_, ext_opt) = crate::format::split_extension(source.as_str());
    let ext = match ext_opt {
        Some(e) => e,
        None => {
            // A found video file always carries an extension.
            proof {
                assert(spec_is_video_name(source@));
            }
            return Err(PrepareError::MoveError("can't read movie file extension".to_owned()));
        },
    };
    let mut file_name = "movie-tbd.".to_owned();
    file_name.append(ext.as_str());
    let dest = crate::media::join_path(target_dir.as_str(), file_name.as_str());
    let meta_path = crate::media::join_path(target_dir.as_str(), "meta.json");
    let meta_contents = crate::codec::encode_metadata_pretty(metadata);
    proof {
        reveal_strlit("movie-tbd.");
        reveal_strlit("movie-tbd.mp4");
        assert(spec_is_video_name(source@));
        assert(file_name@ =~= "movie-tbd."@ + spec_extension(source@)->Some_0);
        // The destination keeps the source's extension.
        reveal_strlit("movie-tbd");
        assert(forall|m: int| 0 <= m < "movie-tbd"@.len() ==> "movie-tbd"@[m] != '.');
        crate::format::lemma_last_dot_none("movie-tbd"@);
    }
    let needs_convert = {
        proof {
            let di = crate::format::last_dot_index(source@)->Some_0;
            crate::format::lemma_no_dot_in_extension(source@, di);
            assert forall|m: int|
                0 <= m < (spec_extension(source@)->Some_0).len() implies (#[trigger] (
            spec_extension(source@)->Some_0)[m]) != '.' by {
                assert(source@.skip(di + 1)[m] == source@[di + 1 + m]);
            }
            lemma_join_extension(target_dir@, file_name@, spec_extension(source@)->Some_0);
            assert(spec_extension(dest@) is Some);
        }
        crate::format::should_convert(dest.as_str())
    };
    let mut out_name = "movie-tbd.".to_owned();
    out_name.append("mp4");
    let convert_output = crate::media::join_path(target_dir.as_str(), out_name.as_str());
    proof {
        reveal_strlit("mp4");
        assert(out_name@ =~= "movie-tbd."@ + "mp4"@);
    }
    Ok(
        MoviePlan {
            source,
            target_dir,
            dest,
            meta_path,
            meta_contents,
            needs_convert,
            convert_output,
        },
    )
}

/// A name of the form `prefix.ext` joined under a directory still has
/// extension `ext`, provided the prefix holds no dot.
pub(crate) proof fn lemma_join_extension(dir: Seq<char>, file: Seq<char>, ext: Seq<char>)
    requires
        file == "movie-tbd."@ + ext,
        forall|m: int| 0 <= m < ext.len() ==> ext[m] != '.',
        crate::format::last_dot_index("movie-tbd"@) is None,
    ensures
        spec_extension(spec_join(dir, file)) == Option::Some(ext),
{
    reveal_strlit("movie-tbd.");
    reveal_strlit("movie-tbd");
    let s = spec_join(dir, file);
    let base: int = if dir.len() == 0 {
        0
    } else {
        dir.len() as int + 1
    };
    assert(s.len() == base + file.len());
    let dot = base + "movie-tbd"@.len();
    assert("movie-tbd."@ =~= "movie-tbd"@ + seq!['.']);
    assert(s[dot] == '.') by {
        assert(file["movie-tbd"@.len() as int] == '.');
        if dir.len() == 0 {
            assert(s == file);
        } else {
            assert(s =~= dir + seq!['/'] + file);
            assert(s[dot] == file["movie-tbd"@.len() as int]);
        }
    }
    assert forall|m: int| dot < m < s.len() implies s[m] != '.' by {
        let k = m - base;
        assert(s[m] == file[k]) by {
            if dir.len() == 0 {
                assert(s == file);
            } else {
                assert(s =~= dir + seq!['/'] + file);
            }
        }
        assert(file[k] == ext[k - "movie-tbd."@.len()]);
    }
    crate::format::lemma_last_dot_at(s, dot);
    assert(s.skip(dot + 1) =~= ext) by {
        if dir.len() == 0 {
            assert(s == file);
        } else {
            assert(s =~= dir + seq!['/'] + file);
        }
    }
}

// ---------------------------------------------------------------------------
// Series preparation.
// ---------------------------------------------------------------------------

/// What follows the last `/` in a path; the whole path when it has none.
pub open spec fn spec_basename(s: Seq<char>) -> Seq<char>
    decreases s.len(),
{
    if s.len() == 0 {
        s
    } else if s.last() == '/' {
        Seq::empty()
    } else {
        spec_basename(s.drop_last()).push(s.last())
    }
}

/// The final component is never longer than the whole path.
pub proof fn lemma_basename_len(s: Seq<char>)
    ensures
        spec_basename(s).len() <= s.len(),
    decreases s.len(),
{
    if s.len() > 0 && s.last() != '/' {
        lemma_basename_len(s.drop_last());
    }
}

pub(crate) proof fn lemma_basename_no_slash(s: Seq<char>)
    requires
        forall|m: int| 0 <= m < s.len() ==> s[m] != '/',
    ensures
        spec_basename(s) =~= s,
    decreases s.len(),
{
    if s.len() > 0 {
        lemma_basename_no_slash(s.drop_last());
        assert(s.drop_last().push(s.last()) =~= s);
    }
}

pub(crate) proof fn lemma_basename_at(s: Seq<char>, i: int)
    requires
        0 <= i < s.len(),
        s[i] == '/',
        forall|m: int| i < m < s.len() ==> s[m] != '/',
    ensures
        spec_basename(s) =~= s.skip(i + 1),
    decreases s.len(),
{
    if i == s.len() - 1 {
        assert(s.skip(i + 1) =~= Seq::<char>::empty());
    } else {
        assert(s.last() != '/');
        lemma_basename_at(s.drop_last(), i);
        assert(s.drop_last().skip(i + 1).push(s.last()) =~= s.skip(i + 1));
    }
}

/// The file-name part of a relative path: what follows its last `/`.
pub fn basename(path: &str) -> (r: String)
    ensures
        r@ == spec_basename(path@),
{
    let n: usize = path.unicode_len();
    let mut k: usize = n;
    while k > 0
        invariant
            n == path@.len(),
            k <= n,
            forall|m: int| k <= m < n ==> path@[m] != '/',
        decreases k,
    {
        if path.get_char(k - 1) == '/' {
            proof {
                lemma_basename_at(path@, k - 1);
                assert(path@.subrange(k as int, n as int) =~= path@.skip(k as int));
            }
            return path.substring_char(k, n).to_owned();
        }
        k = k - 1;
    }
    proof {
        lemma_basename_no_slash(path@);
    }
    path.to_owned()
}

/// One planned move of a series preparation.
#[derive(Debug, Clone, PartialEq, Eq)]
pub struct SeriesMove {
    /// The source file inside the torrent's save directory; verified to
    /// exist before any move runs.
    pub source: String,
    /// Where it lands: `<title>/<season>/<episode>-<basename>`.
    pub dest: String,
    /// Whether the moved file must be transcoded to mp4.
    pub needs_convert: bool,
    /// The conversion output beside the destination; the moved file is
    /// deleted after a successful conversion.
    pub convert_output: String,
}

/// The whole plan of a series preparation: the moves, then one metadata
/// write. When a source is missing the whole series aborts and the
/// freshly created entry directory is removed best-effort.
#[derive(Debug, Clone, PartialEq, Eq)]
pub struct SeriesPlan {
    pub target_dir: String,
    pub moves: Vec<SeriesMove>,
    pub meta_path: String,
    pub meta_contents: String,
}

/// What one planned move promises, for mapping row `entry`. A file name
/// without an extension is still attempted: it is marked for conversion,
/// like any other unrecognized container.
pub open spec fn series_move_ok(
    media_dir: Seq<char>,
    title: Seq<char>,
    source_dir: Seq<char>,
    entry: crate::series::FileMappingEntry,
    m: SeriesMove,
) -> bool {
    let target_dir = spec_join(media_dir, crate::sanitize::spec_sanitize(title));
    let bn = spec_basename(entry.path@);
    let rel = spec_dec_digits(entry.episode.season_no as nat) + seq!['/'] + spec_dec_digits(
        entry.episode.episode_no as nat,
    ) + seq!['-'] + bn;
    let out_rel = spec_dec_digits(entry.episode.season_no as nat) + seq!['/'] + spec_dec_digits(
        entry.episode.episode_no as nat,
    ) + seq!['-'] + spec_stem(bn) + ".mp4"@;
    &&& m.source@ == spec_join(source_dir, entry.path@)
    &&& m.dest@ == spec_join(target_dir, rel)
    &&& m.needs_convert == (match spec_extension(bn) {
        Option::Some(ext) => !crate::format::spec_no_conversion(ext),
        Option::None => true,
    })
    &&& m.convert_output@ == spec_join(target_dir, out_rel)
}

/// What a series plan promises about its fields.
pub open spec fn series_plan_ok(
    media_dir: Seq<char>,
    metadata: MediaMetaData,
    source_dir: Seq<char>,
    mapping: crate::series::SeriesFileMapping,
    p: SeriesPlan,
) -> bool {
    &&& p.target_dir@ == spec_join(media_dir, crate::sanitize::spec_sanitize(metadata.title@))
    &&& p.meta_path@ == spec_join(p.target_dir@, "meta.json"@)
    &&& p.meta_contents@ == crate::codec::enc_metadata_pretty(metadata.thumbnail@, metadata.title@)
    &&& p.moves@.len() == mapping.entries@.len()
    &&& forall|k: int|
        0 <= k < mapping.entries@.len() ==> series_move_ok(
            media_dir,
            metadata.title@,
            source_dir,
            mapping.entries@[k],
            #[trigger] p.moves@[k],
        )
}

/// Plans the series moves: each mapped file lands at
/// `<sanitized title>/<seasonNo>/<episodeNo>-<basename>` under the root,
/// and `meta.json` is written once in the series directory. Only a
/// validated mapping is accepted.
pub fn generate_series_media(
    media_dir: &str,
    source_dir: &str,
    mapping: &EditSeriesFileMappingForm<Valid>,
    metadata: &MediaMetaData,
) -> (r: SeriesPlan)
    ensures
        series_plan_ok(media_dir@, *metadata, source_dir@, mapping.file_mapping, r),
{
    let sanitized = crate::sanitize::sanitize_name_for_url(metadata.title.as_str());
    let target_dir = crate::media::join_path(media_dir, sanitized.as_str());
    let meta_path = crate::media::join_path(target_dir.as_str(), "meta.json");
    let meta_contents = crate::codec::encode_metadata_pretty(metadata);
    let mut moves: Vec<SeriesMove> = Vec::new();
    let n = mapping.file_mapping.entries.len();
    let mut k: usize = 0;
    while k < n
        invariant
            n == mapping.file_mapping.entries@.len(),
            k <= n,
            target_dir@ == spec_join(media_dir@, crate::sanitize::spec_sanitize(metadata.title@)),
            moves@.len() == k,
            forall|m: int|
                0 <= m < k ==> series_move_ok(
                    media_dir@,
                    metadata.title@,
                    source_dir@,
                    mapping.file_mapping.entries@[m],
                    #[trigger] moves@[m],
                ),
        decreases n - k,
    {
        let entry = &mapping.file_mapping.entries[k];
        let source = crate::media::join_path(source_dir, entry.path.as_str());
        let bn = basename(entry.path.as_str());
        let season_str = crate::text::u32_to_string(entry.episode.season_no);
        let episode_str = crate::text::u32_to_string(entry.episode.episode_no);
        let mut rel = season_str.clone();
        crate::text::push_char(&mut rel, '/');
        rel.append(episode_str.as_str());
        crate::text::push_char(&mut rel, '-');
        rel.append(bn.as_str());
        let dest = crate::media::join_path(target_dir.as_str(), rel.as_str());
        let (bstem, bext_opt) = crate::format::split_extension(bn.as_str());
        let needs_convert = match &bext_opt {
            Some(bext) => !(crate::text::str_eq(bext.as_str(), "mp4") || crate::text::str_eq(
                bext.as_str(),
                "hevc",
            ) || crate::text::str_eq(bext.as_str(), "mov") || crate::text::str_eq(
                bext.as_str(),
                "avi",
            ) || crate::text::str_eq(bext.as_str(), "ts")),
            None => true,
        };
        let mut out_rel = season_str.clone();
        crate::text::push_char(&mut out_rel, '/');
        out_rel.append(episode_str.as_str());
        crate::text::push_char(&mut out_rel, '-');
        out_rel.append(bstem.as_str());
        out_rel.append(".mp4");
        let convert_output = crate::media::join_path(target_dir.as_str(), out_rel.as_str());
        let mv = SeriesMove { source, dest, needs_convert, convert_output };
        moves.push(mv);
        proof {
            let e2 = mapping.file_mapping.entries@[k as int];
            assert(rel@ =~= spec_dec_digits(e2.episode.season_no as nat) + seq!['/']
                + spec_dec_digits(e2.episode.episode_no as nat) + seq!['-'] + spec_basename(
                e2.path@,
            ));
            assert(out_rel@ =~= spec_dec_digits(e2.episode.season_no as nat) + seq!['/']
                + spec_dec_digits(e2.episode.episode_no as nat) + seq!['-'] + spec_stem(
                spec_basename(e2.path@),
            ) + ".mp4"@);
        }
        k = k + 1;
    }
    SeriesPlan { target_dir, moves, meta_path, meta_contents }
}

/// Plans a whole series preparation from a validated mapping.
pub fn prepare_series(
    media_dir: &str,
    metadata: &MediaMetaData,
    source_dir: &str,
    mapping: &EditSeriesFileMappingForm<Valid>,
) -> (r: SeriesPlan)
    ensures
        series_plan_ok(media_dir@, *metadata, source_dir@, mapping.file_mapping, r),
{
    generate_series_media(media_dir, source_dir, mapping, metadata)
}

/// Exposes the movie planner under the name the torrent pipeline uses:
/// a known video file always yields its plan.
pub fn generate_movie_media(media_dir: &str, movie_file: &str, metadata: &MediaMetaData) -> (r:
    Result<MoviePlan, PrepareError>)
    requires
        spec_is_video_name(movie_file@),
    ensures
        r matches Ok(p) && movie_plan_ok(media_dir@, *metadata, movie_file@, p),
{
    let mut files: Vec<String> = Vec::new();
    files.push(movie_file.to_owned());
    proof {
        let pv = crate::crawl::views_of(files@);
        assert(pv[0] == movie_file@);
        assert(first_video_from(pv, 0) == Option::Some(0int));
    }
    let r = prepare_movie(media_dir, metadata, &files);
    proof {
        let pv = crate::crawl::views_of(files@);
        if r is Ok {
            let idx = choose|idx: int|
                first_video_from(pv, 0) == Option::Some(idx) && movie_plan_ok(
                    media_dir@,
                    *metadata,
                    files@[idx]@,
                    r->Ok_0,
                );
            assert(idx == 0);
            assert(files@[0]@ == movie_file@);
        }
    }
    r
}

// ---------------------------------------------------------------------------
// Transcoding argument plans.
// ---------------------------------------------------------------------------

/// The probe arguments that read one stream's codec name: quiet output,
/// the first video or audio stream, codec name only.
pub fn build_ffprobe_args(media_file: &str, stream: &MediaStream) -> (r: Vec<String>)
    ensures
        r@.len() == 9,
        r@[0]@ == "-v"@,
        r@[1]@ == "error"@,
        r@[2]@ == "-select_streams"@,
        r@[3]@ == (if *stream is Video {
            "v:0"@
        } else {
            "a:0"@
        }),
        r@[4]@ == "-show_entries"@,
        r@[5]@ == "stream=codec_name"@,
        r@[6]@ == "-of"@,
        r@[7]@ == "default=noprint_wrappers=1:nokey=1"@,
        r@[8]@ == media_file@,
{
    let mut args: Vec<String> = Vec::new();
    args.push("-v".to_owned());
    args.push("error".to_owned());
    args.push("-select_streams".to_owned());
    match stream {
        MediaStream::Video => args.push("v:0".to_owned()),
        MediaStream::Audio => args.push("a:0".to_owned()),
    }
    args.push("-show_entries".to_owned());
    args.push("stream=codec_name".to_owned());
    args.push("-of".to_owned());
    args.push("default=noprint_wrappers=1:nokey=1".to_owned());
    args.push(media_file.to_owned());
    args
}

/// The conversion arguments: stream-copy the video, copy the audio when
/// it is already aac and re-encode it as aac otherwise, and force the
/// `hvc1` tag when the video codec is hevc.
pub fn build_convert_args(input: &str, output: &str, video_codec: &str, audio_codec: &str) -> (r:
    Vec<String>)
    ensures
        r@[0]@ == "-i"@ && r@[1]@ == input@,
        r@[2]@ == "-c:v"@ && r@[3]@ == "copy"@,
        r@[4]@ == "-c:a"@,
        audio_codec@ == "aac"@ ==> r@[5]@ == "copy"@,
        audio_codec@ != "aac"@ ==> r@[5]@ == "aac"@,
        video_codec@ == "hevc"@ ==> r@.len() == 9 && r@[6]@ == "-tag:v"@ && r@[7]@ == "hvc1"@
            && r@[8]@ == output@,
        video_codec@ != "hevc"@ ==> r@.len() == 7 && r@[6]@ == output@,
{
    let mut args: Vec<String> = Vec::new();
    args.push("-i".to_owned());
    args.push(input.to_owned());
    args.push("-c:v".to_owned());
    args.push("copy".to_owned());
    args.push("-c:a".to_owned());
    if crate::text::str_eq(audio_codec, "aac") {
        args.push("copy".to_owned());
    } else {
        args.push("aac".to_owned());
    }
    if crate::text::str_eq(video_codec, "hevc") {
        args.push("-tag:v".to_owned());
        args.push("hvc1".to_owned());
    }
    args.push(output.to_owned());
    args
}

/// The probe output with every newline dropped.
pub open spec fn spec_strip_newlines(s: Seq<char>) -> Seq<char>
    decreases s.len(),
{
    if s.len() == 0 {
        Seq::empty()
    } else {
        spec_strip_newlines(s.drop_last()) + (if s.last() == '\n' {
            Seq::<char>::empty()
        } else {
            seq![s.last()]
        })
    }
}

/// Reads a codec name out of the probe's output: the text with its
/// newlines dropped.
pub fn parse_codec_output(s: &str) -> (r: String)
    ensures
        r@ == spec_strip_newlines(s@),
{
    let n: usize = s.unicode_len();
    let mut out = String::new();
    let mut i: usize = 0;
    while i < n
        invariant
            n == s@.len(),
            i <= n,
            out@ == spec_strip_newlines(s@.take(i as int)),
        decreases n - i,
    {
        let c = s.get_char(i);
        proof {
            assert(s@.take(i + 1).drop_last() =~= s@.take(i as int));
            assert(s@.take(i + 1).last() == s@[i as int]);
        }
        if c != '\n' {
            crate::text::push_char(&mut out, c);
            proof {
                assert(out@ =~= spec_strip_newlines(s@.take(i + 1)));
            }
        } else {
            proof {
                assert(out@ =~= spec_strip_newlines(s@.take(i + 1)));
            }
        }
        i = i + 1;
    }
    proof {
        assert(s@.take(n as int) =~= s@);
    }
    out
}

} // verus!
