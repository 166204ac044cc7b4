//! File-format classification: extensions, supported containers and the
//! transcoding policy.

use vstd::prelude::*;
use vstd::string::*;
use crate::media::FsEntry;

verus! {

/// The index of the last `.` in `s`, if any.
pub open spec fn last_dot_index(s: Seq<char>) -> Option<int>
    decreases s.len(),
{
    if s.len() == 0 {
        Option::None
    } else if s.last() == '.' {
        Option::Some(s.len() - 1)
    } else {
        last_dot_index(s.drop_last())
    }
}

/// The extension of a file name: the text after the last `.`, or nothing
/// when the name has no `.`.
pub open spec fn spec_extension(s: Seq<char>) -> Option<Seq<char>> {
    match last_dot_index(s) {
        Option::None => Option::None,
        Option::Some(i) => Option::Some(s.skip(i + 1)),
    }
}

/// The stem of a file name: the text before the last `.`, or the whole
/// name when it has no `.`.
pub open spec fn spec_stem(s: Seq<char>) -> Seq<char> {
    match last_dot_index(s) {
        Option::None => s,
        Option::Some(i) => s.take(i),
    }
}

pub(crate) proof fn lemma_last_dot_none(s: Seq<char>)
    requires
        forall|m: int| 0 <= m < s.len() ==> s[m] != '.',
    ensures
        last_dot_index(s) is None,
    decreases s.len(),
{
    if s.len() > 0 {
        lemma_last_dot_none(s.drop_last());
    }
}

pub(crate) proof fn lemma_last_dot_at(s: Seq<char>, i: int)
    requires
        0 <= i < s.len(),
        s[i] == '.',
        forall|m: int| i < m < s.len() ==> s[m] != '.',
    ensures
        last_dot_index(s) == Option::Some(i),
    decreases s.len(),
{
    if i == s.len() - 1 {
    } else {
        assert(s.last() != '.');
        lemma_last_dot_at(s.drop_last(), i);
    }
}

/// No dot appears after the last dot.
pub(crate) proof fn lemma_no_dot_in_extension(s: Seq<char>, i: int)
    requires
        last_dot_index(s) == Option::Some(i),
    ensures
        0 <= i < s.len(),
        s[i] == '.',
        forall|m: int| i < m < s.len() ==> s[m] != '.',
    decreases s.len(),
{
    if s.len() > 0 {
        if s.last() == '.' {
        } else {
            lemma_no_dot_in_extension(s.drop_last(), i);
            assert forall|m: int| i < m < s.len() implies s[m] != '.' by {
                if m < s.len() - 1 {
                    assert(s.drop_last()[m] == s[m]);
                }
            }
        }
    }
}

/// Splits a file name into its stem and its extension.
pub fn split_extension(name: &str) -> (r: (String, Option<String>))
    ensures
        r.0@ == spec_stem(name@),
        r.1 matches Some(e) ==> spec_extension(name@) == Option::Some(e@),
        r.1 is None <==> spec_extension(name@) is None,
{
    let n: usize = name.unicode_len();
    let mut k: usize = n;
    while k > 0
        invariant
            n == name@.len(),
            k <= n,
            forall|m: int| k <= m < n ==> name@[m] != '.',
        decreases k,
    {
        if name.get_char(k - 1) == '.' {
            proof {
                lemma_last_dot_at(name@, k - 1);
            }
            let stem = name.substring_char(0, k - 1);
            let ext = name.substring_char(k, n);
            proof {
                assert(name@.subrange(0, k - 1) =~= name@.take(k - 1));
                assert(name@.subrange(k as int, n as int) =~= name@.skip(k as int));
            }
            return (stem.to_owned(), Some(ext.to_owned()));
        }
        k = k - 1;
    }
    proof {
        lemma_last_dot_none(name@);
    }
    (name.to_owned(), None)
}

/// Extensions that the crawler treats as playable at the top level of a
/// media folder.
pub open spec fn spec_is_supported_video_name(name: Seq<char>) -> bool {
    spec_extension(name) == Option::Some("mp4"@) || spec_extension(name) == Option::Some("mov"@)
}

/// Extensions accepted as video input anywhere in a torrent's files.
pub open spec fn spec_is_video_name(name: Seq<char>) -> bool {
    ||| spec_extension(name) == Option::Some("mp4"@)
    ||| spec_extension(name) == Option::Some("mov"@)
    ||| spec_extension(name) == Option::Some("mkv"@)
    ||| spec_extension(name) == Option::Some("ts"@)
    ||| spec_extension(name) == Option::Some("avi"@)
}

/// A plain file whose extension is in the supported playback set.
pub fn is_supported_video_file(entry: &FsEntry) -> (r: bool)
    ensures
        r == (entry.is_file && spec_is_supported_video_name(entry.name@)),
{
    if !entry.is_file {
        return false;
    }
    let (_, ext) = split_extension(entry.name.as_str());
    match ext {
        Some(e) => crate::text::str_eq(e.as_str(), "mp4") || crate::text::str_eq(
            e.as_str(),
            "mov",
        ),
        None => false,
    }
}

/// A plain file whose extension is in the accepted video input set.
pub fn is_video_file(entry: &FsEntry) -> (r: bool)
    ensures
        r == (entry.is_file && spec_is_video_name(entry.name@)),
{
    if !entry.is_file {
        return false;
    }
    check_if_video_file(entry.name.as_str())
}

/// Whether a file name carries a video extension, by name alone.
pub fn check_if_video_file(name: &str) -> (r: bool)
    ensures
        r == spec_is_video_name(name@),
{
    let (_, ext) = split_extension(name);
    match ext {
        Some(e) => {
            crate::text::str_eq(e.as_str(), "mp4") || crate::text::str_eq(e.as_str(), "mov")
                || crate::text::str_eq(e.as_str(), "mkv") || crate::text::str_eq(e.as_str(), "ts")
                || crate::text::str_eq(e.as_str(), "avi")
        },
        None => false,
    }
}

/// Extensions already in an acceptable container: no conversion runs.
pub open spec fn spec_no_conversion(ext: Seq<char>) -> bool {
    ext == "mp4"@ || ext == "hevc"@ || ext == "mov"@ || ext == "avi"@ || ext == "ts"@
}

/// The transcoding policy of a media file, by its extension: the
/// acceptable containers stay, `mkv` converts, and any other extension is
/// attempted anyway.
pub open spec fn spec_should_convert(name: Seq<char>) -> bool {
    match spec_extension(name) {
        Option::Some(ext) => !spec_no_conversion(ext),
        Option::None => arbitrary(),
    }
}

/// Whether this media file must be transcoded into an mp4 container.
pub fn should_convert(media_file: &str) -> (r: bool)
    requires
        spec_extension(media_file@) is Some,
    ensures
        r == spec_should_convert(media_file@),
{
    let (_, ext) = split_extension(media_file);
    match ext {
        Some(e) => {
            !(crate::text::str_eq(e.as_str(), "mp4") || crate::text::str_eq(e.as_str(), "hevc")
                || crate::text::str_eq(e.as_str(), "mov") || crate::text::str_eq(
                e.as_str(),
                "avi",
            ) || crate::text::str_eq(e.as_str(), "ts"))
        },
        None => false,
    }
}

/// Extensions in the no-conversion set are never converted.
pub proof fn lemma_no_conversion_policy(name: Seq<char>, ext: Seq<char>)
    requires
        spec_extension(name) == Option::Some(ext),
        spec_no_conversion(ext),
    ensures
        !spec_should_convert(name),
{
}

} // verus!
