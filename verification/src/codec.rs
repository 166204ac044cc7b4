//! Object-level codecs: the `meta.json` metadata document and the torrent
//! category field (per-torrent extra as base64url-encoded JSON).

use vstd::prelude::*;
use vstd::string::*;
use crate::json::{
    enc_string, encode_string_into, is_ws, lemma_skip_concat, lemma_skip_ws_concat,
    lemma_sp_string_of_enc, parse_punct, parse_skip_ws, parse_string, skip_ws, sp_punct, sp_string,
    ws_only,
};
use crate::media::MediaMetaData;
use crate::series::{EpisodeIdentifier, FileMappingEntry, SeriesFileMapping};
use crate::torrent::TorrentExtra;

verus! {

/// The field name of the thumbnail entry.
pub open spec fn key_thumbnail() -> Seq<char> {
    seq!['t', 'h', 'u', 'm', 'b', 'n', 'a', 'i', 'l']
}

/// The field name of the title entry.
pub open spec fn key_title() -> Seq<char> {
    seq!['t', 'i', 't', 'l', 'e']
}

/// The compact metadata object, exactly as the common serializer would
/// write it: both keys in declaration order, no whitespace.
pub open spec fn enc_metadata(th: Seq<char>, ti: Seq<char>) -> Seq<char> {
    seq!['{'] + enc_string(key_thumbnail()) + seq![':'] + enc_string(th) + seq![','] + enc_string(
        key_title(),
    ) + seq![':'] + enc_string(ti) + seq!['}']
}

/// The pretty-printed metadata object: two-space indent, one line per
/// field, as written into `meta.json`.
pub open spec fn enc_metadata_pretty(th: Seq<char>, ti: Seq<char>) -> Seq<char> {
    seq!['{'] + seq!['\n', ' ', ' '] + enc_string(key_thumbnail()) + seq![':'] + seq![' ']
        + enc_string(th) + seq![','] + seq!['\n', ' ', ' '] + enc_string(key_title()) + seq![':']
        + seq![' '] + enc_string(ti) + seq!['\n'] + seq!['}']
}

/// Parses the rest of a metadata object after its first key: colon,
/// value, comma, the expected second key, colon, value, closing brace.
/// `swapped` says the title came first.
pub open spec fn sp_metadata_rest(
    s: Seq<char>,
    i2: int,
    second_key: Seq<char>,
    swapped: bool,
) -> Option<((Seq<char>, Seq<char>), int)> {
    match sp_punct(s, i2, ':') {
        Option::None => Option::None,
        Option::Some(i3) => match sp_string(s, skip_ws(s, i3)) {
            Option::None => Option::None,
            Option::Some((v1, i4)) => match sp_punct(s, i4, ',') {
                Option::None => Option::None,
                Option::Some(i5) => match sp_string(s, skip_ws(s, i5)) {
                    Option::None => Option::None,
                    Option::Some((k2, i6)) => if k2 == second_key {
                        match sp_punct(s, i6, ':') {
                            Option::None => Option::None,
                            Option::Some(i7) => match sp_string(s, skip_ws(s, i7)) {
                                Option::None => Option::None,
                                Option::Some((v2, i8)) => match sp_punct(s, i8, '}') {
                                    Option::None => Option::None,
                                    Option::Some(i9) => if swapped {
                                        Option::Some(((v2, v1), i9))
                                    } else {
                                        Option::Some(((v1, v2), i9))
                                    },
                                },
                            },
                        }
                    } else {
                        Option::None
                    },
                },
            },
        },
    }
}

/// Parses a metadata object at position `i`: the two fields `thumbnail`
/// and `title`, in either order, whitespace between tokens allowed. The
/// result is always (thumbnail, title).
pub open spec fn sp_metadata(s: Seq<char>, i: int) -> Option<((Seq<char>, Seq<char>), int)> {
    match sp_punct(s, i, '{') {
        Option::None => Option::None,
        Option::Some(i1) => match sp_string(s, skip_ws(s, i1)) {
            Option::None => Option::None,
            Option::Some((k1, i2)) => if k1 == key_thumbnail() {
                sp_metadata_rest(s, i2, key_title(), false)
            } else if k1 == key_title() {
                sp_metadata_rest(s, i2, key_thumbnail(), true)
            } else {
                Option::None
            },
        },
    }
}

/// A whole metadata document: the object and nothing else but whitespace.
pub open spec fn sp_metadata_doc(s: Seq<char>) -> Option<(Seq<char>, Seq<char>)> {
    match sp_metadata(s, 0) {
        Option::None => Option::None,
        Option::Some(((th, ti), j)) => if skip_ws(s, j) == s.len() {
            Option::Some((th, ti))
        } else {
            Option::None
        },
    }
}

// ---------------------------------------------------------------------------
// Round-trip lemmas for the metadata object.
// ---------------------------------------------------------------------------

/// A punctuation token preceded by known whitespace is consumed exactly.
pub(crate) proof fn lemma_sp_punct_of(s: Seq<char>, i: int, w: Seq<char>, c: char, rest: Seq<char>)
    requires
        0 <= i <= s.len(),
        s.skip(i) == w + seq![c] + rest,
        ws_only(w),
        !is_ws(c),
    ensures
        sp_punct(s, i, c) == Option::Some(i + w.len() + 1),
        s.skip(i + w.len() + 1) == rest,
{
    assert(s.skip(i) =~= w + (seq![c] + rest));
    assert((seq![c] + rest)[0] == c);
    lemma_skip_ws_concat(s, i, w, seq![c] + rest);
    lemma_skip_concat(s, i + w.len(), seq![c], rest);
    assert(s[i + w.len() + 0] == c);
}

/// A string literal preceded by known whitespace parses back exactly.
pub(crate) proof fn lemma_sp_string_ws_of(
    s: Seq<char>,
    i: int,
    w: Seq<char>,
    t: Seq<char>,
    rest: Seq<char>,
)
    requires
        0 <= i <= s.len(),
        s.skip(i) == w + enc_string(t) + rest,
        ws_only(w),
    ensures
        skip_ws(s, i) == i + w.len(),
        sp_string(s, skip_ws(s, i)) == Option::Some((t, i + w.len() + enc_string(t).len())),
        s.skip(i + w.len() + enc_string(t).len()) == rest,
{
    assert(s.skip(i) =~= w + (enc_string(t) + rest));
    assert((enc_string(t) + rest)[0] == '"') by {
        assert(enc_string(t)[0] == '"');
    }
    lemma_skip_ws_concat(s, i, w, enc_string(t) + rest);
    lemma_sp_string_of_enc(s, i + w.len(), t, rest);
}

/// Parsing inverts the metadata encoders, for any whitespace layout the
/// encoders use between tokens.
#[verifier::rlimit(80)]
#[verifier::spinoff_prover]
pub(crate) proof fn lemma_sp_metadata_of_enc_w(
    s: Seq<char>,
    i: int,
    th: Seq<char>,
    ti: Seq<char>,
    a: Seq<char>,
    b: Seq<char>,
    c: Seq<char>,
    d: Seq<char>,
    e: Seq<char>,
    rest: Seq<char>,
)
    requires
        0 <= i <= s.len(),
        s.skip(i) == seq!['{'] + a + enc_string(key_thumbnail()) + seq![':'] + b + enc_string(th)
            + seq![','] + c + enc_string(key_title()) + seq![':'] + d + enc_string(ti) + e
            + seq!['}'] + rest,
        ws_only(a),
        ws_only(b),
        ws_only(c),
        ws_only(d),
        ws_only(e),
    ensures
        ({
            let total = 1 + a.len() + enc_string(key_thumbnail()).len() + 1 + b.len()
                + enc_string(th).len() + 1 + c.len() + enc_string(key_title()).len() + 1 + d.len()
                + enc_string(ti).len() + e.len() + 1;
            &&& sp_metadata(s, i) == Option::Some(((th, ti), i + total))
            &&& s.skip(i + total) == rest
        }),
{
    let t1 = a + enc_string(key_thumbnail()) + seq![':'] + b + enc_string(th) + seq![','] + c
        + enc_string(key_title()) + seq![':'] + d + enc_string(ti) + e + seq!['}'] + rest;
    assert(s.skip(i) =~= Seq::<char>::empty() + seq!['{'] + t1);
    lemma_sp_punct_of(s, i, Seq::<char>::empty(), '{', t1);
    let p1 = i + 1;
    let t2 = seq![':'] + b + enc_string(th) + seq![','] + c + enc_string(key_title()) + seq![':']
        + d + enc_string(ti) + e + seq!['}'] + rest;
    assert(s.skip(p1) =~= a + enc_string(key_thumbnail()) + t2);
    lemma_sp_string_ws_of(s, p1, a, key_thumbnail(), t2);
    let p2 = p1 + a.len() + enc_string(key_thumbnail()).len();
    let t3 = b + enc_string(th) + seq![','] + c + enc_string(key_title()) + seq![':'] + d
        + enc_string(ti) + e + seq!['}'] + rest;
    assert(s.skip(p2) =~= Seq::<char>::empty() + seq![':'] + t3);
    lemma_sp_punct_of(s, p2, Seq::<char>::empty(), ':', t3);
    let p3 = p2 + 1;
    let t4 = seq![','] + c + enc_string(key_title()) + seq![':'] + d + enc_string(ti) + e
        + seq!['}'] + rest;
    assert(s.skip(p3) =~= b + enc_string(th) + t4);
    lemma_sp_string_ws_of(s, p3, b, th, t4);
    let p4 = p3 + b.len() + enc_string(th).len();
    let t5 = c + enc_string(key_title()) + seq![':'] + d + enc_string(ti) + e + seq!['}'] + rest;
    assert(s.skip(p4) =~= Seq::<char>::empty() + seq![','] + t5);
    lemma_sp_punct_of(s, p4, Seq::<char>::empty(), ',', t5);
    let p5 = p4 + 1;
    let t6 = seq![':'] + d + enc_string(ti) + e + seq!['}'] + rest;
    assert(s.skip(p5) =~= c + enc_string(key_title()) + t6);
    lemma_sp_string_ws_of(s, p5, c, key_title(), t6);
    let p6 = p5 + c.len() + enc_string(key_title()).len();
    let t7 = d + enc_string(ti) + e + seq!['}'] + rest;
    assert(s.skip(p6) =~= Seq::<char>::empty() + seq![':'] + t7);
    lemma_sp_punct_of(s, p6, Seq::<char>::empty(), ':', t7);
    let p7 = p6 + 1;
    let t8 = e + seq!['}'] + rest;
    assert(s.skip(p7) =~= d + enc_string(ti) + t8);
    lemma_sp_string_ws_of(s, p7, d, ti, t8);
    let p8 = p7 + d.len() + enc_string(ti).len();
    assert(s.skip(p8) =~= e + seq!['}'] + rest);
    lemma_sp_punct_of(s, p8, e, '}', rest);
    assert(key_thumbnail() != key_title()) by {
        assert(key_thumbnail().len() != key_title().len());
    }
}

/// The compact metadata document parses back to its two fields.
pub proof fn lemma_metadata_roundtrip(th: Seq<char>, ti: Seq<char>)
    ensures
        sp_metadata_doc(enc_metadata(th, ti)) == Option::Some((th, ti)),
{
    let s = enc_metadata(th, ti);
    assert(s.skip(0) =~= s);
    let em = Seq::<char>::empty();
    assert(s =~= seq!['{'] + em + enc_string(key_thumbnail()) + seq![':'] + em + enc_string(th)
        + seq![','] + em + enc_string(key_title()) + seq![':'] + em + enc_string(ti) + em
        + seq!['}'] + em);
    lemma_sp_metadata_of_enc_w(s, 0, th, ti, em, em, em, em, em, em);
    let total = s.len() as int;
    assert(sp_metadata(s, 0) == Option::Some(((th, ti), total)));
}

/// The pretty metadata document parses back to its two fields. Together
/// with the previous lemma: what the preparation step writes into
/// `meta.json`, the crawler reads back unchanged.
pub proof fn lemma_metadata_pretty_roundtrip(th: Seq<char>, ti: Seq<char>)
    ensures
        sp_metadata_doc(enc_metadata_pretty(th, ti)) == Option::Some((th, ti)),
{
    let s = enc_metadata_pretty(th, ti);
    assert(s.skip(0) =~= s);
    let em = Seq::<char>::empty();
    let nl2 = seq!['\n', ' ', ' '];
    let sp1 = seq![' '];
    let nl = seq!['\n'];
    assert(ws_only(nl2));
    assert(ws_only(sp1));
    assert(ws_only(nl));
    assert(s =~= seq!['{'] + nl2 + enc_string(key_thumbnail()) + seq![':'] + sp1 + enc_string(th)
        + seq![','] + nl2 + enc_string(key_title()) + seq![':'] + sp1 + enc_string(ti) + nl
        + seq!['}'] + em);
    lemma_sp_metadata_of_enc_w(s, 0, th, ti, nl2, sp1, nl2, sp1, nl, em);
    let total = s.len() as int;
    assert(sp_metadata(s, 0) == Option::Some(((th, ti), total)));
}

// ---------------------------------------------------------------------------
// Executable metadata codec.
// ---------------------------------------------------------------------------

/// Encodes metadata compactly, as it travels inside the category field.
pub fn encode_metadata(m: &MediaMetaData) -> (r: String)
    ensures
        r@ == enc_metadata(m.thumbnail@, m.title@),
{
    let mut out = String::new();
    crate::text::push_char(&mut out, '{');
    encode_string_into(&mut out, "thumbnail");
    crate::text::push_char(&mut out, ':');
    encode_string_into(&mut out, m.thumbnail.as_str());
    crate::text::push_char(&mut out, ',');
    encode_string_into(&mut out, "title");
    crate::text::push_char(&mut out, ':');
    encode_string_into(&mut out, m.title.as_str());
    crate::text::push_char(&mut out, '}');
    proof {
        reveal_strlit("thumbnail");
        reveal_strlit("title");
        assert("thumbnail"@ =~= key_thumbnail());
        assert("title"@ =~= key_title());
        assert(out@ =~= enc_metadata(m.thumbnail@, m.title@));
    }
    out
}

/// Encodes metadata pretty-printed, as written into `meta.json`.
pub fn encode_metadata_pretty(m: &MediaMetaData) -> (r: String)
    ensures
        r@ == enc_metadata_pretty(m.thumbnail@, m.title@),
{
    let mut out = String::new();
    out.append("{\n  ");
    encode_string_into(&mut out, "thumbnail");
    out.append(": ");
    encode_string_into(&mut out, m.thumbnail.as_str());
    out.append(",\n  ");
    encode_string_into(&mut out, "title");
    out.append(": ");
    encode_string_into(&mut out, m.title.as_str());
    out.append("\n}");
    proof {
        reveal_strlit("thumbnail");
        reveal_strlit("title");
        reveal_strlit("{\n  ");
        reveal_strlit(": ");
        reveal_strlit(",\n  ");
        reveal_strlit("\n}");
        assert("thumbnail"@ =~= key_thumbnail());
        assert("title"@ =~= key_title());
        assert(out@ =~= enc_metadata_pretty(m.thumbnail@, m.title@));
    }
    out
}

/// Parses the metadata object at position `i`, with the two keys in
/// either order.
pub(crate) fn parse_metadata(v: &Vec<char>, i: usize) -> (r: Option<(MediaMetaData, usize)>)
    requires
        i <= v@.len(),
    ensures
        r matches Some((m, j)) ==> sp_metadata(v@, i as int) == Option::Some(
            ((m.thumbnail@, m.title@), j as int),
        ) && i < j <= v@.len(),
        r is None ==> sp_metadata(v@, i as int) is None,
{
    proof {
        reveal_strlit("thumbnail");
        reveal_strlit("title");
        assert("thumbnail"@ =~= key_thumbnail());
        assert("title"@ =~= key_title());
    }
    let i1 = match parse_punct(v, i, '{') {
        Some(j) => j,
        None => {
            return None;
        },
    };
    let w1 = parse_skip_ws(v, i1);
    let (k1, i2) = match parse_string(v, w1) {
        Some(p) => p,
        None => {
            return None;
        },
    };
    let thumbnail_first = crate::text::str_eq(k1.as_str(), "thumbnail");
    let title_first = crate::text::str_eq(k1.as_str(), "title");
    if !thumbnail_first && !title_first {
        return None;
    }
    let i3 = match parse_punct(v, i2, ':') {
        Some(j) => j,
        None => {
            return None;
        },
    };
    let w2 = parse_skip_ws(v, i3);
    let (v1, i4) = match parse_string(v, w2) {
        Some(p) => p,
        None => {
            return None;
        },
    };
    let i5 = match parse_punct(v, i4, ',') {
        Some(j) => j,
        None => {
            return None;
        },
    };
    let w3 = parse_skip_ws(v, i5);
    let (k2, i6) = match parse_string(v, w3) {
        Some(p) => p,
        None => {
            return None;
        },
    };
    let second_ok = if thumbnail_first {
        crate::text::str_eq(k2.as_str(), "title")
    } else {
        crate::text::str_eq(k2.as_str(), "thumbnail")
    };
    if !second_ok {
        return None;
    }
    let i7 = match parse_punct(v, i6, ':') {
        Some(j) => j,
        None => {
            return None;
        },
    };
    let w4 = parse_skip_ws(v, i7);
    let (v2, i8) = match parse_string(v, w4) {
        Some(p) => p,
        None => {
            return None;
        },
    };
    let i9 = match parse_punct(v, i8, '}') {
        Some(j) => j,
        None => {
            return None;
        },
    };
    if thumbnail_first {
        Some((MediaMetaData { thumbnail: v1, title: v2 }, i9))
    } else {
        Some((MediaMetaData { thumbnail: v2, title: v1 }, i9))
    }
}

/// Reads a whole `meta.json` document. Accepts exactly one metadata
/// object, with whitespace around tokens; anything else is corrupt.
pub fn decode_metadata(s: &str) -> (r: Option<MediaMetaData>)
    ensures
        r matches Some(m) ==> sp_metadata_doc(s@) == Option::Some((m.thumbnail@, m.title@)),
        r is None ==> sp_metadata_doc(s@) is None,
{
    let v = crate::text::to_char_vec(s);
    match parse_metadata(&v, 0) {
        Some((m, j)) => {
            let e = parse_skip_ws(&v, j);
            if e == v.len() {
                Some(m)
            } else {
                None
            }
        },
        None => None,
    }
}

// ---------------------------------------------------------------------------
// The torrent extra: shape, encoding, parsing.
// ---------------------------------------------------------------------------

/// The tag of the movie variant.
pub open spec fn key_movie() -> Seq<char> {
    seq!['M', 'o', 'v', 'i', 'e']
}

/// The tag of the series variant.
pub open spec fn key_series() -> Seq<char> {
    seq!['S', 'e', 'r', 'i', 'e', 's']
}

/// The field name of the metadata entry.
pub open spec fn key_metadata() -> Seq<char> {
    seq!['m', 'e', 't', 'a', 'd', 'a', 't', 'a']
}

/// The field name of the file-mapping entry.
pub open spec fn key_files_mapping() -> Seq<char> {
    seq!['f', 'i', 'l', 'e', 's', '_', 'm', 'a', 'p', 'p', 'i', 'n', 'g']
}

/// The field name of the season number.
pub open spec fn key_season_no() -> Seq<char> {
    seq!['s', 'e', 'a', 's', 'o', 'n', '_', 'n', 'o']
}

/// The field name of the episode number.
pub open spec fn key_episode_no() -> Seq<char> {
    seq!['e', 'p', 'i', 's', 'o', 'd', 'e', '_', 'n', 'o']
}

/// The JSON `null` literal.
pub open spec fn lit_null() -> Seq<char> {
    seq!['n', 'u', 'l', 'l']
}

/// The mathematical content of a `TorrentExtra` value: its variant and
/// its fields as plain sequences.
#[verifier::ext_equal]
pub enum ExtraShape {
    Movie { thumbnail: Seq<char>, title: Seq<char> },
    Series {
        thumbnail: Seq<char>,
        title: Seq<char>,
        mapping: Option<Seq<(Seq<char>, EpisodeIdentifier)>>,
    },
}

/// The pairs a file mapping holds, in order.
pub open spec fn pairs_of(entries: Seq<FileMappingEntry>) -> Seq<(Seq<char>, EpisodeIdentifier)> {
    entries.map_values(|en: FileMappingEntry| (en.path@, en.episode))
}

/// The mapping field of a series shape; nothing for a movie.
pub open spec fn shape_mapping(sh: ExtraShape) -> Option<Seq<(Seq<char>, EpisodeIdentifier)>> {
    match sh {
        ExtraShape::Movie { .. } => Option::None,
        ExtraShape::Series { mapping, .. } => mapping,
    }
}

/// The shape of an extra value.
pub open spec fn extra_shape_of(x: TorrentExtra) -> ExtraShape {
    match x {
        TorrentExtra::Movie { metadata } => ExtraShape::Movie {
            thumbnail: metadata.thumbnail@,
            title: metadata.title@,
        },
        TorrentExtra::Series { metadata, files_mapping } => ExtraShape::Series {
            thumbnail: metadata.thumbnail@,
            title: metadata.title@,
            mapping: match files_mapping {
                Option::None => Option::None,
                Option::Some(m) => Option::Some(pairs_of(m.entries@)),
            },
        },
    }
}

/// The episode object: `{"season_no":N,"episode_no":M}`.
pub open spec fn enc_episode(e: EpisodeIdentifier) -> Seq<char> {
    seq!['{'] + enc_string(key_season_no()) + seq![':'] + crate::text::spec_dec_digits(
        e.season_no as nat,
    ) + seq![','] + enc_string(key_episode_no()) + seq![':'] + crate::text::spec_dec_digits(
        e.episode_no as nat,
    ) + seq!['}']
}

/// One mapping row: the path as key, the episode object as value.
pub open spec fn enc_map_entry(p: (Seq<char>, EpisodeIdentifier)) -> Seq<char> {
    enc_string(p.0) + seq![':'] + enc_episode(p.1)
}

/// The rows of a mapping object, comma-separated.
pub open spec fn enc_map_entries(ps: Seq<(Seq<char>, EpisodeIdentifier)>) -> Seq<char>
    decreases ps.len(),
{
    if ps.len() == 0 {
        Seq::empty()
    } else if ps.len() == 1 {
        enc_map_entry(ps[0])
    } else {
        enc_map_entry(ps[0]) + seq![','] + enc_map_entries(ps.drop_first())
    }
}

/// The mapping object.
pub open spec fn enc_mapping(ps: Seq<(Seq<char>, EpisodeIdentifier)>) -> Seq<char> {
    seq!['{'] + enc_map_entries(ps) + seq!['}']
}

/// The shared front of the extra document: outer brace, variant tag,
/// inner brace, the metadata field.
pub open spec fn enc_extra_front(tag: Seq<char>, th: Seq<char>, ti: Seq<char>) -> Seq<char> {
    seq!['{'] + enc_string(tag) + seq![':'] + seq!['{'] + enc_string(key_metadata()) + seq![':']
        + enc_metadata(th, ti)
}

/// The two closing braces of the extra document.
pub open spec fn enc_extra_close() -> Seq<char> {
    seq!['}'] + seq!['}']
}

/// The file-mapping field of a series: absent as `null`, or the mapping
/// object.
pub open spec fn enc_series_mid(mapping: Option<Seq<(Seq<char>, EpisodeIdentifier)>>) -> Seq<
    char,
> {
    seq![','] + enc_string(key_files_mapping()) + seq![':'] + (match mapping {
        Option::None => lit_null(),
        Option::Some(ps) => enc_mapping(ps),
    })
}

/// The whole extra document, externally tagged.
pub open spec fn enc_extra(shape: ExtraShape) -> Seq<char> {
    match shape {
        ExtraShape::Movie { thumbnail, title } => enc_extra_front(key_movie(), thumbnail, title)
            + enc_extra_close(),
        ExtraShape::Series { thumbnail, title, mapping } => enc_extra_front(
            key_series(),
            thumbnail,
            title,
        ) + enc_series_mid(mapping) + enc_extra_close(),
    }
}


/// Parses the episode object at position `i`.
pub open spec fn sp_episode(s: Seq<char>, i: int) -> Option<(EpisodeIdentifier, int)> {
    match sp_punct(s, i, '{') {
        Option::None => Option::None,
        Option::Some(i1) => match sp_string(s, skip_ws(s, i1)) {
            Option::None => Option::None,
            Option::Some((k1, i2)) => if k1 == key_season_no() {
                match sp_punct(s, i2, ':') {
                    Option::None => Option::None,
                    Option::Some(i3) => match crate::json::sp_u32(s, skip_ws(s, i3)) {
                        Option::None => Option::None,
                        Option::Some((sn, i4)) => match sp_punct(s, i4, ',') {
                            Option::None => Option::None,
                            Option::Some(i5) => match sp_string(s, skip_ws(s, i5)) {
                                Option::None => Option::None,
                                Option::Some((k2, i6)) => if k2 == key_episode_no() {
                                    match sp_punct(s, i6, ':') {
                                        Option::None => Option::None,
                                        Option::Some(i7) => match crate::json::sp_u32(
                                            s,
                                            skip_ws(s, i7),
                                        ) {
                                            Option::None => Option::None,
                                            Option::Some((en, i8)) => match sp_punct(s, i8, '}') {
                                                Option::None => Option::None,
                                                Option::Some(i9) => Option::Some(
                                                    (
                                                        EpisodeIdentifier {
                                                            season_no: sn,
                                                            episode_no: en,
                                                        },
                                                        i9,
                                                    ),
                                                ),
                                            },
                                        },
                                    }
                                } else {
                                    Option::None
                                },
                            },
                        },
                    },
                }
            } else {
                Option::None
            },
        },
    }
}

/// Parses one or more mapping rows and the closing brace.
pub open spec fn sp_map_entries(s: Seq<char>, i: int) -> Option<
    (Seq<(Seq<char>, EpisodeIdentifier)>, int),
>
    decreases s.len() - i,
{
    match sp_string(s, skip_ws(s, i)) {
        Option::None => Option::None,
        Option::Some((p0, i2)) => match sp_punct(s, i2, ':') {
            Option::None => Option::None,
            Option::Some(i3) => match sp_episode(s, i3) {
                Option::None => Option::None,
                Option::Some((ep, i4)) => match sp_punct(s, i4, ',') {
                    Option::Some(j) => if i < j <= s.len() {
                        match sp_map_entries(s, j) {
                            Option::None => Option::None,
                            Option::Some((ps, i5)) => Option::Some((seq![(p0, ep)] + ps, i5)),
                        }
                    } else {
                        Option::None
                    },
                    Option::None => match sp_punct(s, i4, '}') {
                        Option::None => Option::None,
                        Option::Some(i5) => Option::Some((seq![(p0, ep)], i5)),
                    },
                },
            },
        },
    }
}

/// Parses the mapping object at position `i`.
pub open spec fn sp_mapping(s: Seq<char>, i: int) -> Option<
    (Seq<(Seq<char>, EpisodeIdentifier)>, int),
> {
    match sp_punct(s, i, '{') {
        Option::None => Option::None,
        Option::Some(i1) => match sp_punct(s, i1, '}') {
            Option::Some(i2) => Option::Some((Seq::empty(), i2)),
            Option::None => sp_map_entries(s, i1),
        },
    }
}

/// Parses the `null` literal at position `i`, whitespace before allowed.
pub open spec fn sp_null(s: Seq<char>, i: int) -> Option<int> {
    let j = skip_ws(s, i);
    if j + 4 <= s.len() && s[j] == 'n' && s[j + 1] == 'u' && s[j + 2] == 'l' && s[j + 3] == 'l' {
        Option::Some(j + 4)
    } else {
        Option::None
    }
}

/// Parses the two closing braces and end of input for the extra document.
pub open spec fn sp_extra_close(s: Seq<char>, i: int) -> bool {
    match sp_punct(s, i, '}') {
        Option::None => false,
        Option::Some(i1) => match sp_punct(s, i1, '}') {
            Option::None => false,
            Option::Some(i2) => skip_ws(s, i2) == s.len(),
        },
    }
}

/// Parses the movie tail: the closing braces right after the metadata.
pub open spec fn sp_movie_tail(s: Seq<char>, th: Seq<char>, ti: Seq<char>, i: int) -> Option<
    ExtraShape,
> {
    if sp_extra_close(s, i) {
        Option::Some(ExtraShape::Movie { thumbnail: th, title: ti })
    } else {
        Option::None
    }
}

/// Parses the series tail after the metadata: the file-mapping field,
/// null or a mapping object, then the closing braces.
pub open spec fn sp_series_tail(s: Seq<char>, th: Seq<char>, ti: Seq<char>, i: int) -> Option<
    ExtraShape,
> {
    match sp_punct(s, i, ',') {
        Option::None => Option::None,
        Option::Some(i1) => match sp_string(s, skip_ws(s, i1)) {
            Option::None => Option::None,
            Option::Some((kf, i2)) => if kf == key_files_mapping() {
                match sp_punct(s, i2, ':') {
                    Option::None => Option::None,
                    Option::Some(i3) => match sp_null(s, i3) {
                        Option::Some(i4) => if sp_extra_close(s, i4) {
                            Option::Some(
                                ExtraShape::Series {
                                    thumbnail: th,
                                    title: ti,
                                    mapping: Option::None,
                                },
                            )
                        } else {
                            Option::None
                        },
                        Option::None => match sp_mapping(s, i3) {
                            Option::None => Option::None,
                            Option::Some((ps, i4)) => if sp_extra_close(s, i4) {
                                Option::Some(
                                    ExtraShape::Series {
                                        thumbnail: th,
                                        title: ti,
                                        mapping: Option::Some(ps),
                                    },
                                )
                            } else {
                                Option::None
                            },
                        },
                    },
                }
            } else {
                Option::None
            },
        },
    }
}

/// Dispatches on the variant tag after the shared front.
pub open spec fn sp_extra_tail(
    s: Seq<char>,
    tag: Seq<char>,
    th: Seq<char>,
    ti: Seq<char>,
    i: int,
) -> Option<ExtraShape> {
    if tag == key_movie() {
        sp_movie_tail(s, th, ti, i)
    } else if tag == key_series() {
        sp_series_tail(s, th, ti, i)
    } else {
        Option::None
    }
}

/// Parses a whole extra document: outer brace, variant tag, inner brace,
/// the metadata field, then the variant-specific tail.
pub open spec fn sp_extra(s: Seq<char>) -> Option<ExtraShape> {
    match sp_punct(s, 0, '{') {
        Option::None => Option::None,
        Option::Some(i1) => match sp_string(s, skip_ws(s, i1)) {
            Option::None => Option::None,
            Option::Some((tag, i2)) => match sp_punct(s, i2, ':') {
                Option::None => Option::None,
                Option::Some(i3) => match sp_punct(s, i3, '{') {
                    Option::None => Option::None,
                    Option::Some(i4) => match sp_string(s, skip_ws(s, i4)) {
                        Option::None => Option::None,
                        Option::Some((km, i5)) => if km == key_metadata() {
                            match sp_punct(s, i5, ':') {
                                Option::None => Option::None,
                                Option::Some(i6) => match sp_metadata(s, i6) {
                                    Option::None => Option::None,
                                    Option::Some(((th, ti), i7)) => sp_extra_tail(
                                        s,
                                        tag,
                                        th,
                                        ti,
                                        i7,
                                    ),
                                },
                            }
                        } else {
                            Option::None
                        },
                    },
                },
            },
        },
    }
}

// ---------------------------------------------------------------------------
// Round-trip lemmas for the extra document (compact form, as encoded).
// ---------------------------------------------------------------------------

pub(crate) proof fn lemma_sp_u32_compact_of(s: Seq<char>, i: int, n: u32, rest: Seq<char>)
    requires
        0 <= i <= s.len(),
        s.skip(i) == crate::text::spec_dec_digits(n as nat) + rest,
        rest.len() > 0,
        !crate::parse::is_digit_char(rest[0]),
        !is_ws(rest[0]),
    ensures
        skip_ws(s, i) == i,
        crate::json::sp_u32(s, i) == Option::Some(
            (n, i + crate::text::spec_dec_digits(n as nat).len()),
        ),
        s.skip(i + crate::text::spec_dec_digits(n as nat).len()) == rest,
{
    let d = crate::text::spec_dec_digits(n as nat);
    crate::text::lemma_dec_digits_value(n as nat);
    assert(s.skip(i) =~= Seq::<char>::empty() + (d + rest));
    assert(!is_ws((d + rest)[0])) by {
        assert((d + rest)[0] == d[0]);
        assert(crate::parse::is_digit_char(d[0]));
    }
    lemma_skip_ws_concat(s, i, Seq::<char>::empty(), d + rest);
    crate::json::lemma_sp_u32_of_enc(s, i, n, rest);
}

#[verifier::rlimit(80)]
#[verifier::spinoff_prover]
pub(crate) proof fn lemma_sp_episode_of_enc(
    s: Seq<char>,
    i: int,
    e: EpisodeIdentifier,
    rest: Seq<char>,
)
    requires
        0 <= i <= s.len(),
        s.skip(i) == enc_episode(e) + rest,
        rest.len() > 0,
        !is_ws(rest[0]),
        !crate::parse::is_digit_char(rest[0]),
    ensures
        sp_episode(s, i) == Option::Some((e, i + enc_episode(e).len())),
        s.skip(i + enc_episode(e).len()) == rest,
{
    let em = Seq::<char>::empty();
    let dsn = crate::text::spec_dec_digits(e.season_no as nat);
    let den = crate::text::spec_dec_digits(e.episode_no as nat);
    let t1 = em + enc_string(key_season_no()) + seq![':'] + dsn + seq![','] + enc_string(
        key_episode_no(),
    ) + seq![':'] + den + seq!['}'] + rest;
    assert(s.skip(i) =~= em + seq!['{'] + t1);
    lemma_sp_punct_of(s, i, em, '{', t1);
    let p1 = i + 1;
    let t2 = seq![':'] + dsn + seq![','] + enc_string(key_episode_no()) + seq![':'] + den
        + seq!['}'] + rest;
    assert(s.skip(p1) =~= em + enc_string(key_season_no()) + t2);
    lemma_sp_string_ws_of(s, p1, em, key_season_no(), t2);
    let p2 = p1 + enc_string(key_season_no()).len();
    let t3 = dsn + seq![','] + enc_string(key_episode_no()) + seq![':'] + den + seq!['}'] + rest;
    assert(s.skip(p2) =~= em + seq![':'] + t3);
    lemma_sp_punct_of(s, p2, em, ':', t3);
    let p3 = p2 + 1;
    let t4 = seq![','] + enc_string(key_episode_no()) + seq![':'] + den + seq!['}'] + rest;
    assert(s.skip(p3) =~= dsn + t4);
    assert(t4[0] == ',');
    lemma_sp_u32_compact_of(s, p3, e.season_no, t4);
    let p4 = p3 + dsn.len();
    let t5 = enc_string(key_episode_no()) + seq![':'] + den + seq!['}'] + rest;
    assert(s.skip(p4) =~= em + seq![','] + t5);
    lemma_sp_punct_of(s, p4, em, ',', t5);
    let p5 = p4 + 1;
    let t6 = seq![':'] + den + seq!['}'] + rest;
    assert(s.skip(p5) =~= em + enc_string(key_episode_no()) + t6);
    lemma_sp_string_ws_of(s, p5, em, key_episode_no(), t6);
    let p6 = p5 + enc_string(key_episode_no()).len();
    let t7 = den + seq!['}'] + rest;
    assert(s.skip(p6) =~= em + seq![':'] + t7);
    lemma_sp_punct_of(s, p6, em, ':', t7);
    let p7 = p6 + 1;
    let t8 = seq!['}'] + rest;
    assert(s.skip(p7) =~= den + t8);
    assert(t8[0] == '}');
    lemma_sp_u32_compact_of(s, p7, e.episode_no, t8);
    let p8 = p7 + den.len();
    assert(s.skip(p8) =~= em + seq!['}'] + rest);
    lemma_sp_punct_of(s, p8, em, '}', rest);
    assert(key_season_no() != key_episode_no()) by {
        assert(key_season_no().len() != key_episode_no().len());
    }
    assert(i + enc_episode(e).len() == p8 + 1);
}

#[verifier::rlimit(80)]
#[verifier::spinoff_prover]
pub(crate) proof fn lemma_sp_map_entries_of_enc(
    s: Seq<char>,
    i: int,
    ps: Seq<(Seq<char>, EpisodeIdentifier)>,
    rest: Seq<char>,
)
    requires
        0 <= i <= s.len(),
        ps.len() > 0,
        s.skip(i) == enc_map_entries(ps) + seq!['}'] + rest,
    ensures
        sp_map_entries(s, i) == Option::Some((ps, i + enc_map_entries(ps).len() + 1)),
        s.skip(i + enc_map_entries(ps).len() + 1) == rest,
    decreases ps.len(),
{
    let em = Seq::<char>::empty();
    let p0 = ps[0];
    if ps.len() == 1 {
        let t1 = seq![':'] + enc_episode(p0.1) + seq!['}'] + rest;
        assert(enc_map_entries(ps) == enc_map_entry(p0));
        assert(s.skip(i) =~= em + enc_string(p0.0) + t1);
        lemma_sp_string_ws_of(s, i, em, p0.0, t1);
        let q1 = i + enc_string(p0.0).len();
        let t2 = enc_episode(p0.1) + seq!['}'] + rest;
        assert(s.skip(q1) =~= em + seq![':'] + t2);
        lemma_sp_punct_of(s, q1, em, ':', t2);
        let q2 = q1 + 1;
        let t3 = seq!['}'] + rest;
        assert(s.skip(q2) =~= enc_episode(p0.1) + t3);
        assert(t3[0] == '}');
        lemma_sp_episode_of_enc(s, q2, p0.1, t3);
        let q3 = q2 + enc_episode(p0.1).len();
        // After the row, the next token is the closing brace, so the
        // comma alternative fails.
        assert(s.skip(q3) =~= em + seq!['}'] + rest);
        lemma_sp_punct_of(s, q3, em, '}', rest);
        assert(sp_punct(s, q3, ',') is None);
        assert(seq![(p0.0, p0.1)] =~= ps);
        assert(i + enc_map_entries(ps).len() + 1 == q3 + 1);
    } else {
        let tail_entries = enc_map_entries(ps.drop_first());
        assert(enc_map_entries(ps) == enc_map_entry(p0) + seq![','] + tail_entries);
        let t1 = seq![':'] + enc_episode(p0.1) + seq![','] + tail_entries + seq!['}'] + rest;
        assert(s.skip(i) =~= em + enc_string(p0.0) + t1);
        lemma_sp_string_ws_of(s, i, em, p0.0, t1);
        let q1 = i + enc_string(p0.0).len();
        let t2 = enc_episode(p0.1) + seq![','] + tail_entries + seq!['}'] + rest;
        assert(s.skip(q1) =~= em + seq![':'] + t2);
        lemma_sp_punct_of(s, q1, em, ':', t2);
        let q2 = q1 + 1;
        let t3 = seq![','] + tail_entries + seq!['}'] + rest;
        assert(s.skip(q2) =~= enc_episode(p0.1) + t3);
        assert(t3[0] == ',');
        lemma_sp_episode_of_enc(s, q2, p0.1, t3);
        let q3 = q2 + enc_episode(p0.1).len();
        let t4 = tail_entries + seq!['}'] + rest;
        assert(s.skip(q3) =~= em + seq![','] + t4);
        lemma_sp_punct_of(s, q3, em, ',', t4);
        let q4 = q3 + 1;
        assert(s.skip(q4) =~= tail_entries + seq!['}'] + rest);
        lemma_sp_map_entries_of_enc(s, q4, ps.drop_first(), rest);
        assert(seq![(p0.0, p0.1)] + ps.drop_first() =~= ps);
        assert(i + enc_map_entries(ps).len() + 1 == q4 + tail_entries.len() + 1);
    }
}

pub(crate) proof fn lemma_sp_mapping_of_enc(
    s: Seq<char>,
    i: int,
    ps: Seq<(Seq<char>, EpisodeIdentifier)>,
    rest: Seq<char>,
)
    requires
        0 <= i <= s.len(),
        s.skip(i) == enc_mapping(ps) + rest,
    ensures
        sp_mapping(s, i) == Option::Some((ps, i + enc_mapping(ps).len())),
        s.skip(i + enc_mapping(ps).len()) == rest,
{
    let em = Seq::<char>::empty();
    let t1 = enc_map_entries(ps) + seq!['}'] + rest;
    assert(s.skip(i) =~= em + seq!['{'] + t1);
    lemma_sp_punct_of(s, i, em, '{', t1);
    let p1 = i + 1;
    assert(s.skip(p1) =~= enc_map_entries(ps) + seq!['}'] + rest);
    if ps.len() == 0 {
        assert(enc_map_entries(ps) =~= em);
        assert(s.skip(p1) =~= em + seq!['}'] + rest);
        lemma_sp_punct_of(s, p1, em, '}', rest);
    } else {
        // The first row starts with a quote, so the empty-object
        // alternative fails.
        assert(enc_map_entries(ps)[0] == '"') by {
            if ps.len() == 1 {
                assert(enc_map_entries(ps) == enc_map_entry(ps[0]));
            }
            assert(enc_string(ps[0].0)[0] == '"');
        }
        assert(s[p1 + 0] == '"') by {
            assert(s.skip(p1) =~= enc_map_entries(ps) + (seq!['}'] + rest));
            crate::json::lemma_skip_concat(s, p1, enc_map_entries(ps), seq!['}'] + rest);
        }
        assert(sp_punct(s, p1, '}') is None) by {
            assert(s.skip(p1)[0] == '"');
            assert(!is_ws(s[p1]));
        }
        lemma_sp_map_entries_of_enc(s, p1, ps, rest);
    }
}

pub(crate) proof fn lemma_sp_null_of(s: Seq<char>, i: int, rest: Seq<char>)
    requires
        0 <= i <= s.len(),
        s.skip(i) == lit_null() + rest,
    ensures
        sp_null(s, i) == Option::Some(i + 4),
        s.skip(i + 4) == rest,
{
    crate::json::lemma_skip_concat(s, i, lit_null(), rest);
    assert(s[i + 0] == 'n');
    assert(s[i + 1] == 'u');
    assert(s[i + 2] == 'l');
    assert(s[i + 3] == 'l');
    assert(!is_ws(s[i]));
    assert(s.skip(i) =~= Seq::<char>::empty() + (lit_null() + rest));
    lemma_skip_ws_concat(s, i, Seq::<char>::empty(), lit_null() + rest);
}

/// A compact metadata object (no whitespace) parses back exactly.
#[verifier::rlimit(80)]
#[verifier::spinoff_prover]
pub(crate) proof fn lemma_sp_metadata_compact(s: Seq<char>, i: int, th: Seq<char>, ti: Seq<char>, rest: Seq<char>)
    requires
        0 <= i <= s.len(),
        s.skip(i) == enc_metadata(th, ti) + rest,
    ensures
        sp_metadata(s, i) == Option::Some(((th, ti), i + enc_metadata(th, ti).len())),
        s.skip(i + enc_metadata(th, ti).len()) == rest,
{
    let em = Seq::<char>::empty();
    assert(s.skip(i) =~= seq!['{'] + em + enc_string(key_thumbnail()) + seq![':'] + em
        + enc_string(th) + seq![','] + em + enc_string(key_title()) + seq![':'] + em
        + enc_string(ti) + em + seq!['}'] + rest);
    lemma_sp_metadata_of_enc_w(s, i, th, ti, em, em, em, em, em, rest);
    assert(enc_metadata(th, ti).len() == 1 + enc_string(key_thumbnail()).len() + 1 + enc_string(
        th,
    ).len() + 1 + enc_string(key_title()).len() + 1 + enc_string(ti).len() + 1);
}

/// The common front of every encoded extra: outer brace, tag, inner
/// brace, metadata key and object. Yields each parser step's result and
/// the position where the variant-specific tail begins.
#[verifier::rlimit(80)]
#[verifier::spinoff_prover]
pub(crate) proof fn lemma_sp_extra_header(
    s: Seq<char>,
    tag: Seq<char>,
    th: Seq<char>,
    ti: Seq<char>,
    after: Seq<char>,
)
    requires
        s.skip(0) == enc_extra_front(tag, th, ti) + after,
    ensures
        ({
            let a1: int = 1 + enc_string(tag).len() as int;
            let a2: int = a1 + 1;
            let a3: int = a2 + 1;
            let a4: int = a3 + enc_string(key_metadata()).len() as int;
            let a5: int = a4 + 1;
            let a6: int = a5 + enc_metadata(th, ti).len() as int;
            &&& sp_punct(s, 0, '{') == Option::Some(1int)
            &&& sp_string(s, skip_ws(s, 1)) == Option::Some((tag, a1))
            &&& sp_punct(s, a1, ':') == Option::Some(a2)
            &&& sp_punct(s, a2, '{') == Option::Some(a3)
            &&& sp_string(s, skip_ws(s, a3)) == Option::Some((key_metadata(), a4))
            &&& sp_punct(s, a4, ':') == Option::Some(a5)
            &&& sp_metadata(s, a5) == Option::Some(((th, ti), a6))
            &&& s.skip(a6) == after
            &&& a6 <= s.len()
        }),
{
    let em = Seq::<char>::empty();
    assert(0 <= 0 <= s.len()) by {
        assert(s.skip(0).len() <= s.len());
    }
    assert(s.skip(0) =~= seq!['{'] + enc_string(tag) + seq![':'] + seq!['{'] + enc_string(
        key_metadata(),
    ) + seq![':'] + enc_metadata(th, ti) + after);
    let t1 = em + enc_string(tag) + seq![':'] + seq!['{'] + enc_string(key_metadata()) + seq![':']
        + enc_metadata(th, ti) + after;
    assert(s.skip(0) =~= em + seq!['{'] + t1);
    lemma_sp_punct_of(s, 0, em, '{', t1);
    let t2 = seq![':'] + seq!['{'] + enc_string(key_metadata()) + seq![':'] + enc_metadata(th, ti)
        + after;
    assert(s.skip(1) =~= em + enc_string(tag) + t2);
    lemma_sp_string_ws_of(s, 1, em, tag, t2);
    let a1: int = 1 + enc_string(tag).len() as int;
    let t3 = seq!['{'] + enc_string(key_metadata()) + seq![':'] + enc_metadata(th, ti) + after;
    assert(s.skip(a1) =~= em + seq![':'] + t3);
    lemma_sp_punct_of(s, a1, em, ':', t3);
    let a2: int = a1 + 1;
    let t4 = enc_string(key_metadata()) + seq![':'] + enc_metadata(th, ti) + after;
    assert(s.skip(a2) =~= em + seq!['{'] + t4);
    lemma_sp_punct_of(s, a2, em, '{', t4);
    let a3: int = a2 + 1;
    let t5 = seq![':'] + enc_metadata(th, ti) + after;
    assert(s.skip(a3) =~= em + enc_string(key_metadata()) + t5);
    lemma_sp_string_ws_of(s, a3, em, key_metadata(), t5);
    let a4: int = a3 + enc_string(key_metadata()).len() as int;
    let t6 = enc_metadata(th, ti) + after;
    assert(s.skip(a4) =~= em + seq![':'] + t6);
    lemma_sp_punct_of(s, a4, em, ':', t6);
    let a5: int = a4 + 1;
    assert(s.skip(a5) =~= enc_metadata(th, ti) + after);
    lemma_sp_metadata_compact(s, a5, th, ti, after);
}

/// The category round trip at the document level: every encoded extra
/// parses back to exactly its shape.
pub proof fn lemma_sp_extra_of_enc(shape: ExtraShape)
    ensures
        sp_extra(enc_extra(shape)) == Option::Some(shape),
{
    match shape {
        ExtraShape::Movie { thumbnail, title } => {
            lemma_sp_extra_of_enc_movie(thumbnail, title);
        },
        ExtraShape::Series { thumbnail, title, mapping } => {
            lemma_sp_extra_of_enc_series(thumbnail, title, mapping);
        },
    }
}

#[verifier::spinoff_prover]
proof fn lemma_sp_extra_of_enc_movie(th: Seq<char>, ti: Seq<char>)
    ensures
        sp_extra(enc_extra(ExtraShape::Movie { thumbnail: th, title: ti })) == Option::Some(
            ExtraShape::Movie { thumbnail: th, title: ti },
        ),
{
    let shape = ExtraShape::Movie { thumbnail: th, title: ti };
    let s = enc_extra(shape);
    let after = enc_extra_close();
    assert(s.skip(0) =~= s);
    assert(s.skip(0) =~= enc_extra_front(key_movie(), th, ti) + after);
    lemma_sp_extra_header(s, key_movie(), th, ti, after);
    let a1: int = 1 + enc_string(key_movie()).len() as int;
    let a4: int = a1 + 2 + enc_string(key_metadata()).len() as int;
    let a6: int = a4 + 1 + enc_metadata(th, ti).len() as int;
    lemma_sp_extra_movie_finish(s, th, ti, a1, a4, a6);
}

#[verifier::spinoff_prover]
proof fn lemma_series_shape(
    th: Seq<char>,
    ti: Seq<char>,
    mapping: Option<Seq<(Seq<char>, EpisodeIdentifier)>>,
)
    ensures
        ({
            let s = enc_extra(ExtraShape::Series { thumbnail: th, title: ti, mapping });
            s.skip(0) == enc_extra_front(key_series(), th, ti) + (enc_series_mid(mapping)
                + enc_extra_close())
        }),
{
    let s = enc_extra(ExtraShape::Series { thumbnail: th, title: ti, mapping });
    assert(s.skip(0) =~= s);
    assert(s.skip(0) =~= enc_extra_front(key_series(), th, ti) + (enc_series_mid(mapping)
        + enc_extra_close()));
}

/// Closes out a movie document once the shared front has parsed.
#[verifier::spinoff_prover]
proof fn lemma_sp_extra_movie_finish(
    s: Seq<char>,
    th: Seq<char>,
    ti: Seq<char>,
    a1: int,
    a4: int,
    a6: int,
)
    requires
        0 <= a6 <= s.len(),
        sp_punct(s, 0, '{') == Option::Some(1int),
        sp_string(s, skip_ws(s, 1)) == Option::Some((key_movie(), a1)),
        sp_punct(s, a1, ':') == Option::Some(a1 + 1),
        sp_punct(s, a1 + 1, '{') == Option::Some(a1 + 2),
        sp_string(s, skip_ws(s, a1 + 2)) == Option::Some((key_metadata(), a4)),
        sp_punct(s, a4, ':') == Option::Some(a4 + 1),
        sp_metadata(s, a4 + 1) == Option::Some(((th, ti), a6)),
        s.skip(a6) == enc_extra_close(),
    ensures
        sp_extra(s) == Option::Some(ExtraShape::Movie { thumbnail: th, title: ti }),
{
    let shape = ExtraShape::Movie { thumbnail: th, title: ti };
    lemma_sp_close_of(s, a6);
    assert(sp_movie_tail(s, th, ti, a6) == Option::Some(shape));
    lemma_sp_extra_assemble(s, key_movie(), th, ti, a1, a4, a6, shape);
}

proof fn lemma_sp_extra_of_enc_series(
    th: Seq<char>,
    ti: Seq<char>,
    mapping: Option<Seq<(Seq<char>, EpisodeIdentifier)>>,
)
    ensures
        sp_extra(enc_extra(ExtraShape::Series { thumbnail: th, title: ti, mapping }))
            == Option::Some(ExtraShape::Series { thumbnail: th, title: ti, mapping }),
{
    let shape = ExtraShape::Series { thumbnail: th, title: ti, mapping };
    let s = enc_extra(shape);
    let after = enc_series_mid(mapping) + enc_extra_close();
    lemma_series_shape(th, ti, mapping);
    lemma_sp_extra_header(s, key_series(), th, ti, after);
    let a1: int = 1 + enc_string(key_series()).len() as int;
    let a4: int = a1 + 2 + enc_string(key_metadata()).len() as int;
    let a6: int = a4 + 1 + enc_metadata(th, ti).len() as int;
    lemma_sp_extra_series_finish(s, th, ti, a1, a4, a6, mapping);
}

/// Closes out a series document once the shared front has parsed.
#[verifier::spinoff_prover]
proof fn lemma_sp_extra_series_finish(
    s: Seq<char>,
    th: Seq<char>,
    ti: Seq<char>,
    a1: int,
    a4: int,
    a6: int,
    mapping: Option<Seq<(Seq<char>, EpisodeIdentifier)>>,
)
    requires
        0 <= a6 <= s.len(),
        sp_punct(s, 0, '{') == Option::Some(1int),
        sp_string(s, skip_ws(s, 1)) == Option::Some((key_series(), a1)),
        sp_punct(s, a1, ':') == Option::Some(a1 + 1),
        sp_punct(s, a1 + 1, '{') == Option::Some(a1 + 2),
        sp_string(s, skip_ws(s, a1 + 2)) == Option::Some((key_metadata(), a4)),
        sp_punct(s, a4, ':') == Option::Some(a4 + 1),
        sp_metadata(s, a4 + 1) == Option::Some(((th, ti), a6)),
        s.skip(a6) == enc_series_mid(mapping) + enc_extra_close(),
    ensures
        sp_extra(s) == Option::Some(ExtraShape::Series { thumbnail: th, title: ti, mapping }),
{
    let shape = ExtraShape::Series { thumbnail: th, title: ti, mapping };
    lemma_sp_series_tail(s, th, ti, a6, mapping);
    assert(key_series() != key_movie()) by {
        assert(key_series().len() != key_movie().len());
    }
    assert(sp_extra_tail(s, key_series(), th, ti, a6) == Option::Some(shape));
    lemma_sp_extra_assemble(s, key_series(), th, ti, a1, a4, a6, shape);
}

/// The series tail parses back after the metadata, for both the absent
/// and the present mapping.
#[verifier::rlimit(80)]
#[verifier::spinoff_prover]
proof fn lemma_sp_series_tail(
    s: Seq<char>,
    th: Seq<char>,
    ti: Seq<char>,
    i: int,
    mapping: Option<Seq<(Seq<char>, EpisodeIdentifier)>>,
)
    requires
        0 <= i <= s.len(),
        s.skip(i) == enc_series_mid(mapping) + enc_extra_close(),
    ensures
        sp_series_tail(s, th, ti, i) == Option::Some(
            ExtraShape::Series { thumbnail: th, title: ti, mapping },
        ),
{
    let em = Seq::<char>::empty();
    let mv = match mapping {
        Option::None => lit_null(),
        Option::Some(ps) => enc_mapping(ps),
    };
    let t8 = enc_string(key_files_mapping()) + seq![':'] + mv + seq!['}'] + seq!['}'];
    assert(s.skip(i) =~= em + seq![','] + t8) by {
        assert(s.skip(i) =~= enc_series_mid(mapping) + enc_extra_close());
    }
    lemma_sp_punct_of(s, i, em, ',', t8);
    let a7: int = i + 1;
    let t9 = seq![':'] + mv + seq!['}'] + seq!['}'];
    assert(s.skip(a7) =~= em + enc_string(key_files_mapping()) + t9);
    lemma_sp_string_ws_of(s, a7, em, key_files_mapping(), t9);
    let a8: int = a7 + enc_string(key_files_mapping()).len() as int;
    let t10 = mv + seq!['}'] + seq!['}'];
    assert(s.skip(a8) =~= em + seq![':'] + t10);
    lemma_sp_punct_of(s, a8, em, ':', t10);
    let a9: int = a8 + 1;
    let t11 = seq!['}'] + seq!['}'];
    assert(s.skip(a9) =~= mv + t11);
    let a10: int = a9 + mv.len() as int;
    match mapping {
        Option::None => {
            lemma_sp_null_of(s, a9, t11);
        },
        Option::Some(ps) => {
            lemma_sp_mapping_of_enc(s, a9, ps, t11);
            // The mapping starts with a brace, not the letter `n`, so
            // the null alternative fails.
            assert(sp_null(s, a9) is None) by {
                crate::json::lemma_skip_concat(s, a9, mv, t11);
                assert(s[a9 + 0] == '{');
                assert(!is_ws(s[a9]));
                assert(skip_ws(s, a9) == a9) by {
                    assert(s.skip(a9) =~= em + (mv + t11));
                    assert(!is_ws((mv + t11)[0]));
                    lemma_skip_ws_concat(s, a9, em, mv + t11);
                }
            }
        },
    }
    lemma_sp_close_of(s, a10);
}

/// Two closing braces at the very end of the input close the document.
proof fn lemma_sp_close_of(s: Seq<char>, i: int)
    requires
        0 <= i <= s.len(),
        s.skip(i) == enc_extra_close(),
    ensures
        sp_extra_close(s, i),
{
    let em = Seq::<char>::empty();
    assert(s.skip(i) =~= em + seq!['}'] + (seq!['}'] + em));
    lemma_sp_punct_of(s, i, em, '}', seq!['}'] + em);
    let a1: int = i + 1;
    assert(s.skip(a1) =~= em + seq!['}'] + em);
    lemma_sp_punct_of(s, a1, em, '}', em);
    let a2: int = a1 + 1;
    assert(s.skip(a2) =~= em);
    assert(a2 == s.len());
    assert(skip_ws(s, a2) == a2);
}

/// Folds the parser-step facts back into the whole-document parser.
#[verifier::spinoff_prover]
proof fn lemma_sp_extra_assemble(
    s: Seq<char>,
    tag: Seq<char>,
    th: Seq<char>,
    ti: Seq<char>,
    a1: int,
    a4: int,
    a6: int,
    shape: ExtraShape,
)
    requires
        sp_punct(s, 0, '{') == Option::Some(1int),
        sp_string(s, skip_ws(s, 1)) == Option::Some((tag, a1)),
        sp_punct(s, a1, ':') == Option::Some(a1 + 1),
        sp_punct(s, a1 + 1, '{') == Option::Some(a1 + 2),
        sp_string(s, skip_ws(s, a1 + 2)) == Option::Some((key_metadata(), a4)),
        sp_punct(s, a4, ':') == Option::Some(a4 + 1),
        sp_metadata(s, a4 + 1) == Option::Some(((th, ti), a6)),
        sp_extra_tail(s, tag, th, ti, a6) == Option::Some(shape),
    ensures
        sp_extra(s) == Option::Some(shape),
{
}

// ---------------------------------------------------------------------------
// Executable extra codec.
// ---------------------------------------------------------------------------

/// Appends the decimal digits of `n` onto `out`.
fn encode_u32_into(out: &mut String, n: u32)
    ensures
        final(out)@ == old(out)@ + crate::text::spec_dec_digits(n as nat),
{
    let d = crate::text::u32_to_string(n);
    out.append(d.as_str());
}

/// Appends the episode object onto `out`.
fn encode_episode_into(out: &mut String, e: &EpisodeIdentifier)
    ensures
        final(out)@ == old(out)@ + enc_episode(*e),
{
    crate::text::push_char(out, '{');
    encode_string_into(out, "season_no");
    crate::text::push_char(out, ':');
    encode_u32_into(out, e.season_no);
    crate::text::push_char(out, ',');
    encode_string_into(out, "episode_no");
    crate::text::push_char(out, ':');
    encode_u32_into(out, e.episode_no);
    crate::text::push_char(out, '}');
    proof {
        reveal_strlit("season_no");
        reveal_strlit("episode_no");
        assert("season_no"@ =~= key_season_no());
        assert("episode_no"@ =~= key_episode_no());
        assert(out@ =~= old(out)@ + enc_episode(*e));
    }
}

pub(crate) proof fn lemma_enc_map_entries_snoc(
    ps: Seq<(Seq<char>, EpisodeIdentifier)>,
    p: (Seq<char>, EpisodeIdentifier),
)
    ensures
        ps.len() == 0 ==> enc_map_entries(ps.push(p)) == enc_map_entry(p),
        ps.len() > 0 ==> enc_map_entries(ps.push(p)) == enc_map_entries(ps) + seq![',']
            + enc_map_entry(p),
    decreases ps.len(),
{
    if ps.len() == 0 {
        assert(ps.push(p)[0] == p);
        assert(enc_map_entries(ps.push(p)) == enc_map_entry(p));
    } else if ps.len() == 1 {
        assert(ps.push(p)[0] == ps[0]);
        assert(ps.push(p).drop_first() =~= seq![p]);
        assert(enc_map_entries(seq![p]) == enc_map_entry(p));
        assert(enc_map_entries(ps.push(p)) == enc_map_entry(ps[0]) + seq![','] + enc_map_entry(p));
        assert(enc_map_entries(ps) == enc_map_entry(ps[0]));
    } else {
        assert(ps.push(p)[0] == ps[0]);
        assert(ps.push(p).drop_first() =~= ps.drop_first().push(p));
        lemma_enc_map_entries_snoc(ps.drop_first(), p);
        assert(enc_map_entries(ps.push(p)) == enc_map_entry(ps[0]) + seq![','] + (enc_map_entries(
            ps.drop_first(),
        ) + seq![','] + enc_map_entry(p)));
        assert(enc_map_entry(ps[0]) + seq![','] + (enc_map_entries(ps.drop_first()) + seq![',']
            + enc_map_entry(p)) =~= (enc_map_entry(ps[0]) + seq![','] + enc_map_entries(
            ps.drop_first(),
        )) + seq![','] + enc_map_entry(p));
    }
}

/// Appends the mapping object onto `out`.
fn encode_mapping_into(out: &mut String, m: &SeriesFileMapping)
    ensures
        final(out)@ == old(out)@ + enc_mapping(pairs_of(m.entries@)),
{
    let ghost ps = pairs_of(m.entries@);
    crate::text::push_char(out, '{');
    let n = m.entries.len();
    let mut k: usize = 0;
    while k < n
        invariant
            n == m.entries@.len(),
            k <= n,
            ps == pairs_of(m.entries@),
            out@ == old(out)@ + seq!['{'] + enc_map_entries(ps.take(k as int)),
        decreases n - k,
    {
        if k > 0 {
            crate::text::push_char(out, ',');
        }
        let entry = &m.entries[k];
        encode_string_into(out, entry.path.as_str());
        crate::text::push_char(out, ':');
        encode_episode_into(out, &entry.episode);
        proof {
            assert(ps[k as int] == (entry.path@, entry.episode));
            assert(ps.take(k + 1) =~= ps.take(k as int).push(ps[k as int]));
            lemma_enc_map_entries_snoc(ps.take(k as int), ps[k as int]);
            assert(enc_map_entry(ps[k as int]) =~= enc_string(entry.path@) + seq![':']
                + enc_episode(entry.episode));
            assert(out@ =~= old(out)@ + seq!['{'] + enc_map_entries(ps.take(k + 1)));
        }
        k = k + 1;
    }
    crate::text::push_char(out, '}');
    proof {
        assert(ps.take(n as int) =~= ps);
        assert(out@ =~= old(out)@ + enc_mapping(ps));
    }
}

/// Encodes an extra value as the JSON document carried in the category.
pub fn encode_extra(x: &TorrentExtra) -> (r: String)
    ensures
        r@ == enc_extra(extra_shape_of(*x)),
{
    proof {
        reveal_strlit("Movie");
        reveal_strlit("Series");
        reveal_strlit("metadata");
        reveal_strlit("files_mapping");
        reveal_strlit("null");
        assert("Movie"@ =~= key_movie());
        assert("Series"@ =~= key_series());
        assert("metadata"@ =~= key_metadata());
        assert("files_mapping"@ =~= key_files_mapping());
        assert("null"@ =~= lit_null());
    }
    let mut out = String::new();
    match x {
        TorrentExtra::Movie { metadata } => {
            crate::text::push_char(&mut out, '{');
            encode_string_into(&mut out, "Movie");
            crate::text::push_char(&mut out, ':');
            crate::text::push_char(&mut out, '{');
            encode_string_into(&mut out, "metadata");
            crate::text::push_char(&mut out, ':');
            let md = encode_metadata(metadata);
            out.append(md.as_str());
            crate::text::push_char(&mut out, '}');
            crate::text::push_char(&mut out, '}');
            proof {
                assert(out@ =~= enc_extra_front(key_movie(), metadata.thumbnail@, metadata.title@)
                    + enc_extra_close());
            }
        },
        TorrentExtra::Series { metadata, files_mapping } => {
            crate::text::push_char(&mut out, '{');
            encode_string_into(&mut out, "Series");
            crate::text::push_char(&mut out, ':');
            crate::text::push_char(&mut out, '{');
            encode_string_into(&mut out, "metadata");
            crate::text::push_char(&mut out, ':');
            let md = encode_metadata(metadata);
            out.append(md.as_str());
            crate::text::push_char(&mut out, ',');
            encode_string_into(&mut out, "files_mapping");
            crate::text::push_char(&mut out, ':');
            match files_mapping {
                Option::None => {
                    out.append("null");
                },
                Option::Some(m) => {
                    encode_mapping_into(&mut out, m);
                },
            }
            crate::text::push_char(&mut out, '}');
            crate::text::push_char(&mut out, '}');
            proof {
                assert(out@ =~= enc_extra_front(
                    key_series(),
                    metadata.thumbnail@,
                    metadata.title@,
                ) + enc_series_mid(shape_mapping(extra_shape_of(*x))) + enc_extra_close());
            }
        },
    }
    out
}

/// Parses the episode object at position `i`.
fn parse_episode(v: &Vec<char>, i: usize) -> (r: Option<(EpisodeIdentifier, usize)>)
    requires
        i <= v@.len(),
    ensures
        r matches Some((e, j)) ==> sp_episode(v@, i as int) == Option::Some((e, j as int)) && i < j
            <= v@.len(),
        r is None ==> sp_episode(v@, i as int) is None,
{
    proof {
        reveal_strlit("season_no");
        reveal_strlit("episode_no");
        assert("season_no"@ =~= key_season_no());
        assert("episode_no"@ =~= key_episode_no());
    }
    let i1 = match parse_punct(v, i, '{') {
        Some(j) => j,
        None => {
            return None;
        },
    };
    let w1 = parse_skip_ws(v, i1);
    let (k1, i2) = match parse_string(v, w1) {
        Some(p) => p,
        None => {
            return None;
        },
    };
    if !crate::text::str_eq(k1.as_str(), "season_no") {
        return None;
    }
    let i3 = match parse_punct(v, i2, ':') {
        Some(j) => j,
        None => {
            return None;
        },
    };
    let w2 = parse_skip_ws(v, i3);
    let (sn, i4) = match crate::json::parse_u32(v, w2) {
        Some(p) => p,
        None => {
            return None;
        },
    };
    let i5 = match parse_punct(v, i4, ',') {
        Some(j) => j,
        None => {
            return None;
        },
    };
    let w3 = parse_skip_ws(v, i5);
    let (k2, i6) = match parse_string(v, w3) {
        Some(p) => p,
        None => {
            return None;
        },
    };
    if !crate::text::str_eq(k2.as_str(), "episode_no") {
        return None;
    }
    let i7 = match parse_punct(v, i6, ':') {
        Some(j) => j,
        None => {
            return None;
        },
    };
    let w4 = parse_skip_ws(v, i7);
    let (en, i8) = match crate::json::parse_u32(v, w4) {
        Some(p) => p,
        None => {
            return None;
        },
    };
    let i9 = match parse_punct(v, i8, '}') {
        Some(j) => j,
        None => {
            return None;
        },
    };
    Some((EpisodeIdentifier { season_no: sn, episode_no: en }, i9))
}

/// Parses one or more mapping rows and the closing brace.
fn parse_map_entries(v: &Vec<char>, i: usize) -> (r: Option<(Vec<FileMappingEntry>, usize)>)
    requires
        i <= v@.len(),
    ensures
        r matches Some((es, j)) ==> sp_map_entries(v@, i as int) == Option::Some(
            (pairs_of(es@), j as int),
        ) && i < j <= v@.len(),
        r is None ==> sp_map_entries(v@, i as int) is None,
    decreases v@.len() - i,
{
    let w1 = parse_skip_ws(v, i);
    let (path, i2) = match parse_string(v, w1) {
        Some(p) => p,
        None => {
            return None;
        },
    };
    let i3 = match parse_punct(v, i2, ':') {
        Some(j) => j,
        None => {
            return None;
        },
    };
    let (ep, i4) = match parse_episode(v, i3) {
        Some(p) => p,
        None => {
            return None;
        },
    };
    let entry = FileMappingEntry { path, episode: ep };
    match parse_punct(v, i4, ',') {
        Some(j) => {
            match parse_map_entries(v, j) {
                Some((mut es, i5)) => {
                    es.insert(0, entry);
                    proof {
                        assert(pairs_of(es@) =~= seq![(es@[0].path@, es@[0].episode)] + pairs_of(
                            es@.drop_first(),
                        ));
                    }
                    Some((es, i5))
                },
                None => None,
            }
        },
        None => {
            match parse_punct(v, i4, '}') {
                Some(i5) => {
                    let mut es: Vec<FileMappingEntry> = Vec::new();
                    es.push(entry);
                    proof {
                        assert(pairs_of(es@) =~= seq![(es@[0].path@, es@[0].episode)]);
                    }
                    Some((es, i5))
                },
                None => None,
            }
        },
    }
}

/// Parses the mapping object at position `i`.
fn parse_mapping(v: &Vec<char>, i: usize) -> (r: Option<(Vec<FileMappingEntry>, usize)>)
    requires
        i <= v@.len(),
    ensures
        r matches Some((es, j)) ==> sp_mapping(v@, i as int) == Option::Some(
            (pairs_of(es@), j as int),
        ) && i < j <= v@.len(),
        r is None ==> sp_mapping(v@, i as int) is None,
{
    let i1 = match parse_punct(v, i, '{') {
        Some(j) => j,
        None => {
            return None;
        },
    };
    match parse_punct(v, i1, '}') {
        Some(i2) => {
            let es: Vec<FileMappingEntry> = Vec::new();
            proof {
                assert(pairs_of(es@) =~= Seq::<(Seq<char>, EpisodeIdentifier)>::empty());
            }
            Some((es, i2))
        },
        None => parse_map_entries(v, i1),
    }
}

/// Parses the `null` literal at position `i`.
fn parse_null(v: &Vec<char>, i: usize) -> (r: Option<usize>)
    requires
        i <= v@.len(),
    ensures
        r matches Some(j) ==> sp_null(v@, i as int) == Option::Some(j as int) && i < j <= v@.len(),
        r is None ==> sp_null(v@, i as int) is None,
{
    let j = parse_skip_ws(v, i);
    if v.len() >= 4 && j <= v.len() - 4 && v[j] == 'n' && v[j + 1] == 'u' && v[j + 2] == 'l' && v[j
        + 3] == 'l' {
        Some(j + 4)
    } else {
        None
    }
}

/// Decodes the JSON document of an extra value. Accepts exactly what
/// `encode_extra` produces, with whitespace between tokens allowed.
#[verifier::rlimit(100)]
#[verifier::spinoff_prover]
pub fn decode_extra(s: &str) -> (r: Option<TorrentExtra>)
    ensures
        r matches Some(x) ==> sp_extra(s@) == Option::Some(extra_shape_of(x)),
        r is None ==> sp_extra(s@) is None,
{
    proof {
        reveal_strlit("Movie");
        reveal_strlit("Series");
        reveal_strlit("metadata");
        assert("Movie"@ =~= key_movie());
        assert("Series"@ =~= key_series());
        assert("metadata"@ =~= key_metadata());
    }
    let v = crate::text::to_char_vec(s);
    let i1 = match parse_punct(&v, 0, '{') {
        Some(j) => j,
        None => {
            return None;
        },
    };
    let w1 = parse_skip_ws(&v, i1);
    let (tag, i2) = match parse_string(&v, w1) {
        Some(p) => p,
        None => {
            return None;
        },
    };
    let i3 = match parse_punct(&v, i2, ':') {
        Some(j) => j,
        None => {
            return None;
        },
    };
    let i4 = match parse_punct(&v, i3, '{') {
        Some(j) => j,
        None => {
            return None;
        },
    };
    let w2 = parse_skip_ws(&v, i4);
    let (km, i5) = match parse_string(&v, w2) {
        Some(p) => p,
        None => {
            return None;
        },
    };
    if !crate::text::str_eq(km.as_str(), "metadata") {
        return None;
    }
    let i6 = match parse_punct(&v, i5, ':') {
        Some(j) => j,
        None => {
            return None;
        },
    };
    let (metadata, i7) = match parse_metadata(&v, i6) {
        Some(p) => p,
        None => {
            return None;
        },
    };
    let is_movie = crate::text::str_eq(tag.as_str(), "Movie");
    let is_series = crate::text::str_eq(tag.as_str(), "Series");
    if is_movie {
        let i8 = match parse_punct(&v, i7, '}') {
            Some(j) => j,
            None => {
                return None;
            },
        };
        let i9 = match parse_punct(&v, i8, '}') {
            Some(j) => j,
            None => {
                return None;
            },
        };
        let e = parse_skip_ws(&v, i9);
        if e != v.len() {
            return None;
        }
        Some(TorrentExtra::Movie { metadata })
    } else if is_series {
        let i8 = match parse_punct(&v, i7, ',') {
            Some(j) => j,
            None => {
                return None;
            },
        };
        let w3 = parse_skip_ws(&v, i8);
        let (kf, i9) = match parse_string(&v, w3) {
            Some(p) => p,
            None => {
                return None;
            },
        };
        proof {
            reveal_strlit("files_mapping");
            assert("files_mapping"@ =~= key_files_mapping());
        }
        if !crate::text::str_eq(kf.as_str(), "files_mapping") {
            return None;
        }
        let i10 = match parse_punct(&v, i9, ':') {
            Some(j) => j,
            None => {
                return None;
            },
        };
        let (mapping, i11): (Option<SeriesFileMapping>, usize) = match parse_null(&v, i10) {
            Some(j) => (None, j),
            None => {
                match parse_mapping(&v, i10) {
                    Some((es, j)) => (Some(SeriesFileMapping { entries: es }), j),
                    None => {
                        return None;
                    },
                }
            },
        };
        let i12 = match parse_punct(&v, i11, '}') {
            Some(j) => j,
            None => {
                return None;
            },
        };
        let i13 = match parse_punct(&v, i12, '}') {
            Some(j) => j,
            None => {
                return None;
            },
        };
        let e = parse_skip_ws(&v, i13);
        if e != v.len() {
            return None;
        }
        Some(TorrentExtra::Series { metadata, files_mapping: mapping })
    } else {
        None
    }
}

// ---------------------------------------------------------------------------
// The category field: base64url around the JSON document.
// ---------------------------------------------------------------------------

/// What the base64url encoder returns for a string's UTF-8 bytes: a
/// function of the input alone.
pub uninterp spec fn b64url_of(s: Seq<char>) -> Seq<char>;

/// What the base64url decoder (plus UTF-8 validation) returns for an
/// input string: a function of the input alone.
pub uninterp spec fn b64url_decoded(s: Seq<char>) -> Option<Seq<char>>;

/// Relies on the base64 crate's URL_SAFE engine: `encode` is a pure
/// function of the input bytes.
#[verifier::external_body]
pub fn encode_url_safe(input: &str) -> (r: String)
    ensures
        r@ == b64url_of(input@),
{
    base64::Engine::encode(&base64::engine::general_purpose::URL_SAFE, input)
}

/// Why a base64url text does not decode to a string: the two stages are
/// told apart.
#[derive(Debug, Clone, Copy, PartialEq, Eq, Structural)]
pub enum Base64DecodeError {
    /// The text is not valid base64url.
    InvalidBase64,
    /// The decoded bytes are not UTF-8.
    InvalidUtf8,
}

/// Decoding undoes encoding: whenever the input is the encoding of some
/// string `t`, the result is exactly `t`.
pub open spec fn b64url_inverts(r: Result<String, Base64DecodeError>, encoded: Seq<char>) -> bool {
    forall|t: Seq<char>|
        encoded == b64url_of(t) ==> r is Ok && b64url_decoded(encoded) == Some(t)
}

/// Relies on the base64 crate's URL_SAFE engine: `decode` is a pure
/// function of the input and inverts `encode` on its outputs, as the
/// crate documents. The two failure stages are reported apart.
#[verifier::external_body]
pub fn decode_url_safe(encoded: &str) -> (r: Result<String, Base64DecodeError>)
    ensures
        (r is Ok) == (b64url_decoded(encoded@) is Some),
        r matches Ok(v) ==> b64url_decoded(encoded@) == Some(v@),
        b64url_inverts(r, encoded@),
{
    let bytes = match base64::Engine::decode(&base64::engine::general_purpose::URL_SAFE, encoded) {
        Ok(b) => b,
        Err(_) => return Err(Base64DecodeError::InvalidBase64),
    };
    match String::from_utf8(bytes) {
        Ok(t) => Ok(t),
        Err(_) => Err(Base64DecodeError::InvalidUtf8),
    }
}

/// The extra carried by a category string: base64url-decode it, then
/// parse the JSON document.
pub open spec fn spec_decoded_category(c: Seq<char>) -> Option<ExtraShape> {
    match b64url_decoded(c) {
        Option::Some(j) => sp_extra(j),
        Option::None => Option::None,
    }
}

/// Encodes an extra into the category field: base64url of its JSON.
pub fn encode_category(x: &TorrentExtra) -> (r: String)
    ensures
        r@ == b64url_of(enc_extra(extra_shape_of(*x))),
{
    let json = encode_extra(x);
    encode_url_safe(json.as_str())
}

/// Why a category field carries no usable extra, the failures told
/// apart: not base64url, decoded bytes not UTF-8, or text that is not an
/// extra document.
#[derive(Debug, Clone, Copy, PartialEq, Eq, Structural)]
pub enum CategoryDecodeError {
    CantDecodeUsingBase64,
    CantConvertBase64BytesToString,
    CantDeserializeTorrentExtra,
}

/// Decodes a category field back into an extra. A category written by
/// `encode_category` always comes back, with the same shape; a category
/// that fails to decode is reported with the stage that failed.
pub fn decode_category(s: &str) -> (r: Result<TorrentExtra, CategoryDecodeError>)
    ensures
        r matches Ok(x) ==> spec_decoded_category(s@) == Option::Some(extra_shape_of(x)),
        r is Err ==> spec_decoded_category(s@) is None,
        r matches Err(e) ==> ((e is CantDeserializeTorrentExtra) == (b64url_decoded(
            s@,
        ) is Some)),
        forall|x: TorrentExtra| s@ == b64url_of(enc_extra(extra_shape_of(x))) ==> (r matches Ok(y)
            && extra_shape_of(y) == extra_shape_of(x)),
{
    let json = match decode_url_safe(s) {
        Ok(j) => j,
        Err(stage) => {
            proof {
                assert forall|x: TorrentExtra|
                    s@ == b64url_of(
                        enc_extra(extra_shape_of(x)),
                    ) implies false by {}
            }
            return Err(
                match stage {
                    Base64DecodeError::InvalidBase64 => CategoryDecodeError::CantDecodeUsingBase64,
                    Base64DecodeError::InvalidUtf8 =>
                        CategoryDecodeError::CantConvertBase64BytesToString,
                },
            );
        },
    };
    let d = decode_extra(json.as_str());
    proof {
        assert forall|x: TorrentExtra|
            s@ == b64url_of(enc_extra(extra_shape_of(x))) implies (d matches Some(y)
            && extra_shape_of(y) == extra_shape_of(x)) by {
            assert(json@ == enc_extra(extra_shape_of(x)));
            lemma_sp_extra_of_enc(extra_shape_of(x));
        }
    }
    match d {
        Some(x) => Ok(x),
        None => Err(CategoryDecodeError::CantDeserializeTorrentExtra),
    }
}

} // verus!
