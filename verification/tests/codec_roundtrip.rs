use streamy::codec::{
    decode_category, decode_metadata, decode_url_safe, encode_category, encode_metadata,
    encode_metadata_pretty, encode_url_safe,
};
use streamy::media::MediaMetaData;
use streamy::series::{EpisodeIdentifier, FileMappingEntry, SeriesFileMapping};
use streamy::codec::CategoryDecodeError;
use streamy::torrent::TorrentExtra;

fn meta(title: &str, thumbnail: &str) -> MediaMetaData {
    MediaMetaData { thumbnail: thumbnail.to_string(), title: title.to_string() }
}

#[test]
fn encode_and_decode() {
    assert_eq!(encode_url_safe("milk"), "bWlsaw==");
    assert_eq!(decode_url_safe(&encode_url_safe("cookies")).unwrap(), "cookies");
    assert_eq!(
        decode_url_safe(&encode_url_safe("boo / %%!! scary stuff 2^#%^&*#@$@@\u{fc}")).unwrap(),
        "boo / %%!! scary stuff 2^#%^&*#@$@@\u{fc}"
    );
}

#[test]
fn metadata_document_round_trip() {
    let m = meta("Jellyfish \"the\" movie\n", "https://some-link");
    let pretty = encode_metadata_pretty(&m);
    assert_eq!(decode_metadata(&pretty), Some(m.clone()));
    let compact = encode_metadata(&m);
    assert_eq!(decode_metadata(&compact), Some(m));
}

#[test]
fn metadata_matches_common_serializer() {
    // The pretty document must be exactly what serde_json would write
    // for the same two fields, so the on-disk format interoperates.
    let m = meta("My Movie", "http://path.to/image");
    let pretty = encode_metadata_pretty(&m);
    let parsed: serde_json::Value = serde_json::from_str(&pretty).unwrap();
    assert_eq!(parsed["title"], serde_json::Value::String("My Movie".to_string()));
    assert_eq!(
        parsed["thumbnail"],
        serde_json::Value::String("http://path.to/image".to_string())
    );
    let mut map = serde_json::Map::new();
    map.insert(
        "thumbnail".to_string(),
        serde_json::Value::String("http://path.to/image".to_string()),
    );
    map.insert("title".to_string(), serde_json::Value::String("My Movie".to_string()));
    let serde_pretty = serde_json::to_string_pretty(&serde_json::Value::Object(map)).unwrap();
    assert_eq!(pretty, serde_pretty);
}

#[test]
fn metadata_accepts_either_key_order() {
    // A user-authored document may put the title first.
    let reordered = "{ \"title\": \"My Movie\", \"thumbnail\": \"u\" }";
    assert_eq!(decode_metadata(reordered), Some(meta("My Movie", "u")));
}

#[test]
fn metadata_rejects_corrupt_documents() {
    assert_eq!(decode_metadata(""), None);
    assert_eq!(decode_metadata("{\"title\":\"x\"}"), None);
    assert_eq!(decode_metadata("not json at all"), None);
}

#[test]
fn category_round_trip_movie() {
    let x = TorrentExtra::Movie { metadata: meta("Jellyfish", "u") };
    let encoded = encode_category(&x);
    assert_eq!(decode_category(&encoded), Ok(x));
}

#[test]
fn category_round_trip_series_without_mapping() {
    let x = TorrentExtra::Series { metadata: meta("The Looks", "t"), files_mapping: None };
    let encoded = encode_category(&x);
    assert_eq!(decode_category(&encoded), Ok(x));
}

#[test]
fn category_round_trip_series_with_mapping() {
    let mapping = SeriesFileMapping {
        entries: vec![
            FileMappingEntry {
                path: "season1/the-looks-S1E1.mkv".to_string(),
                episode: EpisodeIdentifier { season_no: 1, episode_no: 1 },
            },
            FileMappingEntry {
                path: "season2/the-looks-S2E1.mkv".to_string(),
                episode: EpisodeIdentifier { season_no: 2, episode_no: 1 },
            },
        ],
    };
    let x = TorrentExtra::Series {
        metadata: meta("The Looks", "t"),
        files_mapping: Some(mapping),
    };
    let encoded = encode_category(&x);
    assert_eq!(decode_category(&encoded), Ok(x));
}

#[test]
fn category_matches_common_serializer() {
    // The encoded category must decode with the common JSON tooling:
    // base64url of an externally tagged document.
    let x = TorrentExtra::Movie { metadata: meta("A \"quoted\" title", "u") };
    let encoded = encode_category(&x);
    let json = decode_url_safe(&encoded).unwrap();
    let v: serde_json::Value = serde_json::from_str(&json).unwrap();
    assert_eq!(
        v["Movie"]["metadata"]["title"],
        serde_json::Value::String("A \"quoted\" title".to_string())
    );
}

#[test]
fn category_failures_are_told_apart() {
    assert_eq!(
        decode_category("%%%not-base64%%%"),
        Err(CategoryDecodeError::CantDecodeUsingBase64)
    );
    assert_eq!(
        decode_category(&encode_url_safe("not json")),
        Err(CategoryDecodeError::CantDeserializeTorrentExtra)
    );
    // base64url of a lone 0xff byte: valid base64, invalid UTF-8.
    assert_eq!(
        decode_category("_w=="),
        Err(CategoryDecodeError::CantConvertBase64BytesToString)
    );
    assert_eq!(
        decode_category(""),
        Err(CategoryDecodeError::CantDeserializeTorrentExtra)
    );
}

#[test]
fn track_name_decodes_stems() {
    let stem = encode_url_safe("The Real Name");
    assert_eq!(streamy::subtitle::track_name(&stem), "The Real Name");
    // An undecodable stem falls back to itself.
    assert_eq!(streamy::subtitle::track_name("%%%"), "%%%");
}
