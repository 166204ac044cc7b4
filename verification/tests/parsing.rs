use std::marker::PhantomData;

use streamy::crawl::{parse_movie_subtitle_name, parse_subtitle_name};
use streamy::language::LanguageCode;
use streamy::parse::get_numeric_content;
use streamy::sanitize::sanitize_name_for_url;
use streamy::series::{
    EditSeriesFileMappingForm, EpisodeIdentifier, FileMappingEntry, NeedsValidation,
    SeriesFileMapping,
};
use streamy::torrent::QBittorrentClient;

fn form(
    entries: Vec<(&str, u32, u32)>,
) -> EditSeriesFileMappingForm<NeedsValidation> {
    EditSeriesFileMappingForm {
        id: "hey".to_string(),
        file_mapping: SeriesFileMapping {
            entries: entries
                .into_iter()
                .map(|(p, s, e)| FileMappingEntry {
                    path: p.to_string(),
                    episode: EpisodeIdentifier { season_no: s, episode_no: e },
                })
                .collect(),
        },
        phantom: PhantomData,
    }
}

#[test]
fn validate_form_mapping_form() {
    assert!(form(vec![("hello/worldS1E1.mov", 1, 1)])
        .validate(&vec!["hello/worldS1E1.mov".to_string()])
        .is_some());

    assert!(form(vec![("some/malicious/path", 1, 1)])
        .validate(&vec!["hello/worldS1E1.mov".to_string()])
        .is_none());

    assert!(form(vec![("hello/worldS1E1.mov", 1, 1), ("hello/worldS1E2.mov", 1, 2)])
        .validate(&vec![
            "hello/worldS1E1.mov".to_string(),
            "hello/worldS1E2.mov".to_string()
        ])
        .is_some());

    assert!(form(vec![("hello/worldS1E1.mov", 1, 1), ("hello/worldS1E2.mov", 1, 1)])
        .validate(&vec![
            "hello/worldS1E1.mov".to_string(),
            "hello/worldS1E2.mov".to_string()
        ])
        .is_none());
}

#[test]
fn mod_can_get_numeric_content() {
    assert_eq!(get_numeric_content("1Ambush.mov"), Some(1));
    assert_eq!(get_numeric_content("176hey.exe"), Some(176));
    assert_eq!(get_numeric_content("02Ambush.mov"), Some(2));
    assert_eq!(get_numeric_content("22ey17.exe"), Some(22));
    assert_eq!(get_numeric_content("eyslkvjsdlkj03k.exe"), Some(3));
    assert_eq!(get_numeric_content("1"), Some(1));
    assert_eq!(get_numeric_content("Ambush.mov"), None);
}

#[test]
fn media_can_get_numeric_content() {
    assert_eq!(get_numeric_content("1Ambush.mov"), Some(1));
    assert_eq!(get_numeric_content("176hey.exe"), Some(176));
    assert_eq!(get_numeric_content("02Ambush.mov"), Some(2));
    assert_eq!(get_numeric_content("22ey17.exe"), Some(22));
    assert_eq!(get_numeric_content("eyslkvjsdlkj03k.exe"), Some(3));
    assert_eq!(get_numeric_content("1"), Some(1));
    assert_eq!(get_numeric_content("Ambush.mov"), None);
}

#[test]
fn movie_subtitle_name() {
    assert_eq!(
        parse_movie_subtitle_name("turSubtitlesx265.vtt").unwrap(),
        (LanguageCode::Turkish, "Subtitlesx265".to_string())
    );
}

#[test]
fn subtitles_subtitle_name() {
    let p = parse_subtitle_name("0231enghey.srt").unwrap();
    assert_eq!(p.name, "hey".to_string());
    assert_eq!(p.language, LanguageCode::English);
    assert_eq!(p.episode, Some(231));
    assert_eq!(p.extension, "srt".to_string());

    let q = parse_subtitle_name("enghey.srt").unwrap();
    assert_eq!(q.name, "hey".to_string());
    assert_eq!(q.language, LanguageCode::English);
    assert_eq!(q.episode, None);
    assert_eq!(q.extension, "srt".to_string());

    assert!(parse_subtitle_name("a.srt").is_none());
}

#[test]
fn test_sanitize() {
    assert_eq!(sanitize_name_for_url("Hello World"), "Hello_World");
    assert_eq!(sanitize_name_for_url("valid"), "valid");
    assert_eq!(sanitize_name_for_url("|nvalid"), "_nvalid");
    assert_eq!(sanitize_name_for_url("bo$$"), "bo$$");
    assert_eq!(sanitize_name_for_url("Co!!"), "Co!!");
    assert_eq!(sanitize_name_for_url(":nvalid"), "_nvalid");
}

#[test]
fn test_extract_port() {
    assert_eq!(QBittorrentClient::extract_port(""), None);
    assert_eq!(QBittorrentClient::extract_port(":1234"), Some(1234));
    assert_eq!(QBittorrentClient::extract_port(":hey"), None);
    assert_eq!(
        QBittorrentClient::extract_port(
            "To control qBittorrent, access the WebUI at http://127.0.0.1:8472"
        ),
        Some(8472)
    );
}

#[test]
fn readiness_banner_detection() {
    assert!(QBittorrentClient::is_ready_line(
        "To control qBittorrent, access the WebUI at http://127.0.0.1:8472"
    ));
    assert!(!QBittorrentClient::is_ready_line("qBittorrent is starting"));
}

#[test]
fn language_codes_round() {
    assert_eq!(LanguageCode::Turkish.to_iso639_2t(), "tur");
    assert_eq!(LanguageCode::English.to_iso639_2t(), "eng");
    assert_eq!(LanguageCode::English.to_iso639_1(), "en");
    assert_eq!(LanguageCode::try_from_str("tur"), Some(LanguageCode::Turkish));
    assert_eq!(LanguageCode::try_from_str("xxx"), None);
}

#[test]
fn path_safety() {
    assert!(streamy::subtitle::is_path_safe("My-Movie_01"));
    assert!(!streamy::subtitle::is_path_safe("../etc"));
    assert!(!streamy::subtitle::is_path_safe(""));
}
