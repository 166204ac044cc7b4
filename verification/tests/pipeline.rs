use std::marker::PhantomData;

use streamy::codec::encode_category;
use streamy::crawl::{crawl_all_folders, crawl_folder, EntrySnapshot, SeasonSnapshot};
use streamy::media::{FsEntry, MediaContent, MediaMetaData};
use streamy::prepare::{prepare_movie, prepare_series};
use streamy::process::{plan_processing, removal_list, should_process, download_summary};
use streamy::series::{
    EditSeriesFileMappingForm, EpisodeIdentifier, FileMappingEntry, SeriesFileMapping,
};
use streamy::torrent::{QBittorrentClient, TorrentExtra, TorrentInfo, TorrentState};

fn meta(title: &str, thumbnail: &str) -> MediaMetaData {
    MediaMetaData { thumbnail: thumbnail.to_string(), title: title.to_string() }
}

fn file(name: &str) -> FsEntry {
    FsEntry { name: name.to_string(), is_file: true }
}

fn movie_entry() -> EntrySnapshot {
    EntrySnapshot {
        name: "Jellyfish".to_string(),
        meta_json: Some(streamy::codec::encode_metadata_pretty(&meta("Jellyfish", "u"))),
        entries: vec![file("meta.json"), file("movie-tbd.mp4")],
        subtitles: None,
        seasons: vec![],
    }
}

#[test]
fn movie_ingestion_plan() {
    let plan = prepare_movie(
        "./media",
        &meta("Jellyfish", "u"),
        &vec!["subdir/blob.mkv".to_string()],
    )
    .unwrap();
    assert_eq!(plan.source, "subdir/blob.mkv");
    assert_eq!(plan.target_dir, "./media/Jellyfish");
    assert_eq!(plan.dest, "./media/Jellyfish/movie-tbd.mkv");
    assert_eq!(plan.meta_path, "./media/Jellyfish/meta.json");
    assert!(plan.needs_convert);
    assert_eq!(plan.convert_output, "./media/Jellyfish/movie-tbd.mp4");
    assert_eq!(
        streamy::codec::decode_metadata(&plan.meta_contents),
        Some(meta("Jellyfish", "u"))
    );
}

#[test]
fn movie_ingestion_rejects_empty_listing() {
    assert!(prepare_movie("./media", &meta("Jellyfish", "u"), &vec![
        "notes.txt".to_string()
    ])
    .is_err());
}

#[test]
fn series_ingestion_plan() {
    let mapping = EditSeriesFileMappingForm {
        id: "hey".to_string(),
        file_mapping: SeriesFileMapping {
            entries: vec![
                FileMappingEntry {
                    path: "season1/the-looks-S1E1.mkv".to_string(),
                    episode: EpisodeIdentifier { season_no: 1, episode_no: 1 },
                },
                FileMappingEntry {
                    path: "season1/the-looks-S1E2.mkv".to_string(),
                    episode: EpisodeIdentifier { season_no: 1, episode_no: 2 },
                },
                FileMappingEntry {
                    path: "season2/the-looks-S2E1.mkv".to_string(),
                    episode: EpisodeIdentifier { season_no: 2, episode_no: 1 },
                },
            ],
        },
        phantom: PhantomData,
    };
    let allowed = vec![
        "season1/the-looks-S1E1.mkv".to_string(),
        "season1/the-looks-S1E2.mkv".to_string(),
        "season2/the-looks-S2E1.mkv".to_string(),
    ];
    let valid = mapping.validate(&allowed).unwrap();
    let plan = prepare_series("./media", &meta("Amazing Series", "u"), "/dl/src", &valid);
    // The entry directory carries the sanitized title, as every
    // directory name derived from a title does.
    assert_eq!(plan.target_dir, "./media/Amazing_Series");
    assert_eq!(plan.meta_path, "./media/Amazing_Series/meta.json");
    assert_eq!(plan.moves.len(), 3);
    assert_eq!(plan.moves[0].source, "/dl/src/season1/the-looks-S1E1.mkv");
    assert_eq!(plan.moves[0].dest, "./media/Amazing_Series/1/1-the-looks-S1E1.mkv");
    assert!(plan.moves[0].needs_convert);
    assert_eq!(
        plan.moves[0].convert_output,
        "./media/Amazing_Series/1/1-the-looks-S1E1.mp4"
    );
    assert_eq!(plan.moves[1].dest, "./media/Amazing_Series/1/2-the-looks-S1E2.mkv");
    assert_eq!(plan.moves[2].dest, "./media/Amazing_Series/2/1-the-looks-S2E1.mkv");
}

#[test]
fn crawl_movie_entry() {
    let media = crawl_folder(&movie_entry()).unwrap();
    assert_eq!(media.id, "Jellyfish");
    assert_eq!(media.metadata, meta("Jellyfish", "u"));
    match media.content {
        MediaContent::Movie(p) => {
            assert_eq!(p.media, "Jellyfish/movie-tbd.mp4");
            assert!(p.subtitles.is_empty());
        },
        MediaContent::Series(_) => panic!("expected a movie"),
    }
}

#[test]
fn crawl_is_idempotent_on_a_snapshot() {
    let entries = vec![movie_entry()];
    let first = crawl_all_folders(&entries);
    let second = crawl_all_folders(&entries);
    assert_eq!(first, second);
}

#[test]
fn crawl_skips_entries_without_metadata() {
    let mut e = movie_entry();
    e.meta_json = None;
    assert!(crawl_folder(&e).is_none());
    let mut c = movie_entry();
    c.meta_json = Some("corrupt".to_string());
    assert!(crawl_folder(&c).is_none());
}

#[test]
fn subtitle_pairing() {
    // A paired text subtitle and its track survive the crawl; a text
    // subtitle without a track stays out.
    let season = SeasonSnapshot {
        dir_name: "1".to_string(),
        entries: vec![file("1.mp4")],
        subtitles: Some(vec!["1turhey.srt".to_string(), "1turhey.mp4".to_string()]),
    };
    let se = streamy::crawl::try_extract_season("show", &season).unwrap();
    assert_eq!(se.number, 1);
    assert_eq!(se.episodes.len(), 1);
    let ep = &se.episodes[0];
    assert_eq!(ep.number, 1);
    assert_eq!(ep.paths.media, "show/1/1.mp4");
    assert_eq!(ep.paths.subtitles.len(), 1);
    let sub = &ep.paths.subtitles[0];
    assert_eq!(sub.language_iso639_2t, "tur");
    assert_eq!(sub.name, "hey");
    assert_eq!(sub.path, "show/1/subtitles/1turhey.srt");
    assert_eq!(sub.track_path, "show/1/subtitles/1turhey.mp4");

    let lonely = SeasonSnapshot {
        dir_name: "1".to_string(),
        entries: vec![file("1.mp4")],
        subtitles: Some(vec!["1turhey.srt".to_string()]),
    };
    let se2 = streamy::crawl::try_extract_season("show", &lonely).unwrap();
    assert!(se2.episodes[0].paths.subtitles.is_empty());
}

#[test]
fn missing_tracks_are_listed_for_generation() {
    let files = vec!["1turhey.srt".to_string(), "2engbye.srt".to_string(), "2engbye.mp4"
        .to_string()];
    let pairs = streamy::crawl::explore_subtitles(&files);
    let missing = streamy::crawl::missing_track_files("show/1/subtitles", &pairs);
    assert_eq!(missing.len(), 1);
    assert_eq!(missing[0].0, "show/1/subtitles/1turhey.srt");
    assert_eq!(missing[0].1, streamy::language::LanguageCode::Turkish);
}

#[test]
fn next_episode_order() {
    let season = |n: u32, eps: Vec<u32>| streamy::media::SeasonEntry {
        number: n,
        episodes: eps
            .into_iter()
            .map(|e| streamy::media::EpisodeEntry {
                number: e,
                paths: streamy::media::MediaPaths { media: String::new(), subtitles: vec![] },
            })
            .collect(),
    };
    let series = streamy::media::SeriesContents {
        seasons: vec![season(1, vec![1, 2, 5]), season(3, vec![4, 7])],
    };
    let earliest = EpisodeIdentifier::find_earliest_available_episode(&series);
    assert_eq!(earliest, EpisodeIdentifier { season_no: 1, episode_no: 1 });
    let cur = EpisodeIdentifier { season_no: 1, episode_no: 2 };
    assert_eq!(
        cur.find_next_episode(&series),
        Some(EpisodeIdentifier { season_no: 1, episode_no: 5 })
    );
    let end_of_season = EpisodeIdentifier { season_no: 1, episode_no: 5 };
    assert_eq!(
        end_of_season.find_next_episode(&series),
        Some(EpisodeIdentifier { season_no: 3, episode_no: 4 })
    );
    let last = EpisodeIdentifier { season_no: 3, episode_no: 7 };
    assert_eq!(last.find_next_episode(&series), None);
}

fn torrent(hash: &str, state: TorrentState, category: String) -> TorrentInfo {
    TorrentInfo {
        hash: hash.to_string(),
        name: hash.to_string(),
        category,
        save_path: "/dl".to_string(),
        content_path: "/dl/x".to_string(),
        state,
    }
}

#[test]
fn processor_classification() {
    let ready = encode_category(&TorrentExtra::Movie { metadata: meta("A", "u") });
    let waiting = encode_category(&TorrentExtra::Series {
        metadata: meta("B", "u"),
        files_mapping: None,
    });
    let torrents = vec![
        torrent("done-movie", TorrentState::Uploading, ready.clone()),
        torrent("unmapped-series", TorrentState::Uploading, waiting),
        torrent("still-downloading", TorrentState::Downloading, ready.clone()),
        torrent("broken", TorrentState::MissingFiles, ready.clone()),
        torrent("already-processing", TorrentState::StalledUP, ready.clone()),
    ];
    assert!(should_process(&torrents[0]));
    assert!(!should_process(&torrents[1]));
    assert!(!should_process(&torrents[2]));

    let processing = vec!["already-processing".to_string()];
    let plan = plan_processing(&torrents, &processing);
    assert_eq!(plan.faulty, vec!["broken".to_string()]);
    assert_eq!(plan.to_process, vec![0usize]);
    assert_eq!(
        plan.announced,
        vec!["already-processing".to_string(), "done-movie".to_string()]
    );

    // A successful preparation queues the hash for removal, beside the
    // faulty ones; the retained list keeps it, so the next round never
    // selects it again.
    let removals = removal_list(&torrents, &plan.to_process, &vec![true], &plan.faulty);
    assert_eq!(removals, vec!["done-movie".to_string(), "broken".to_string()]);
    let retained =
        streamy::process::retained_processing(&torrents, &plan.to_process, &vec![true], &processing);
    assert_eq!(
        retained,
        vec!["already-processing".to_string(), "done-movie".to_string()]
    );
    let plan2 = plan_processing(&torrents, &retained);
    assert!(plan2.to_process.is_empty());

    // A failed preparation leaves the retained list unchanged, so the
    // next round reconsiders the same torrent.
    let after_failure = streamy::process::retained_processing(
        &torrents,
        &plan.to_process,
        &vec![false],
        &processing,
    );
    assert_eq!(after_failure, processing);
    let plan3 = plan_processing(&torrents, &after_failure);
    assert_eq!(plan3.to_process, vec![0usize]);
}

#[test]
fn download_summary_reads_category() {
    let ready = encode_category(&TorrentExtra::Movie { metadata: meta("A Movie", "u") });
    let t = torrent("h", TorrentState::Downloading, ready);
    assert_eq!(download_summary(&t), ("A Movie".to_string(), false));
    let raw = torrent("h2", TorrentState::Downloading, "not-a-category".to_string());
    assert_eq!(download_summary(&raw), ("h2".to_string(), false));
}

#[test]
fn supervisor_idle_detection() {
    let ready = encode_category(&TorrentExtra::Movie { metadata: meta("A", "u") });
    let all_stopped = vec![
        torrent("a", TorrentState::PausedUP, ready.clone()),
        torrent("b", TorrentState::Uploading, ready.clone()),
    ];
    assert!(QBittorrentClient::should_shutdown(&all_stopped));
    let active = vec![torrent("c", TorrentState::Downloading, ready)];
    assert!(!QBittorrentClient::should_shutdown(&active));
    assert!(QBittorrentClient::should_shutdown(&vec![]));
}

#[test]
fn api_requests_carry_the_encoded_category() {
    let x = TorrentExtra::Movie { metadata: meta("A", "u") };
    let req = streamy::torrent::add_torrent_request("magnet:x", &x);
    assert_eq!(req.path, "api/v2/torrents/add");
    assert_eq!(req.form[0], ("urls".to_string(), "magnet:x".to_string()));
    assert_eq!(req.form[1].0, "category");
    assert_eq!(streamy::codec::decode_category(&req.form[1].1), Ok(x));
    assert_eq!(req.form[2], ("root_folder".to_string(), "true".to_string()));
    assert!(streamy::torrent::add_torrent_ok("Ok."));
    assert!(!streamy::torrent::add_torrent_ok("Fails."));
}

#[test]
fn attach_mapping_only_to_series() {
    let movie = TorrentExtra::Movie { metadata: meta("A", "u") };
    let mapping = SeriesFileMapping { entries: vec![] };
    assert!(streamy::torrent::attach_file_mapping(movie, mapping.clone()).is_none());
    let series = TorrentExtra::Series { metadata: meta("B", "u"), files_mapping: None };
    let updated = streamy::torrent::attach_file_mapping(series, mapping).unwrap();
    match updated {
        TorrentExtra::Series { files_mapping, .. } => assert!(files_mapping.is_some()),
        _ => panic!("expected a series"),
    }
}

#[test]
fn subtitle_paths() {
    let req = streamy::subtitle::SubtitleRequest {
        episode_identifier: Some(EpisodeIdentifier { season_no: 1, episode_no: 3 }),
        subtitle_id: "42".to_string(),
    };
    let (folder, target) = streamy::subtitle::subtitle_target_path("media/Show/1/3-ep.mp4", &req);
    assert_eq!(folder, "media/Show/1/subtitles");
    assert_eq!(target, "media/Show/1/subtitles/3-42.srt");

    let movie_req = streamy::subtitle::SubtitleRequest {
        episode_identifier: None,
        subtitle_id: "42".to_string(),
    };
    let (_, movie_target) =
        streamy::subtitle::subtitle_target_path("media/Jelly/movie.mp4", &movie_req);
    assert_eq!(movie_target, "media/Jelly/subtitles/42.srt");
}

#[test]
fn prefix_round_trip() {
    let paths = streamy::media::MediaPaths {
        media: "Show/1/1.mp4".to_string(),
        subtitles: vec![streamy::media::Subtitle {
            name: "hey".to_string(),
            language_iso639_2t: "tur".to_string(),
            path: "Show/1/subtitles/1turhey.srt".to_string(),
            track_path: "Show/1/subtitles/1turhey.mp4".to_string(),
        }],
    };
    let absolute = paths.add_prefix("/media");
    assert_eq!(absolute.media, "/media/Show/1/1.mp4");
    assert_eq!(absolute.subtitles[0].path, "/media/Show/1/subtitles/1turhey.srt");
    let back = absolute.strip_prefix("/media").unwrap();
    assert_eq!(back, paths);
    assert!(paths.strip_prefix("/other").is_none());
}

#[test]
fn transcoding_policy() {
    for name in ["a.mp4", "a.hevc", "a.mov", "a.avi", "a.ts"] {
        assert!(!streamy::format::should_convert(name));
    }
    assert!(streamy::format::should_convert("a.mkv"));
    assert!(streamy::format::should_convert("a.weird"));
}

#[test]
fn convert_arguments() {
    let args = streamy::prepare::build_convert_args("in.mkv", "out.mp4", "hevc", "aac");
    assert_eq!(
        args,
        vec!["-i", "in.mkv", "-c:v", "copy", "-c:a", "copy", "-tag:v", "hvc1", "out.mp4"]
    );
    let plain = streamy::prepare::build_convert_args("in.mkv", "out.mp4", "h264", "mp3");
    assert_eq!(plain, vec!["-i", "in.mkv", "-c:v", "copy", "-c:a", "aac", "out.mp4"]);
    assert_eq!(streamy::prepare::parse_codec_output("hevc\n"), "hevc");
}

#[test]
fn metadata_errors_are_distinguished() {
    let mut e = movie_entry();
    e.meta_json = None;
    assert_eq!(
        streamy::crawl::try_extract_metadata(&e),
        Err(streamy::crawl::CrawlError::NoMetadata)
    );
    e.meta_json = Some("{broken".to_string());
    assert_eq!(
        streamy::crawl::try_extract_metadata(&e),
        Err(streamy::crawl::CrawlError::CorruptedMetadata)
    );
    let mut no_content = movie_entry();
    no_content.entries = vec![file("meta.json")];
    assert_eq!(
        streamy::crawl::try_extract_media_content(&no_content),
        Err(streamy::crawl::CrawlError::NoMediaContent)
    );
}

#[test]
fn numeric_extraction_saturates() {
    // A digit run beyond 32 bits clamps instead of wrapping or panicking.
    assert_eq!(
        streamy::parse::get_numeric_content("99999999999999999999.mp4"),
        Some(u32::MAX)
    );
}
