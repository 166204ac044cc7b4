//! Torrent-side data model: per-torrent metadata, torrent states as the
//! BitTorrent client reports them, and the supervisor's decision helpers.

use vstd::prelude::*;
use vstd::string::*;
use crate::media::MediaMetaData;
use crate::series::SeriesFileMapping;

verus! {

/// Structured per-torrent metadata, carried in the torrent's category
/// field as base64url-encoded JSON.
#[derive(Debug, PartialEq, Eq)]
pub enum TorrentExtra {
    Movie { metadata: MediaMetaData },
    Series { metadata: MediaMetaData, files_mapping: Option<SeriesFileMapping> },
}

impl TorrentExtra {
    /// Fresh extra for a new download: a series starts without a file
    /// mapping, a movie never carries one.
    pub fn new(metadata: MediaMetaData, is_series: bool) -> (r: TorrentExtra)
        ensures
            is_series ==> (r matches TorrentExtra::Series { metadata: m, files_mapping } && m
                == metadata && files_mapping is None),
            !is_series ==> (r matches TorrentExtra::Movie { metadata: m } && m == metadata),
    {
        if is_series {
            TorrentExtra::Series { metadata, files_mapping: None }
        } else {
            TorrentExtra::Movie { metadata }
        }
    }

    /// Whether this extra still waits for a file mapping: true exactly for
    /// a series without one.
    pub fn needs_file_mapping(&self) -> (r: bool)
        ensures
            r == spec_needs_file_mapping(*self),
    {
        match self {
            TorrentExtra::Movie { .. } => false,
            TorrentExtra::Series { files_mapping, .. } => files_mapping.is_none(),
        }
    }

    /// The metadata, by value.
    pub fn metadata(self) -> (r: MediaMetaData)
        ensures
            r == spec_metadata(self),
    {
        match self {
            TorrentExtra::Movie { metadata } => metadata,
            TorrentExtra::Series { metadata, .. } => metadata,
        }
    }

    /// The metadata, borrowed.
    pub fn metadata_ref(&self) -> (r: &MediaMetaData)
        ensures
            *r == spec_metadata(*self),
    {
        match self {
            TorrentExtra::Movie { metadata } => metadata,
            TorrentExtra::Series { metadata, .. } => metadata,
        }
    }
}

/// The metadata inside an extra.
pub open spec fn spec_metadata(x: TorrentExtra) -> MediaMetaData {
    match x {
        TorrentExtra::Movie { metadata } => metadata,
        TorrentExtra::Series { metadata, .. } => metadata,
    }
}

/// A series without a mapping still needs one; everything else does not.
pub open spec fn spec_needs_file_mapping(x: TorrentExtra) -> bool {
    match x {
        TorrentExtra::Movie { .. } => false,
        TorrentExtra::Series { files_mapping, .. } => files_mapping is None,
    }
}

/// The states the BitTorrent client reports for a torrent.
#[derive(Debug, Clone, Copy, PartialEq, Eq, Structural, Hash)]
pub enum TorrentState {
    /// Some error occurred, applies to paused torrents.
    Error,
    /// Torrent data files are missing.
    MissingFiles,
    /// Torrent is being seeded and data is being transferred.
    Uploading,
    /// Torrent is paused and has finished downloading.
    PausedUP,
    /// Queuing is enabled and torrent is queued for upload.
    QueuedUP,
    /// Torrent is being seeded, but no connection was made.
    StalledUP,
    /// Torrent has finished downloading and is being checked.
    CheckingUP,
    /// Torrent is forced to upload and ignores the queue limit.
    ForcedUP,
    /// Torrent is allocating disk space for the download.
    Allocating,
    /// Torrent is being downloaded and data is being transferred.
    Downloading,
    /// Torrent has just started downloading and is fetching metadata.
    MetaDL,
    /// Torrent is paused and has not finished downloading.
    PausedDL,
    /// Queuing is enabled and torrent is queued for download.
    QueuedDL,
    /// Torrent is being downloaded, but no connection was made.
    StalledDL,
    /// Same as CheckingUP, but the torrent has not finished downloading.
    CheckingDL,
    /// Torrent is forced to download and ignores the queue limit.
    ForcedDL,
    /// Checking resume data on client startup.
    CheckingResumeData,
    /// Torrent is moving to another location.
    Moving,
    /// Unknown status.
    Unknown,
    /// Stopped while downloading (not in the client's documentation).
    StoppedDL,
}

/// States in which the torrent makes no progress on its own, so an
/// all-stopped list lets the supervisor kill the subprocess.
pub open spec fn spec_should_stop(s: TorrentState) -> bool {
    s == TorrentState::Error || s == TorrentState::Uploading || s == TorrentState::MissingFiles
        || s == TorrentState::StoppedDL || s == TorrentState::PausedUP || s
        == TorrentState::PausedDL || s == TorrentState::StalledUP
}

/// States that count as "download finished".
pub open spec fn spec_is_done(s: TorrentState) -> bool {
    s == TorrentState::Uploading || s == TorrentState::StalledUP
}

/// States that count as paused.
pub open spec fn spec_is_paused(s: TorrentState) -> bool {
    s == TorrentState::PausedDL || s == TorrentState::PausedUP || s == TorrentState::StoppedDL
}

/// States that mark a torrent as broken beyond repair: it is queued for
/// removal without any preparation.
pub open spec fn spec_is_faulty(s: TorrentState) -> bool {
    s == TorrentState::Error || s == TorrentState::MissingFiles
}

impl TorrentState {
    /// Whether a torrent in this state makes no progress on its own.
    pub fn should_stop(&self) -> (r: bool)
        ensures
            r == spec_should_stop(*self),
    {
        match self {
            TorrentState::Error => true,
            TorrentState::Uploading => true,
            TorrentState::MissingFiles => true,
            TorrentState::StoppedDL => true,
            TorrentState::PausedUP => true,
            TorrentState::PausedDL => true,
            TorrentState::StalledUP => true,
            _ => false,
        }
    }

    /// Whether this state means the download has finished.
    pub fn is_done(&self) -> (r: bool)
        ensures
            r == spec_is_done(*self),
    {
        match self {
            TorrentState::Uploading => true,
            TorrentState::StalledUP => true,
            _ => false,
        }
    }

    /// Whether this state counts as paused.
    pub fn is_paused(&self) -> (r: bool)
        ensures
            r == spec_is_paused(*self),
    {
        match self {
            TorrentState::PausedDL => true,
            TorrentState::PausedUP => true,
            TorrentState::StoppedDL => true,
            _ => false,
        }
    }

    /// Whether this state marks the torrent as broken beyond repair.
    pub fn is_faulty(&self) -> (r: bool)
        ensures
            r == spec_is_faulty(*self),
    {
        match self {
            TorrentState::Error => true,
            TorrentState::MissingFiles => true,
            _ => false,
        }
    }
}

/// One torrent as observed from the supervisor: the fields the
/// orchestration logic reads.
#[derive(Debug, Clone, PartialEq, Eq)]
pub struct TorrentInfo {
    pub hash: String,
    pub name: String,
    /// Carries the encoded `TorrentExtra`.
    pub category: String,
    /// Directory the torrent downloads into, without the torrent folder.
    pub save_path: String,
    /// Full path of the torrent's content.
    pub content_path: String,
    pub state: TorrentState,
}

/// Errors of the supervisor itself (spawning and profile handling).
#[derive(Debug, Clone, PartialEq, Eq)]
pub enum QBittorrentError {
    QBittorrentNoxNotInstalled,
    CantSpawnQBittorrent(String),
    QBittorrentDidntPrintReady,
    CantGenerateProfile(String),
}

/// Errors of calls against the torrent client's local web API.
#[derive(Debug, Clone, PartialEq, Eq)]
pub enum QBittorrentWebApiError {
    CouldntCallApi(String),
    CantGetTextContent(String),
    CantDeserialize(String),
    CantAddTorrent(String),
    CantDeleteTorrent(String),
}

/// The supervisor of the embedded BitTorrent client subprocess.
#[derive(Debug, Clone, PartialEq, Eq)]
pub struct QBittorrentClient {
    pub profile_dir: String,
}

/// The subprocess lifecycle: down until a command needs it, spawning until
/// the readiness banner appears, then up on a known port.
#[derive(Debug, Clone, PartialEq, Eq)]
pub enum SupervisorProcessState {
    Down,
    Spawning,
    Up { port: usize },
}

impl QBittorrentClient {
    /// A supervisor rooted at the given profile directory.
    pub fn try_new(profile_dir: String) -> (r: Result<QBittorrentClient, QBittorrentError>)
        ensures
            r matches Ok(c) && c.profile_dir@ == profile_dir@,
    {
        let ghost v = profile_dir@;
        let r = QBittorrentClient { profile_dir };
        proof {
            assert(r.profile_dir@ == v);
        }
        Ok(r)
    }

    /// The directory that holds the client's configuration file.
    pub fn config_dir_path(&self) -> (r: String)
        ensures
            r@ == self.profile_dir@ + "/qBittorrent/config"@,
    {
        let mut out = self.profile_dir.clone();
        out.append("/qBittorrent/config");
        out
    }

    /// The path of the client's configuration file.
    pub fn ini_file_path(&self) -> (r: String)
        ensures
            r@ == self.profile_dir@ + "/qBittorrent/config/qBittorrent.ini"@,
    {
        let mut out = self.profile_dir.clone();
        out.append("/qBittorrent/config/qBittorrent.ini");
        out
    }

    /// The configuration written on first boot: web UI bound to localhost
    /// on an OS-chosen port, local-host auth disabled.
    pub fn ini_file_contents() -> (r: String)
        ensures
            r@
                == "[LegalNotice]\nAccepted=true\n\n[Preferences]\nGeneral\\Locale=en\nMailNotification\\req_auth=true\nWebUI\\Address=127.0.0.1\nWebUI\\LocalHostAuth=false\nWebUI\\Port=0\n"@,
    {
        let s =
            "[LegalNotice]\nAccepted=true\n\n[Preferences]\nGeneral\\Locale=en\nMailNotification\\req_auth=true\nWebUI\\Address=127.0.0.1\nWebUI\\LocalHostAuth=false\nWebUI\\Port=0\n";
        s.to_owned()
    }

    /// The port at the end of a banner line: the trailing decimal number
    /// after the final `:`.
    pub fn extract_port(message: &str) -> (r: Option<usize>)
        ensures
            r == crate::parse::spec_extract_port(message@),
    {
        crate::parse::extract_port(message)
    }

    /// Whether a stdout line is the readiness banner that carries the web
    /// UI address.
    pub fn is_ready_line(line: &str) -> (r: bool)
        ensures
            r == crate::text::spec_contains(line@, "To control qBittorrent, access the WebUI"@),
    {
        crate::text::contains_str(line, "To control qBittorrent, access the WebUI")
    }

    /// What a readiness line yields: the subprocess moves from spawning to
    /// up when the banner carries a port, and spawning fails when the
    /// banner carries none.
    pub fn readiness_transition(state: &SupervisorProcessState, line: &str) -> (r: Result<
        SupervisorProcessState,
        QBittorrentError,
    >)
        requires
            state is Spawning,
        ensures
            crate::text::spec_contains(line@, "To control qBittorrent, access the WebUI"@)
                ==> match crate::parse::spec_extract_port(line@) {
                Some(port) => r matches Ok(s) && s matches SupervisorProcessState::Up { port: p }
                    && p == port,
                None => r matches Err(e) && e is CantSpawnQBittorrent,
            },
            !crate::text::spec_contains(line@, "To control qBittorrent, access the WebUI"@) ==> (r
                matches Ok(s) && s is Spawning),
    {
        if Self::is_ready_line(line) {
            match Self::extract_port(line) {
                Some(port) => Ok(SupervisorProcessState::Up { port }),
                None => {
                    let mut msg = String::new();
                    msg.append("Can't extract port value from stdout: ");
                    msg.append(line);
                    Err(QBittorrentError::CantSpawnQBittorrent(msg))
                },
            }
        } else {
            Ok(SupervisorProcessState::Spawning)
        }
    }

    /// After a published torrent list: the subprocess is torn down exactly
    /// when the list is empty or every torrent sits in a stopped state.
    pub fn should_shutdown(torrents: &Vec<TorrentInfo>) -> (r: bool)
        ensures
            r == (torrents@.len() == 0 || forall|m: int|
                0 <= m < torrents@.len() ==> spec_should_stop((#[trigger] torrents@[m]).state)),
    {
        let mut m: usize = 0;
        while m < torrents.len()
            invariant
                m <= torrents@.len(),
                forall|k: int| 0 <= k < m ==> spec_should_stop((#[trigger] torrents@[k]).state),
            decreases torrents@.len() - m,
        {
            if !torrents[m].state.should_stop() {
                return false;
            }
            m = m + 1;
        }
        true
    }
}

/// A command to the supervisor's service loop. Replies travel outside the
/// library, beside the channel that carries the command.
#[derive(Debug, PartialEq, Eq)]
pub enum QBittorrentClientMessage {
    AddTorrent { hash: String, extra: TorrentExtra },
    RemoveTorrent { id: String },
    SetExtra { id: String, extra: TorrentExtra },
    GetTorrentContents { id: String },
    UpdateTorrentList,
}

impl QBittorrentClientMessage {
    /// Whether handling this command requires the subprocess to be up, so
    /// a down supervisor spawns it first. Polling the list does not: a
    /// down client simply reports success and publishes nothing.
    pub fn needs_client(&self) -> (r: bool)
        ensures
            r == !(*self is UpdateTorrentList),
    {
        match self {
            QBittorrentClientMessage::UpdateTorrentList => false,
            _ => true,
        }
    }
}

/// The query a client sends to list a torrent's files.
#[derive(Debug, Clone, PartialEq, Eq)]
pub struct TorrentContentsQuery {
    pub id: String,
}

/// Attaches a validated file mapping to an existing extra: only a series
/// accepts one; the metadata is kept as it was.
pub fn attach_file_mapping(extra: TorrentExtra, mapping: SeriesFileMapping) -> (r: Option<
    TorrentExtra,
>)
    ensures
        extra is Movie ==> r is None,
        extra matches TorrentExtra::Series { metadata, .. } ==> (r matches Some(y) && y
            == (TorrentExtra::Series { metadata, files_mapping: Some(mapping) })),
{
    match extra {
        TorrentExtra::Movie { .. } => None,
        TorrentExtra::Series { metadata, .. } => Some(
            TorrentExtra::Series { metadata, files_mapping: Some(mapping) },
        ),
    }
}

/// How an API request reaches the local web API.
#[derive(Debug, Clone, Copy, PartialEq, Eq, Structural)]
pub enum HttpMethod {
    Get,
    Post,
}

/// One request against the torrent client's local web API: the method,
/// the path, and the form or query fields.
#[derive(Debug, Clone, PartialEq, Eq)]
pub struct ApiRequest {
    pub method: HttpMethod,
    pub path: String,
    pub form: Vec<(String, String)>,
    pub query: Vec<(String, String)>,
}

/// The request that submits a torrent: its URL or magnet, the encoded
/// extra as the category, and a root folder.
pub fn add_torrent_request(hash: &str, extra: &TorrentExtra) -> (r: ApiRequest)
    ensures
        r.method is Post,
        r.path@ == "api/v2/torrents/add"@,
        r.query@.len() == 0,
        r.form@.len() == 3,
        r.form@[0].0@ == "urls"@ && r.form@[0].1@ == hash@,
        r.form@[1].0@ == "category"@ && r.form@[1].1@ == crate::codec::b64url_of(
            crate::codec::enc_extra(crate::codec::extra_shape_of(*extra)),
        ),
        r.form@[2].0@ == "root_folder"@ && r.form@[2].1@ == "true"@,
{
    let category = crate::codec::encode_category(extra);
    let mut form: Vec<(String, String)> = Vec::new();
    form.push(("urls".to_owned(), hash.to_owned()));
    form.push(("category".to_owned(), category));
    form.push(("root_folder".to_owned(), "true".to_owned()));
    ApiRequest {
        method: HttpMethod::Post,
        path: "api/v2/torrents/add".to_owned(),
        form,
        query: Vec::new(),
    }
}

/// The request that removes a torrent and deletes its files.
pub fn remove_torrent_request(id: &str) -> (r: ApiRequest)
    ensures
        r.method is Post,
        r.path@ == "api/v2/torrents/delete"@,
        r.query@.len() == 0,
        r.form@.len() == 2,
        r.form@[0].0@ == "hashes"@ && r.form@[0].1@ == id@,
        r.form@[1].0@ == "deleteFiles"@ && r.form@[1].1@ == "true"@,
{
    let mut form: Vec<(String, String)> = Vec::new();
    form.push(("hashes".to_owned(), id.to_owned()));
    form.push(("deleteFiles".to_owned(), "true".to_owned()));
    ApiRequest {
        method: HttpMethod::Post,
        path: "api/v2/torrents/delete".to_owned(),
        form,
        query: Vec::new(),
    }
}

/// The request that fetches the published torrent list.
pub fn torrent_list_request() -> (r: ApiRequest)
    ensures
        r.method is Get,
        r.path@ == "api/v2/torrents/info"@,
        r.form@.len() == 0,
        r.query@.len() == 0,
{
    ApiRequest {
        method: HttpMethod::Get,
        path: "api/v2/torrents/info".to_owned(),
        form: Vec::new(),
        query: Vec::new(),
    }
}

/// The request that lists one torrent's files.
pub fn torrent_files_request(hash: &str) -> (r: ApiRequest)
    ensures
        r.method is Get,
        r.path@ == "api/v2/torrents/files"@,
        r.form@.len() == 0,
        r.query@.len() == 1,
        r.query@[0].0@ == "hash"@ && r.query@[0].1@ == hash@,
{
    let mut query: Vec<(String, String)> = Vec::new();
    query.push(("hash".to_owned(), hash.to_owned()));
    ApiRequest {
        method: HttpMethod::Get,
        path: "api/v2/torrents/files".to_owned(),
        form: Vec::new(),
        query,
    }
}

/// The request that creates the category carrying an encoded extra.
pub fn create_category_request(extra: &TorrentExtra) -> (r: ApiRequest)
    ensures
        r.method is Post,
        r.path@ == "api/v2/torrents/createCategory"@,
        r.query@.len() == 0,
        r.form@.len() == 1,
        r.form@[0].0@ == "category"@ && r.form@[0].1@ == crate::codec::b64url_of(
            crate::codec::enc_extra(crate::codec::extra_shape_of(*extra)),
        ),
{
    let category = crate::codec::encode_category(extra);
    let mut form: Vec<(String, String)> = Vec::new();
    form.push(("category".to_owned(), category));
    ApiRequest {
        method: HttpMethod::Post,
        path: "api/v2/torrents/createCategory".to_owned(),
        form,
        query: Vec::new(),
    }
}

/// The request that swaps a torrent's category for a re-encoded extra.
pub fn set_category_request(id: &str, extra: &TorrentExtra) -> (r: ApiRequest)
    ensures
        r.method is Post,
        r.path@ == "api/v2/torrents/setCategory"@,
        r.query@.len() == 0,
        r.form@.len() == 2,
        r.form@[0].0@ == "hashes"@ && r.form@[0].1@ == id@,
        r.form@[1].0@ == "category"@ && r.form@[1].1@ == crate::codec::b64url_of(
            crate::codec::enc_extra(crate::codec::extra_shape_of(*extra)),
        ),
{
    let category = crate::codec::encode_category(extra);
    let mut form: Vec<(String, String)> = Vec::new();
    form.push(("hashes".to_owned(), id.to_owned()));
    form.push(("category".to_owned(), category));
    ApiRequest {
        method: HttpMethod::Post,
        path: "api/v2/torrents/setCategory".to_owned(),
        form,
        query: Vec::new(),
    }
}

/// Whether the add endpoint accepted the torrent: any body other than
/// the exact text `Ok.` is a failure.
pub fn add_torrent_ok(body: &str) -> (r: bool)
    ensures
        r == (body@ == "Ok."@),
{
    crate::text::str_eq(body, "Ok.")
}

} // verus!
