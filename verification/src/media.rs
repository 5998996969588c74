//! The normalized snapshot of one media session.
use vstd::prelude::*;

verus! {

/// Largest thumbnail, in bytes, that a snapshot carries (1 MiB).
pub const THUMBNAIL_CAP: usize = 1_048_576;

/// Number of provider time units (100 ns each) in one second.
pub const TICKS_PER_SECOND: i64 = 10_000_000;

/// What a session is doing with its media.
#[derive(Clone, Copy, Debug, PartialEq, Eq, Structural)]
pub enum PlaybackStatus {
    Closed,
    Opened,
    Changing,
    Stopped,
    Playing,
    Paused,
}

/// The status that the provider's number `raw` stands for; any number
/// outside `0..=5` reads as `Closed`.
pub open spec fn status_of(raw: int) -> PlaybackStatus {
    if raw == 1 {
        PlaybackStatus::Opened
    } else if raw == 2 {
        PlaybackStatus::Changing
    } else if raw == 3 {
        PlaybackStatus::Stopped
    } else if raw == 4 {
        PlaybackStatus::Playing
    } else if raw == 5 {
        PlaybackStatus::Paused
    } else {
        PlaybackStatus::Closed
    }
}

/// The number `0..=5` under which a status is published.
pub open spec fn status_code(status: PlaybackStatus) -> int {
    match status {
        PlaybackStatus::Closed => 0,
        PlaybackStatus::Opened => 1,
        PlaybackStatus::Changing => 2,
        PlaybackStatus::Stopped => 3,
        PlaybackStatus::Playing => 4,
        PlaybackStatus::Paused => 5,
    }
}

impl PlaybackStatus {
    /// Reads the provider's number for a playback status.
    pub fn from_raw(raw: i32) -> (status: PlaybackStatus)
        ensures
            status == status_of(raw as int),
    {
        if raw == 1 {
            PlaybackStatus::Opened
        } else if raw == 2 {
            PlaybackStatus::Changing
        } else if raw == 3 {
            PlaybackStatus::Stopped
        } else if raw == 4 {
            PlaybackStatus::Playing
        } else if raw == 5 {
            PlaybackStatus::Paused
        } else {
            PlaybackStatus::Closed
        }
    }

    /// The number under which this status is published; `from_raw`
    /// reads it back as this status.
    pub fn code(self) -> (code: u8)
        ensures
            code == status_code(self),
            code <= 5,
            status_of(code as int) == self,
    {
        match self {
            PlaybackStatus::Closed => 0,
            PlaybackStatus::Opened => 1,
            PlaybackStatus::Changing => 2,
            PlaybackStatus::Stopped => 3,
            PlaybackStatus::Playing => 4,
            PlaybackStatus::Paused => 5,
        }
    }
}

/// The kind of media a session plays.
#[derive(Clone, Copy, Debug, PartialEq, Eq, Structural)]
pub enum PlaybackType {
    Unknown,
    Music,
    Video,
    Image,
}

/// The playback type that the provider's number `raw` stands for; any
/// number outside `0..=3` reads as `Unknown`.
pub open spec fn type_of(raw: int) -> PlaybackType {
    if raw == 1 {
        PlaybackType::Music
    } else if raw == 2 {
        PlaybackType::Video
    } else if raw == 3 {
        PlaybackType::Image
    } else {
        PlaybackType::Unknown
    }
}

/// The number `0..=3` under which a playback type is published.
pub open spec fn type_code(kind: PlaybackType) -> int {
    match kind {
        PlaybackType::Unknown => 0,
        PlaybackType::Music => 1,
        PlaybackType::Video => 2,
        PlaybackType::Image => 3,
    }
}

impl PlaybackType {
    /// Reads the provider's number for a playback type.
    pub fn from_raw(raw: i32) -> (kind: PlaybackType)
        ensures
            kind == type_of(raw as int),
    {
        if raw == 1 {
            PlaybackType::Music
        } else if raw == 2 {
            PlaybackType::Video
        } else if raw == 3 {
            PlaybackType::Image
        } else {
            PlaybackType::Unknown
        }
    }

    /// The number under which this playback type is published;
    /// `from_raw` reads it back as this type.
    pub fn code(self) -> (code: u8)
        ensures
            code == type_code(self),
            code <= 3,
            type_of(code as int) == self,
    {
        match self {
            PlaybackType::Unknown => 0,
            PlaybackType::Music => 1,
            PlaybackType::Video => 2,
            PlaybackType::Image => 3,
        }
    }
}

/// A snapshot of one session, taken fresh on every projection.
///
/// `position` and `duration` count provider ticks of 100 ns
/// ([`TICKS_PER_SECOND`] to the second); `last_updated_time` is the moment
/// of capture in milliseconds since the Unix epoch.
#[derive(Clone, Debug, PartialEq, Eq)]
pub struct MediaInfo {
    pub source_app_id: String,
    pub title: String,
    pub artist: String,
    pub album_title: String,
    pub album_artist: String,
    pub genres: Vec<String>,
    pub album_track_count: u32,
    pub track_number: u32,
    pub thumbnail: Option<Vec<u8>>,
    pub playback_status: PlaybackStatus,
    pub playback_type: PlaybackType,
    pub position: i64,
    pub duration: i64,
    pub last_updated_time: u64,
}

/// The mathematical content of a [`MediaInfo`].
pub ghost struct MediaInfoView {
    pub source_app_id: Seq<char>,
    pub title: Seq<char>,
    pub artist: Seq<char>,
    pub album_title: Seq<char>,
    pub album_artist: Seq<char>,
    pub genres: Seq<Seq<char>>,
    pub album_track_count: nat,
    pub track_number: nat,
    pub thumbnail: Option<Seq<u8>>,
    pub playback_status: PlaybackStatus,
    pub playback_type: PlaybackType,
    pub position: int,
    pub duration: int,
    pub last_updated_time: nat,
}

impl MediaInfoView {
    /// A thumbnail, where there is one, is neither empty nor over the cap.
    pub open spec fn thumbnail_in_bounds(self) -> bool {
        self.thumbnail matches Some(bytes) ==> 0 < bytes.len() <= THUMBNAIL_CAP
    }
}

impl View for MediaInfo {
    type V = MediaInfoView;

    open spec fn view(&self) -> MediaInfoView {
        MediaInfoView {
            source_app_id: self.source_app_id@,
            title: self.title@,
            artist: self.artist@,
            album_title: self.album_title@,
            album_artist: self.album_artist@,
            genres: self.genres.deep_view(),
            album_track_count: self.album_track_count as nat,
            track_number: self.track_number as nat,
            thumbnail: self.thumbnail.deep_view(),
            playback_status: self.playback_status,
            playback_type: self.playback_type,
            position: self.position as int,
            duration: self.duration as int,
            last_updated_time: self.last_updated_time as nat,
        }
    }
}

impl DeepView for MediaInfo {
    type V = MediaInfoView;

    open spec fn deep_view(&self) -> MediaInfoView {
        self@
    }
}

} // verus!
