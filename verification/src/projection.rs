//! From what the provider let us read of a session to its snapshot.
//!
//! Reading a session is the caller's business: each property either came
//! back or did not. [`RawProperties`] records the outcome of every read,
//! and [`project`] decides what snapshot, if any, follows from it. A
//! snapshot is complete or it does not exist.
use vstd::prelude::*;
use crate::media::{
    MediaInfo, MediaInfoView, PlaybackStatus, PlaybackType, status_of, type_of, THUMBNAIL_CAP,
};

verus! {

/// How the transfer of a session's thumbnail ended.
#[derive(Clone, Debug, PartialEq, Eq)]
pub enum ThumbnailTransfer {
    /// The thumbnail could not be opened or read.
    Failed,
    /// The read went through and produced these bytes, possibly none.
    Completed(Vec<u8>),
}

impl View for ThumbnailTransfer {
    type V = Option<Seq<u8>>;

    open spec fn view(&self) -> Option<Seq<u8>> {
        match self {
            ThumbnailTransfer::Failed => None,
            ThumbnailTransfer::Completed(bytes) => Some(bytes@),
        }
    }
}

/// How the listing of a session's genres ended.
#[derive(Clone, Debug, PartialEq, Eq)]
pub enum GenreListing {
    /// The session offers no genre list.
    Unavailable,
    /// There is a list, but its length could not be read.
    Unsized,
    /// The list, item by item; `None` where an item could not be read.
    Listed(Vec<Option<String>>),
}

/// The mathematical content of a [`GenreListing`].
pub ghost enum GenreListingView {
    Unavailable,
    Unsized,
    Listed(Seq<Option<Seq<char>>>),
}

impl View for GenreListing {
    type V = GenreListingView;

    open spec fn view(&self) -> GenreListingView {
        match self {
            GenreListing::Unavailable => GenreListingView::Unavailable,
            GenreListing::Unsized => GenreListingView::Unsized,
            GenreListing::Listed(items) => GenreListingView::Listed(items.deep_view()),
        }
    }
}

/// The outcome of every read that a projection needs. `None` marks a
/// property that the provider did not hand out.
///
/// `position` and `end_time` are in provider ticks; `playback_status` and
/// `playback_type` are the provider's own numbers. `captured_at` is the
/// reader's own clock at the time of reading, in milliseconds since the
/// Unix epoch; the provider has no say in it.
#[derive(Clone, Debug, PartialEq, Eq)]
pub struct RawProperties {
    pub source_app_id: Option<String>,
    pub title: Option<String>,
    pub artist: Option<String>,
    pub album_title: Option<String>,
    pub album_artist: Option<String>,
    pub genres: GenreListing,
    pub album_track_count: Option<i32>,
    pub track_number: Option<i32>,
    pub thumbnail: ThumbnailTransfer,
    pub playback_status: Option<i32>,
    pub playback_type: Option<i32>,
    pub position: Option<i64>,
    pub end_time: Option<i64>,
    pub captured_at: u64,
}

/// The mathematical content of a [`RawProperties`].
pub ghost struct RawPropertiesView {
    pub source_app_id: Option<Seq<char>>,
    pub title: Option<Seq<char>>,
    pub artist: Option<Seq<char>>,
    pub album_title: Option<Seq<char>>,
    pub album_artist: Option<Seq<char>>,
    pub genres: GenreListingView,
    pub album_track_count: Option<int>,
    pub track_number: Option<int>,
    pub thumbnail: Option<Seq<u8>>,
    pub playback_status: Option<int>,
    pub playback_type: Option<int>,
    pub position: Option<int>,
    pub end_time: Option<int>,
    pub captured_at: nat,
}

/// The number behind an optional machine integer.
pub open spec fn as_int_i32(value: Option<i32>) -> Option<int> {
    match value {
        Some(n) => Some(n as int),
        None => None,
    }
}

/// The number behind an optional machine integer.
pub open spec fn as_int_i64(value: Option<i64>) -> Option<int> {
    match value {
        Some(n) => Some(n as int),
        None => None,
    }
}

impl View for RawProperties {
    type V = RawPropertiesView;

    open spec fn view(&self) -> RawPropertiesView {
        RawPropertiesView {
            source_app_id: self.source_app_id.deep_view(),
            title: self.title.deep_view(),
            artist: self.artist.deep_view(),
            album_title: self.album_title.deep_view(),
            album_artist: self.album_artist.deep_view(),
            genres: self.genres@,
            album_track_count: as_int_i32(self.album_track_count),
            track_number: as_int_i32(self.track_number),
            thumbnail: self.thumbnail@,
            playback_status: as_int_i32(self.playback_status),
            playback_type: as_int_i32(self.playback_type),
            position: as_int_i64(self.position),
            end_time: as_int_i64(self.end_time),
            captured_at: self.captured_at as nat,
        }
    }
}

impl DeepView for RawProperties {
    type V = RawPropertiesView;

    open spec fn deep_view(&self) -> RawPropertiesView {
        self@
    }
}

/// A property without which no snapshot can be made.
#[derive(Clone, Copy, Debug, PartialEq, Eq, Structural)]
pub enum Property {
    Title,
    Artist,
    AlbumTitle,
    AlbumArtist,
    Genres,
    AlbumTrackCount,
    TrackNumber,
    PlaybackStatus,
    Position,
    EndTime,
    SourceAppId,
}

/// Why a session has no snapshot.
#[derive(Clone, Copy, Debug, PartialEq, Eq, Structural)]
pub enum ProjectionError {
    /// This property, the first in reading order, could not be read.
    Unreadable(Property),
}

/// The thumbnail that a transfer leaves: none where the transfer failed
/// or brought nothing, else what it brought, cut off at the cap.
pub open spec fn thumbnail_of(transfer: Option<Seq<u8>>) -> Option<Seq<u8>> {
    match transfer {
        Some(bytes) if bytes.len() > 0 => Some(
            if bytes.len() <= THUMBNAIL_CAP {
                bytes
            } else {
                bytes.take(THUMBNAIL_CAP as int)
            },
        ),
        _ => None,
    }
}

/// A track count or track number as published: the provider's number,
/// or zero where that is negative.
pub open spec fn track_ordinal(raw: int) -> nat {
    if raw >= 0 {
        raw as nat
    } else {
        0
    }
}

/// The items of a genre list that could be read, in their order.
pub open spec fn readable_items(items: Seq<Option<Seq<char>>>) -> Seq<Seq<char>>
    decreases items.len(),
{
    if items.len() == 0 {
        Seq::empty()
    } else {
        let earlier = readable_items(items.drop_last());
        match items.last() {
            Some(genre) => earlier.push(genre),
            None => earlier,
        }
    }
}

/// The genres that a listing yields. A listing without a length has none
/// to yield and stops the projection instead (see [`first_unreadable`]).
pub open spec fn genres_of(listing: GenreListingView) -> Seq<Seq<char>> {
    match listing {
        GenreListingView::Listed(items) => readable_items(items),
        _ => Seq::empty(),
    }
}

/// The first required property, in reading order, that is missing.
pub open spec fn first_unreadable(raw: RawPropertiesView) -> Option<Property> {
    if raw.title is None {
        Some(Property::Title)
    } else if raw.artist is None {
        Some(Property::Artist)
    } else if raw.album_title is None {
        Some(Property::AlbumTitle)
    } else if raw.album_artist is None {
        Some(Property::AlbumArtist)
    } else if raw.genres is Unsized {
        Some(Property::Genres)
    } else if raw.album_track_count is None {
        Some(Property::AlbumTrackCount)
    } else if raw.track_number is None {
        Some(Property::TrackNumber)
    } else if raw.playback_status is None {
        Some(Property::PlaybackStatus)
    } else if raw.position is None {
        Some(Property::Position)
    } else if raw.end_time is None {
        Some(Property::EndTime)
    } else if raw.source_app_id is None {
        Some(Property::SourceAppId)
    } else {
        None
    }
}

/// The playback type behind an optional provider number: `Unknown` where
/// the number could not be read.
pub open spec fn type_or_unknown(raw: Option<int>) -> PlaybackType {
    match raw {
        Some(n) => type_of(n),
        None => PlaybackType::Unknown,
    }
}

/// The snapshot that follows from a complete set of reads, stamped with
/// the moment of capture.
pub open spec fn snapshot_of(raw: RawPropertiesView) -> MediaInfoView
    recommends
        first_unreadable(raw) is None,
{
    MediaInfoView {
        source_app_id: raw.source_app_id->0,
        title: raw.title->0,
        artist: raw.artist->0,
        album_title: raw.album_title->0,
        album_artist: raw.album_artist->0,
        genres: genres_of(raw.genres),
        album_track_count: track_ordinal(raw.album_track_count->0),
        track_number: track_ordinal(raw.track_number->0),
        thumbnail: thumbnail_of(raw.thumbnail),
        playback_status: status_of(raw.playback_status->0),
        playback_type: type_or_unknown(raw.playback_type),
        position: raw.position->0,
        duration: raw.end_time->0,
        last_updated_time: raw.captured_at,
    }
}

/// What a projection yields: the complete snapshot, or the first
/// property that stood in its way.
pub open spec fn projected(raw: RawPropertiesView) -> Result<
    MediaInfoView,
    ProjectionError,
> {
    match first_unreadable(raw) {
        Some(property) => Err(ProjectionError::Unreadable(property)),
        None => Ok(snapshot_of(raw)),
    }
}

/// The mathematical content of a projection's result.
pub open spec fn projection_view(res: Result<MediaInfo, ProjectionError>) -> Result<
    MediaInfoView,
    ProjectionError,
> {
    match res {
        Ok(info) => Ok(info@),
        Err(e) => Err(e),
    }
}

/// Turns the outcome of a thumbnail transfer into the snapshot's
/// thumbnail: present exactly when the transfer went through and brought
/// at least one byte, and never longer than [`THUMBNAIL_CAP`].
pub fn clamp_thumbnail(transfer: ThumbnailTransfer) -> (thumbnail: Option<Vec<u8>>)
    ensures
        thumbnail.deep_view() == thumbnail_of(transfer@),
        thumbnail is Some <==> (transfer@ matches Some(bytes) && bytes.len() > 0),
        thumbnail matches Some(bytes) ==> 0 < bytes@.len() <= THUMBNAIL_CAP,
{
    match transfer {
        ThumbnailTransfer::Failed => None,
        ThumbnailTransfer::Completed(bytes) => {
            if bytes.len() == 0 {
                None
            } else {
                let mut bytes = bytes;
                if bytes.len() > THUMBNAIL_CAP {
                    bytes.truncate(THUMBNAIL_CAP);
                }
                let thumbnail = Some(bytes);
                assert(thumbnail.deep_view() =~= thumbnail_of(transfer@));
                thumbnail
            }
        },
    }
}

/// Publishes a track count or track number: negative readings become 0.
pub fn non_negative(raw: i32) -> (ordinal: u32)
    ensures
        ordinal == track_ordinal(raw as int),
{
    if raw >= 0 {
        raw as u32
    } else {
        0
    }
}

/// Collects the genres of a listing, skipping the items that could not
/// be read.
pub fn collect_genres(listing: &GenreListing) -> (genres: Vec<String>)
    ensures
        genres.deep_view() == genres_of(listing@),
{
    let mut genres: Vec<String> = Vec::new();
    match listing {
        GenreListing::Listed(items) => {
            let mut i: usize = 0;
            assert(items.deep_view().take(0) =~= Seq::empty());
            assert(genres.deep_view() =~= Seq::empty());
            while i < items.len()
                invariant
                    i <= items.len(),
                    genres.deep_view() == readable_items(items.deep_view().take(i as int)),
                decreases items.len() - i,
            {
                let ghost before = genres.deep_view();
                let ghost all = items.deep_view();
                assert(all.take(i as int + 1).drop_last() =~= all.take(i as int));
                assert(all.take(i as int + 1).last() == all[i as int]);
                assert(all[i as int] == items@[i as int].deep_view());
                match &items[i] {
                    Some(genre) => {
                        genres.push(genre.clone());
                        assert(genres.deep_view() =~= before.push(genre@));
                    },
                    None => {},
                }
                i += 1;
            }
            assert(items.deep_view().take(i as int) =~= items.deep_view());
        },
        _ => {
            assert(genres.deep_view() =~= Seq::empty());
        },
    }
    genres
}

/// Makes the snapshot of a session from what was read of it.
///
/// The result is the complete snapshot, stamped with the time of
/// reading, when every required property was read, and otherwise names
/// the first property, in reading order, that was not. A failed thumbnail transfer,
/// an unavailable genre list and an unreadable playback type are no
/// obstacle: the snapshot then has no thumbnail, no genres, or the type
/// `Unknown`.
pub fn project(raw: RawProperties) -> (res: Result<MediaInfo, ProjectionError>)
    ensures
        projection_view(res) == projected(raw@),
        res matches Ok(info) ==> info@.thumbnail_in_bounds(),
{
    let ghost view = raw@;
    let RawProperties {
        source_app_id,
        title,
        artist,
        album_title,
        album_artist,
        genres,
        album_track_count,
        track_number,
        thumbnail,
        playback_status,
        playback_type,
        position,
        end_time,
        captured_at,
    } = raw;
    let title = match title {
        Some(text) => text,
        None => { return Err(ProjectionError::Unreadable(Property::Title)); },
    };
    let artist = match artist {
        Some(text) => text,
        None => { return Err(ProjectionError::Unreadable(Property::Artist)); },
    };
    let album_title = match album_title {
        Some(text) => text,
        None => { return Err(ProjectionError::Unreadable(Property::AlbumTitle)); },
    };
    let album_artist = match album_artist {
        Some(text) => text,
        None => { return Err(ProjectionError::Unreadable(Property::AlbumArtist)); },
    };
    if let GenreListing::Unsized = genres {
        return Err(ProjectionError::Unreadable(Property::Genres));
    }
    let genre_list = collect_genres(&genres);
    let album_track_count = match album_track_count {
        Some(n) => non_negative(n),
        None => { return Err(ProjectionError::Unreadable(Property::AlbumTrackCount)); },
    };
    let track_number = match track_number {
        Some(n) => non_negative(n),
        None => { return Err(ProjectionError::Unreadable(Property::TrackNumber)); },
    };
    let thumbnail = clamp_thumbnail(thumbnail);
    let playback_status = match playback_status {
        Some(n) => PlaybackStatus::from_raw(n),
        None => { return Err(ProjectionError::Unreadable(Property::PlaybackStatus)); },
    };
    let playback_type = match playback_type {
        Some(n) => PlaybackType::from_raw(n),
        None => PlaybackType::Unknown,
    };
    let position = match position {
        Some(ticks) => ticks,
        None => { return Err(ProjectionError::Unreadable(Property::Position)); },
    };
    let duration = match end_time {
        Some(ticks) => ticks,
        None => { return Err(ProjectionError::Unreadable(Property::EndTime)); },
    };
    let source_app_id = match source_app_id {
        Some(text) => text,
        None => { return Err(ProjectionError::Unreadable(Property::SourceAppId)); },
    };
    let info = MediaInfo {
        source_app_id,
        title,
        artist,
        album_title,
        album_artist,
        genres: genre_list,
        album_track_count,
        track_number,
        thumbnail,
        playback_status,
        playback_type,
        position,
        duration,
        last_updated_time: captured_at,
    };
    assert(info@ == snapshot_of(view));
    Ok(info)
}

} // verus!
