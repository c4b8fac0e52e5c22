//! Track metadata and its DMAP encoding: one `mlit` listing item holding
//! the fields that are set, in a fixed order.
use vstd::prelude::*;
use vstd::utf8::encode_utf8;
use super::dmap::{code_bytes, int_bytes, len32, DmapEncoder, DmapTag, DmapValue, encode_item};

verus! {

/// Metadata of the track being played.
#[derive(Debug, Clone)]
pub struct TrackMetadata {
    /// Track title
    pub title: Option<String>,
    /// Artist
    pub artist: Option<String>,
    /// Album
    pub album: Option<String>,
    /// Genre
    pub genre: Option<String>,
    /// Track number
    pub track_number: Option<u32>,
    /// Disc number
    pub disc_number: Option<u32>,
    /// Release year
    pub year: Option<u32>,
    /// Duration in milliseconds
    pub duration_ms: Option<u32>,
}

/// Track metadata as the contracts see it.
pub struct MetadataView {
    pub title: Option<Seq<char>>,
    pub artist: Option<Seq<char>>,
    pub album: Option<Seq<char>>,
    pub genre: Option<Seq<char>>,
    pub track_number: Option<u32>,
    pub disc_number: Option<u32>,
    pub year: Option<u32>,
    pub duration_ms: Option<u32>,
}

/// Metadata with no field set.
pub open spec fn empty_metadata() -> MetadataView {
    MetadataView {
        title: None,
        artist: None,
        album: None,
        genre: None,
        track_number: None,
        disc_number: None,
        year: None,
        duration_ms: None,
    }
}

/// The view of an optional string.
pub open spec fn opt_view(s: Option<String>) -> Option<Seq<char>> {
    match s {
        Some(t) => Some(t@),
        None => None,
    }
}

impl View for TrackMetadata {
    type V = MetadataView;

    open spec fn view(&self) -> MetadataView {
        MetadataView {
            title: opt_view(self.title),
            artist: opt_view(self.artist),
            album: opt_view(self.album),
            genre: opt_view(self.genre),
            track_number: self.track_number,
            disc_number: self.disc_number,
            year: self.year,
            duration_ms: self.duration_ms,
        }
    }
}

/// The DMAP item of a text field that is set (nothing when it is not).
pub open spec fn text_item(tag: DmapTag, s: Option<Seq<char>>) -> Seq<u8> {
    match s {
        Some(t) => code_bytes(tag) + len32(encode_utf8(t).len()) + encode_utf8(t),
        None => Seq::empty(),
    }
}

/// The DMAP item of a number field that is set (nothing when it is not).
pub open spec fn number_item(tag: DmapTag, n: Option<u32>) -> Seq<u8> {
    match n {
        Some(v) => code_bytes(tag) + len32(int_bytes(v as i64).len()) + int_bytes(v as i64),
        None => Seq::empty(),
    }
}

/// The items of the fields that are set: title, artist, album, genre,
/// track number, disc number, year, duration.
pub open spec fn metadata_items(m: MetadataView) -> Seq<u8> {
    text_item(DmapTag::ItemName, m.title) + text_item(DmapTag::SongArtist, m.artist) + text_item(
        DmapTag::SongAlbum,
        m.album,
    ) + text_item(DmapTag::SongGenre, m.genre) + number_item(
        DmapTag::SongTrackNumber,
        m.track_number,
    ) + number_item(DmapTag::SongDiscNumber, m.disc_number) + number_item(
        DmapTag::SongYear,
        m.year,
    ) + number_item(DmapTag::SongTime, m.duration_ms)
}

/// The DMAP encoding of track metadata: a listing item holding the items.
pub open spec fn spec_encode_metadata(m: MetadataView) -> Seq<u8> {
    code_bytes(DmapTag::ListingItem) + len32(metadata_items(m).len()) + metadata_items(m)
}

fn put_text(enc: &mut DmapEncoder, tag: DmapTag, s: &Option<String>)
    ensures
        final(enc)@ == old(enc)@ + text_item(tag, opt_view(*s)),
{
    match s {
        Some(t) => enc.string(tag, t.as_str()),
        None => {
            assert(old(enc)@ + Seq::<u8>::empty() =~= old(enc)@);
        },
    }
}

fn put_number(enc: &mut DmapEncoder, tag: DmapTag, n: Option<u32>)
    ensures
        final(enc)@ == old(enc)@ + number_item(tag, n),
{
    match n {
        Some(v) => enc.integer(tag, v as i64),
        None => {
            assert(old(enc)@ + Seq::<u8>::empty() =~= old(enc)@);
        },
    }
}

impl TrackMetadata {
    /// Metadata with no field set.
    pub fn new() -> (r: Self)
        ensures
            r@ == empty_metadata(),
    {
        TrackMetadata {
            title: None,
            artist: None,
            album: None,
            genre: None,
            track_number: None,
            disc_number: None,
            year: None,
            duration_ms: None,
        }
    }

    /// A builder that starts with no field set.
    pub fn builder() -> (r: MetadataBuilder)
        ensures
            r.metadata()@ == empty_metadata(),
    {
        MetadataBuilder { metadata: TrackMetadata::new() }
    }

    /// Encode the metadata as DMAP.
    pub fn encode_dmap(&self) -> (r: Vec<u8>)
        ensures
            r@ == spec_encode_metadata(self@),
    {
        let mut inner = DmapEncoder::new();
        put_text(&mut inner, DmapTag::ItemName, &self.title);
        put_text(&mut inner, DmapTag::SongArtist, &self.artist);
        put_text(&mut inner, DmapTag::SongAlbum, &self.album);
        put_text(&mut inner, DmapTag::SongGenre, &self.genre);
        put_number(&mut inner, DmapTag::SongTrackNumber, self.track_number);
        put_number(&mut inner, DmapTag::SongDiscNumber, self.disc_number);
        put_number(&mut inner, DmapTag::SongYear, self.year);
        put_number(&mut inner, DmapTag::SongTime, self.duration_ms);
        let items = inner.finish();
        assert(items@ =~= metadata_items(self@));
        let mut outer = DmapEncoder::new();
        let value = DmapValue::Raw(items);
        outer.encode_tag(DmapTag::ListingItem, &value);
        let r = outer.finish();
        assert(r@ =~= spec_encode_metadata(self@));
        r
    }
}

impl Default for TrackMetadata {
    fn default() -> (r: Self)
        ensures
            r@ == empty_metadata(),
    {
        TrackMetadata::new()
    }
}

/// Builder for track metadata.
#[derive(Debug)]
pub struct MetadataBuilder {
    metadata: TrackMetadata,
}

impl MetadataBuilder {
    /// The metadata built so far.
    pub closed spec fn metadata(&self) -> TrackMetadata {
        self.metadata
    }

    /// Set the title.
    pub fn title(self, title: &str) -> (r: Self)
        ensures
            r.metadata()@ == (MetadataView { title: Some(title@), ..self.metadata()@ }),
    {
        let mut s = self;
        s.metadata.title = Some(String::from_str(title));
        s
    }

    /// Set the artist.
    pub fn artist(self, artist: &str) -> (r: Self)
        ensures
            r.metadata()@ == (MetadataView { artist: Some(artist@), ..self.metadata()@ }),
    {
        let mut s = self;
        s.metadata.artist = Some(String::from_str(artist));
        s
    }

    /// Set the album.
    pub fn album(self, album: &str) -> (r: Self)
        ensures
            r.metadata()@ == (MetadataView { album: Some(album@), ..self.metadata()@ }),
    {
        let mut s = self;
        s.metadata.album = Some(String::from_str(album));
        s
    }

    /// Set the genre.
    pub fn genre(self, genre: &str) -> (r: Self)
        ensures
            r.metadata()@ == (MetadataView { genre: Some(genre@), ..self.metadata()@ }),
    {
        let mut s = self;
        s.metadata.genre = Some(String::from_str(genre));
        s
    }

    /// Set the track number.
    pub fn track_number(self, n: u32) -> (r: Self)
        ensures
            r.metadata()@ == (MetadataView { track_number: Some(n), ..self.metadata()@ }),
    {
        let mut s = self;
        s.metadata.track_number = Some(n);
        s
    }

    /// Set the disc number.
    pub fn disc_number(self, n: u32) -> (r: Self)
        ensures
            r.metadata()@ == (MetadataView { disc_number: Some(n), ..self.metadata()@ }),
    {
        let mut s = self;
        s.metadata.disc_number = Some(n);
        s
    }

    /// Set the release year.
    pub fn year(self, year: u32) -> (r: Self)
        ensures
            r.metadata()@ == (MetadataView { year: Some(year), ..self.metadata()@ }),
    {
        let mut s = self;
        s.metadata.year = Some(year);
        s
    }

    /// Set the duration in milliseconds.
    pub fn duration_ms(self, ms: u32) -> (r: Self)
        ensures
            r.metadata()@ == (MetadataView { duration_ms: Some(ms), ..self.metadata()@ }),
    {
        let mut s = self;
        s.metadata.duration_ms = Some(ms);
        s
    }

    /// Build the metadata.
    pub fn build(self) -> (r: TrackMetadata)
        ensures
            r@ == self.metadata()@,
    {
        self.metadata
    }
}

} // verus!
