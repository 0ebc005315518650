//! The data model: artists, albums, releases, tokens, and the table-row and
//! API payload shapes built from them. Cloneable types with string or list
//! fields get hand-written `Clone` impls so that verified code knows a clone
//! keeps the value.

use vstd::prelude::*;

verus! {

/// An artist as referenced from an album.
#[derive(Debug)]
pub struct AlbumArtist {
    pub id: String,
    pub name: String,
}

/// An album (a release) of the remote catalog: its identity, title, release
/// date with its precision, kind, and credited artists.
#[derive(Debug)]
pub struct Album {
    pub id: String,
    pub name: String,
    pub release_date: String,
    pub release_date_precision: String,
    pub album_type: String,
    pub artists: Vec<AlbumArtist>,
}

/// A followed artist.
#[derive(Debug)]
pub struct Artist {
    pub id: String,
    pub name: String,
    pub genres: Vec<String>,
}

/// An artist together with the releases last fetched for it.
#[derive(Debug)]
pub struct ArtistReleases {
    pub artist: Artist,
    pub releases: Vec<Album>,
}

pub struct AlbumArtistV {
    pub id: Seq<char>,
    pub name: Seq<char>,
}

pub struct AlbumV {
    pub id: Seq<char>,
    pub name: Seq<char>,
    pub release_date: Seq<char>,
    pub release_date_precision: Seq<char>,
    pub album_type: Seq<char>,
    pub artists: Seq<AlbumArtistV>,
}

pub struct ArtistV {
    pub id: Seq<char>,
    pub name: Seq<char>,
    pub genres: Seq<Seq<char>>,
}

pub struct ArtistReleasesV {
    pub artist: ArtistV,
    pub releases: Seq<AlbumV>,
}

impl View for AlbumArtist {
    type V = AlbumArtistV;

    open spec fn view(&self) -> AlbumArtistV {
        AlbumArtistV { id: self.id@, name: self.name@ }
    }
}

impl View for Album {
    type V = AlbumV;

    open spec fn view(&self) -> AlbumV {
        AlbumV {
            id: self.id@,
            name: self.name@,
            release_date: self.release_date@,
            release_date_precision: self.release_date_precision@,
            album_type: self.album_type@,
            artists: self.artists@.map_values(|a: AlbumArtist| a@),
        }
    }
}

impl View for Artist {
    type V = ArtistV;

    open spec fn view(&self) -> ArtistV {
        ArtistV {
            id: self.id@,
            name: self.name@,
            genres: self.genres@.map_values(|g: String| g@),
        }
    }
}

impl View for ArtistReleases {
    type V = ArtistReleasesV;

    open spec fn view(&self) -> ArtistReleasesV {
        ArtistReleasesV {
            artist: self.artist@,
            releases: self.releases@.map_values(|a: Album| a@),
        }
    }
}

impl Clone for AlbumArtist {
    fn clone(&self) -> (r: Self)
        ensures
            r == *self,
    {
        AlbumArtist { id: self.id.clone(), name: self.name.clone() }
    }
}

impl Clone for Album {
    fn clone(&self) -> (r: Self)
        ensures
            r@ == self@,
    {
        let mut artists: Vec<AlbumArtist> = Vec::new();
        let mut i: usize = 0;
        while i < self.artists.len()
            invariant
                0 <= i <= self.artists.len(),
                artists@.len() == i as int,
                forall|j: int| 0 <= j < i as int ==> artists@[j] == self.artists@[j],
            decreases self.artists.len() - i,
        {
            artists.push(self.artists[i].clone());
            i = i + 1;
        }
        proof {
            assert(artists@ =~= self.artists@);
        }
        Album {
            id: self.id.clone(),
            name: self.name.clone(),
            release_date: self.release_date.clone(),
            release_date_precision: self.release_date_precision.clone(),
            album_type: self.album_type.clone(),
            artists,
        }
    }
}

impl Clone for Artist {
    fn clone(&self) -> (r: Self)
        ensures
            r@ == self@,
    {
        let mut genres: Vec<String> = Vec::new();
        let mut i: usize = 0;
        while i < self.genres.len()
            invariant
                0 <= i <= self.genres.len(),
                genres@.len() == i as int,
                forall|j: int| 0 <= j < i as int ==> genres@[j] == self.genres@[j],
            decreases self.genres.len() - i,
        {
            genres.push(self.genres[i].clone());
            i = i + 1;
        }
        proof {
            assert(genres@ =~= self.genres@);
        }
        Artist { id: self.id.clone(), name: self.name.clone(), genres }
    }
}

impl Clone for ArtistReleases {
    fn clone(&self) -> (r: Self)
        ensures
            r@ == self@,
    {
        ArtistReleases { artist: self.artist.clone(), releases: clone_albums(&self.releases) }
    }
}

/// The album views of a release list.
pub open spec fn deep_albums(s: Seq<Album>) -> Seq<AlbumV> {
    s.map_values(|a: Album| a@)
}

/// Clones a release list, keeping every album's view.
pub fn clone_albums(v: &Vec<Album>) -> (r: Vec<Album>)
    ensures
        r@.len() == v@.len(),
        forall|j: int| 0 <= j < v@.len() ==> (#[trigger] r@[j])@ == v@[j]@,
        deep_albums(r@) == deep_albums(v@),
{
    let mut out: Vec<Album> = Vec::new();
    let mut i: usize = 0;
    while i < v.len()
        invariant
            0 <= i <= v.len(),
            out@.len() == i as int,
            forall|j: int| 0 <= j < i as int ==> (#[trigger] out@[j])@ == v@[j]@,
        decreases v.len() - i,
    {
        out.push(v[i].clone());
        i = i + 1;
    }
    proof {
        assert(deep_albums(out@) =~= deep_albums(v@));
    }
    out
}

/// An OAuth access token with its refresh companion and lifetime facts.
#[derive(Debug, Clone)]
pub struct Token {
    pub access_token: String,
    pub refresh_token: String,
    pub scope: String,
    pub expires_in: u64,
    pub obtained_at: u64,
}

/// The state of a PKCE authorisation round: the locally generated verifier
/// and, once the round succeeds, the token it yielded.
#[derive(Debug, Clone)]
pub struct PkceToken {
    pub code_verifier: String,
    pub token: Option<Token>,
}

/// One row of the artist listing.
#[derive(Debug)]
pub struct ArtistTableRow {
    pub name: String,
    pub genres: String,
}

/// One row of the release listing: date, title and the leading artist.
#[derive(Debug)]
pub struct ReleaseTableRow {
    pub date: String,
    pub name: String,
    pub artists: String,
}

/// Cursor of a paginated artist listing.
#[derive(Debug, Clone)]
pub struct Cursors {
    pub after: Option<String>,
}

/// One page of followed artists with its pagination state.
#[derive(Debug)]
pub struct ArtistsContainer {
    pub items: Vec<Artist>,
    pub next: Option<String>,
    pub cursors: Option<Cursors>,
    pub total: Option<u64>,
}

/// Payload of the followed-artists endpoint.
#[derive(Debug)]
pub struct FollowedArtistsResponse {
    pub artists: ArtistsContainer,
}

/// Payload of the artist-albums endpoint.
#[derive(Debug)]
pub struct AlbumResponse {
    pub items: Vec<Album>,
}

/// A single track of an album.
#[derive(Debug, Clone)]
pub struct Track {
    pub id: String,
    pub name: String,
    pub uri: String,
}

/// The track listing of an album.
#[derive(Debug, Clone)]
pub struct Tracks {
    pub items: Vec<Track>,
}

/// Detailed album payload, track listing included.
#[derive(Debug, Clone)]
pub struct GetAlbumResponse {
    pub id: String,
    pub name: String,
    pub release_date: String,
    pub tracks: Tracks,
}

/// Payload of the several-albums endpoint.
#[derive(Debug, Clone)]
pub struct GetSeveralAlbumsResponse {
    pub albums: Vec<GetAlbumResponse>,
}

/// Request body for creating a playlist.
#[derive(Debug, Clone)]
pub struct CreatePlaylistRequest {
    pub name: String,
    pub description: String,
    pub public: bool,
    pub collaborative: bool,
}

/// Response body of playlist creation.
#[derive(Debug, Clone)]
pub struct CreatePlaylistResponse {
    pub id: String,
    pub name: String,
    pub description: String,
    pub public: bool,
    pub collaborative: bool,
}

/// Request body for adding tracks to a playlist.
#[derive(Debug, Clone)]
pub struct AddTrackToPlaylistRequest {
    pub uris: Vec<String>,
}

/// Response body after adding tracks to a playlist.
#[derive(Debug, Clone)]
pub struct AddTrackToPlaylistResponse {
    pub snapshot_id: String,
}

/// A playlist of the remote service.
#[derive(Debug, Clone)]
pub struct Playlist {
    pub id: String,
    pub name: String,
    pub description: String,
    pub public: bool,
    pub collaborative: bool,
    pub snapshot_id: String,
}

/// Payload of the user-playlists endpoint.
#[derive(Debug, Clone)]
pub struct GetUserPlaylistsResponse {
    pub items: Vec<Playlist>,
}

} // verus!
