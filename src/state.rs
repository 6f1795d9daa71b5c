//! The replica: its collections, clock and sync status, the mutation API and the merge.

use vstd::prelude::*;

use crate::collection::{foreign_wins, newer_wins, Collection, Entity};
use crate::model::{BlogPost, Photo, Show, Site, Song, User, Video};

verus! {

/// Why a synchronisation step failed.
#[derive(Debug, Clone, PartialEq, Eq)]
pub enum SyncError {
    /// The remote could not be reached or timed out.
    Network(String),
    /// Bytes could not be decoded into a replica.
    Serialization(String),
    /// A foreign snapshot is internally inconsistent (two records share an identifier).
    MergeConflict(String),
    /// The remote rejected the credentials.
    Unauthorized,
}

/// Whether the replica is reconciled with the authority.
#[derive(Debug, Clone, PartialEq, Eq)]
pub enum SyncStatus {
    /// Reconciled with the authority.
    Synced,
    /// Local changes wait to be synchronised.
    Pending,
    /// A synchronisation attempt is in flight.
    Syncing,
    /// The last attempt failed, for the given reason.
    Failed(String),
}

/// Logical clock of a replica.
pub type Clock = u64;

/// The mathematical content of a replica: one map per entity kind, from
/// identifier to record, and the synchronisation metadata.
#[verifier::ext_equal]
pub struct ReplicaView {
    pub sites: Map<Seq<char>, Site>,
    pub shows: Map<Seq<char>, Show>,
    pub songs: Map<Seq<char>, Song>,
    pub photos: Map<Seq<char>, Photo>,
    pub videos: Map<Seq<char>, Video>,
    pub posts: Map<Seq<char>, BlogPost>,
    pub users: Map<Seq<char>, User>,
    pub sync_status: SyncStatus,
    pub last_sync: Option<i64>,
    pub clock: nat,
}

impl ReplicaView {
    /// The replica with no records, never synchronised.
    pub open spec fn empty() -> ReplicaView {
        ReplicaView {
            sites: Map::empty(),
            shows: Map::empty(),
            songs: Map::empty(),
            photos: Map::empty(),
            videos: Map::empty(),
            posts: Map::empty(),
            users: Map::empty(),
            sync_status: SyncStatus::Synced,
            last_sync: None,
            clock: 0,
        }
    }

    /// The bookkeeping of every local mutation: the clock advances by one and
    /// the replica waits to be synchronised.
    pub open spec fn touched(self) -> ReplicaView {
        ReplicaView { clock: self.clock + 1, sync_status: SyncStatus::Pending, ..self }
    }

    pub open spec fn with_shows(self, shows: Map<Seq<char>, Show>) -> ReplicaView {
        ReplicaView { shows, ..self }
    }

    pub open spec fn with_songs(self, songs: Map<Seq<char>, Song>) -> ReplicaView {
        ReplicaView { songs, ..self }
    }

    pub open spec fn with_photos(self, photos: Map<Seq<char>, Photo>) -> ReplicaView {
        ReplicaView { photos, ..self }
    }

    pub open spec fn with_posts(self, posts: Map<Seq<char>, BlogPost>) -> ReplicaView {
        ReplicaView { posts, ..self }
    }

    /// The result of merging the foreign snapshot `other` into this replica at time `now`:
    /// shows and posts by last-writer-wins on their update time, sites on their
    /// creation time, and songs, photos, videos and users with the foreign record
    /// always winning. The clock becomes the larger of the two.
    pub open spec fn merged(self, other: ReplicaView, now: i64) -> ReplicaView {
        ReplicaView {
            sites: newer_wins(self.sites, other.sites),
            shows: newer_wins(self.shows, other.shows),
            songs: foreign_wins(self.songs, other.songs),
            photos: foreign_wins(self.photos, other.photos),
            videos: foreign_wins(self.videos, other.videos),
            posts: newer_wins(self.posts, other.posts),
            users: foreign_wins(self.users, other.users),
            sync_status: SyncStatus::Synced,
            last_sync: Some(now),
            clock: if other.clock > self.clock {
                other.clock
            } else {
                self.clock
            },
        }
    }

    /// Starting a synchronisation attempt: a pending or failed replica becomes
    /// syncing; a synced or already syncing one is left as it is.
    pub open spec fn sync_started(self) -> ReplicaView {
        match self.sync_status {
            SyncStatus::Pending | SyncStatus::Failed(_) => ReplicaView {
                sync_status: SyncStatus::Syncing,
                ..self
            },
            _ => self,
        }
    }

    /// A failed synchronisation attempt: a syncing replica becomes failed with
    /// `reason`; in any other state nothing changes.
    pub open spec fn sync_failed(self, reason: String) -> ReplicaView {
        match self.sync_status {
            SyncStatus::Syncing => ReplicaView { sync_status: SyncStatus::Failed(reason), ..self },
            _ => self,
        }
    }
}

/// Application state: a full replica of a site's content graph, with its sync
/// status, last sync time and logical clock.
#[derive(Debug, Clone, PartialEq, Eq)]
pub struct AppState {
    sites: Collection<Site>,
    shows: Collection<Show>,
    songs: Collection<Song>,
    photos: Collection<Photo>,
    videos: Collection<Video>,
    posts: Collection<BlogPost>,
    users: Collection<User>,
    sync_status: SyncStatus,
    last_sync: Option<i64>,
    clock: Clock,
}

impl View for AppState {
    type V = ReplicaView;

    closed spec fn view(&self) -> ReplicaView {
        ReplicaView {
            sites: self.sites@,
            shows: self.shows@,
            songs: self.songs@,
            photos: self.photos@,
            videos: self.videos@,
            posts: self.posts@,
            users: self.users@,
            sync_status: self.sync_status,
            last_sync: self.last_sync,
            clock: self.clock as nat,
        }
    }
}

/// Relies on chrono's `Utc::now` and `DateTime::timestamp`: the current time, in
/// seconds since the Unix epoch. Nothing is promised of the value.
#[verifier::external_body]
fn unix_now() -> (r: i64) {
    chrono::Utc::now().timestamp()
}

impl AppState {
    /// Every collection is well formed: no two of its records share an identifier.
    pub open spec fn wf(&self) -> bool {
        &&& self.sites_spec().wf()
        &&& self.shows_spec().wf()
        &&& self.songs_spec().wf()
        &&& self.photos_spec().wf()
        &&& self.videos_spec().wf()
        &&& self.posts_spec().wf()
        &&& self.users_spec().wf()
    }

    /// A new empty replica: synced, never synchronised, clock zero.
    pub fn new() -> (r: Self)
        ensures
            r.wf(),
            r@ == ReplicaView::empty(),
    {
        AppState {
            sites: Collection::new(),
            shows: Collection::new(),
            songs: Collection::new(),
            photos: Collection::new(),
            videos: Collection::new(),
            posts: Collection::new(),
            users: Collection::new(),
            sync_status: SyncStatus::Synced,
            last_sync: None,
            clock: 0,
        }
    }

    /// A replica assembled from its parts; `MergeConflict` when two records of
    /// one kind share an identifier.
    pub fn from_parts(
        sites: Vec<Site>,
        shows: Vec<Show>,
        songs: Vec<Song>,
        photos: Vec<Photo>,
        videos: Vec<Video>,
        posts: Vec<BlogPost>,
        users: Vec<User>,
        sync_status: SyncStatus,
        last_sync: Option<i64>,
        clock: Clock,
    ) -> (r: Result<Self, SyncError>)
        ensures
            r is Ok <==> {
                &&& crate::collection::keys_unique(sites@)
                &&& crate::collection::keys_unique(shows@)
                &&& crate::collection::keys_unique(songs@)
                &&& crate::collection::keys_unique(photos@)
                &&& crate::collection::keys_unique(videos@)
                &&& crate::collection::keys_unique(posts@)
                &&& crate::collection::keys_unique(users@)
            },
            r is Err ==> r->Err_0 is MergeConflict,
            r is Ok ==> r->Ok_0.sites_spec().seq() == sites@ && r->Ok_0.shows_spec().seq() == shows@
                && r->Ok_0.songs_spec().seq() == songs@ && r->Ok_0.photos_spec().seq() == photos@
                && r->Ok_0.videos_spec().seq() == videos@ && r->Ok_0.posts_spec().seq() == posts@
                && r->Ok_0.users_spec().seq() == users@,
            r is Ok ==> r->Ok_0.wf() && r->Ok_0@ == (ReplicaView {
                sites: crate::collection::map_of(sites@),
                shows: crate::collection::map_of(shows@),
                songs: crate::collection::map_of(songs@),
                photos: crate::collection::map_of(photos@),
                videos: crate::collection::map_of(videos@),
                posts: crate::collection::map_of(posts@),
                users: crate::collection::map_of(users@),
                sync_status,
                last_sync,
                clock: clock as nat,
            }),
    {
        let ghost (a, b, c, d, e, f, g) = (sites@, shows@, songs@, photos@, videos@, posts@, users@);
        let sites = match Collection::from_vec(sites) {
            Some(x) => x,
            None => { return Err(duplicate_ids()); },
        };
        let shows = match Collection::from_vec(shows) {
            Some(x) => x,
            None => { return Err(duplicate_ids()); },
        };
        let songs = match Collection::from_vec(songs) {
            Some(x) => x,
            None => { return Err(duplicate_ids()); },
        };
        let photos = match Collection::from_vec(photos) {
            Some(x) => x,
            None => { return Err(duplicate_ids()); },
        };
        let videos = match Collection::from_vec(videos) {
            Some(x) => x,
            None => { return Err(duplicate_ids()); },
        };
        let posts = match Collection::from_vec(posts) {
            Some(x) => x,
            None => { return Err(duplicate_ids()); },
        };
        let users = match Collection::from_vec(users) {
            Some(x) => x,
            None => { return Err(duplicate_ids()); },
        };
        Ok(AppState { sites, shows, songs, photos, videos, posts, users, sync_status, last_sync, clock })
    }

    /// The logical clock.
    pub fn clock(&self) -> (r: Clock)
        ensures
            r == self@.clock,
    {
        self.clock
    }

    /// The synchronisation status.
    pub fn sync_status(&self) -> (r: &SyncStatus)
        ensures
            *r == self@.sync_status,
    {
        &self.sync_status
    }

    /// When the replica last merged a foreign snapshot, if ever.
    pub fn last_sync(&self) -> (r: Option<i64>)
        ensures
            r == self@.last_sync,
    {
        self.last_sync
    }

    pub closed spec fn sites_spec(&self) -> Collection<Site> {
        self.sites
    }

    /// The sites of the replica.
    pub fn sites(&self) -> (r: &Collection<Site>)
        ensures
            *r == self.sites_spec(),
            r@ == self@.sites,
            self.wf() ==> r.wf(),
    {
        &self.sites
    }

    pub closed spec fn shows_spec(&self) -> Collection<Show> {
        self.shows
    }

    /// The shows of the replica.
    pub fn shows(&self) -> (r: &Collection<Show>)
        ensures
            *r == self.shows_spec(),
            r@ == self@.shows,
            self.wf() ==> r.wf(),
    {
        &self.shows
    }

    pub closed spec fn songs_spec(&self) -> Collection<Song> {
        self.songs
    }

    /// The songs of the replica.
    pub fn songs(&self) -> (r: &Collection<Song>)
        ensures
            *r == self.songs_spec(),
            r@ == self@.songs,
            self.wf() ==> r.wf(),
    {
        &self.songs
    }

    pub closed spec fn photos_spec(&self) -> Collection<Photo> {
        self.photos
    }

    /// The photos of the replica.
    pub fn photos(&self) -> (r: &Collection<Photo>)
        ensures
            *r == self.photos_spec(),
            r@ == self@.photos,
            self.wf() ==> r.wf(),
    {
        &self.photos
    }

    pub closed spec fn videos_spec(&self) -> Collection<Video> {
        self.videos
    }

    /// The videos of the replica.
    pub fn videos(&self) -> (r: &Collection<Video>)
        ensures
            *r == self.videos_spec(),
            r@ == self@.videos,
            self.wf() ==> r.wf(),
    {
        &self.videos
    }

    pub closed spec fn posts_spec(&self) -> Collection<BlogPost> {
        self.posts
    }

    /// The posts of the replica.
    pub fn posts(&self) -> (r: &Collection<BlogPost>)
        ensures
            *r == self.posts_spec(),
            r@ == self@.posts,
            self.wf() ==> r.wf(),
    {
        &self.posts
    }

    pub closed spec fn users_spec(&self) -> Collection<User> {
        self.users
    }

    /// The users of the replica.
    pub fn users(&self) -> (r: &Collection<User>)
        ensures
            *r == self.users_spec(),
            r@ == self@.users,
            self.wf() ==> r.wf(),
    {
        &self.users
    }

    /// Merges the foreign snapshot `other` into this replica, stamping the
    /// current time as the last sync. A snapshot never holds two records of one
    /// kind under one identifier: `from_parts` and `deserialize_state` reject
    /// such input with `MergeConflict`, so merging itself cannot fail.
    pub fn merge(&mut self, other: AppState)
        requires
            old(self).wf(),
            other.wf(),
        ensures
            final(self).wf(),
            final(self)@.last_sync is Some,
            final(self)@ == old(self)@.merged(other@, final(self)@.last_sync->0),
    {
        let now = unix_now();
        self.merge_at(other, now);
    }

    /// Merges the foreign snapshot `other` into this replica as of time `now`.
    pub fn merge_at(&mut self, other: AppState, now: i64)
        requires
            old(self).wf(),
            other.wf(),
        ensures
            final(self).wf(),
            final(self)@ == old(self)@.merged(other@, now),
    {
        let AppState { sites, shows, songs, photos, videos, posts, users, clock, .. } = other;
        self.sites.merge_newer(sites);
        self.shows.merge_newer(shows);
        self.songs.merge_replace(songs);
        self.photos.merge_replace(photos);
        self.videos.merge_replace(videos);
        self.posts.merge_newer(posts);
        self.users.merge_replace(users);
        if clock > self.clock {
            self.clock = clock;
        }
        self.sync_status = SyncStatus::Synced;
        self.last_sync = Some(now);
    }

    /// All shows of the site `site_id`.
    pub fn get_site_shows(&self, site_id: &str) -> (r: Vec<&Show>)
        requires
            self.wf(),
        ensures
            lists_scope(r@, self@.shows, site_id@),
    {
        self.shows.list_scope(site_id)
    }

    /// All songs of the site `site_id`.
    pub fn get_site_songs(&self, site_id: &str) -> (r: Vec<&Song>)
        requires
            self.wf(),
        ensures
            lists_scope(r@, self@.songs, site_id@),
    {
        self.songs.list_scope(site_id)
    }

    /// All photos of the site `site_id`.
    pub fn get_site_photos(&self, site_id: &str) -> (r: Vec<&Photo>)
        requires
            self.wf(),
        ensures
            lists_scope(r@, self@.photos, site_id@),
    {
        self.photos.list_scope(site_id)
    }

    /// Adds a show (stored under its identifier, replacing any show there).
    pub fn add_show(&mut self, show: Show) -> (r: Result<(), SyncError>)
        requires
            old(self).wf(),
            old(self)@.clock < Clock::MAX,
        ensures
            r is Ok,
            final(self).wf(),
            final(self)@ == old(self)@.touched().with_shows(old(self)@.shows.insert(show.id@, show)),
    {
        self.clock = self.clock + 1;
        self.shows.upsert(show);
        self.sync_status = SyncStatus::Pending;
        Ok(())
    }

    /// Updates a show; the same operation as adding it.
    pub fn update_show(&mut self, show: Show) -> (r: Result<(), SyncError>)
        requires
            old(self).wf(),
            old(self)@.clock < Clock::MAX,
        ensures
            r is Ok,
            final(self).wf(),
            final(self)@ == old(self)@.touched().with_shows(old(self)@.shows.insert(show.id@, show)),
    {
        self.add_show(show)
    }

    /// Deletes the show `show_id`; deleting an absent show changes no record.
    pub fn delete_show(&mut self, show_id: &str) -> (r: Result<(), SyncError>)
        requires
            old(self).wf(),
            old(self)@.clock < Clock::MAX,
        ensures
            r is Ok,
            final(self).wf(),
            final(self)@ == old(self)@.touched().with_shows(old(self)@.shows.remove(show_id@)),
    {
        self.clock = self.clock + 1;
        self.shows.remove(show_id);
        self.sync_status = SyncStatus::Pending;
        Ok(())
    }

    /// Adds a song (stored under its identifier, replacing any song there).
    pub fn add_song(&mut self, song: Song) -> (r: Result<(), SyncError>)
        requires
            old(self).wf(),
            old(self)@.clock < Clock::MAX,
        ensures
            r is Ok,
            final(self).wf(),
            final(self)@ == old(self)@.touched().with_songs(old(self)@.songs.insert(song.id@, song)),
    {
        self.clock = self.clock + 1;
        self.songs.upsert(song);
        self.sync_status = SyncStatus::Pending;
        Ok(())
    }

    /// Updates a song; the same operation as adding it.
    pub fn update_song(&mut self, song: Song) -> (r: Result<(), SyncError>)
        requires
            old(self).wf(),
            old(self)@.clock < Clock::MAX,
        ensures
            r is Ok,
            final(self).wf(),
            final(self)@ == old(self)@.touched().with_songs(old(self)@.songs.insert(song.id@, song)),
    {
        self.add_song(song)
    }

    /// Adds a photo (stored under its identifier, replacing any photo there).
    pub fn add_photo(&mut self, photo: Photo) -> (r: Result<(), SyncError>)
        requires
            old(self).wf(),
            old(self)@.clock < Clock::MAX,
        ensures
            r is Ok,
            final(self).wf(),
            final(self)@ == old(self)@.touched().with_photos(
                old(self)@.photos.insert(photo.id@, photo),
            ),
    {
        self.clock = self.clock + 1;
        self.photos.upsert(photo);
        self.sync_status = SyncStatus::Pending;
        Ok(())
    }

    /// Adds a blog post (stored under its identifier, replacing any post there).
    pub fn add_post(&mut self, post: BlogPost) -> (r: Result<(), SyncError>)
        requires
            old(self).wf(),
            old(self)@.clock < Clock::MAX,
        ensures
            r is Ok,
            final(self).wf(),
            final(self)@ == old(self)@.touched().with_posts(old(self)@.posts.insert(post.id@, post)),
    {
        self.clock = self.clock + 1;
        self.posts.upsert(post);
        self.sync_status = SyncStatus::Pending;
        Ok(())
    }

    /// Whether local changes wait to be synchronised.
    pub fn needs_sync(&self) -> (r: bool)
        ensures
            r == (self@.sync_status is Pending),
    {
        matches!(self.sync_status, SyncStatus::Pending)
    }

    /// Marks the start of a synchronisation attempt (or of a retry after a
    /// failure). A synced replica has nothing to send and stays synced.
    pub fn mark_syncing(&mut self)
        requires
            old(self).wf(),
        ensures
            final(self).wf(),
            final(self)@ == old(self)@.sync_started(),
    {
        match self.sync_status {
            SyncStatus::Pending | SyncStatus::Failed(_) => {
                self.sync_status = SyncStatus::Syncing;
            },
            _ => {},
        }
    }

    /// Records that the attempt in flight failed for `reason` (a timeout included).
    pub fn mark_failed(&mut self, reason: String)
        requires
            old(self).wf(),
        ensures
            final(self).wf(),
            final(self)@ == old(self)@.sync_failed(reason),
    {
        if matches!(self.sync_status, SyncStatus::Syncing) {
            self.sync_status = SyncStatus::Failed(reason);
        }
    }
}

impl Default for AppState {
    fn default() -> (r: Self)
        ensures
            r.wf(),
            r@ == ReplicaView::empty(),
    {
        AppState::new()
    }
}

/// How conflicting edits are to be merged.
#[derive(Debug, Clone, Copy, PartialEq, Eq, Structural)]
pub enum MergeStrategy {
    /// The write with the later timestamp wins.
    LastWriteWins,
    /// The first write wins.
    FirstWriteWins,
    /// A person resolves the conflict.
    Manual,
    /// Changes are combined where possible.
    AutoMerge,
}

fn duplicate_ids() -> (r: SyncError)
    ensures
        r is MergeConflict,
{
    SyncError::MergeConflict("two records of one kind share an identifier".to_string())
}

/// `r` lists, each once, exactly the records of `m` that belong to `scope`.
pub open spec fn lists_scope<V: crate::collection::Scoped>(
    r: Seq<&V>,
    m: Map<Seq<char>, V>,
    scope: Seq<char>,
) -> bool {
    &&& forall|a: int|
        0 <= a < r.len() ==> {
            &&& m.contains_key(#[trigger] r[a].key())
            &&& m[r[a].key()] == *r[a]
            &&& r[a].scope() == scope
        }
    &&& forall|k: Seq<char>|
        #[trigger] m.contains_key(k) && m[k].scope() == scope ==> exists|a: int|
            0 <= a < r.len() && #[trigger] r[a].key() == k
    &&& forall|a: int, b: int|
        0 <= a < r.len() && 0 <= b < r.len() && a != b ==> #[trigger] r[a].key()
            != #[trigger] r[b].key()
}

} // verus!
