//! Serialising a whole replica to bytes and back.

use vstd::prelude::*;

use crate::collection::keys_unique;
use crate::model::{BlogPost, Photo, Show, Site, Song, User, Video};
use crate::records::{
    emit_list, list_atoms, opt_int_atom, opt_int_tok, put, same_atoms, take_list, tok_nat,
    tok_opt_int, tok_variant, fits, lemma_fits_at, lemma_fits_join, lemma_fits_split,
    lemma_flat_same, Record,
};
use crate::state::{AppState, SyncError, SyncStatus};
use crate::wire::{atoms_bytes, atoms_of, read_toks, write_toks, Atom, Tok};

verus! {
// ---------------------------------------------------------------------------
// Whole replicas
// ---------------------------------------------------------------------------

/// The parts a replica is written as: the records of each kind in storage
/// order, and the synchronisation metadata.
pub struct Parts {
    pub sites: Seq<Site>,
    pub shows: Seq<Show>,
    pub songs: Seq<Song>,
    pub photos: Seq<Photo>,
    pub videos: Seq<Video>,
    pub posts: Seq<BlogPost>,
    pub users: Seq<User>,
    pub sync_status: SyncStatus,
    pub last_sync: Option<i64>,
    pub clock: u64,
}

/// No two records of one kind share an identifier.
pub open spec fn parts_unique(p: Parts) -> bool {
    &&& keys_unique(p.sites)
    &&& keys_unique(p.shows)
    &&& keys_unique(p.songs)
    &&& keys_unique(p.photos)
    &&& keys_unique(p.videos)
    &&& keys_unique(p.posts)
    &&& keys_unique(p.users)
}

/// A sync status as a variant number with its reason (empty for the others).
pub open spec fn status_entry(s: SyncStatus) -> (u64, Seq<char>) {
    match s {
        SyncStatus::Synced => (0, Seq::empty()),
        SyncStatus::Pending => (1, Seq::empty()),
        SyncStatus::Syncing => (2, Seq::empty()),
        SyncStatus::Failed(reason) => (3, reason@),
    }
}

/// The clock, the sync status and the last sync time.
pub open spec fn header_atoms(p: Parts) -> Seq<Atom> {
    seq![
        Atom::Nat(p.clock),
        Atom::Variant(status_entry(p.sync_status).0, status_entry(p.sync_status).1),
        opt_int_atom(p.last_sync),
    ]
}

/// The atoms of a replica's parts: the header, then each kind's list.
pub open spec fn parts_atoms(p: Parts) -> Seq<Atom> {
    header_atoms(p) + list_atoms(p.sites) + list_atoms(p.shows) + list_atoms(p.songs) + list_atoms(
        p.photos,
    ) + list_atoms(p.videos) + list_atoms(p.posts) + list_atoms(p.users)
}

/// The bytes of a replica's parts.
pub open spec fn parts_bytes(p: Parts) -> Seq<u8> {
    atoms_bytes(parts_atoms(p))
}

/// The parts of a replica.
pub open spec fn parts_of(r: &AppState) -> Parts {
    Parts {
        sites: r.sites_spec().seq(),
        shows: r.shows_spec().seq(),
        songs: r.songs_spec().seq(),
        photos: r.photos_spec().seq(),
        videos: r.videos_spec().seq(),
        posts: r.posts_spec().seq(),
        users: r.users_spec().seq(),
        sync_status: r@.sync_status,
        last_sync: r@.last_sync,
        clock: r@.clock as u64,
    }
}

/// The serialised form of a replica.
pub open spec fn state_bytes(r: &AppState) -> Seq<u8> {
    parts_bytes(parts_of(r))
}

/// Two replicas with the same content: the same records of every kind in the
/// same order, field by field, and the same clock, sync status and last sync.
pub open spec fn same_content(a: &AppState, b: &AppState) -> bool {
    parts_atoms(parts_of(a)) == parts_atoms(parts_of(b))
}

/// Some parts are written as `b`.
pub open spec fn encodes_parts(b: Seq<u8>) -> bool {
    exists|p: Parts| #[trigger] parts_bytes(p) == b
}

fn status_to_tok(s: &SyncStatus) -> (r: Tok)
    ensures
        r@ == Atom::Variant(status_entry(*s).0, status_entry(*s).1),
{
    match s {
        SyncStatus::Synced => Tok::Variant(0, String::new()),
        SyncStatus::Pending => Tok::Variant(1, String::new()),
        SyncStatus::Syncing => Tok::Variant(2, String::new()),
        SyncStatus::Failed(reason) => Tok::Variant(3, reason.clone()),
    }
}

fn status_of_entry(k: u64, s: String) -> (r: Option<SyncStatus>)
    ensures
        r matches Some(x) ==> status_entry(x) == (k, s@),
        forall|x: SyncStatus| status_entry(x) == (k, s@) ==> (r matches Some(y) && status_entry(y)
            == status_entry(x)),
{
    if k == 3 {
        return Some(SyncStatus::Failed(s));
    }
    if !s.as_str().is_empty() {
        return None;
    }
    if k == 0 {
        Some(SyncStatus::Synced)
    } else if k == 1 {
        Some(SyncStatus::Pending)
    } else if k == 2 {
        Some(SyncStatus::Syncing)
    } else {
        None
    }
}

/// Serialises the whole replica: every collection, the clock, the sync status
/// and the last sync time. Encoding never fails.
pub fn serialize_state(state: &AppState) -> (r: Result<Vec<u8>, SyncError>)
    ensures
        r matches Ok(b) && b@ == state_bytes(state),
{
    let mut t: Vec<Tok> = Vec::new();
    put(&mut t, Tok::Nat(state.clock()));
    put(&mut t, status_to_tok(state.sync_status()));
    put(&mut t, opt_int_tok(state.last_sync()));
    proof {
        assert(atoms_of(t@) =~= header_atoms(parts_of(state)));
    }
    emit_list(&mut t, state.sites().records());
    emit_list(&mut t, state.shows().records());
    emit_list(&mut t, state.songs().records());
    emit_list(&mut t, state.photos().records());
    emit_list(&mut t, state.videos().records());
    emit_list(&mut t, state.posts().records());
    emit_list(&mut t, state.users().records());
    Ok(write_toks(&t))
}

proof fn lemma_parts_split(s: Seq<Atom>, p: Parts)
    requires
        s == parts_atoms(p),
    ensures
        s.len() >= 3,
        s[0] == Atom::Nat(p.clock),
        s[1] == Atom::Variant(status_entry(p.sync_status).0, status_entry(p.sync_status).1),
        s[2] == opt_int_atom(p.last_sync),
        fits(s, 3, list_atoms(p.sites)),
        fits(s, (3 + list_atoms(p.sites).len()) as int, list_atoms(p.shows)),
        fits(s, (3 + list_atoms(p.sites).len() + list_atoms(p.shows).len()) as int, list_atoms(p.songs)),
        fits(s, (3 + list_atoms(p.sites).len() + list_atoms(p.shows).len() + list_atoms(p.songs).len()) as int, list_atoms(p.photos)),
        fits(s, (3 + list_atoms(p.sites).len() + list_atoms(p.shows).len() + list_atoms(p.songs).len() + list_atoms(p.photos).len()) as int, list_atoms(p.videos)),
        fits(s, (3 + list_atoms(p.sites).len() + list_atoms(p.shows).len() + list_atoms(p.songs).len() + list_atoms(p.photos).len() + list_atoms(p.videos).len()) as int, list_atoms(p.posts)),
        fits(s, (3 + list_atoms(p.sites).len() + list_atoms(p.shows).len() + list_atoms(p.songs).len() + list_atoms(p.photos).len() + list_atoms(p.videos).len() + list_atoms(p.posts).len()) as int, list_atoms(p.users)),
        s.len() == (3 + list_atoms(p.sites).len() + list_atoms(p.shows).len() + list_atoms(p.songs).len() + list_atoms(p.photos).len() + list_atoms(p.videos).len() + list_atoms(p.posts).len() + list_atoms(p.users).len()) as int,
{
    assert(s.subrange(0, s.len() as int) =~= s);
    lemma_fits_split(s, 0, header_atoms(p) + list_atoms(p.sites) + list_atoms(p.shows) + list_atoms(p.songs) + list_atoms(p.photos) + list_atoms(p.videos) + list_atoms(p.posts), list_atoms(p.users));
    lemma_fits_split(s, 0, header_atoms(p) + list_atoms(p.sites) + list_atoms(p.shows) + list_atoms(p.songs) + list_atoms(p.photos) + list_atoms(p.videos), list_atoms(p.posts));
    lemma_fits_split(s, 0, header_atoms(p) + list_atoms(p.sites) + list_atoms(p.shows) + list_atoms(p.songs) + list_atoms(p.photos), list_atoms(p.videos));
    lemma_fits_split(s, 0, header_atoms(p) + list_atoms(p.sites) + list_atoms(p.shows) + list_atoms(p.songs), list_atoms(p.photos));
    lemma_fits_split(s, 0, header_atoms(p) + list_atoms(p.sites) + list_atoms(p.shows), list_atoms(p.songs));
    lemma_fits_split(s, 0, header_atoms(p) + list_atoms(p.sites), list_atoms(p.shows));
    lemma_fits_split(s, 0, header_atoms(p), list_atoms(p.sites));
    lemma_fits_at(s, 0, header_atoms(p));
}

struct Decoded {
    sites: Vec<Site>,
    shows: Vec<Show>,
    songs: Vec<Song>,
    photos: Vec<Photo>,
    videos: Vec<Video>,
    posts: Vec<BlogPost>,
    users: Vec<User>,
    sync_status: SyncStatus,
    last_sync: Option<i64>,
    clock: u64,
}

spec fn decoded_parts(d: Decoded) -> Parts {
    Parts {
        sites: d.sites@,
        shows: d.shows@,
        songs: d.songs@,
        photos: d.photos@,
        videos: d.videos@,
        posts: d.posts@,
        users: d.users@,
        sync_status: d.sync_status,
        last_sync: d.last_sync,
        clock: d.clock,
    }
}

#[verifier::rlimit(100)]
#[verifier::spinoff_prover]
fn take_parts(t: &Vec<Tok>) -> (r: Option<Decoded>)
    ensures
        r matches Some(d) ==> atoms_of(t@) == parts_atoms(decoded_parts(d)),
        forall|p: Parts| atoms_of(t@) == #[trigger] parts_atoms(p) ==> (r matches Some(d) && {
            &&& status_entry(d.sync_status) == status_entry(p.sync_status)
            &&& same_atoms(d.sites@, p.sites)
            &&& same_atoms(d.shows@, p.shows)
            &&& same_atoms(d.songs@, p.songs)
            &&& same_atoms(d.photos@, p.photos)
            &&& same_atoms(d.videos@, p.videos)
            &&& same_atoms(d.posts@, p.posts)
            &&& same_atoms(d.users@, p.users)
        }),
{
    let ghost s = atoms_of(t@);
    proof {
        assert forall|p: Parts| s == #[trigger] parts_atoms(p) implies t@.len() >= 3 && s[0]
            == Atom::Nat(p.clock) && s[1] == Atom::Variant(
            status_entry(p.sync_status).0,
            status_entry(p.sync_status).1,
        ) && s[2] == opt_int_atom(p.last_sync) && fits(s, 3, list_atoms(p.sites)) by {
            lemma_parts_split(s, p);
        }
    }
    let clock = tok_nat(t, 0)?;
    let (status_k, status_s) = tok_variant(t, 1)?;
    let sync_status = status_of_entry(status_k, status_s)?;
    let last_sync = tok_opt_int(t, 2)?;
    let (sites, at_sites) = take_list::<Site>(t, 3)?;
    proof {
        assert forall|p: Parts| s == #[trigger] parts_atoms(p) implies same_atoms(sites@, p.sites) && at_sites == 3 + list_atoms(p.sites).len() by {
            lemma_parts_split(s, p);
        }
    }
    proof {
        assert forall|p: Parts| s == #[trigger] parts_atoms(p) implies fits(s, at_sites as int, list_atoms(p.shows)) by {
            lemma_parts_split(s, p);
            lemma_flat_same(sites@, p.sites);
        }
    }
    let (shows, at_shows) = take_list::<Show>(t, at_sites)?;
    proof {
        assert forall|p: Parts| s == #[trigger] parts_atoms(p) implies same_atoms(shows@, p.shows) && at_shows == at_sites + list_atoms(p.shows).len() by {
            lemma_parts_split(s, p);
            lemma_flat_same(sites@, p.sites);
        }
    }
    proof {
        assert forall|p: Parts| s == #[trigger] parts_atoms(p) implies fits(s, at_shows as int, list_atoms(p.songs)) by {
            lemma_parts_split(s, p);
            lemma_flat_same(sites@, p.sites);
            lemma_flat_same(shows@, p.shows);
        }
    }
    let (songs, at_songs) = take_list::<Song>(t, at_shows)?;
    proof {
        assert forall|p: Parts| s == #[trigger] parts_atoms(p) implies same_atoms(songs@, p.songs) && at_songs == at_shows + list_atoms(p.songs).len() by {
            lemma_parts_split(s, p);
            lemma_flat_same(sites@, p.sites);
            lemma_flat_same(shows@, p.shows);
        }
    }
    proof {
        assert forall|p: Parts| s == #[trigger] parts_atoms(p) implies fits(s, at_songs as int, list_atoms(p.photos)) by {
            lemma_parts_split(s, p);
            lemma_flat_same(sites@, p.sites);
            lemma_flat_same(shows@, p.shows);
            lemma_flat_same(songs@, p.songs);
        }
    }
    let (photos, at_photos) = take_list::<Photo>(t, at_songs)?;
    proof {
        assert forall|p: Parts| s == #[trigger] parts_atoms(p) implies same_atoms(photos@, p.photos) && at_photos == at_songs + list_atoms(p.photos).len() by {
            lemma_parts_split(s, p);
            lemma_flat_same(sites@, p.sites);
            lemma_flat_same(shows@, p.shows);
            lemma_flat_same(songs@, p.songs);
        }
    }
    proof {
        assert forall|p: Parts| s == #[trigger] parts_atoms(p) implies fits(s, at_photos as int, list_atoms(p.videos)) by {
            lemma_parts_split(s, p);
            lemma_flat_same(sites@, p.sites);
            lemma_flat_same(shows@, p.shows);
            lemma_flat_same(songs@, p.songs);
            lemma_flat_same(photos@, p.photos);
        }
    }
    let (videos, at_videos) = take_list::<Video>(t, at_photos)?;
    proof {
        assert forall|p: Parts| s == #[trigger] parts_atoms(p) implies same_atoms(videos@, p.videos) && at_videos == at_photos + list_atoms(p.videos).len() by {
            lemma_parts_split(s, p);
            lemma_flat_same(sites@, p.sites);
            lemma_flat_same(shows@, p.shows);
            lemma_flat_same(songs@, p.songs);
            lemma_flat_same(photos@, p.photos);
        }
    }
    proof {
        assert forall|p: Parts| s == #[trigger] parts_atoms(p) implies fits(s, at_videos as int, list_atoms(p.posts)) by {
            lemma_parts_split(s, p);
            lemma_flat_same(sites@, p.sites);
            lemma_flat_same(shows@, p.shows);
            lemma_flat_same(songs@, p.songs);
            lemma_flat_same(photos@, p.photos);
            lemma_flat_same(videos@, p.videos);
        }
    }
    let (posts, at_posts) = take_list::<BlogPost>(t, at_videos)?;
    proof {
        assert forall|p: Parts| s == #[trigger] parts_atoms(p) implies same_atoms(posts@, p.posts) && at_posts == at_videos + list_atoms(p.posts).len() by {
            lemma_parts_split(s, p);
            lemma_flat_same(sites@, p.sites);
            lemma_flat_same(shows@, p.shows);
            lemma_flat_same(songs@, p.songs);
            lemma_flat_same(photos@, p.photos);
            lemma_flat_same(videos@, p.videos);
        }
    }
    proof {
        assert forall|p: Parts| s == #[trigger] parts_atoms(p) implies fits(s, at_posts as int, list_atoms(p.users)) by {
            lemma_parts_split(s, p);
            lemma_flat_same(sites@, p.sites);
            lemma_flat_same(shows@, p.shows);
            lemma_flat_same(songs@, p.songs);
            lemma_flat_same(photos@, p.photos);
            lemma_flat_same(videos@, p.videos);
            lemma_flat_same(posts@, p.posts);
        }
    }
    let (users, at_users) = take_list::<User>(t, at_posts)?;
    proof {
        assert forall|p: Parts| s == #[trigger] parts_atoms(p) implies same_atoms(users@, p.users) && at_users == at_posts + list_atoms(p.users).len() by {
            lemma_parts_split(s, p);
            lemma_flat_same(sites@, p.sites);
            lemma_flat_same(shows@, p.shows);
            lemma_flat_same(songs@, p.songs);
            lemma_flat_same(photos@, p.photos);
            lemma_flat_same(videos@, p.videos);
            lemma_flat_same(posts@, p.posts);
        }
    }
    if at_users != t.len() {
        proof {
            assert forall|p: Parts| s != #[trigger] parts_atoms(p) by {
                if s == parts_atoms(p) {
                    lemma_parts_split(s, p);
                    lemma_flat_same(sites@, p.sites);
                    lemma_flat_same(shows@, p.shows);
                    lemma_flat_same(songs@, p.songs);
                    lemma_flat_same(photos@, p.photos);
                    lemma_flat_same(videos@, p.videos);
                    lemma_flat_same(posts@, p.posts);
                    lemma_flat_same(users@, p.users);
                }
            }
        }
        return None;
    }
    let d = Decoded { sites, shows, songs, photos, videos, posts, users, sync_status, last_sync, clock };
    proof {
        let q = decoded_parts(d);
        assert(s[0] == Atom::Nat(q.clock));
        assert(s.subrange(0, 3) =~= header_atoms(q));
        let mut acc = header_atoms(q);
        lemma_fits_join(s, 0, acc, list_atoms(q.sites));
        acc = acc + list_atoms(q.sites);
        lemma_fits_join(s, 0, acc, list_atoms(q.shows));
        acc = acc + list_atoms(q.shows);
        lemma_fits_join(s, 0, acc, list_atoms(q.songs));
        acc = acc + list_atoms(q.songs);
        lemma_fits_join(s, 0, acc, list_atoms(q.photos));
        acc = acc + list_atoms(q.photos);
        lemma_fits_join(s, 0, acc, list_atoms(q.videos));
        acc = acc + list_atoms(q.videos);
        lemma_fits_join(s, 0, acc, list_atoms(q.posts));
        acc = acc + list_atoms(q.posts);
        lemma_fits_join(s, 0, acc, list_atoms(q.users));
        acc = acc + list_atoms(q.users);
        assert(acc == parts_atoms(q));
        assert(s.subrange(0, s.len() as int) =~= s);
    }
    Some(d)
}

proof fn lemma_same_atoms_keys<V: Record>(a: Seq<V>, b: Seq<V>)
    requires
        same_atoms(a, b),
    ensures
        keys_unique(a) <==> keys_unique(b),
{
    assert forall|i: int| 0 <= i < a.len() implies #[trigger] a[i].key() == b[i].key() by {
        a[i].lemma_key_first();
        b[i].lemma_key_first();
        assert(a[i].atoms()[0] == b[i].atoms()[0]);
    }
    if keys_unique(a) {
        assert forall|i: int, j: int|
            0 <= i < b.len() && 0 <= j < b.len() && i != j implies #[trigger] b[i].key()
            != #[trigger] b[j].key() by {
            assert(a[i].key() == b[i].key() && a[j].key() == b[j].key());
        }
    }
    if keys_unique(b) {
        assert forall|i: int, j: int|
            0 <= i < a.len() && 0 <= j < a.len() && i != j implies #[trigger] a[i].key()
            != #[trigger] a[j].key() by {
            assert(a[i].key() == b[i].key() && a[j].key() == b[j].key());
        }
    }
}

/// The records of a well-formed replica are unique within each kind.
pub proof fn lemma_parts_of_unique(r: &AppState)
    requires
        r.wf(),
    ensures
        parts_unique(parts_of(r)),
{
    r.sites_spec().lemma_seq();
    r.shows_spec().lemma_seq();
    r.songs_spec().lemma_seq();
    r.photos_spec().lemma_seq();
    r.videos_spec().lemma_seq();
    r.posts_spec().lemma_seq();
    r.users_spec().lemma_seq();
}

fn malformed() -> (r: SyncError)
    ensures
        r is Serialization,
{
    SyncError::Serialization("the bytes are not a serialised replica".to_string())
}

/// Decodes a replica written by `serialize_state`.
///
/// Bytes that are not the serialised form of any replica give `Serialization`;
/// bytes that are, but hold two records of one kind with the same identifier,
/// give `MergeConflict`. The bytes of a well-formed replica decode to a replica
/// with the same content.
pub fn deserialize_state(data: &[u8]) -> (r: Result<AppState, SyncError>)
    ensures
        r matches Ok(x) ==> x.wf() && state_bytes(&x) == data@,
        r matches Err(e) ==> (e is Serialization <==> !encodes_parts(data@)) && (e is MergeConflict
            <==> encodes_parts(data@)),
        r matches Err(e) && e is MergeConflict ==> forall|p: Parts|
            #[trigger] parts_bytes(p) == data@ ==> !parts_unique(p),
        forall|p: Parts|
            #[trigger] parts_bytes(p) == data@ && parts_unique(p) ==> (r matches Ok(x) && parts_atoms(
                parts_of(&x),
            ) == parts_atoms(p)),
        forall|s: AppState|
            s.wf() && #[trigger] state_bytes(&s) == data@ ==> (r matches Ok(x) && same_content(&x, &s)),
{
    let t = match read_toks(data) {
        Some(t) => t,
        None => {
            proof {
                assert forall|p: Parts| #[trigger] parts_bytes(p) != data@ by {
                    if parts_bytes(p) == data@ {
                        assert(atoms_bytes(parts_atoms(p)) == data@);
                    }
                }
            }
            return Err(malformed());
        },
    };
    let d = match take_parts(&t) {
        Some(d) => d,
        None => {
            proof {
                assert forall|p: Parts| #[trigger] parts_bytes(p) != data@ by {
                    if parts_bytes(p) == data@ {
                        assert(atoms_bytes(parts_atoms(p)) == data@);
                        assert(atoms_of(t@) == parts_atoms(p));
                    }
                }
            }
            return Err(malformed());
        },
    };
    let ghost q = decoded_parts(d);
    proof {
        assert(parts_bytes(q) == data@);
        assert forall|p: Parts| #[trigger] parts_bytes(p) == data@ implies (parts_unique(p)
            <==> parts_unique(q)) by {
            assert(atoms_bytes(parts_atoms(p)) == data@);
            assert(atoms_of(t@) == parts_atoms(p));
            lemma_same_atoms_keys(q.sites, p.sites);
            lemma_same_atoms_keys(q.shows, p.shows);
            lemma_same_atoms_keys(q.songs, p.songs);
            lemma_same_atoms_keys(q.photos, p.photos);
            lemma_same_atoms_keys(q.videos, p.videos);
            lemma_same_atoms_keys(q.posts, p.posts);
            lemma_same_atoms_keys(q.users, p.users);
        }
    }
    let r = AppState::from_parts(
        d.sites,
        d.shows,
        d.songs,
        d.photos,
        d.videos,
        d.posts,
        d.users,
        d.sync_status,
        d.last_sync,
        d.clock,
    );
    proof {
        if let Ok(x) = &r {
            assert(parts_of(x) == q);
        }
        assert forall|s: AppState| s.wf() && #[trigger] state_bytes(&s) == data@ implies (r matches Ok(x)
            && same_content(&x, &s)) by {
            lemma_parts_of_unique(&s);
            assert(parts_bytes(parts_of(&s)) == data@);
        }
    }
    r
}

} // verus!
