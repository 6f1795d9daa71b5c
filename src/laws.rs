//! Properties of merging and of the clock, stated over replica views.

use vstd::prelude::*;

use crate::collection::{foreign_wins, newer_wins, Stamped};
use crate::model::{BlogPost, Photo, Show, Song};
use crate::state::ReplicaView;

verus! {

proof fn lemma_newer_wins_idempotent<V: Stamped>(
    local: Map<Seq<char>, V>,
    foreign: Map<Seq<char>, V>,
)
    ensures
        newer_wins(newer_wins(local, foreign), foreign) == newer_wins(local, foreign),
{
    assert(newer_wins(newer_wins(local, foreign), foreign) =~= newer_wins(local, foreign));
}

proof fn lemma_foreign_wins_idempotent<V>(local: Map<Seq<char>, V>, foreign: Map<Seq<char>, V>)
    ensures
        foreign_wins(foreign_wins(local, foreign), foreign) == foreign_wins(local, foreign),
{
    assert(foreign_wins(foreign_wins(local, foreign), foreign) =~= foreign_wins(local, foreign));
}

/// Merging the same foreign snapshot a second time changes nothing:
/// `merge(merge(r, s), s) == merge(r, s)`.
pub proof fn lemma_merge_idempotent(r: ReplicaView, s: ReplicaView, now: i64)
    ensures
        r.merged(s, now).merged(s, now) == r.merged(s, now),
{
    lemma_newer_wins_idempotent(r.sites, s.sites);
    lemma_newer_wins_idempotent(r.shows, s.shows);
    lemma_newer_wins_idempotent(r.posts, s.posts);
    lemma_foreign_wins_idempotent(r.songs, s.songs);
    lemma_foreign_wins_idempotent(r.photos, s.photos);
    lemma_foreign_wins_idempotent(r.videos, s.videos);
    lemma_foreign_wins_idempotent(r.users, s.users);
    assert(r.merged(s, now).merged(s, now) =~= r.merged(s, now));
}

/// Two foreign snapshots never offer different records with the same stamp
/// under one identifier, unless the local record already has an equal or greater stamp.
/// (When they do, the one merged first wins the tie, so the order matters.)
pub open spec fn ties_agree<V: Stamped>(
    local: Map<Seq<char>, V>,
    f1: Map<Seq<char>, V>,
    f2: Map<Seq<char>, V>,
) -> bool {
    forall|k: Seq<char>|
        #![trigger f1[k], f2[k]]
        f1.contains_key(k) && f2.contains_key(k) && f1[k].stamp() == f2[k].stamp() && f1[k]
            != f2[k] ==> local.contains_key(k) && local[k].stamp() >= f1[k].stamp()
}

proof fn lemma_newer_wins_commutes<V: Stamped>(
    local: Map<Seq<char>, V>,
    f1: Map<Seq<char>, V>,
    f2: Map<Seq<char>, V>,
)
    requires
        ties_agree(local, f1, f2),
    ensures
        newer_wins(newer_wins(local, f1), f2) == newer_wins(newer_wins(local, f2), f1),
{
    let a = newer_wins(newer_wins(local, f1), f2);
    let b = newer_wins(newer_wins(local, f2), f1);
    assert forall|k: Seq<char>| a.contains_key(k) implies a[k] == b[k] by {
        if f1.contains_key(k) && f2.contains_key(k) && f1[k].stamp() == f2[k].stamp() && f1[k]
            != f2[k] {
            assert(local.contains_key(k) && local[k].stamp() >= f1[k].stamp());
        }
    }
    assert(a =~= b);
}

/// For the timestamped kinds (shows, posts, sites), merging `s1` then `s2` into `r`
/// gives the same records as merging `s2` then `s1`, provided the snapshots do not
/// offer different records with equal stamps under one identifier that beat the local one.
/// Clock and sync status agree as well.
pub proof fn lemma_merge_commutes_timestamped(
    r: ReplicaView,
    s1: ReplicaView,
    s2: ReplicaView,
    n1: i64,
    n2: i64,
)
    requires
        ties_agree(r.shows, s1.shows, s2.shows),
        ties_agree(r.posts, s1.posts, s2.posts),
        ties_agree(r.sites, s1.sites, s2.sites),
    ensures
        r.merged(s1, n1).merged(s2, n2).shows == r.merged(s2, n2).merged(s1, n1).shows,
        r.merged(s1, n1).merged(s2, n2).posts == r.merged(s2, n2).merged(s1, n1).posts,
        r.merged(s1, n1).merged(s2, n2).sites == r.merged(s2, n2).merged(s1, n1).sites,
        r.merged(s1, n1).merged(s2, n2).clock == r.merged(s2, n2).merged(s1, n1).clock,
        r.merged(s1, n1).merged(s2, n2).sync_status == r.merged(s2, n2).merged(s1, n1).sync_status,
{
    lemma_newer_wins_commutes(r.shows, s1.shows, s2.shows);
    lemma_newer_wins_commutes(r.posts, s1.posts, s2.posts);
    lemma_newer_wins_commutes(r.sites, s1.sites, s2.sites);
}

/// `b` follows from `a` by one add, update or delete of the mutation API.
pub open spec fn is_mutation(a: ReplicaView, b: ReplicaView) -> bool {
    ||| exists|x: Show| b == a.touched().with_shows(#[trigger] a.shows.insert(x.id@, x))
    ||| exists|id: Seq<char>| b == a.touched().with_shows(#[trigger] a.shows.remove(id))
    ||| exists|x: Song| b == a.touched().with_songs(#[trigger] a.songs.insert(x.id@, x))
    ||| exists|x: Photo| b == a.touched().with_photos(#[trigger] a.photos.insert(x.id@, x))
    ||| exists|x: BlogPost| b == a.touched().with_posts(#[trigger] a.posts.insert(x.id@, x))
}

/// After any add, update or delete the replica is pending, whatever its status
/// was, and its clock has advanced by one.
pub proof fn lemma_mutation_marks_pending(a: ReplicaView, b: ReplicaView)
    requires
        is_mutation(a, b),
    ensures
        b.sync_status is Pending,
        b.clock == a.clock + 1,
{
}

/// `b` follows from `a` by one operation of the replica's API: a mutation,
/// a merge, or a step of the sync-status state machine.
pub open spec fn is_step(a: ReplicaView, b: ReplicaView) -> bool {
    ||| is_mutation(a, b)
    ||| exists|other: ReplicaView, now: i64| b == #[trigger] a.merged(other, now)
    ||| b == a.sync_started()
    ||| exists|reason: String| b == #[trigger] a.sync_failed(reason)
}

/// Every operation leaves the clock where it was or advances it.
pub proof fn lemma_step_clock(a: ReplicaView, b: ReplicaView)
    requires
        is_step(a, b),
    ensures
        a.clock <= b.clock,
{
}

/// The clock never decreases along any sequence of mutations, merges and
/// sync-status steps.
pub proof fn lemma_clock_monotone(trace: Seq<ReplicaView>, i: int, j: int)
    requires
        forall|t: int| 0 <= t < trace.len() - 1 ==> is_step(#[trigger] trace[t], trace[t + 1]),
        0 <= i <= j < trace.len(),
    ensures
        trace[i].clock <= trace[j].clock,
    decreases j - i,
{
    if i < j {
        lemma_step_clock(trace[i], trace[i + 1]);
        lemma_clock_monotone(trace, i + 1, j);
    }
}

} // verus!
