//! Collections of records keyed by identifier, and the two merge policies.

use vstd::prelude::*;

verus! {

/// A record that is stored under its own identifier.
pub trait Entity: Sized {
    /// The identifier the record is stored under.
    spec fn key(&self) -> Seq<char>;

    fn id_str(&self) -> (r: &String)
        ensures
            r@ == self.key(),
    ;
}

/// A record that belongs to an owner (a site), used by scoped listings.
pub trait Scoped: Entity {
    spec fn scope(&self) -> Seq<char>;

    fn scope_str(&self) -> (r: &String)
        ensures
            r@ == self.scope(),
    ;
}

/// A record that carries a logical timestamp used for last-writer-wins merging.
pub trait Stamped: Entity {
    spec fn stamp(&self) -> int;

    fn stamp_value(&self) -> (r: i64)
        ensures
            r == self.stamp(),
    ;
}

/// No two records of `s` share an identifier.
pub open spec fn keys_unique<V: Entity>(s: Seq<V>) -> bool {
    forall|i: int, j: int|
        0 <= i < s.len() && 0 <= j < s.len() && i != j ==> #[trigger] s[i].key() != #[trigger] s[j].key()
}

/// Some record of `s` is stored under `k`.
pub open spec fn holds_key<V: Entity>(s: Seq<V>, k: Seq<char>) -> bool {
    exists|i: int| 0 <= i < s.len() && #[trigger] s[i].key() == k
}

/// The mapping from identifier to record that the records of `s` describe.
pub open spec fn map_of<V: Entity>(s: Seq<V>) -> Map<Seq<char>, V> {
    Map::new(
        |k: Seq<char>| holds_key(s, k),
        |k: Seq<char>| s[choose|i: int| 0 <= i < s.len() && #[trigger] s[i].key() == k],
    )
}

/// Last-writer-wins merge of `foreign` into `local`: a foreign record replaces
/// the local one only when its stamp is strictly greater; ties keep the local record.
pub open spec fn newer_wins<V: Stamped>(
    local: Map<Seq<char>, V>,
    foreign: Map<Seq<char>, V>,
) -> Map<Seq<char>, V> {
    Map::new(
        |k: Seq<char>| local.contains_key(k) || foreign.contains_key(k),
        |k: Seq<char>|
            if foreign.contains_key(k) && (!local.contains_key(k) || foreign[k].stamp()
                > local[k].stamp()) {
                foreign[k]
            } else {
                local[k]
            },
    )
}

/// Merge in which every foreign record replaces the local one under the same identifier.
pub open spec fn foreign_wins<V>(
    local: Map<Seq<char>, V>,
    foreign: Map<Seq<char>, V>,
) -> Map<Seq<char>, V> {
    local.union_prefer_right(foreign)
}

proof fn lemma_map_of_index<V: Entity>(s: Seq<V>, i: int)
    requires
        keys_unique(s),
        0 <= i < s.len(),
    ensures
        map_of(s).contains_key(s[i].key()),
        map_of(s)[s[i].key()] == s[i],
{
    let k = s[i].key();
    assert(holds_key(s, k));
    let j = choose|j: int| 0 <= j < s.len() && #[trigger] s[j].key() == k;
    assert(s[j].key() == k);
}

proof fn lemma_map_of_push<V: Entity>(s: Seq<V>, v: V)
    requires
        keys_unique(s),
        !holds_key(s, v.key()),
    ensures
        keys_unique(s.push(v)),
        map_of(s.push(v)) == map_of(s).insert(v.key(), v),
{
    let t = s.push(v);
    assert forall|i: int, j: int|
        0 <= i < t.len() && 0 <= j < t.len() && i != j implies #[trigger] t[i].key()
        != #[trigger] t[j].key() by {
        if i < s.len() && j < s.len() {
            assert(t[i] == s[i] && t[j] == s[j]);
        } else if i < s.len() {
            assert(t[i] == s[i]);
        } else {
            assert(t[j] == s[j]);
        }
    }
    assert forall|k: Seq<char>| #[trigger] holds_key(t, k) == (holds_key(s, k) || k == v.key()) by {
        if holds_key(s, k) {
            let i = choose|i: int| 0 <= i < s.len() && #[trigger] s[i].key() == k;
            assert(t[i] == s[i]);
        }
        if k == v.key() {
            assert(t[s.len() as int] == v);
        }
        if holds_key(t, k) {
            let i = choose|i: int| 0 <= i < t.len() && #[trigger] t[i].key() == k;
            if i < s.len() {
                assert(t[i] == s[i]);
            }
        }
    }
    assert forall|k: Seq<char>| #[trigger] map_of(t).contains_key(k) implies map_of(t)[k] == map_of(
        s,
    ).insert(v.key(), v)[k] by {
        let i = choose|i: int| 0 <= i < t.len() && #[trigger] t[i].key() == k;
        lemma_map_of_index(t, i);
        if i < s.len() {
            assert(t[i] == s[i]);
            lemma_map_of_index(s, i);
        }
    }
    assert(map_of(t) =~= map_of(s).insert(v.key(), v));
}

proof fn lemma_map_of_update<V: Entity>(s: Seq<V>, i: int, v: V)
    requires
        keys_unique(s),
        0 <= i < s.len(),
        v.key() == s[i].key(),
    ensures
        keys_unique(s.update(i, v)),
        map_of(s.update(i, v)) == map_of(s).insert(v.key(), v),
{
    let t = s.update(i, v);
    assert forall|a: int, b: int|
        0 <= a < t.len() && 0 <= b < t.len() && a != b implies #[trigger] t[a].key()
        != #[trigger] t[b].key() by {
        assert(t[a].key() == s[a].key());
        assert(t[b].key() == s[b].key());
    }
    assert forall|k: Seq<char>| #[trigger] holds_key(t, k) == holds_key(s, k) by {
        if holds_key(s, k) {
            let j = choose|j: int| 0 <= j < s.len() && #[trigger] s[j].key() == k;
            assert(t[j].key() == s[j].key());
        }
        if holds_key(t, k) {
            let j = choose|j: int| 0 <= j < t.len() && #[trigger] t[j].key() == k;
            assert(t[j].key() == s[j].key());
        }
    }
    assert forall|k: Seq<char>| #[trigger] map_of(t).contains_key(k) implies map_of(t)[k] == map_of(
        s,
    ).insert(v.key(), v)[k] by {
        let j = choose|j: int| 0 <= j < t.len() && #[trigger] t[j].key() == k;
        lemma_map_of_index(t, j);
        if j != i {
            assert(t[j] == s[j]);
            lemma_map_of_index(s, j);
        }
    }
    assert(map_of(t) =~= map_of(s).insert(v.key(), v));
}

proof fn lemma_map_of_remove<V: Entity>(s: Seq<V>, i: int)
    requires
        keys_unique(s),
        0 <= i < s.len(),
    ensures
        keys_unique(s.remove(i)),
        map_of(s.remove(i)) == map_of(s).remove(s[i].key()),
{
    let t = s.remove(i);
    let k0 = s[i].key();
    assert forall|a: int| 0 <= a < t.len() implies #[trigger] t[a] == s[if a < i {
        a
    } else {
        a + 1
    }] by {}
    assert forall|a: int, b: int|
        0 <= a < t.len() && 0 <= b < t.len() && a != b implies #[trigger] t[a].key()
        != #[trigger] t[b].key() by {
        let a1 = if a < i { a } else { a + 1 };
        let b1 = if b < i { b } else { b + 1 };
        assert(t[a] == s[a1] && t[b] == s[b1]);
    }
    assert forall|k: Seq<char>| #[trigger] holds_key(t, k) == (holds_key(s, k) && k != k0) by {
        if holds_key(s, k) && k != k0 {
            let j = choose|j: int| 0 <= j < s.len() && #[trigger] s[j].key() == k;
            let j1 = if j < i { j } else { j - 1 };
            assert(t[j1] == s[j]);
        }
        if holds_key(t, k) {
            let j = choose|j: int| 0 <= j < t.len() && #[trigger] t[j].key() == k;
            let j1 = if j < i { j } else { j + 1 };
            assert(t[j] == s[j1]);
        }
    }
    assert forall|k: Seq<char>| #[trigger] map_of(t).contains_key(k) implies map_of(t)[k] == map_of(
        s,
    ).remove(k0)[k] by {
        let j = choose|j: int| 0 <= j < t.len() && #[trigger] t[j].key() == k;
        let j1 = if j < i { j } else { j + 1 };
        assert(t[j] == s[j1]);
        lemma_map_of_index(t, j);
        lemma_map_of_index(s, j1);
    }
    assert(map_of(t) =~= map_of(s).remove(k0));
}

proof fn lemma_map_of_empty<V: Entity>(s: Seq<V>)
    requires
        s.len() == 0,
    ensures
        keys_unique(s),
        map_of(s) == Map::<Seq<char>, V>::empty(),
{
    assert(map_of(s) =~= Map::<Seq<char>, V>::empty());
}

/// A collection of records keyed by their identifiers; no two records share one.
/// Two collections compare equal with `==` when they hold the same records in
/// the same order.
#[derive(Debug, Clone, PartialEq, Eq)]
pub struct Collection<V> {
    entries: Vec<V>,
}

impl<V: Entity> View for Collection<V> {
    type V = Map<Seq<char>, V>;

    closed spec fn view(&self) -> Map<Seq<char>, V> {
        map_of(self.entries@)
    }
}

impl<V: Entity> Collection<V> {
    /// No two stored records share an identifier.
    pub closed spec fn wf(&self) -> bool {
        keys_unique(self.entries@)
    }

    /// The stored records, in storage order.
    pub closed spec fn seq(&self) -> Seq<V> {
        self.entries@
    }

    /// A well-formed collection is the mapping its stored records describe.
    pub proof fn lemma_seq(&self)
        requires
            self.wf(),
        ensures
            keys_unique(self.seq()),
            map_of(self.seq()) == self@,
    {
    }

    /// An empty collection.
    pub fn new() -> (r: Self)
        ensures
            r.wf(),
            r@ == Map::<Seq<char>, V>::empty(),
    {
        let r = Collection { entries: Vec::new() };
        proof {
            lemma_map_of_empty(r.entries@);
        }
        r
    }

    /// The collection holding the records of `v`, or `None` when two of them
    /// share an identifier.
    pub fn from_vec(v: Vec<V>) -> (r: Option<Self>)
        ensures
            r is Some <==> keys_unique(v@),
            r is Some ==> r->0.wf() && r->0@ == map_of(v@) && r->0.seq() == v@,
    {
        let ghost orig = v@;
        let mut rest = v;
        let mut pending: Vec<V> = Vec::new();
        while rest.len() > 0
            invariant
                rest@.len() <= orig.len(),
                rest@ == orig.subrange(0, rest@.len() as int),
                pending@ == orig.subrange(rest@.len() as int, orig.len() as int).reverse(),
            decreases rest@.len(),
        {
            let ghost n = rest@.len() - 1;
            let e = rest.pop().unwrap();
            proof {
                assert(rest@ =~= orig.subrange(0, n));
                assert(pending@.push(e) =~= orig.subrange(n, orig.len() as int).reverse());
            }
            pending.push(e);
        }
        let mut c: Collection<V> = Collection { entries: Vec::new() };
        while pending.len() > 0
            invariant
                c.wf(),
                orig == v@,
                c.entries@.len() + pending@.len() == orig.len(),
                pending@ == orig.subrange(c.entries@.len() as int, orig.len() as int).reverse(),
                c.entries@ == orig.subrange(0, c.entries@.len() as int),
            decreases pending@.len(),
        {
            let ghost n = c.entries@.len() as int;
            let e = pending.pop().unwrap();
            proof {
                assert(e == orig[n]);
                assert(pending@ =~= orig.subrange(n + 1, orig.len() as int).reverse());
            }
            if c.position(e.id_str()).is_some() {
                proof {
                    let i = choose|i: int|
                        0 <= i < c.entries@.len() && #[trigger] c.entries@[i].key() == e.key();
                    assert(c.entries@[i] == orig[i]);
                    assert(orig[i].key() == orig[n].key());
                    assert(!keys_unique(orig));
                }
                return None;
            }
            proof {
                lemma_map_of_push(c.entries@, e);
                assert(c.entries@.push(e) =~= orig.subrange(0, n + 1));
            }
            c.entries.push(e);
        }
        proof {
            assert(c.entries@ =~= orig);
        }
        Some(c)
    }

    /// The stored records, each once, in no particular order.
    pub fn records(&self) -> (r: &Vec<V>)
        ensures
            r@ == self.seq(),
            self.wf() ==> keys_unique(r@) && map_of(r@) == self@,
    {
        &self.entries
    }

    /// Number of records held.
    pub fn len(&self) -> (r: usize)
        requires
            self.wf(),
        ensures
            r == self@.len(),
    {
        proof {
            lemma_len_of(self.entries@);
        }
        self.entries.len()
    }

    fn position(&self, id: &String) -> (r: Option<usize>)
        ensures
            match r {
                Some(i) => i < self.entries@.len() && self.entries@[i as int].key() == id@,
                None => !holds_key(self.entries@, id@),
            },
    {
        let mut i: usize = 0;
        while i < self.entries.len()
            invariant
                i <= self.entries@.len(),
                forall|j: int| 0 <= j < i ==> #[trigger] self.entries@[j].key() != id@,
            decreases self.entries@.len() - i,
        {
            if self.entries[i].id_str().eq(id) {
                return Some(i);
            }
            i = i + 1;
        }
        None
    }

    /// The record stored under `id`, if any.
    pub fn get(&self, id: &str) -> (r: Option<&V>)
        requires
            self.wf(),
        ensures
            r is Some <==> self@.contains_key(id@),
            r is Some ==> *r->0 == self@[id@],
    {
        let key = id.to_string();
        match self.position(&key) {
            Some(i) => {
                proof {
                    lemma_map_of_index(self.entries@, i as int);
                }
                Some(&self.entries[i])
            },
            None => None,
        }
    }

    /// Whether a record is stored under `id`.
    pub fn contains_key(&self, id: &str) -> (r: bool)
        requires
            self.wf(),
        ensures
            r == self@.contains_key(id@),
    {
        self.get(id).is_some()
    }

    /// Stores `v` under its identifier, replacing any record stored there.
    pub fn upsert(&mut self, v: V)
        requires
            old(self).wf(),
        ensures
            final(self).wf(),
            final(self)@ == old(self)@.insert(v.key(), v),
    {
        let pos = self.position(v.id_str());
        match pos {
            Some(i) => {
                proof {
                    lemma_map_of_update(self.entries@, i as int, v);
                }
                self.entries.set(i, v);
            },
            None => {
                proof {
                    lemma_map_of_push(self.entries@, v);
                }
                self.entries.push(v);
            },
        }
    }

    /// Removes the record stored under `id`; nothing happens when there is none.
    pub fn remove(&mut self, id: &str)
        requires
            old(self).wf(),
        ensures
            final(self).wf(),
            final(self)@ == old(self)@.remove(id@),
    {
        let key = id.to_string();
        match self.position(&key) {
            Some(i) => {
                proof {
                    lemma_map_of_remove(self.entries@, i as int);
                }
                self.entries.remove(i);
            },
            None => {
                assert(self@ =~= self@.remove(id@));
            },
        }
    }
}

/// The effect of offering one record to a last-writer-wins merge.
pub open spec fn absorb_newer<V: Stamped>(m: Map<Seq<char>, V>, v: V) -> Map<Seq<char>, V> {
    if m.contains_key(v.key()) && v.stamp() <= m[v.key()].stamp() {
        m
    } else {
        m.insert(v.key(), v)
    }
}

proof fn lemma_newer_wins_insert<V: Stamped>(
    local: Map<Seq<char>, V>,
    foreign: Map<Seq<char>, V>,
    v: V,
)
    requires
        !foreign.contains_key(v.key()),
    ensures
        newer_wins(local, foreign.insert(v.key(), v)) == absorb_newer(newer_wins(local, foreign), v),
{
    assert(newer_wins(local, foreign.insert(v.key(), v)) =~= absorb_newer(
        newer_wins(local, foreign),
        v,
    ));
}

proof fn lemma_foreign_wins_insert<V>(
    local: Map<Seq<char>, V>,
    foreign: Map<Seq<char>, V>,
    k: Seq<char>,
    v: V,
)
    ensures
        foreign_wins(local, foreign.insert(k, v)) == foreign_wins(local, foreign).insert(k, v),
{
    assert(foreign_wins(local, foreign.insert(k, v)) =~= foreign_wins(local, foreign).insert(k, v));
}

/// Splits the suffix of `s` that starts at `n` into its first record and the rest.
proof fn lemma_suffix_step<V: Entity>(s: Seq<V>, n: int)
    requires
        keys_unique(s),
        0 <= n < s.len(),
    ensures
        keys_unique(s.subrange(n, s.len() as int)),
        !map_of(s.subrange(n + 1, s.len() as int)).contains_key(s[n].key()),
        map_of(s.subrange(n, s.len() as int)) == map_of(s.subrange(n + 1, s.len() as int)).insert(
            s[n].key(),
            s[n],
        ),
{
    let t = s.subrange(n, s.len() as int);
    assert forall|a: int, b: int|
        0 <= a < t.len() && 0 <= b < t.len() && a != b implies #[trigger] t[a].key()
        != #[trigger] t[b].key() by {
        assert(t[a] == s[n + a] && t[b] == s[n + b]);
    }
    assert(t.remove(0) =~= s.subrange(n + 1, s.len() as int));
    lemma_map_of_remove(t, 0);
    lemma_map_of_index(t, 0);
    assert(map_of(t) =~= map_of(t).remove(s[n].key()).insert(s[n].key(), s[n]));
}

proof fn lemma_whole_suffix<V: Entity>(s: Seq<V>)
    ensures
        s.subrange(0, s.len() as int) == s,
{
    assert(s.subrange(0, s.len() as int) =~= s);
}

impl<V: Stamped> Collection<V> {
    /// Offers `v` to this collection under last-writer-wins: it is stored unless a
    /// record with the same identifier and an equal or greater stamp is already there.
    pub fn absorb_if_newer(&mut self, v: V)
        requires
            old(self).wf(),
        ensures
            final(self).wf(),
            final(self)@ == absorb_newer(old(self)@, v),
    {
        let pos = self.position(v.id_str());
        match pos {
            Some(i) => {
                proof {
                    lemma_map_of_index(self.entries@, i as int);
                }
                if v.stamp_value() > self.entries[i].stamp_value() {
                    proof {
                        lemma_map_of_update(self.entries@, i as int, v);
                    }
                    self.entries.set(i, v);
                }
            },
            None => {
                proof {
                    lemma_map_of_push(self.entries@, v);
                }
                self.entries.push(v);
            },
        }
    }

    /// Merges `other` into this collection under last-writer-wins on each record's stamp.
    pub fn merge_newer(&mut self, other: Collection<V>)
        requires
            old(self).wf(),
            other.wf(),
        ensures
            final(self).wf(),
            final(self)@ == newer_wins(old(self)@, other@),
    {
        let mut rest = other.entries;
        let ghost orig = rest@;
        let ghost start = self@;
        proof {
            lemma_empty_suffix(orig);
        }
        while rest.len() > 0
            invariant
                self.wf(),
                keys_unique(orig),
                rest@.len() <= orig.len(),
                rest@ == orig.subrange(0, rest@.len() as int),
                self@ == newer_wins(start, map_of(orig.subrange(rest@.len() as int, orig.len() as int))),
            decreases rest@.len(),
        {
            let ghost n = rest@.len() - 1;
            let v = rest.pop().unwrap();
            proof {
                assert(v == orig[n]);
                assert(rest@ =~= orig.subrange(0, n));
                lemma_suffix_step(orig, n);
                lemma_newer_wins_insert(start, map_of(orig.subrange(n + 1, orig.len() as int)), v);
            }
            self.absorb_if_newer(v);
        }
        proof {
            lemma_whole_suffix(orig);
        }
    }
}

impl<V: Entity> Collection<V> {
    /// Merges `other` into this collection; every foreign record replaces the local one.
    pub fn merge_replace(&mut self, other: Collection<V>)
        requires
            old(self).wf(),
            other.wf(),
        ensures
            final(self).wf(),
            final(self)@ == foreign_wins(old(self)@, other@),
    {
        let mut rest = other.entries;
        let ghost orig = rest@;
        let ghost start = self@;
        proof {
            lemma_empty_suffix(orig);
        }
        while rest.len() > 0
            invariant
                self.wf(),
                keys_unique(orig),
                rest@.len() <= orig.len(),
                rest@ == orig.subrange(0, rest@.len() as int),
                self@ == foreign_wins(start, map_of(orig.subrange(rest@.len() as int, orig.len() as int))),
            decreases rest@.len(),
        {
            let ghost n = rest@.len() - 1;
            let v = rest.pop().unwrap();
            proof {
                assert(v == orig[n]);
                assert(rest@ =~= orig.subrange(0, n));
                lemma_suffix_step(orig, n);
                lemma_foreign_wins_insert(
                    start,
                    map_of(orig.subrange(n + 1, orig.len() as int)),
                    v.key(),
                    v,
                );
            }
            self.upsert(v);
        }
        proof {
            lemma_whole_suffix(orig);
        }
    }
}

impl<V: Scoped> Collection<V> {
    /// The records that belong to `scope`, each once, in no particular order.
    pub fn list_scope(&self, scope: &str) -> (r: Vec<&V>)
        requires
            self.wf(),
        ensures
            forall|a: int|
                0 <= a < r@.len() ==> {
                    &&& self@.contains_key(#[trigger] r@[a].key())
                    &&& self@[r@[a].key()] == *r@[a]
                    &&& r@[a].scope() == scope@
                },
            forall|k: Seq<char>|
                #[trigger] self@.contains_key(k) && self@[k].scope() == scope@ ==> exists|a: int|
                    0 <= a < r@.len() && #[trigger] r@[a].key() == k,
            forall|a: int, b: int|
                0 <= a < r@.len() && 0 <= b < r@.len() && a != b ==> #[trigger] r@[a].key()
                    != #[trigger] r@[b].key(),
    {
        let wanted = scope.to_string();
        let mut r: Vec<&V> = Vec::new();
        let mut i: usize = 0;
        while i < self.entries.len()
            invariant
                self.wf(),
                wanted@ == scope@,
                i <= self.entries@.len(),
                forall|a: int|
                    0 <= a < r@.len() ==> exists|j: int|
                        0 <= j < i && #[trigger] r@[a] == self.entries@[j] && r@[a].scope()
                            == scope@,
                forall|j: int|
                    0 <= j < i && #[trigger] self.entries@[j].scope() == scope@ ==> exists|a: int|
                        0 <= a < r@.len() && r@[a] == self.entries@[j],
                forall|a: int, b: int|
                    0 <= a < r@.len() && 0 <= b < r@.len() && a != b ==> #[trigger] r@[a].key()
                        != #[trigger] r@[b].key(),
            decreases self.entries@.len() - i,
        {
            let e = &self.entries[i];
            if e.scope_str().eq(&wanted) {
                proof {
                    assert forall|a: int| 0 <= a < r@.len() implies #[trigger] r@[a].key()
                        != e.key() by {
                        let j = choose|j: int|
                            0 <= j < i && #[trigger] r@[a] == self.entries@[j] && r@[a].scope()
                                == scope@;
                        assert(self.entries@[j].key() != self.entries@[i as int].key());
                    }
                }
                let ghost before = r@;
                r.push(e);
                proof {
                    assert(r@[r@.len() - 1] == self.entries@[i as int]);
                    assert forall|j: int|
                        0 <= j <= i && #[trigger] self.entries@[j].scope() == scope@ implies exists|
                            a: int,
                        | 0 <= a < r@.len() && r@[a] == self.entries@[j] by {
                        if j < i {
                            let a = choose|a: int|
                                0 <= a < before.len() && before[a] == self.entries@[j];
                            assert(r@[a] == before[a]);
                        } else {
                            assert(r@[r@.len() - 1] == self.entries@[j]);
                        }
                    }
                }
            }
            i = i + 1;
        }
        proof {
            assert forall|a: int| 0 <= a < r@.len() implies {
                &&& self@.contains_key(#[trigger] r@[a].key())
                &&& self@[r@[a].key()] == *r@[a]
                &&& r@[a].scope() == scope@
            } by {
                let j = choose|j: int|
                    0 <= j < i && #[trigger] r@[a] == self.entries@[j] && r@[a].scope() == scope@;
                lemma_map_of_index(self.entries@, j);
            }
            assert forall|k: Seq<char>|
                #[trigger] self@.contains_key(k) && self@[k].scope() == scope@ implies exists|a: int|
                    0 <= a < r@.len() && #[trigger] r@[a].key() == k by {
                let j = choose|j: int|
                    0 <= j < self.entries@.len() && #[trigger] self.entries@[j].key() == k;
                lemma_map_of_index(self.entries@, j);
                assert(self.entries@[j].scope() == scope@);
                let a = choose|a: int| 0 <= a < r@.len() && r@[a] == self.entries@[j];
                assert(r@[a].key() == k);
            }
        }
        r
    }
}

proof fn lemma_empty_suffix<V: Entity>(s: Seq<V>)
    ensures
        map_of(s.subrange(s.len() as int, s.len() as int)) == Map::<Seq<char>, V>::empty(),
        forall|m: Map<Seq<char>, V>| #[trigger] m.union_prefer_right(Map::<Seq<char>, V>::empty()) == m,
{
    lemma_map_of_empty(s.subrange(s.len() as int, s.len() as int));
    assert forall|m: Map<Seq<char>, V>| #[trigger] m.union_prefer_right(Map::<Seq<char>, V>::empty()) == m by {
        assert(m.union_prefer_right(Map::<Seq<char>, V>::empty()) =~= m);
    }
}

proof fn lemma_len_of<V: Entity>(s: Seq<V>)
    requires
        keys_unique(s),
    ensures
        map_of(s).dom().finite(),
        map_of(s).len() == s.len(),
    decreases s.len(),
{
    if s.len() == 0 {
        lemma_map_of_empty(s);
    } else {
        let p = s.drop_last();
        assert(keys_unique(p)) by {
            assert forall|i: int, j: int|
                0 <= i < p.len() && 0 <= j < p.len() && i != j implies #[trigger] p[i].key()
                != #[trigger] p[j].key() by {
                assert(p[i] == s[i] && p[j] == s[j]);
            }
        }
        assert(!holds_key(p, s.last().key())) by {
            if holds_key(p, s.last().key()) {
                let i = choose|i: int| 0 <= i < p.len() && #[trigger] p[i].key() == s.last().key();
                assert(p[i] == s[i]);
                assert(s[i].key() == s[s.len() - 1].key());
            }
        }
        lemma_len_of(p);
        lemma_map_of_push(p, s.last());
        assert(p.push(s.last()) =~= s);
    }
}

} // verus!
