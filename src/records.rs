//! Records as sequences of atoms, and lists of records.

use vstd::prelude::*;

use crate::collection::Entity;
use crate::model::{
    BlogPost, GalleryVisibility, ImageDimensions, Photo, PostStatus, Role, Show, ShowStatus, Site,
    SiteStatus, Song, User, UserStatus, Video, VideoSource,
};
use crate::wire::{atoms_of, entries_view, Atom, Tok};

verus! {
// ---------------------------------------------------------------------------
// Reading single atoms out of a token sequence
// ---------------------------------------------------------------------------

pub(crate) fn tok_text(t: &Vec<Tok>, i: usize) -> (r: Option<String>)
    ensures
        r matches Some(x) ==> i < t@.len() && atoms_of(t@)[i as int] == Atom::Text(x@),
        forall|s: Seq<char>|
            i < t@.len() && atoms_of(t@)[i as int] == Atom::Text(s) ==> (r matches Some(x) && x@ == s),
{
    if i < t.len() {
        match &t[i] {
            Tok::Text(x) => Some(x.clone()),
            _ => None,
        }
    } else {
        None
    }
}

pub(crate) fn tok_opt_text(t: &Vec<Tok>, i: usize) -> (r: Option<Option<String>>)
    ensures
        r matches Some(x) ==> i < t@.len() && atoms_of(t@)[i as int] == opt_text_atom(x),
        forall|o: Option<String>|
            i < t@.len() && atoms_of(t@)[i as int] == #[trigger] opt_text_atom(o) ==> (r matches Some(x)
                && opt_text_atom(x) == opt_text_atom(o)),
{
    if i < t.len() {
        match &t[i] {
            Tok::Text(x) => Some(Some(x.clone())),
            Tok::Nothing => Some(None),
            _ => None,
        }
    } else {
        None
    }
}

pub(crate) fn tok_int(t: &Vec<Tok>, i: usize) -> (r: Option<i64>)
    ensures
        r matches Some(x) ==> i < t@.len() && atoms_of(t@)[i as int] == Atom::Int(x),
        forall|y: i64| i < t@.len() && atoms_of(t@)[i as int] == Atom::Int(y) ==> r == Some(y),
{
    if i < t.len() {
        match &t[i] {
            Tok::Int(x) => Some(*x),
            _ => None,
        }
    } else {
        None
    }
}

pub(crate) fn tok_opt_int(t: &Vec<Tok>, i: usize) -> (r: Option<Option<i64>>)
    ensures
        r matches Some(x) ==> i < t@.len() && atoms_of(t@)[i as int] == opt_int_atom(x),
        forall|o: Option<i64>|
            i < t@.len() && atoms_of(t@)[i as int] == #[trigger] opt_int_atom(o) ==> r == Some(o),
{
    if i < t.len() {
        match &t[i] {
            Tok::Int(x) => Some(Some(*x)),
            Tok::Nothing => Some(None),
            _ => None,
        }
    } else {
        None
    }
}

pub(crate) fn tok_small(t: &Vec<Tok>, i: usize) -> (r: Option<i32>)
    ensures
        r matches Some(x) ==> i < t@.len() && atoms_of(t@)[i as int] == Atom::Int(x as i64),
        forall|y: i32| i < t@.len() && atoms_of(t@)[i as int] == Atom::Int(y as i64) ==> r == Some(y),
{
    if i < t.len() {
        match &t[i] {
            Tok::Int(x) => if i32::MIN as i64 <= *x && *x <= i32::MAX as i64 {
                Some(*x as i32)
            } else {
                None
            },
            _ => None,
        }
    } else {
        None
    }
}

pub(crate) fn tok_opt_small(t: &Vec<Tok>, i: usize) -> (r: Option<Option<i32>>)
    ensures
        r matches Some(x) ==> i < t@.len() && atoms_of(t@)[i as int] == opt_small_atom(x),
        forall|o: Option<i32>|
            i < t@.len() && atoms_of(t@)[i as int] == #[trigger] opt_small_atom(o) ==> r == Some(o),
{
    if i < t.len() {
        match &t[i] {
            Tok::Int(x) => if i32::MIN as i64 <= *x && *x <= i32::MAX as i64 {
                Some(Some(*x as i32))
            } else {
                None
            },
            Tok::Nothing => Some(None),
            _ => None,
        }
    } else {
        None
    }
}

pub(crate) fn tok_flag(t: &Vec<Tok>, i: usize) -> (r: Option<bool>)
    ensures
        r matches Some(x) ==> i < t@.len() && atoms_of(t@)[i as int] == Atom::Flag(x),
        forall|y: bool| i < t@.len() && atoms_of(t@)[i as int] == Atom::Flag(y) ==> r == Some(y),
{
    if i < t.len() {
        match &t[i] {
            Tok::Flag(x) => Some(*x),
            _ => None,
        }
    } else {
        None
    }
}

pub(crate) fn tok_nat(t: &Vec<Tok>, i: usize) -> (r: Option<u64>)
    ensures
        r matches Some(x) ==> i < t@.len() && atoms_of(t@)[i as int] == Atom::Nat(x),
        forall|y: u64| i < t@.len() && atoms_of(t@)[i as int] == Atom::Nat(y) ==> r == Some(y),
{
    if i < t.len() {
        match &t[i] {
            Tok::Nat(x) => Some(*x),
            _ => None,
        }
    } else {
        None
    }
}

pub(crate) fn tok_variant(t: &Vec<Tok>, i: usize) -> (r: Option<(u64, String)>)
    ensures
        r matches Some((k, x)) ==> i < t@.len() && atoms_of(t@)[i as int] == Atom::Variant(k, x@),
        forall|k: u64, s: Seq<char>|
            i < t@.len() && atoms_of(t@)[i as int] == Atom::Variant(k, s) ==> (r matches Some((k2, x))
                && k2 == k && x@ == s),
{
    if i < t.len() {
        match &t[i] {
            Tok::Variant(k, x) => Some((*k, x.clone())),
            _ => None,
        }
    } else {
        None
    }
}

pub(crate) fn clone_entries(v: &Vec<(u64, String)>) -> (r: Vec<(u64, String)>)
    ensures
        entries_view(r@) == entries_view(v@),
{
    let mut r: Vec<(u64, String)> = Vec::new();
    let mut i: usize = 0;
    while i < v.len()
        invariant
            i <= v@.len(),
            entries_view(r@) == entries_view(v@.subrange(0, i as int)),
        decreases v@.len() - i,
    {
        let ghost before = r@;
        let text = v[i].1.clone();
        r.push((v[i].0, text));
        proof {
            assert(r@ == before.push((v@[i as int].0, text)));
            assert(entries_view(v@.subrange(0, i + 1)) =~= entries_view(v@.subrange(0, i as int)).push(
                (v@[i as int].0, v@[i as int].1@),
            ));
            assert(entries_view(r@) =~= entries_view(before).push((v@[i as int].0, text@)));
        }
        i = i + 1;
    }
    proof {
        assert(v@.subrange(0, v@.len() as int) =~= v@);
    }
    r
}

pub(crate) fn tok_entries(t: &Vec<Tok>, i: usize) -> (r: Option<Vec<(u64, String)>>)
    ensures
        r matches Some(x) ==> i < t@.len() && atoms_of(t@)[i as int] == Atom::Entries(
            entries_view(x@),
        ),
        forall|v: Seq<(u64, Seq<char>)>|
            i < t@.len() && atoms_of(t@)[i as int] == Atom::Entries(v) ==> (r matches Some(x)
                && entries_view(x@) == v),
{
    if i < t.len() {
        match &t[i] {
            Tok::Entries(x) => Some(clone_entries(x)),
            _ => None,
        }
    } else {
        None
    }
}

pub open spec fn opt_text_atom(o: Option<String>) -> Atom {
    match o {
        Some(s) => Atom::Text(s@),
        None => Atom::Nothing,
    }
}

pub open spec fn opt_int_atom(o: Option<i64>) -> Atom {
    match o {
        Some(x) => Atom::Int(x),
        None => Atom::Nothing,
    }
}

pub open spec fn opt_small_atom(o: Option<i32>) -> Atom {
    match o {
        Some(x) => Atom::Int(x as i64),
        None => Atom::Nothing,
    }
}

pub(crate) fn put(out: &mut Vec<Tok>, x: Tok)
    ensures
        atoms_of(final(out)@) == atoms_of(old(out)@).push(x@),
{
    out.push(x);
    proof {
        assert(atoms_of(out@) =~= atoms_of(old(out)@).push(x@));
    }
}

pub(crate) fn opt_text_tok(o: &Option<String>) -> (r: Tok)
    ensures
        r@ == opt_text_atom(*o),
{
    match o {
        Some(s) => Tok::Text(s.clone()),
        None => Tok::Nothing,
    }
}

pub(crate) fn opt_int_tok(o: Option<i64>) -> (r: Tok)
    ensures
        r@ == opt_int_atom(o),
{
    match o {
        Some(x) => Tok::Int(x),
        None => Tok::Nothing,
    }
}

pub(crate) fn opt_small_tok(o: Option<i32>) -> (r: Tok)
    ensures
        r@ == opt_small_atom(o),
{
    match o {
        Some(x) => Tok::Int(x as i64),
        None => Tok::Nothing,
    }
}

// ---------------------------------------------------------------------------
// Records as atoms
// ---------------------------------------------------------------------------

/// `a` occurs in `s` at index `i`.
pub open spec fn fits(s: Seq<Atom>, i: int, a: Seq<Atom>) -> bool {
    0 <= i && i + a.len() <= s.len() && s.subrange(i, i + a.len()) == a
}

pub(crate) proof fn lemma_fits_at(s: Seq<Atom>, i: int, a: Seq<Atom>)
    requires
        fits(s, i, a),
    ensures
        forall|k: int| 0 <= k < a.len() ==> s[i + k] == #[trigger] a[k],
{
    assert forall|k: int| 0 <= k < a.len() implies s[i + k] == #[trigger] a[k] by {
        assert(s.subrange(i, i + a.len())[k] == s[i + k]);
    }
}

/// A record that is written as a fixed sequence of atoms.
pub trait Record: Entity {
    /// The atoms the record is written as, field by field.
    spec fn atoms(&self) -> Seq<Atom>;

    /// The first atom is the identifier.
    proof fn lemma_key_first(&self)
        ensures
            self.atoms().len() > 0,
            self.atoms()[0] == Atom::Text(self.key()),
    ;

    fn emit(&self, out: &mut Vec<Tok>)
        ensures
            atoms_of(final(out)@) == atoms_of(old(out)@) + self.atoms(),
    ;

    fn take(t: &Vec<Tok>, i: usize) -> (r: Option<(Self, usize)>)
        ensures
            r matches Some((x, j)) ==> j == i + x.atoms().len() && fits(atoms_of(t@), i as int, x.atoms()),
            forall|y: Self|
                fits(atoms_of(t@), i as int, #[trigger] y.atoms()) ==> (r matches Some((x, j))
                    && x.atoms() == y.atoms() && j == i + y.atoms().len()),
    ;
}

pub open spec fn show_status_code(s: ShowStatus) -> u64 {
    match s {
        ShowStatus::Upcoming => 0,
        ShowStatus::Live => 1,
        ShowStatus::Completed => 2,
        ShowStatus::Cancelled => 3,
    }
}

pub(crate) fn show_status_to_code(s: ShowStatus) -> (r: u64)
    ensures
        r == show_status_code(s),
{
    match s {
        ShowStatus::Upcoming => 0,
        ShowStatus::Live => 1,
        ShowStatus::Completed => 2,
        ShowStatus::Cancelled => 3,
    }
}

pub(crate) fn show_status_of_code(k: u64) -> (r: Option<ShowStatus>)
    ensures
        r matches Some(s) ==> show_status_code(s) == k,
        forall|s: ShowStatus| show_status_code(s) == k ==> r == Some(s),
{
    if k == 0 {
        Some(ShowStatus::Upcoming)
    } else if k == 1 {
        Some(ShowStatus::Live)
    } else if k == 2 {
        Some(ShowStatus::Completed)
    } else if k == 3 {
        Some(ShowStatus::Cancelled)
    } else {
        None
    }
}

impl Record for Show {
    open spec fn atoms(&self) -> Seq<Atom> {
        seq![
            Atom::Text(self.id@),
            Atom::Text(self.site_id@),
            Atom::Text(self.title@),
            Atom::Text(self.venue@),
            opt_text_atom(self.address),
            Atom::Int(self.date),
            Atom::Text(self.start_time@),
            opt_text_atom(self.ticket_url),
            opt_text_atom(self.description),
            Atom::Nat(show_status_code(self.status)),
            Atom::Text(self.created_by@),
            Atom::Int(self.created_at),
            Atom::Int(self.updated_at),
        ]
    }

    proof fn lemma_key_first(&self) {
    }

    fn emit(&self, out: &mut Vec<Tok>) {
        let ghost start = atoms_of(out@);
        put(out, Tok::Text(self.id.clone()));
        put(out, Tok::Text(self.site_id.clone()));
        put(out, Tok::Text(self.title.clone()));
        put(out, Tok::Text(self.venue.clone()));
        put(out, opt_text_tok(&self.address));
        put(out, Tok::Int(self.date));
        put(out, Tok::Text(self.start_time.clone()));
        put(out, opt_text_tok(&self.ticket_url));
        put(out, opt_text_tok(&self.description));
        put(out, Tok::Nat(show_status_to_code(self.status)));
        put(out, Tok::Text(self.created_by.clone()));
        put(out, Tok::Int(self.created_at));
        put(out, Tok::Int(self.updated_at));
        proof {
            assert(atoms_of(out@) =~= start + self.atoms());
        }
    }

    fn take(t: &Vec<Tok>, i: usize) -> (r: Option<(Self, usize)>) {
        proof {
            assert forall|y: Show| fits(atoms_of(t@), i as int, #[trigger] y.atoms()) implies t@.len()
                >= i + 13 by {
                lemma_fits_at(atoms_of(t@), i as int, y.atoms());
            }
        }
        if i > t.len() || t.len() - i < 13 {
            return None;
        }
        proof {
            assert forall|y: Show| fits(atoms_of(t@), i as int, #[trigger] y.atoms()) implies {
                let s = atoms_of(t@);
                &&& s[i + 0] == Atom::Text(y.id@)
                &&& s[i + 1] == Atom::Text(y.site_id@)
                &&& s[i + 2] == Atom::Text(y.title@)
                &&& s[i + 3] == Atom::Text(y.venue@)
                &&& s[i + 4] == opt_text_atom(y.address)
                &&& s[i + 5] == Atom::Int(y.date)
                &&& s[i + 6] == Atom::Text(y.start_time@)
                &&& s[i + 7] == opt_text_atom(y.ticket_url)
                &&& s[i + 8] == opt_text_atom(y.description)
                &&& s[i + 9] == Atom::Nat(show_status_code(y.status))
                &&& s[i + 10] == Atom::Text(y.created_by@)
                &&& s[i + 11] == Atom::Int(y.created_at)
                &&& s[i + 12] == Atom::Int(y.updated_at)
            } by {
                lemma_fits_at(atoms_of(t@), i as int, y.atoms());
                assert(y.atoms()[0] == Atom::Text(y.id@));
            }
        }
        let id = tok_text(t, i)?;
        let site_id = tok_text(t, i + 1)?;
        let title = tok_text(t, i + 2)?;
        let venue = tok_text(t, i + 3)?;
        let address = tok_opt_text(t, i + 4)?;
        let date = tok_int(t, i + 5)?;
        let start_time = tok_text(t, i + 6)?;
        let ticket_url = tok_opt_text(t, i + 7)?;
        let description = tok_opt_text(t, i + 8)?;
        let status = show_status_of_code(tok_nat(t, i + 9)?)?;
        let created_by = tok_text(t, i + 10)?;
        let created_at = tok_int(t, i + 11)?;
        let updated_at = tok_int(t, i + 12)?;
        let x = Show {
            id,
            site_id,
            title,
            venue,
            address,
            date,
            start_time,
            ticket_url,
            description,
            status,
            created_by,
            created_at,
            updated_at,
        };
        proof {
            assert(atoms_of(t@).subrange(i as int, i + 13) =~= x.atoms());
        }
        Some((x, i + 13))
    }
}

// ---------------------------------------------------------------------------
// Lists of records
// ---------------------------------------------------------------------------

/// The atoms of the records of `s`, one record after the other.
pub open spec fn flat<V: Record>(s: Seq<V>) -> Seq<Atom>
    decreases s.len(),
{
    if s.len() == 0 {
        Seq::empty()
    } else {
        flat(s.drop_last()) + s.last().atoms()
    }
}

/// A list of records: its length, then the records.
pub open spec fn list_atoms<V: Record>(s: Seq<V>) -> Seq<Atom> {
    seq![Atom::Nat(s.len() as u64)] + flat(s)
}

/// Two lists whose records are written alike.
pub open spec fn same_atoms<V: Record>(a: Seq<V>, b: Seq<V>) -> bool {
    a.len() == b.len() && forall|k: int| 0 <= k < a.len() ==> #[trigger] a[k].atoms() == b[k].atoms()
}

pub(crate) proof fn lemma_flat_concat<V: Record>(a: Seq<V>, b: Seq<V>)
    ensures
        flat(a + b) == flat(a) + flat(b),
    decreases b.len(),
{
    if b.len() == 0 {
        assert(a + b =~= a);
        assert(flat(a) + flat(b) =~= flat(a));
    } else {
        lemma_flat_concat(a, b.drop_last());
        assert((a + b).drop_last() =~= a + b.drop_last());
        assert(flat(a + b) =~= flat(a) + flat(b));
    }
}

pub(crate) proof fn lemma_flat_same<V: Record>(a: Seq<V>, b: Seq<V>)
    requires
        same_atoms(a, b),
    ensures
        flat(a) == flat(b),
    decreases a.len(),
{
    if a.len() > 0 {
        assert(same_atoms(a.drop_last(), b.drop_last())) by {
            assert forall|k: int| 0 <= k < a.drop_last().len() implies #[trigger] a.drop_last()[k].atoms()
                == b.drop_last()[k].atoms() by {
                assert(a[k].atoms() == b[k].atoms());
            }
        }
        lemma_flat_same(a.drop_last(), b.drop_last());
        assert(a.last().atoms() == b[b.len() - 1].atoms());
    }
}

pub(crate) proof fn lemma_flat_at<V: Record>(s: Seq<V>, k: int)
    requires
        0 <= k < s.len(),
    ensures
        flat(s.subrange(0, k + 1)) == flat(s.subrange(0, k)) + s[k].atoms(),
        flat(s) == flat(s.subrange(0, k)) + s[k].atoms() + flat(s.subrange(k + 1, s.len() as int)),
{
    let head = s.subrange(0, k + 1);
    assert(head.drop_last() =~= s.subrange(0, k));
    assert(head + s.subrange(k + 1, s.len() as int) =~= s);
    lemma_flat_concat(head, s.subrange(k + 1, s.len() as int));
}

pub(crate) proof fn lemma_fits_split(s: Seq<Atom>, i: int, a: Seq<Atom>, b: Seq<Atom>)
    requires
        fits(s, i, a + b),
    ensures
        fits(s, i, a),
        fits(s, i + a.len(), b),
{
    let w = s.subrange(i, i + a.len() + b.len());
    assert(w == a + b);
    assert(s.subrange(i, i + a.len()) =~= w.subrange(0, a.len() as int));
    assert(w.subrange(0, a.len() as int) =~= a);
    assert(s.subrange(i + a.len(), i + a.len() + b.len()) =~= w.subrange(
        a.len() as int,
        w.len() as int,
    ));
    assert(w.subrange(a.len() as int, w.len() as int) =~= b);
}

pub(crate) proof fn lemma_fits_join(s: Seq<Atom>, i: int, a: Seq<Atom>, b: Seq<Atom>)
    requires
        fits(s, i, a),
        fits(s, i + a.len(), b),
    ensures
        fits(s, i, a + b),
{
    assert(s.subrange(i, i + a.len() + b.len()) =~= a + b);
}

pub(crate) fn emit_list<V: Record>(out: &mut Vec<Tok>, v: &Vec<V>)
    ensures
        atoms_of(final(out)@) == atoms_of(old(out)@) + list_atoms(v@),
{
    let ghost start = atoms_of(out@);
    put(out, Tok::Nat(v.len() as u64));
    let mut i: usize = 0;
    while i < v.len()
        invariant
            i <= v@.len(),
            atoms_of(out@) == start + seq![Atom::Nat(v@.len() as u64)] + flat(v@.subrange(0, i as int)),
        decreases v@.len() - i,
    {
        v[i].emit(out);
        proof {
            lemma_flat_at(v@, i as int);
            assert(atoms_of(out@) =~= start + seq![Atom::Nat(v@.len() as u64)] + flat(
                v@.subrange(0, i + 1),
            ));
        }
        i = i + 1;
    }
    proof {
        assert(v@.subrange(0, v@.len() as int) =~= v@);
        assert(atoms_of(out@) =~= atoms_of(old(out)@) + list_atoms(v@));
    }
}

pub(crate) fn take_list<V: Record>(t: &Vec<Tok>, i: usize) -> (r: Option<(Vec<V>, usize)>)
    ensures
        r matches Some((x, j)) ==> j == i + list_atoms(x@).len() && fits(
            atoms_of(t@),
            i as int,
            list_atoms(x@),
        ),
        forall|ys: Seq<V>|
            fits(atoms_of(t@), i as int, #[trigger] list_atoms(ys)) ==> (r matches Some((x, j))
                && same_atoms(x@, ys) && j == i + list_atoms(ys).len()),
{
    if i >= t.len() {
        return None;
    }
    proof {
        assert forall|ys: Seq<V>| fits(atoms_of(t@), i as int, #[trigger] list_atoms(ys)) implies ys.len()
            < 0x1_0000_0000_0000_0000 && atoms_of(t@)[i as int] == Atom::Nat(ys.len() as u64) && fits(
            atoms_of(t@),
            i + 1,
            flat(ys),
        ) by {
            lemma_flat_len(ys);
            lemma_fits_split(
                atoms_of(t@),
                i as int,
                seq![Atom::Nat(#[verifier::truncate] (ys.len() as u64))],
                flat(ys),
            );
            assert(atoms_of(t@).subrange(i as int, i + 1)[0] == atoms_of(t@)[i as int]);
        }
    }
    let n = tok_nat(t, i)?;
    let mut x: Vec<V> = Vec::new();
    let mut pos: usize = i + 1;
    proof {
        assert(flat(x@) =~= Seq::<Atom>::empty());
        assert(atoms_of(t@).subrange(pos as int, pos as int) =~= Seq::<Atom>::empty());
    }
    while (x.len() as u64) < n
        invariant
            x@.len() <= n,
            i < t@.len(),
            atoms_of(t@)[i as int] == Atom::Nat(n),
            pos == i + 1 + flat(x@).len(),
            fits(atoms_of(t@), i + 1, flat(x@)),
            forall|ys: Seq<V>|
                fits(atoms_of(t@), i as int, #[trigger] list_atoms(ys)) ==> ys.len() == n && same_atoms(
                    x@,
                    ys.subrange(0, x@.len() as int),
                ),
        decreases n - x@.len(),
    {
        let ghost k = x@.len() as int;
        let ghost before = x@;
        proof {
            assert forall|ys: Seq<V>| fits(atoms_of(t@), i as int, #[trigger] list_atoms(ys)) implies fits(
                atoms_of(t@),
                pos as int,
                ys[k].atoms(),
            ) by {
                lemma_fits_split(atoms_of(t@), i as int, seq![Atom::Nat(ys.len() as u64)], flat(ys));
                lemma_flat_at(ys, k);
                lemma_flat_same(x@, ys.subrange(0, k));
                lemma_fits_split(
                    atoms_of(t@),
                    i + 1,
                    flat(ys.subrange(0, k)) + ys[k].atoms(),
                    flat(ys.subrange(k + 1, ys.len() as int)),
                );
                lemma_fits_split(atoms_of(t@), i + 1, flat(ys.subrange(0, k)), ys[k].atoms());
            }
        }
        let (e, q) = V::take(t, pos)?;
        x.push(e);
        proof {
            assert(x@.drop_last() =~= before);
            lemma_fits_join(atoms_of(t@), i + 1, flat(before), e.atoms());
            assert forall|ys: Seq<V>| fits(atoms_of(t@), i as int, #[trigger] list_atoms(ys)) implies ys.len()
                == n && same_atoms(x@, ys.subrange(0, x@.len() as int)) by {
                assert forall|m: int| 0 <= m < x@.len() implies #[trigger] x@[m].atoms()
                    == ys.subrange(0, x@.len() as int)[m].atoms() by {
                    if m < k {
                        assert(x@[m] == before[m]);
                        assert(before[m].atoms() == ys.subrange(0, k)[m].atoms());
                    }
                }
            }
        }
        pos = q;
    }
    proof {
        assert(atoms_of(t@).subrange(i as int, i + 1) =~= seq![Atom::Nat(n)]);
        lemma_fits_join(atoms_of(t@), i as int, seq![Atom::Nat(n)], flat(x@));
        assert(seq![Atom::Nat(n)] + flat(x@) =~= list_atoms(x@));
        assert forall|ys: Seq<V>| fits(atoms_of(t@), i as int, #[trigger] list_atoms(ys)) implies same_atoms(
            x@,
            ys,
        ) && pos == i + list_atoms(ys).len() by {
            assert(ys.subrange(0, ys.len() as int) =~= ys);
            lemma_flat_same(x@, ys);
        }
    }
    Some((x, pos))
}

pub(crate) proof fn lemma_flat_len<V: Record>(s: Seq<V>)
    ensures
        flat(s).len() >= s.len(),
    decreases s.len(),
{
    if s.len() > 0 {
        lemma_flat_len(s.drop_last());
        s.last().lemma_key_first();
    }
}

pub open spec fn post_status_code(s: PostStatus) -> u64 {
    match s {
        PostStatus::Draft => 0,
        PostStatus::Scheduled => 1,
        PostStatus::Published => 2,
        PostStatus::Archived => 3,
    }
}

pub(crate) fn post_status_to_code(s: PostStatus) -> (r: u64)
    ensures
        r == post_status_code(s),
{
    match s {
        PostStatus::Draft => 0,
        PostStatus::Scheduled => 1,
        PostStatus::Published => 2,
        PostStatus::Archived => 3,
    }
}

pub(crate) fn post_status_of_code(k: u64) -> (r: Option<PostStatus>)
    ensures
        r matches Some(s) ==> post_status_code(s) == k,
        forall|s: PostStatus| post_status_code(s) == k ==> r == Some(s),
{
    if k == 0 {
        Some(PostStatus::Draft)
    } else if k == 1 {
        Some(PostStatus::Scheduled)
    } else if k == 2 {
        Some(PostStatus::Published)
    } else if k == 3 {
        Some(PostStatus::Archived)
    } else {
        None
    }
}

pub open spec fn site_status_code(s: SiteStatus) -> u64 {
    match s {
        SiteStatus::Active => 0,
        SiteStatus::Building => 1,
        SiteStatus::Failed => 2,
        SiteStatus::Suspended => 3,
        SiteStatus::Archived => 4,
    }
}

pub(crate) fn site_status_to_code(s: SiteStatus) -> (r: u64)
    ensures
        r == site_status_code(s),
{
    match s {
        SiteStatus::Active => 0,
        SiteStatus::Building => 1,
        SiteStatus::Failed => 2,
        SiteStatus::Suspended => 3,
        SiteStatus::Archived => 4,
    }
}

pub(crate) fn site_status_of_code(k: u64) -> (r: Option<SiteStatus>)
    ensures
        r matches Some(s) ==> site_status_code(s) == k,
        forall|s: SiteStatus| site_status_code(s) == k ==> r == Some(s),
{
    if k == 0 {
        Some(SiteStatus::Active)
    } else if k == 1 {
        Some(SiteStatus::Building)
    } else if k == 2 {
        Some(SiteStatus::Failed)
    } else if k == 3 {
        Some(SiteStatus::Suspended)
    } else if k == 4 {
        Some(SiteStatus::Archived)
    } else {
        None
    }
}

pub open spec fn user_status_code(s: UserStatus) -> u64 {
    match s {
        UserStatus::Active => 0,
        UserStatus::Pending => 1,
        UserStatus::Suspended => 2,
        UserStatus::Deleted => 3,
    }
}

pub(crate) fn user_status_to_code(s: UserStatus) -> (r: u64)
    ensures
        r == user_status_code(s),
{
    match s {
        UserStatus::Active => 0,
        UserStatus::Pending => 1,
        UserStatus::Suspended => 2,
        UserStatus::Deleted => 3,
    }
}

pub(crate) fn user_status_of_code(k: u64) -> (r: Option<UserStatus>)
    ensures
        r matches Some(s) ==> user_status_code(s) == k,
        forall|s: UserStatus| user_status_code(s) == k ==> r == Some(s),
{
    if k == 0 {
        Some(UserStatus::Active)
    } else if k == 1 {
        Some(UserStatus::Pending)
    } else if k == 2 {
        Some(UserStatus::Suspended)
    } else if k == 3 {
        Some(UserStatus::Deleted)
    } else {
        None
    }
}

/// Texts as entries of variant zero.
pub open spec fn texts_entries(v: Seq<String>) -> Seq<(u64, Seq<char>)> {
    v.map_values(|s: String| (0u64, s@))
}

pub(crate) fn texts_to_entries(v: &Vec<String>) -> (r: Vec<(u64, String)>)
    ensures
        entries_view(r@) == texts_entries(v@),
{
    let mut r: Vec<(u64, String)> = Vec::new();
    let mut i: usize = 0;
    while i < v.len()
        invariant
            i <= v@.len(),
            entries_view(r@) == texts_entries(v@.subrange(0, i as int)),
        decreases v@.len() - i,
    {
        let ghost before = r@;
        let text = v[i].clone();
        r.push((0, text));
        proof {
            assert(r@ == before.push((0u64, text)));
            assert(entries_view(r@) =~= entries_view(before).push((0u64, text@)));
            assert(texts_entries(v@.subrange(0, i + 1)) =~= texts_entries(v@.subrange(0, i as int)).push(
                (0u64, v@[i as int]@),
            ));
        }
        i = i + 1;
    }
    proof {
        assert(v@.subrange(0, v@.len() as int) =~= v@);
    }
    r
}

pub(crate) fn texts_of_entries(v: Vec<(u64, String)>) -> (r: Option<Vec<String>>)
    ensures
        r matches Some(x) ==> texts_entries(x@) == entries_view(v@),
        forall|xs: Seq<String>| texts_entries(xs) == entries_view(v@) ==> (r matches Some(x)
            && texts_entries(x@) == texts_entries(xs)),
{
    let mut r: Vec<String> = Vec::new();
    let mut i: usize = 0;
    while i < v.len()
        invariant
            i <= v@.len(),
            texts_entries(r@) == entries_view(v@.subrange(0, i as int)),
        decreases v@.len() - i,
    {
        if v[i].0 != 0 {
            proof {
                assert forall|xs: Seq<String>| texts_entries(xs) != entries_view(v@) by {
                    if texts_entries(xs) == entries_view(v@) {
                        assert(texts_entries(xs).len() == xs.len());
                        assert(texts_entries(xs)[i as int] == (0u64, xs[i as int]@));
                        assert(entries_view(v@)[i as int] == (v@[i as int].0, v@[i as int].1@));
                    }
                }
            }
            return None;
        }
        let ghost before = r@;
        let text = v[i].1.clone();
        r.push(text);
        proof {
            assert(texts_entries(r@) =~= texts_entries(before).push((0u64, text@)));
            assert(entries_view(v@.subrange(0, i + 1)) =~= entries_view(v@.subrange(0, i as int)).push(
                (v@[i as int].0, v@[i as int].1@),
            ));
        }
        i = i + 1;
    }
    proof {
        assert(v@.subrange(0, v@.len() as int) =~= v@);
    }
    Some(r)
}

/// A role as a variant number with its site (empty for the other roles).
pub open spec fn role_entry(r: Role) -> (u64, Seq<char>) {
    match r {
        Role::Admin => (0, Seq::empty()),
        Role::Content => (1, Seq::empty()),
        Role::Media => (2, Seq::empty()),
        Role::ReadOnly => (3, Seq::empty()),
        Role::SiteEditor { site_id } => (4, site_id@),
    }
}

pub open spec fn roles_entries(v: Seq<Role>) -> Seq<(u64, Seq<char>)> {
    v.map_values(|r: Role| role_entry(r))
}

pub(crate) fn role_to_entry(r: &Role) -> (e: (u64, String))
    ensures
        (e.0, e.1@) == role_entry(*r),
{
    match r {
        Role::Admin => (0, String::new()),
        Role::Content => (1, String::new()),
        Role::Media => (2, String::new()),
        Role::ReadOnly => (3, String::new()),
        Role::SiteEditor { site_id } => (4, site_id.clone()),
    }
}

pub(crate) fn role_of_entry(k: u64, s: &String) -> (r: Option<Role>)
    ensures
        r matches Some(x) ==> role_entry(x) == (k, s@),
        forall|x: Role| role_entry(x) == (k, s@) ==> (r matches Some(y) && role_entry(y) == role_entry(x)),
{
    if k == 4 {
        return Some(Role::SiteEditor { site_id: s.clone() });
    }
    if !s.as_str().is_empty() {
        return None;
    }
    if k == 0 {
        Some(Role::Admin)
    } else if k == 1 {
        Some(Role::Content)
    } else if k == 2 {
        Some(Role::Media)
    } else if k == 3 {
        Some(Role::ReadOnly)
    } else {
        None
    }
}

pub(crate) fn roles_to_entries(v: &Vec<Role>) -> (r: Vec<(u64, String)>)
    ensures
        entries_view(r@) == roles_entries(v@),
{
    let mut r: Vec<(u64, String)> = Vec::new();
    let mut i: usize = 0;
    while i < v.len()
        invariant
            i <= v@.len(),
            entries_view(r@) == roles_entries(v@.subrange(0, i as int)),
        decreases v@.len() - i,
    {
        let ghost before = r@;
        let e = role_to_entry(&v[i]);
        r.push(e);
        proof {
            assert(r@ == before.push(e));
            assert(entries_view(r@) =~= entries_view(before).push((e.0, e.1@)));
            assert(roles_entries(v@.subrange(0, i + 1)) =~= roles_entries(v@.subrange(0, i as int)).push(
                role_entry(v@[i as int]),
            ));
        }
        i = i + 1;
    }
    proof {
        assert(v@.subrange(0, v@.len() as int) =~= v@);
    }
    r
}

pub(crate) fn roles_of_entries(v: Vec<(u64, String)>) -> (r: Option<Vec<Role>>)
    ensures
        r matches Some(x) ==> roles_entries(x@) == entries_view(v@),
        forall|xs: Seq<Role>| roles_entries(xs) == entries_view(v@) ==> (r matches Some(x)
            && roles_entries(x@) == roles_entries(xs)),
{
    let mut r: Vec<Role> = Vec::new();
    let mut i: usize = 0;
    while i < v.len()
        invariant
            i <= v@.len(),
            roles_entries(r@) == entries_view(v@.subrange(0, i as int)),
        decreases v@.len() - i,
    {
        let ghost before = r@;
        match role_of_entry(v[i].0, &v[i].1) {
            Some(role) => {
                r.push(role);
                proof {
                    assert(roles_entries(r@) =~= roles_entries(before).push(role_entry(role)));
                    assert(entries_view(v@.subrange(0, i + 1)) =~= entries_view(
                        v@.subrange(0, i as int),
                    ).push((v@[i as int].0, v@[i as int].1@)));
                }
            },
            None => {
                proof {
                    assert forall|xs: Seq<Role>| roles_entries(xs) != entries_view(v@) by {
                        if roles_entries(xs) == entries_view(v@) {
                            assert(roles_entries(xs).len() == xs.len());
                            assert(roles_entries(xs)[i as int] == role_entry(xs[i as int]));
                            assert(entries_view(v@)[i as int] == (v@[i as int].0, v@[i as int].1@));
                        }
                    }
                }
                return None;
            },
        }
        i = i + 1;
    }
    proof {
        assert(v@.subrange(0, v@.len() as int) =~= v@);
    }
    Some(r)
}

/// A visibility as a variant number with its password (empty for the others).
pub open spec fn visibility_entry(v: GalleryVisibility) -> (u64, Seq<char>) {
    match v {
        GalleryVisibility::Public => (0, Seq::empty()),
        GalleryVisibility::Password { password } => (1, password@),
        GalleryVisibility::MembersOnly => (2, Seq::empty()),
        GalleryVisibility::Hidden => (3, Seq::empty()),
    }
}

pub(crate) fn visibility_to_tok(v: &GalleryVisibility) -> (r: Tok)
    ensures
        r@ == Atom::Variant(visibility_entry(*v).0, visibility_entry(*v).1),
{
    match v {
        GalleryVisibility::Public => Tok::Variant(0, String::new()),
        GalleryVisibility::Password { password } => Tok::Variant(1, password.clone()),
        GalleryVisibility::MembersOnly => Tok::Variant(2, String::new()),
        GalleryVisibility::Hidden => Tok::Variant(3, String::new()),
    }
}

pub(crate) fn visibility_of_entry(k: u64, s: String) -> (r: Option<GalleryVisibility>)
    ensures
        r matches Some(x) ==> visibility_entry(x) == (k, s@),
        forall|x: GalleryVisibility| visibility_entry(x) == (k, s@) ==> (r matches Some(y)
            && visibility_entry(y) == visibility_entry(x)),
{
    if k == 1 {
        return Some(GalleryVisibility::Password { password: s });
    }
    if !s.as_str().is_empty() {
        return None;
    }
    if k == 0 {
        Some(GalleryVisibility::Public)
    } else if k == 2 {
        Some(GalleryVisibility::MembersOnly)
    } else if k == 3 {
        Some(GalleryVisibility::Hidden)
    } else {
        None
    }
}

/// A video source as a variant number with its identifier, URL or embed code.
pub open spec fn source_entry(v: VideoSource) -> (u64, Seq<char>) {
    match v {
        VideoSource::YouTube { video_id } => (0, video_id@),
        VideoSource::Vimeo { video_id } => (1, video_id@),
        VideoSource::Direct { url } => (2, url@),
        VideoSource::External { embed_code } => (3, embed_code@),
    }
}

pub(crate) fn source_to_tok(v: &VideoSource) -> (r: Tok)
    ensures
        r@ == Atom::Variant(source_entry(*v).0, source_entry(*v).1),
{
    match v {
        VideoSource::YouTube { video_id } => Tok::Variant(0, video_id.clone()),
        VideoSource::Vimeo { video_id } => Tok::Variant(1, video_id.clone()),
        VideoSource::Direct { url } => Tok::Variant(2, url.clone()),
        VideoSource::External { embed_code } => Tok::Variant(3, embed_code.clone()),
    }
}

pub(crate) fn source_of_entry(k: u64, s: String) -> (r: Option<VideoSource>)
    ensures
        r matches Some(x) ==> source_entry(x) == (k, s@),
        forall|x: VideoSource| source_entry(x) == (k, s@) ==> (r matches Some(y) && source_entry(y)
            == source_entry(x)),
{
    if k == 0 {
        Some(VideoSource::YouTube { video_id: s })
    } else if k == 1 {
        Some(VideoSource::Vimeo { video_id: s })
    } else if k == 2 {
        Some(VideoSource::Direct { url: s })
    } else if k == 3 {
        Some(VideoSource::External { embed_code: s })
    } else {
        None
    }
}

impl Record for BlogPost {
    open spec fn atoms(&self) -> Seq<Atom> {
        seq![
            Atom::Text(self.id@),
            Atom::Text(self.site_id@),
            Atom::Text(self.title@),
            Atom::Text(self.slug@),
            Atom::Text(self.content@),
            opt_text_atom(self.excerpt),
            opt_text_atom(self.cover_image_id),
            Atom::Text(self.author_id@),
            Atom::Nat(post_status_code(self.status)),
            opt_int_atom(self.published_at),
            Atom::Int(self.created_at),
            Atom::Int(self.updated_at),
        ]
    }

    proof fn lemma_key_first(&self) {
    }

    fn emit(&self, out: &mut Vec<Tok>) {
        let ghost start = atoms_of(out@);
        put(out, Tok::Text(self.id.clone()));
        put(out, Tok::Text(self.site_id.clone()));
        put(out, Tok::Text(self.title.clone()));
        put(out, Tok::Text(self.slug.clone()));
        put(out, Tok::Text(self.content.clone()));
        put(out, opt_text_tok(&self.excerpt));
        put(out, opt_text_tok(&self.cover_image_id));
        put(out, Tok::Text(self.author_id.clone()));
        put(out, Tok::Nat(post_status_to_code(self.status)));
        put(out, opt_int_tok(self.published_at));
        put(out, Tok::Int(self.created_at));
        put(out, Tok::Int(self.updated_at));
        proof {
            assert(atoms_of(out@) =~= start + self.atoms());
        }
    }

    fn take(t: &Vec<Tok>, i: usize) -> (r: Option<(Self, usize)>) {
        proof {
            assert forall|y: BlogPost| fits(atoms_of(t@), i as int, #[trigger] y.atoms()) implies t@.len()
                >= i + 12 by {
                lemma_fits_at(atoms_of(t@), i as int, y.atoms());
            }
        }
        if i > t.len() || t.len() - i < 12 {
            return None;
        }
        proof {
            assert forall|y: BlogPost| fits(atoms_of(t@), i as int, #[trigger] y.atoms()) implies {
                let s = atoms_of(t@);
                &&& s[i + 0] == Atom::Text(y.id@)
                &&& s[i + 1] == Atom::Text(y.site_id@)
                &&& s[i + 2] == Atom::Text(y.title@)
                &&& s[i + 3] == Atom::Text(y.slug@)
                &&& s[i + 4] == Atom::Text(y.content@)
                &&& s[i + 5] == opt_text_atom(y.excerpt)
                &&& s[i + 6] == opt_text_atom(y.cover_image_id)
                &&& s[i + 7] == Atom::Text(y.author_id@)
                &&& s[i + 8] == Atom::Nat(post_status_code(y.status))
                &&& s[i + 9] == opt_int_atom(y.published_at)
                &&& s[i + 10] == Atom::Int(y.created_at)
                &&& s[i + 11] == Atom::Int(y.updated_at)
            } by {
                lemma_fits_at(atoms_of(t@), i as int, y.atoms());
            }
        }
        let id = tok_text(t, i + 0)?;
        let site_id = tok_text(t, i + 1)?;
        let title = tok_text(t, i + 2)?;
        let slug = tok_text(t, i + 3)?;
        let content = tok_text(t, i + 4)?;
        let excerpt = tok_opt_text(t, i + 5)?;
        let cover_image_id = tok_opt_text(t, i + 6)?;
        let author_id = tok_text(t, i + 7)?;
        let status = post_status_of_code(tok_nat(t, i + 8)?)?;
        let published_at = tok_opt_int(t, i + 9)?;
        let created_at = tok_int(t, i + 10)?;
        let updated_at = tok_int(t, i + 11)?;
        let x = BlogPost {
            id,
            site_id,
            title,
            slug,
            content,
            excerpt,
            cover_image_id,
            author_id,
            status,
            published_at,
            created_at,
            updated_at,
        };
        proof {
            assert(atoms_of(t@).subrange(i as int, i + 12) =~= x.atoms());
        }
        Some((x, i + 12))
    }
}

impl Record for Site {
    open spec fn atoms(&self) -> Seq<Atom> {
        seq![
            Atom::Text(self.id@),
            Atom::Text(self.slug@),
            Atom::Text(self.name@),
            opt_text_atom(self.domain),
            opt_text_atom(self.description),
            Atom::Text(self.owner_id@),
            Atom::Entries(texts_entries(self.member_ids@)),
            Atom::Text(self.theme@),
            Atom::Text(self.config@),
            Atom::Nat(site_status_code(self.status)),
            Atom::Int(self.created_at),
        ]
    }

    proof fn lemma_key_first(&self) {
    }

    fn emit(&self, out: &mut Vec<Tok>) {
        let ghost start = atoms_of(out@);
        put(out, Tok::Text(self.id.clone()));
        put(out, Tok::Text(self.slug.clone()));
        put(out, Tok::Text(self.name.clone()));
        put(out, opt_text_tok(&self.domain));
        put(out, opt_text_tok(&self.description));
        put(out, Tok::Text(self.owner_id.clone()));
        put(out, Tok::Entries(texts_to_entries(&self.member_ids)));
        put(out, Tok::Text(self.theme.clone()));
        put(out, Tok::Text(self.config.clone()));
        put(out, Tok::Nat(site_status_to_code(self.status)));
        put(out, Tok::Int(self.created_at));
        proof {
            assert(atoms_of(out@) =~= start + self.atoms());
        }
    }

    fn take(t: &Vec<Tok>, i: usize) -> (r: Option<(Self, usize)>) {
        proof {
            assert forall|y: Site| fits(atoms_of(t@), i as int, #[trigger] y.atoms()) implies t@.len()
                >= i + 11 by {
                lemma_fits_at(atoms_of(t@), i as int, y.atoms());
            }
        }
        if i > t.len() || t.len() - i < 11 {
            return None;
        }
        proof {
            assert forall|y: Site| fits(atoms_of(t@), i as int, #[trigger] y.atoms()) implies {
                let s = atoms_of(t@);
                &&& s[i + 0] == Atom::Text(y.id@)
                &&& s[i + 1] == Atom::Text(y.slug@)
                &&& s[i + 2] == Atom::Text(y.name@)
                &&& s[i + 3] == opt_text_atom(y.domain)
                &&& s[i + 4] == opt_text_atom(y.description)
                &&& s[i + 5] == Atom::Text(y.owner_id@)
                &&& s[i + 6] == Atom::Entries(texts_entries(y.member_ids@))
                &&& s[i + 7] == Atom::Text(y.theme@)
                &&& s[i + 8] == Atom::Text(y.config@)
                &&& s[i + 9] == Atom::Nat(site_status_code(y.status))
                &&& s[i + 10] == Atom::Int(y.created_at)
            } by {
                lemma_fits_at(atoms_of(t@), i as int, y.atoms());
            }
        }
        let id = tok_text(t, i + 0)?;
        let slug = tok_text(t, i + 1)?;
        let name = tok_text(t, i + 2)?;
        let domain = tok_opt_text(t, i + 3)?;
        let description = tok_opt_text(t, i + 4)?;
        let owner_id = tok_text(t, i + 5)?;
        let member_ids = texts_of_entries(tok_entries(t, i + 6)?)?;
        let theme = tok_text(t, i + 7)?;
        let config = tok_text(t, i + 8)?;
        let status = site_status_of_code(tok_nat(t, i + 9)?)?;
        let created_at = tok_int(t, i + 10)?;
        let x = Site {
            id,
            slug,
            name,
            domain,
            description,
            owner_id,
            member_ids,
            theme,
            config,
            status,
            created_at,
        };
        proof {
            assert(atoms_of(t@).subrange(i as int, i + 11) =~= x.atoms());
        }
        Some((x, i + 11))
    }
}

impl Record for Song {
    open spec fn atoms(&self) -> Seq<Atom> {
        seq![
            Atom::Text(self.id@),
            Atom::Text(self.site_id@),
            Atom::Text(self.title@),
            opt_text_atom(self.artist),
            Atom::Entries(texts_entries(self.genres@)),
            opt_small_atom(self.duration_seconds),
            Atom::Flag(self.is_original),
            opt_text_atom(self.musical_key),
            opt_text_atom(self.notes),
            Atom::Int(self.created_at),
        ]
    }

    proof fn lemma_key_first(&self) {
    }

    fn emit(&self, out: &mut Vec<Tok>) {
        let ghost start = atoms_of(out@);
        put(out, Tok::Text(self.id.clone()));
        put(out, Tok::Text(self.site_id.clone()));
        put(out, Tok::Text(self.title.clone()));
        put(out, opt_text_tok(&self.artist));
        put(out, Tok::Entries(texts_to_entries(&self.genres)));
        put(out, opt_small_tok(self.duration_seconds));
        put(out, Tok::Flag(self.is_original));
        put(out, opt_text_tok(&self.musical_key));
        put(out, opt_text_tok(&self.notes));
        put(out, Tok::Int(self.created_at));
        proof {
            assert(atoms_of(out@) =~= start + self.atoms());
        }
    }

    fn take(t: &Vec<Tok>, i: usize) -> (r: Option<(Self, usize)>) {
        proof {
            assert forall|y: Song| fits(atoms_of(t@), i as int, #[trigger] y.atoms()) implies t@.len()
                >= i + 10 by {
                lemma_fits_at(atoms_of(t@), i as int, y.atoms());
            }
        }
        if i > t.len() || t.len() - i < 10 {
            return None;
        }
        proof {
            assert forall|y: Song| fits(atoms_of(t@), i as int, #[trigger] y.atoms()) implies {
                let s = atoms_of(t@);
                &&& s[i + 0] == Atom::Text(y.id@)
                &&& s[i + 1] == Atom::Text(y.site_id@)
                &&& s[i + 2] == Atom::Text(y.title@)
                &&& s[i + 3] == opt_text_atom(y.artist)
                &&& s[i + 4] == Atom::Entries(texts_entries(y.genres@))
                &&& s[i + 5] == opt_small_atom(y.duration_seconds)
                &&& s[i + 6] == Atom::Flag(y.is_original)
                &&& s[i + 7] == opt_text_atom(y.musical_key)
                &&& s[i + 8] == opt_text_atom(y.notes)
                &&& s[i + 9] == Atom::Int(y.created_at)
            } by {
                lemma_fits_at(atoms_of(t@), i as int, y.atoms());
            }
        }
        let id = tok_text(t, i + 0)?;
        let site_id = tok_text(t, i + 1)?;
        let title = tok_text(t, i + 2)?;
        let artist = tok_opt_text(t, i + 3)?;
        let genres = texts_of_entries(tok_entries(t, i + 4)?)?;
        let duration_seconds = tok_opt_small(t, i + 5)?;
        let is_original = tok_flag(t, i + 6)?;
        let musical_key = tok_opt_text(t, i + 7)?;
        let notes = tok_opt_text(t, i + 8)?;
        let created_at = tok_int(t, i + 9)?;
        let x = Song {
            id,
            site_id,
            title,
            artist,
            genres,
            duration_seconds,
            is_original,
            musical_key,
            notes,
            created_at,
        };
        proof {
            assert(atoms_of(t@).subrange(i as int, i + 10) =~= x.atoms());
        }
        Some((x, i + 10))
    }
}

impl Record for Photo {
    open spec fn atoms(&self) -> Seq<Atom> {
        seq![
            Atom::Text(self.id@),
            Atom::Text(self.site_id@),
            Atom::Text(self.filename@),
            Atom::Text(self.url_full@),
            Atom::Text(self.url_thumb@),
            Atom::Int(self.size_bytes),
            Atom::Int(self.dimensions.width as i64),
            Atom::Int(self.dimensions.height as i64),
            opt_text_atom(self.alt_text),
            opt_text_atom(self.caption),
            Atom::Entries(texts_entries(self.tags@)),
            Atom::Int(self.uploaded_at),
            Atom::Text(self.uploaded_by@),
        ]
    }

    proof fn lemma_key_first(&self) {
    }

    fn emit(&self, out: &mut Vec<Tok>) {
        let ghost start = atoms_of(out@);
        put(out, Tok::Text(self.id.clone()));
        put(out, Tok::Text(self.site_id.clone()));
        put(out, Tok::Text(self.filename.clone()));
        put(out, Tok::Text(self.url_full.clone()));
        put(out, Tok::Text(self.url_thumb.clone()));
        put(out, Tok::Int(self.size_bytes));
        put(out, Tok::Int(self.dimensions.width as i64));
        put(out, Tok::Int(self.dimensions.height as i64));
        put(out, opt_text_tok(&self.alt_text));
        put(out, opt_text_tok(&self.caption));
        put(out, Tok::Entries(texts_to_entries(&self.tags)));
        put(out, Tok::Int(self.uploaded_at));
        put(out, Tok::Text(self.uploaded_by.clone()));
        proof {
            assert(atoms_of(out@) =~= start + self.atoms());
        }
    }

    fn take(t: &Vec<Tok>, i: usize) -> (r: Option<(Self, usize)>) {
        proof {
            assert forall|y: Photo| fits(atoms_of(t@), i as int, #[trigger] y.atoms()) implies t@.len()
                >= i + 13 by {
                lemma_fits_at(atoms_of(t@), i as int, y.atoms());
            }
        }
        if i > t.len() || t.len() - i < 13 {
            return None;
        }
        proof {
            assert forall|y: Photo| fits(atoms_of(t@), i as int, #[trigger] y.atoms()) implies {
                let s = atoms_of(t@);
                &&& s[i + 0] == Atom::Text(y.id@)
                &&& s[i + 1] == Atom::Text(y.site_id@)
                &&& s[i + 2] == Atom::Text(y.filename@)
                &&& s[i + 3] == Atom::Text(y.url_full@)
                &&& s[i + 4] == Atom::Text(y.url_thumb@)
                &&& s[i + 5] == Atom::Int(y.size_bytes)
                &&& s[i + 6] == Atom::Int(y.dimensions.width as i64)
                &&& s[i + 7] == Atom::Int(y.dimensions.height as i64)
                &&& s[i + 8] == opt_text_atom(y.alt_text)
                &&& s[i + 9] == opt_text_atom(y.caption)
                &&& s[i + 10] == Atom::Entries(texts_entries(y.tags@))
                &&& s[i + 11] == Atom::Int(y.uploaded_at)
                &&& s[i + 12] == Atom::Text(y.uploaded_by@)
            } by {
                lemma_fits_at(atoms_of(t@), i as int, y.atoms());
            }
        }
        let id = tok_text(t, i + 0)?;
        let site_id = tok_text(t, i + 1)?;
        let filename = tok_text(t, i + 2)?;
        let url_full = tok_text(t, i + 3)?;
        let url_thumb = tok_text(t, i + 4)?;
        let size_bytes = tok_int(t, i + 5)?;
        let dimensions_width = tok_small(t, i + 6)?;
        let dimensions_height = tok_small(t, i + 7)?;
        let alt_text = tok_opt_text(t, i + 8)?;
        let caption = tok_opt_text(t, i + 9)?;
        let tags = texts_of_entries(tok_entries(t, i + 10)?)?;
        let uploaded_at = tok_int(t, i + 11)?;
        let uploaded_by = tok_text(t, i + 12)?;
        let x = Photo {
            id,
            site_id,
            filename,
            url_full,
            url_thumb,
            size_bytes,
            dimensions: ImageDimensions { width: dimensions_width, height: dimensions_height },
            alt_text,
            caption,
            tags,
            uploaded_at,
            uploaded_by,
        };
        proof {
            assert(atoms_of(t@).subrange(i as int, i + 13) =~= x.atoms());
        }
        Some((x, i + 13))
    }
}

impl Record for Video {
    open spec fn atoms(&self) -> Seq<Atom> {
        seq![
            Atom::Text(self.id@),
            Atom::Text(self.site_id@),
            Atom::Text(self.title@),
            opt_text_atom(self.description),
            Atom::Variant(source_entry(self.source).0, source_entry(self.source).1),
            opt_text_atom(self.thumbnail_url),
            opt_small_atom(self.duration_seconds),
            Atom::Variant(visibility_entry(self.visibility).0, visibility_entry(self.visibility).1),
            Atom::Int(self.view_count),
            Atom::Int(self.published_at),
        ]
    }

    proof fn lemma_key_first(&self) {
    }

    fn emit(&self, out: &mut Vec<Tok>) {
        let ghost start = atoms_of(out@);
        put(out, Tok::Text(self.id.clone()));
        put(out, Tok::Text(self.site_id.clone()));
        put(out, Tok::Text(self.title.clone()));
        put(out, opt_text_tok(&self.description));
        put(out, source_to_tok(&self.source));
        put(out, opt_text_tok(&self.thumbnail_url));
        put(out, opt_small_tok(self.duration_seconds));
        put(out, visibility_to_tok(&self.visibility));
        put(out, Tok::Int(self.view_count));
        put(out, Tok::Int(self.published_at));
        proof {
            assert(atoms_of(out@) =~= start + self.atoms());
        }
    }

    fn take(t: &Vec<Tok>, i: usize) -> (r: Option<(Self, usize)>) {
        proof {
            assert forall|y: Video| fits(atoms_of(t@), i as int, #[trigger] y.atoms()) implies t@.len()
                >= i + 10 by {
                lemma_fits_at(atoms_of(t@), i as int, y.atoms());
            }
        }
        if i > t.len() || t.len() - i < 10 {
            return None;
        }
        proof {
            assert forall|y: Video| fits(atoms_of(t@), i as int, #[trigger] y.atoms()) implies {
                let s = atoms_of(t@);
                &&& s[i + 0] == Atom::Text(y.id@)
                &&& s[i + 1] == Atom::Text(y.site_id@)
                &&& s[i + 2] == Atom::Text(y.title@)
                &&& s[i + 3] == opt_text_atom(y.description)
                &&& s[i + 4] == Atom::Variant(source_entry(y.source).0, source_entry(y.source).1)
                &&& s[i + 5] == opt_text_atom(y.thumbnail_url)
                &&& s[i + 6] == opt_small_atom(y.duration_seconds)
                &&& s[i + 7] == Atom::Variant(visibility_entry(y.visibility).0, visibility_entry(y.visibility).1)
                &&& s[i + 8] == Atom::Int(y.view_count)
                &&& s[i + 9] == Atom::Int(y.published_at)
            } by {
                lemma_fits_at(atoms_of(t@), i as int, y.atoms());
            }
        }
        let id = tok_text(t, i + 0)?;
        let site_id = tok_text(t, i + 1)?;
        let title = tok_text(t, i + 2)?;
        let description = tok_opt_text(t, i + 3)?;
        let (source_k, source_s) = tok_variant(t, i + 4)?;
        let source = source_of_entry(source_k, source_s)?;
        let thumbnail_url = tok_opt_text(t, i + 5)?;
        let duration_seconds = tok_opt_small(t, i + 6)?;
        let (visibility_k, visibility_s) = tok_variant(t, i + 7)?;
        let visibility = visibility_of_entry(visibility_k, visibility_s)?;
        let view_count = tok_int(t, i + 8)?;
        let published_at = tok_int(t, i + 9)?;
        let x = Video {
            id,
            site_id,
            title,
            description,
            source,
            thumbnail_url,
            duration_seconds,
            visibility,
            view_count,
            published_at,
        };
        proof {
            assert(atoms_of(t@).subrange(i as int, i + 10) =~= x.atoms());
        }
        Some((x, i + 10))
    }
}

impl Record for User {
    open spec fn atoms(&self) -> Seq<Atom> {
        seq![
            Atom::Text(self.id@),
            Atom::Text(self.email@),
            Atom::Text(self.name@),
            Atom::Entries(roles_entries(self.roles@)),
            Atom::Nat(user_status_code(self.status)),
            Atom::Int(self.created_at),
            opt_int_atom(self.last_login),
        ]
    }

    proof fn lemma_key_first(&self) {
    }

    fn emit(&self, out: &mut Vec<Tok>) {
        let ghost start = atoms_of(out@);
        put(out, Tok::Text(self.id.clone()));
        put(out, Tok::Text(self.email.clone()));
        put(out, Tok::Text(self.name.clone()));
        put(out, Tok::Entries(roles_to_entries(&self.roles)));
        put(out, Tok::Nat(user_status_to_code(self.status)));
        put(out, Tok::Int(self.created_at));
        put(out, opt_int_tok(self.last_login));
        proof {
            assert(atoms_of(out@) =~= start + self.atoms());
        }
    }

    fn take(t: &Vec<Tok>, i: usize) -> (r: Option<(Self, usize)>) {
        proof {
            assert forall|y: User| fits(atoms_of(t@), i as int, #[trigger] y.atoms()) implies t@.len()
                >= i + 7 by {
                lemma_fits_at(atoms_of(t@), i as int, y.atoms());
            }
        }
        if i > t.len() || t.len() - i < 7 {
            return None;
        }
        proof {
            assert forall|y: User| fits(atoms_of(t@), i as int, #[trigger] y.atoms()) implies {
                let s = atoms_of(t@);
                &&& s[i + 0] == Atom::Text(y.id@)
                &&& s[i + 1] == Atom::Text(y.email@)
                &&& s[i + 2] == Atom::Text(y.name@)
                &&& s[i + 3] == Atom::Entries(roles_entries(y.roles@))
                &&& s[i + 4] == Atom::Nat(user_status_code(y.status))
                &&& s[i + 5] == Atom::Int(y.created_at)
                &&& s[i + 6] == opt_int_atom(y.last_login)
            } by {
                lemma_fits_at(atoms_of(t@), i as int, y.atoms());
            }
        }
        let id = tok_text(t, i + 0)?;
        let email = tok_text(t, i + 1)?;
        let name = tok_text(t, i + 2)?;
        let roles = roles_of_entries(tok_entries(t, i + 3)?)?;
        let status = user_status_of_code(tok_nat(t, i + 4)?)?;
        let created_at = tok_int(t, i + 5)?;
        let last_login = tok_opt_int(t, i + 6)?;
        let x = User {
            id,
            email,
            name,
            roles,
            status,
            created_at,
            last_login,
        };
        proof {
            assert(atoms_of(t@).subrange(i as int, i + 7) =~= x.atoms());
        }
        Some((x, i + 7))
    }
}

} // verus!
