//! The byte form of a serialised replica: atoms (integers, flags, texts and
//! lists of texts), each a tag byte followed by its content.

use vstd::prelude::*;

use vstd::bytes::{
    lemma_auto_spec_u64_to_from_le_bytes, spec_u64_to_le_bytes, u64_from_le_bytes, u64_to_le_bytes,
};
use vstd::slice::{slice_subrange, slice_to_vec};
use vstd::utf8::{decode_utf8, decode_utf8_encode_utf8, encode_utf8, encode_utf8_decode_utf8, valid_utf8};

verus! {

// ---------------------------------------------------------------------------
// Byte layout of the primitive pieces
// ---------------------------------------------------------------------------

/// Eight little-endian bytes.
pub open spec fn le(x: u64) -> Seq<u8> {
    spec_u64_to_le_bytes(x)
}

/// A text: its UTF-8 length as eight little-endian bytes, then its UTF-8 bytes.
pub open spec fn body(s: Seq<char>) -> Seq<u8> {
    le(encode_utf8(s).len() as u64) + encode_utf8(s)
}

/// `p` occurs in `b` at `pos`.
pub open spec fn occurs_at(b: Seq<u8>, pos: int, p: Seq<u8>) -> bool {
    0 <= pos && pos + p.len() <= b.len() && b.subrange(pos, pos + p.len()) == p
}

pub(crate) proof fn lemma_le_len(x: u64)
    ensures
        le(x).len() == 8,
{
    lemma_auto_spec_u64_to_from_le_bytes();
}

/// Relies on std's `String::from_utf8`: it succeeds exactly on valid UTF-8,
/// and the string then holds the characters that the bytes encode.
#[verifier::external_body]
pub(crate) fn string_from_utf8(bytes: Vec<u8>) -> (r: Option<String>)
    ensures
        r is Some <==> valid_utf8(bytes@),
        r is Some ==> r->0@ == decode_utf8(bytes@),
{
    String::from_utf8(bytes).ok()
}

pub(crate) fn append_bytes(out: &mut Vec<u8>, src: &[u8])
    ensures
        final(out)@ == old(out)@ + src@,
{
    let ghost start = out@;
    let mut i: usize = 0;
    while i < src.len()
        invariant
            i <= src@.len(),
            out@ == start + src@.subrange(0, i as int),
        decreases src@.len() - i,
    {
        out.push(src[i]);
        i = i + 1;
        proof {
            assert(out@ =~= start + src@.subrange(0, i as int));
        }
    }
    proof {
        assert(src@.subrange(0, src@.len() as int) =~= src@);
    }
}

pub(crate) fn write_le(out: &mut Vec<u8>, x: u64)
    ensures
        final(out)@ == old(out)@ + le(x),
{
    let b = u64_to_le_bytes(x);
    append_bytes(out, b.as_slice());
}

pub(crate) fn write_body(out: &mut Vec<u8>, s: &String)
    ensures
        final(out)@ == old(out)@ + body(s@),
{
    let b = s.as_str().as_bytes();
    write_le(out, b.len() as u64);
    append_bytes(out, b);
    proof {
        assert(out@ =~= old(out)@ + body(s@));
    }
}

pub(crate) fn read_le(b: &[u8], pos: usize) -> (r: Option<(u64, usize)>)
    ensures
        r matches Some((x, q)) ==> q == pos + 8 && occurs_at(b@, pos as int, le(x)),
        forall|y: u64| occurs_at(b@, pos as int, le(y)) ==> r == Some((y, (pos + 8) as usize)),
{
    proof {
        lemma_auto_spec_u64_to_from_le_bytes();
    }
    if pos > b.len() || b.len() - pos < 8 {
        return None;
    }
    let s = slice_subrange(b, pos, pos + 8);
    let x = u64_from_le_bytes(s);
    proof {
        assert(le(x) == s@);
    }
    Some((x, pos + 8))
}

pub(crate) fn read_body(b: &[u8], pos: usize) -> (r: Option<(String, usize)>)
    ensures
        r matches Some((x, q)) ==> q == pos + body(x@).len() && occurs_at(b@, pos as int, body(x@)),
        forall|y: Seq<char>|
            occurs_at(b@, pos as int, #[trigger] body(y)) ==> (r matches Some((x, q)) && x@ == y && q
                == pos + body(y).len()),
{
    proof {
        lemma_auto_spec_u64_to_from_le_bytes();
    }
    let (n, p) = match read_le(b, pos) {
        Some(x) => x,
        None => {
            proof {
                assert forall|y: Seq<char>| !occurs_at(b@, pos as int, #[trigger] body(y)) by {
                    if occurs_at(b@, pos as int, body(y)) {
                        let l = encode_utf8(y).len() as u64;
                        assert(b@.subrange(pos as int, pos + 8) =~= body(y).subrange(0, 8));
                        assert(body(y).subrange(0, 8) =~= le(l));
                    }
                }
            }
            return None;
        },
    };
    if n > (b.len() - p) as u64 {
        proof {
            assert forall|y: Seq<char>| !occurs_at(b@, pos as int, #[trigger] body(y)) by {
                if occurs_at(b@, pos as int, body(y)) {
                    let l = encode_utf8(y).len() as u64;
                    assert(b@.subrange(pos as int, pos + 8) =~= body(y).subrange(0, 8));
                    assert(body(y).subrange(0, 8) =~= le(l));
                }
            }
        }
        return None;
    }
    let end = p + n as usize;
    let raw = slice_to_vec(slice_subrange(b, p, end));
    let ghost bytes = raw@;
    match string_from_utf8(raw) {
        Some(s) => {
            proof {
                decode_utf8_encode_utf8(bytes);
                assert(b@.subrange(pos as int, end as int) =~= le(n) + bytes);
                assert(occurs_at(b@, pos as int, body(s@)));
                assert forall|y: Seq<char>| occurs_at(b@, pos as int, #[trigger] body(y)) implies s@
                    == y && end == pos + body(y).len() by {
                    let l = encode_utf8(y).len() as u64;
                    assert(b@.subrange(pos as int, pos + 8) =~= body(y).subrange(0, 8));
                    assert(body(y).subrange(0, 8) =~= le(l));
                    assert(l == n);
                    assert(encode_utf8(y).len() < 0x1_0000_0000_0000_0000);
                    assert(bytes =~= body(y).subrange(8, body(y).len() as int));
                    assert(bytes =~= encode_utf8(y));
                    encode_utf8_decode_utf8(y);
                }
            }
            Some((s, end))
        },
        None => {
            proof {
                assert forall|y: Seq<char>| !occurs_at(b@, pos as int, #[trigger] body(y)) by {
                    if occurs_at(b@, pos as int, body(y)) {
                        let l = encode_utf8(y).len() as u64;
                        assert(b@.subrange(pos as int, pos + 8) =~= body(y).subrange(0, 8));
                        assert(body(y).subrange(0, 8) =~= le(l));
                        assert(bytes =~= body(y).subrange(8, body(y).len() as int));
                        assert(bytes =~= encode_utf8(y));
                        vstd::utf8::encode_utf8_valid_utf8(y);
                    }
                }
            }
            None
        },
    }
}

// ---------------------------------------------------------------------------
// Atoms: the plain values that a replica is written as
// ---------------------------------------------------------------------------

/// One plain value of the serialised form.
pub enum Atom {
    Int(i64),
    Nat(u64),
    Flag(bool),
    Nothing,
    Text(Seq<char>),
    /// A variant number with a text (empty where the variant carries none).
    Variant(u64, Seq<char>),
    /// A list of variant numbers with texts.
    Entries(Seq<(u64, Seq<char>)>),
}

/// The bytes of a list of entries.
pub open spec fn entries_bytes(v: Seq<(u64, Seq<char>)>) -> Seq<u8>
    decreases v.len(),
{
    if v.len() == 0 {
        Seq::empty()
    } else {
        entries_bytes(v.drop_last()) + le(v.last().0) + body(v.last().1)
    }
}

/// The tag byte that opens an atom.
pub open spec fn atom_tag(a: Atom) -> u8 {
    match a {
        Atom::Int(_) => 0u8,
        Atom::Nat(_) => 1u8,
        Atom::Flag(_) => 2u8,
        Atom::Nothing => 3u8,
        Atom::Text(_) => 4u8,
        Atom::Variant(_, _) => 5u8,
        Atom::Entries(_) => 6u8,
    }
}

/// What follows the tag byte of an atom.
pub open spec fn atom_content(a: Atom) -> Seq<u8> {
    match a {
        Atom::Int(x) => le(x as u64),
        Atom::Nat(n) => le(n),
        Atom::Flag(f) => seq![if f { 1u8 } else { 0u8 }],
        Atom::Nothing => Seq::empty(),
        Atom::Text(t) => body(t),
        Atom::Variant(k, t) => le(k) + body(t),
        Atom::Entries(v) => le(v.len() as u64) + entries_bytes(v),
    }
}

/// The bytes of one atom: its tag byte, then its content.
pub open spec fn atom_bytes(a: Atom) -> Seq<u8> {
    seq![atom_tag(a)] + atom_content(a)
}

/// The bytes of a sequence of atoms, one after the other.
pub open spec fn atoms_bytes(s: Seq<Atom>) -> Seq<u8>
    decreases s.len(),
{
    if s.len() == 0 {
        Seq::empty()
    } else {
        atoms_bytes(s.drop_last()) + atom_bytes(s.last())
    }
}

pub(crate) proof fn lemma_entries_bytes_concat(a: Seq<(u64, Seq<char>)>, b: Seq<(u64, Seq<char>)>)
    ensures
        entries_bytes(a + b) == entries_bytes(a) + entries_bytes(b),
    decreases b.len(),
{
    if b.len() == 0 {
        assert(a + b =~= a);
        assert(entries_bytes(a) + entries_bytes(b) =~= entries_bytes(a));
    } else {
        lemma_entries_bytes_concat(a, b.drop_last());
        assert((a + b).drop_last() =~= a + b.drop_last());
        assert(entries_bytes(a + b) =~= entries_bytes(a) + entries_bytes(b));
    }
}

pub(crate) proof fn lemma_atoms_bytes_concat(a: Seq<Atom>, b: Seq<Atom>)
    ensures
        atoms_bytes(a + b) == atoms_bytes(a) + atoms_bytes(b),
    decreases b.len(),
{
    if b.len() == 0 {
        assert(a + b =~= a);
        assert(atoms_bytes(a) + atoms_bytes(b) =~= atoms_bytes(a));
    } else {
        lemma_atoms_bytes_concat(a, b.drop_last());
        assert((a + b).drop_last() =~= a + b.drop_last());
        assert(atoms_bytes(a + b) =~= atoms_bytes(a) + atoms_bytes(b));
    }
}

pub(crate) proof fn lemma_occurs_split(b: Seq<u8>, pos: int, x: Seq<u8>, y: Seq<u8>)
    requires
        occurs_at(b, pos, x + y),
    ensures
        occurs_at(b, pos, x),
        occurs_at(b, pos + x.len(), y),
{
    let w = b.subrange(pos, pos + x.len() + y.len());
    assert(w == x + y);
    assert(b.subrange(pos, pos + x.len()) =~= w.subrange(0, x.len() as int));
    assert(w.subrange(0, x.len() as int) =~= x);
    assert(b.subrange(pos + x.len(), pos + x.len() + y.len()) =~= w.subrange(
        x.len() as int,
        w.len() as int,
    ));
    assert(w.subrange(x.len() as int, w.len() as int) =~= y);
}

pub(crate) proof fn lemma_occurs_join(b: Seq<u8>, pos: int, x: Seq<u8>, y: Seq<u8>)
    requires
        occurs_at(b, pos, x),
        occurs_at(b, pos + x.len(), y),
    ensures
        occurs_at(b, pos, x + y),
{
    assert(b.subrange(pos, pos + x.len() + y.len()) =~= x + y);
}

/// The exec counterpart of an atom.
pub enum Tok {
    Int(i64),
    Nat(u64),
    Flag(bool),
    Nothing,
    Text(String),
    Variant(u64, String),
    Entries(Vec<(u64, String)>),
}

/// The plain form of a list of entries.
pub open spec fn entries_view(v: Seq<(u64, String)>) -> Seq<(u64, Seq<char>)> {
    v.map_values(|e: (u64, String)| (e.0, e.1@))
}

impl View for Tok {
    type V = Atom;

    open spec fn view(&self) -> Atom {
        match self {
            Tok::Int(x) => Atom::Int(*x),
            Tok::Nat(n) => Atom::Nat(*n),
            Tok::Flag(f) => Atom::Flag(*f),
            Tok::Nothing => Atom::Nothing,
            Tok::Text(t) => Atom::Text(t@),
            Tok::Variant(k, t) => Atom::Variant(*k, t@),
            Tok::Entries(v) => Atom::Entries(entries_view(v@)),
        }
    }
}

/// The atoms of a sequence of tokens.
pub open spec fn atoms_of(t: Seq<Tok>) -> Seq<Atom> {
    t.map_values(|x: Tok| x@)
}

pub(crate) fn write_entries(out: &mut Vec<u8>, v: &Vec<(u64, String)>)
    ensures
        final(out)@ == old(out)@ + entries_bytes(entries_view(v@)),
{
    let ghost start = out@;
    let mut i: usize = 0;
    while i < v.len()
        invariant
            i <= v@.len(),
            out@ == start + entries_bytes(entries_view(v@.subrange(0, i as int))),
        decreases v@.len() - i,
    {
        let ghost before = out@;
        write_le(out, v[i].0);
        write_body(out, &v[i].1);
        proof {
            let p = entries_view(v@.subrange(0, i + 1));
            assert(p.drop_last() =~= entries_view(v@.subrange(0, i as int)));
            assert(out@ =~= start + entries_bytes(p));
        }
        i = i + 1;
    }
    proof {
        assert(v@.subrange(0, v@.len() as int) =~= v@);
    }
}

pub(crate) fn write_tok(out: &mut Vec<u8>, t: &Tok)
    ensures
        final(out)@ == old(out)@ + atom_bytes(t@),
{
    let ghost start = out@;
    match t {
        Tok::Int(x) => {
            out.push(0u8);
            write_le(out, *x as u64);
        },
        Tok::Nat(n) => {
            out.push(1u8);
            write_le(out, *n);
        },
        Tok::Flag(f) => {
            out.push(2u8);
            out.push(if *f { 1u8 } else { 0u8 });
        },
        Tok::Nothing => {
            out.push(3u8);
        },
        Tok::Text(s) => {
            out.push(4u8);
            write_body(out, s);
        },
        Tok::Variant(k, s) => {
            out.push(5u8);
            write_le(out, *k);
            write_body(out, s);
        },
        Tok::Entries(v) => {
            out.push(6u8);
            write_le(out, v.len() as u64);
            write_entries(out, v);
        },
    }
    proof {
        assert(out@ =~= start + atom_bytes(t@));
    }
}

pub(crate) proof fn lemma_entry_at(b: Seq<u8>, pos: int, y: Seq<(u64, Seq<char>)>, i: int)
    requires
        0 <= i < y.len(),
        occurs_at(b, pos, entries_bytes(y)),
    ensures
        entries_bytes(y.subrange(0, i + 1)) == entries_bytes(y.subrange(0, i)) + le(y[i].0) + body(
            y[i].1,
        ),
        occurs_at(b, pos + entries_bytes(y.subrange(0, i)).len(), le(y[i].0)),
        occurs_at(b, pos + entries_bytes(y.subrange(0, i)).len() + 8, body(y[i].1)),
{
    let head = y.subrange(0, i + 1);
    assert(head.drop_last() =~= y.subrange(0, i));
    assert(head + y.subrange(i + 1, y.len() as int) =~= y);
    lemma_entries_bytes_concat(head, y.subrange(i + 1, y.len() as int));
    lemma_occurs_split(b, pos, entries_bytes(head), entries_bytes(y.subrange(i + 1, y.len() as int)));
    assert(entries_bytes(head) =~= entries_bytes(y.subrange(0, i)) + (le(y[i].0) + body(y[i].1)));
    lemma_occurs_split(b, pos, entries_bytes(y.subrange(0, i)), le(y[i].0) + body(y[i].1));
    lemma_le_len(y[i].0);
    lemma_occurs_split(
        b,
        pos + entries_bytes(y.subrange(0, i)).len(),
        le(y[i].0),
        body(y[i].1),
    );
}

pub(crate) fn read_entries(b: &[u8], pos: usize, n: u64) -> (r: Option<(Vec<(u64, String)>, usize)>)
    ensures
        r matches Some((v, q)) ==> v@.len() == n && q == pos + entries_bytes(entries_view(v@)).len()
            && occurs_at(b@, pos as int, entries_bytes(entries_view(v@))),
        forall|y: Seq<(u64, Seq<char>)>|
            y.len() == n && occurs_at(b@, pos as int, #[trigger] entries_bytes(y)) ==> (r matches Some(
                (v, q),
            ) && entries_view(v@) == y && q == pos + entries_bytes(y).len()),
{
    if pos > b.len() {
        return None;
    }
    let mut v: Vec<(u64, String)> = Vec::new();
    let mut p = pos;
    let mut i: u64 = 0;
    proof {
        assert(entries_view(v@) =~= Seq::<(u64, Seq<char>)>::empty());
        assert(b@.subrange(pos as int, pos as int) =~= Seq::<u8>::empty());
    }
    while i < n
        invariant
            i <= n,
            i == v@.len(),
            p == pos + entries_bytes(entries_view(v@)).len(),
            occurs_at(b@, pos as int, entries_bytes(entries_view(v@))),
            forall|y: Seq<(u64, Seq<char>)>|
                y.len() == n && occurs_at(b@, pos as int, #[trigger] entries_bytes(y))
                    ==> entries_view(v@) == y.subrange(0, i as int),
        decreases n - i,
    {
        let (k, p1) = match read_le(b, p) {
            Some(x) => x,
            None => {
                proof {
                    assert forall|y: Seq<(u64, Seq<char>)>|
                        !(y.len() == n && occurs_at(b@, pos as int, #[trigger] entries_bytes(y))) by {
                        if y.len() == n && occurs_at(b@, pos as int, entries_bytes(y)) {
                            lemma_entry_at(b@, pos as int, y, i as int);
                        }
                    }
                }
                return None;
            },
        };
        let (s, p2) = match read_body(b, p1) {
            Some(x) => x,
            None => {
                proof {
                    assert forall|y: Seq<(u64, Seq<char>)>|
                        !(y.len() == n && occurs_at(b@, pos as int, #[trigger] entries_bytes(y))) by {
                        if y.len() == n && occurs_at(b@, pos as int, entries_bytes(y)) {
                            lemma_entry_at(b@, pos as int, y, i as int);
                        }
                    }
                }
                return None;
            },
        };
        let ghost before = v@;
        v.push((k, s));
        proof {
            assert(entries_view(v@).drop_last() =~= entries_view(before));
            assert(entries_view(v@).last() == (k, s@));
            lemma_le_len(k);
            lemma_occurs_join(b@, pos as int, entries_bytes(entries_view(before)), le(k));
            lemma_occurs_join(
                b@,
                pos as int,
                entries_bytes(entries_view(before)) + le(k),
                body(s@),
            );
            assert forall|y: Seq<(u64, Seq<char>)>|
                y.len() == n && occurs_at(b@, pos as int, #[trigger] entries_bytes(y)) implies entries_view(
                v@,
            ) == y.subrange(0, i + 1) by {
                lemma_entry_at(b@, pos as int, y, i as int);
                assert(entries_view(v@) =~= y.subrange(0, i + 1));
            }
        }
        p = p2;
        i = i + 1;
    }
    proof {
        assert forall|y: Seq<(u64, Seq<char>)>|
            y.len() == n && occurs_at(b@, pos as int, #[trigger] entries_bytes(y)) implies entries_view(
            v@,
        ) == y by {
            assert(y.subrange(0, n as int) =~= y);
        }
    }
    Some((v, p))
}

pub(crate) proof fn lemma_entries_len(v: Seq<(u64, Seq<char>)>)
    ensures
        entries_bytes(v).len() >= v.len(),
    decreases v.len(),
{
    if v.len() > 0 {
        lemma_entries_len(v.drop_last());
        lemma_le_len(v.last().0);
    }
}

pub(crate) proof fn lemma_atom_occurs(b: Seq<u8>, pos: int, a: Atom)
    requires
        occurs_at(b, pos, atom_bytes(a)),
    ensures
        pos < b.len(),
        b[pos] == atom_tag(a),
        occurs_at(b, pos + 1, atom_content(a)),
{
    lemma_occurs_split(b, pos, seq![atom_tag(a)], atom_content(a));
    assert(b.subrange(pos, pos + 1)[0] == b[pos]);
}

pub(crate) proof fn lemma_int_cast(x: u64, y: i64)
    ensures
        (x as i64) as u64 == x,
        (y as u64) as i64 == y,
{
    assert((x as i64) as u64 == x) by (bit_vector);
    assert((y as u64) as i64 == y) by (bit_vector);
}

pub(crate) fn read_tok(b: &[u8], pos: usize) -> (r: Option<(Tok, usize)>)
    ensures
        r matches Some((t, q)) ==> q == pos + atom_bytes(t@).len() && occurs_at(
            b@,
            pos as int,
            atom_bytes(t@),
        ),
        forall|a: Atom|
            occurs_at(b@, pos as int, #[trigger] atom_bytes(a)) ==> (r matches Some((t, q)) && t@ == a
                && q == pos + atom_bytes(a).len()),
{
    if pos >= b.len() {
        proof {
            assert forall|a: Atom| !occurs_at(b@, pos as int, #[trigger] atom_bytes(a)) by {
                if occurs_at(b@, pos as int, atom_bytes(a)) {
                    lemma_atom_occurs(b@, pos as int, a);
                }
            }
        }
        return None;
    }
    let tag = b[pos];
    let p = pos + 1;
    let r: Option<(Tok, usize)> = if tag == 0 {
        match read_le(b, p) {
            Some((x, q)) => {
                proof {
                    lemma_int_cast(x, 0);
                }
                Some((Tok::Int(x as i64), q))
            },
            None => None,
        }
    } else if tag == 1 {
        match read_le(b, p) {
            Some((x, q)) => Some((Tok::Nat(x), q)),
            None => None,
        }
    } else if tag == 2 {
        if p < b.len() && b[p] <= 1 {
            Some((Tok::Flag(b[p] == 1), p + 1))
        } else {
            None
        }
    } else if tag == 3 {
        Some((Tok::Nothing, p))
    } else if tag == 4 {
        match read_body(b, p) {
            Some((t, q)) => Some((Tok::Text(t), q)),
            None => None,
        }
    } else if tag == 5 {
        match read_le(b, p) {
            Some((k, p1)) => match read_body(b, p1) {
                Some((t, q)) => Some((Tok::Variant(k, t), q)),
                None => None,
            },
            None => None,
        }
    } else if tag == 6 {
        match read_le(b, p) {
            Some((n, p1)) => match read_entries(b, p1, n) {
                Some((v, q)) => Some((Tok::Entries(v), q)),
                None => None,
            },
            None => None,
        }
    } else {
        None
    };
    proof {
        assert(b@.subrange(pos as int, p as int) =~= seq![tag]);
        if let Some((t, q)) = &r {
            match t {
                Tok::Int(x) => {
                    lemma_le_len(#[verifier::truncate] (*x as u64));
                },
                Tok::Nat(x) => {
                    lemma_le_len(*x);
                },
                Tok::Flag(f) => {
                    assert(b@.subrange(p as int, p + 1) =~= seq![b@[p as int]]);
                },
                Tok::Nothing => {
                    assert(b@.subrange(p as int, p as int) =~= Seq::<u8>::empty());
                },
                Tok::Text(_) => {},
                Tok::Variant(k, t) => {
                    lemma_le_len(*k);
                    lemma_occurs_join(b@, p as int, le(*k), body(t@));
                },
                Tok::Entries(v) => {
                    lemma_le_len(v@.len() as u64);
                    lemma_occurs_join(
                        b@,
                        p as int,
                        le(v@.len() as u64),
                        entries_bytes(entries_view(v@)),
                    );
                },
            }
            lemma_occurs_join(b@, pos as int, seq![tag], atom_content(t@));
        }
        assert forall|a: Atom| occurs_at(b@, pos as int, #[trigger] atom_bytes(a)) implies (r matches Some(
            (t, q),
        ) && t@ == a && q == pos + atom_bytes(a).len()) by {
            lemma_atom_occurs(b@, pos as int, a);
            match a {
                Atom::Int(y) => {
                    lemma_le_len(#[verifier::truncate] (y as u64));
                    lemma_int_cast(0, y);
                },
                Atom::Nat(y) => {
                    lemma_le_len(y);
                },
                Atom::Flag(f) => {
                    assert(b@[p as int] == b@.subrange(p as int, p + 1)[0]);
                },
                Atom::Nothing => {},
                Atom::Text(t) => {},
                Atom::Variant(k, t) => {
                    lemma_le_len(k);
                    lemma_occurs_split(b@, p as int, le(k), body(t));
                },
                Atom::Entries(v) => {
                    lemma_le_len(v.len() as u64);
                    lemma_entries_len(v);
                    lemma_occurs_split(b@, p as int, le(v.len() as u64), entries_bytes(v));
                },
            }
        }
    }
    r
}

pub(crate) proof fn lemma_atoms_len(s: Seq<Atom>)
    ensures
        atoms_bytes(s).len() >= s.len(),
    decreases s.len(),
{
    if s.len() > 0 {
        lemma_atoms_len(s.drop_last());
    }
}

pub(crate) proof fn lemma_atom_at(s: Seq<Atom>, k: int)
    requires
        0 <= k < s.len(),
    ensures
        atoms_bytes(s.subrange(0, k + 1)) == atoms_bytes(s.subrange(0, k)) + atom_bytes(s[k]),
        atoms_bytes(s) == atoms_bytes(s.subrange(0, k)) + atom_bytes(s[k]) + atoms_bytes(
            s.subrange(k + 1, s.len() as int),
        ),
{
    let head = s.subrange(0, k + 1);
    assert(head.drop_last() =~= s.subrange(0, k));
    assert(head + s.subrange(k + 1, s.len() as int) =~= s);
    lemma_atoms_bytes_concat(head, s.subrange(k + 1, s.len() as int));
}

/// Writes atoms one after the other.
pub(crate) fn write_toks(t: &Vec<Tok>) -> (r: Vec<u8>)
    ensures
        r@ == atoms_bytes(atoms_of(t@)),
{
    let mut out: Vec<u8> = Vec::new();
    let mut i: usize = 0;
    while i < t.len()
        invariant
            i <= t@.len(),
            out@ == atoms_bytes(atoms_of(t@.subrange(0, i as int))),
        decreases t@.len() - i,
    {
        write_tok(&mut out, &t[i]);
        proof {
            assert(atoms_of(t@.subrange(0, i + 1)).drop_last() =~= atoms_of(t@.subrange(0, i as int)));
        }
        i = i + 1;
    }
    proof {
        assert(t@.subrange(0, t@.len() as int) =~= t@);
    }
    out
}

/// Reads atoms until the bytes are used up; `None` when the bytes are not a
/// sequence of atoms.
pub(crate) fn read_toks(b: &[u8]) -> (r: Option<Vec<Tok>>)
    ensures
        r matches Some(t) ==> atoms_bytes(atoms_of(t@)) == b@,
        forall|s: Seq<Atom>| #[trigger] atoms_bytes(s) == b@ ==> (r matches Some(t) && atoms_of(t@) == s),
{
    let mut t: Vec<Tok> = Vec::new();
    let mut pos: usize = 0;
    proof {
        assert(atoms_of(t@) =~= Seq::<Atom>::empty());
        assert(b@.subrange(0, 0) =~= Seq::<u8>::empty());
    }
    while pos < b.len()
        invariant
            pos <= b@.len(),
            pos == atoms_bytes(atoms_of(t@)).len(),
            occurs_at(b@, 0, atoms_bytes(atoms_of(t@))),
            forall|s: Seq<Atom>|
                #[trigger] atoms_bytes(s) == b@ ==> t@.len() <= s.len() && atoms_of(t@) == s.subrange(
                    0,
                    t@.len() as int,
                ),
        decreases b@.len() - pos,
    {
        let ghost k = t@.len() as int;
        let ghost before = atoms_of(t@);
        proof {
            assert forall|s: Seq<Atom>| #[trigger] atoms_bytes(s) == b@ implies k < s.len() && occurs_at(
                b@,
                pos as int,
                atom_bytes(s[k]),
            ) by {
                if k == s.len() {
                    assert(s.subrange(0, k) =~= s);
                }
                lemma_atom_at(s, k);
                assert(b@.subrange(0, b@.len() as int) =~= b@);
                lemma_occurs_split(
                    b@,
                    0,
                    atoms_bytes(s.subrange(0, k)) + atom_bytes(s[k]),
                    atoms_bytes(s.subrange(k + 1, s.len() as int)),
                );
                assert(b@.subrange(0, b@.len() as int) =~= b@);
                lemma_occurs_split(b@, 0, atoms_bytes(s.subrange(0, k)), atom_bytes(s[k]));
            }
        }
        match read_tok(b, pos) {
            Some((x, q)) => {
                t.push(x);
                proof {
                    assert(atoms_of(t@).drop_last() =~= before);
                    lemma_occurs_join(b@, 0, atoms_bytes(before), atom_bytes(x@));
                    assert forall|s: Seq<Atom>| #[trigger] atoms_bytes(s) == b@ implies t@.len()
                        <= s.len() && atoms_of(t@) == s.subrange(0, t@.len() as int) by {
                        lemma_atom_at(s, k);
                        assert(atoms_of(t@) =~= s.subrange(0, k + 1));
                    }
                }
                pos = q;
            },
            None => {
                return None;
            },
        }
    }
    proof {
        assert(b@.subrange(0, b@.len() as int) =~= b@);
        assert forall|s: Seq<Atom>| #[trigger] atoms_bytes(s) == b@ implies atoms_of(t@) == s by {
            let k = t@.len() as int;
            assert(s.subrange(0, k) + s.subrange(k, s.len() as int) =~= s);
            lemma_atoms_bytes_concat(s.subrange(0, k), s.subrange(k, s.len() as int));
            lemma_atoms_len(s.subrange(k, s.len() as int));
            assert(s.subrange(0, k) =~= s);
        }
    }
    Some(t)
}

} // verus!
