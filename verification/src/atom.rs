//! The reference-counted handle and the namespace wrapper.

use vstd::prelude::*;

use crate::table::{
    acquire_at, can_intern, intern_effect, intern_index, release_at, EntryModel, nsIAtom, Table,
};
use crate::utf16::{
    decode_all_scalars, decode_units, decode_utf16, encode_text, encode_utf16, is_unicode_scalar,
    lemma_decode_encode, lemma_decode_scalars_valid, text_matches, Decoded,
};

verus! {

/// Relies on `String::push` of std: it appends the given character to the end
/// of the string.
pub assume_specification[ String::push ](s: &mut String, c: char)
    ensures
        final(s)@ == old(s)@.push(c),
;

/// A handle to one entry of an interning [`Table`], owning one unit of that
/// entry's reference count for its lifetime.  It is not `Clone`: a new handle
/// on the same entry is made with [`Atom::clone_handle`], which acquires a
/// unit of its own, and a handle gives its unit back exactly once, when it is
/// consumed by [`Atom::destroy`].  Handle equality is table identity: two
/// handles are equal exactly when they reference the same entry, and the
/// table's interning makes that the same as holding equal text.
#[derive(PartialEq, Eq, Hash, Structural, Debug)]
pub struct Atom {
    pub ptr: nsIAtom,
}

impl Atom {
    /// The index of the entry this handle references.
    pub open spec fn id(self) -> int {
        self.ptr.index as int
    }

    /// The handle references an entry of the table and owns one of the units
    /// counted on it.
    pub open spec fn valid(self, tv: Seq<EntryModel>) -> bool {
        &&& 0 <= self.id() < tv.len()
        &&& tv[self.id()].count >= 1
    }

    /// The code units of the entry this handle references.
    pub open spec fn units_in(self, tv: Seq<EntryModel>) -> Seq<u16> {
        tv[self.id()].units
    }

    /// Interns a text and returns a handle on its entry, credited with the
    /// one unit of reference count the interning acquires.  Equal text gives
    /// the same entry; text too long for the table's length field is refused
    /// by contract, as is an input that would overflow the entry's count.
    pub fn from_text(table: &mut Table, s: &str) -> (a: Atom)
        requires
            old(table).wf(),
            encode_utf16(s@).len() <= 0xFFFF_FFFF,
            can_intern(old(table)@, encode_utf16(s@)),
        ensures
            final(table).wf(),
            final(table)@ == intern_effect(old(table)@, encode_utf16(s@)),
            a.id() == intern_index(old(table)@, encode_utf16(s@)),
            a.valid(final(table)@),
            a.units_in(final(table)@) == encode_utf16(s@),
            text_matches(a.units_in(final(table)@), s@),
    {
        let units = encode_text(s);
        proof {
            crate::table::lemma_intern_effect(old(table)@, units@);
            lemma_decode_encode(s@);
        }
        let r = table.intern(units);
        Atom { ptr: r }
    }

    /// Interns an owned string: the same as interning its borrowed text.
    pub fn from_string(table: &mut Table, s: String) -> (a: Atom)
        requires
            old(table).wf(),
            encode_utf16(s@).len() <= 0xFFFF_FFFF,
            can_intern(old(table)@, encode_utf16(s@)),
        ensures
            final(table).wf(),
            final(table)@ == intern_effect(old(table)@, encode_utf16(s@)),
            a.id() == intern_index(old(table)@, encode_utf16(s@)),
            a.valid(final(table)@),
            a.units_in(final(table)@) == encode_utf16(s@),
            text_matches(a.units_in(final(table)@), s@),
    {
        Atom::from_text(table, s.as_str())
    }

    /// Interns a raw code-unit sequence, lone surrogates permitted, and
    /// returns a handle on its entry.
    pub fn from_units(table: &mut Table, units: Vec<u16>) -> (a: Atom)
        requires
            old(table).wf(),
            units@.len() <= 0xFFFF_FFFF,
            can_intern(old(table)@, units@),
        ensures
            final(table).wf(),
            final(table)@ == intern_effect(old(table)@, units@),
            a.id() == intern_index(old(table)@, units@),
            a.valid(final(table)@),
            a.units_in(final(table)@) == units@,
    {
        proof {
            crate::table::lemma_intern_effect(old(table)@, units@);
        }
        let r = table.intern(units);
        Atom { ptr: r }
    }

    /// A new handle aliasing the same entry: acquires one more unit of the
    /// entry's reference count for the new handle to own.  Neither the
    /// entry's text nor its hash changes.
    pub fn clone_handle(&self, table: &mut Table) -> (a: Atom)
        requires
            old(table).wf(),
            self.valid(old(table)@),
            old(table)@[self.id()].count < u64::MAX,
        ensures
            final(table).wf(),
            final(table)@ == acquire_at(old(table)@, self.id()),
            a == *self,
            a.valid(final(table)@),
            self.valid(final(table)@),
            a.units_in(final(table)@) == self.units_in(old(table)@),
            final(table)@[self.id()].hash == old(table)@[self.id()].hash,
    {
        table.add_ref(self.ptr);
        proof {
            crate::table::lemma_count_change_preserves_entries(old(table)@, self.id());
        }
        Atom { ptr: self.ptr }
    }

    /// Destroys the handle: consumes it and releases the one unit of
    /// reference count it owned.  Taking the handle by value is what makes
    /// the release happen exactly once per handle.
    pub fn destroy(self, table: &mut Table)
        requires
            old(table).wf(),
            self.valid(old(table)@),
        ensures
            final(table).wf(),
            final(table)@ == release_at(old(table)@, self.id()),
    {
        table.release(self.ptr);
    }

    /// The hash of the referenced entry, answered by the table, never
    /// recomputed from the text.  Handles of one entry always answer alike.
    pub fn get_hash(&self, table: &Table) -> (h: u32)
        requires
            self.valid(table@),
        ensures
            h == table@[self.id()].hash,
    {
        table.get_hash(self.ptr)
    }

    /// A read-only view of the entry's UTF-16 code units, borrowed from the
    /// table.  The borrow of the table keeps the view stable.
    pub fn as_slice<'a>(&self, table: &'a Table) -> (u: &'a [u16])
        requires
            self.valid(table@),
        ensures
            u@ == self.units_in(table@),
    {
        table.get_units(self.ptr)
    }

    /// Decodes the entry's code units into per-position results: a scalar
    /// value for each well-formed unit or pair, a failure for each lone
    /// surrogate.  Restartable: calling it again re-reads the view.
    pub fn chars(&self, table: &Table) -> (r: Vec<Decoded>)
        requires
            self.valid(table@),
        ensures
            r@ == decode_utf16(self.units_in(table@)),
    {
        decode_units(self.as_slice(table))
    }

    /// Materializes the entry's text as an owned string: a strict full
    /// decode, refused by contract when any position fails to decode.
    pub fn to_string(&self, table: &Table) -> (r: String)
        requires
            self.valid(table@),
            decode_all_scalars(self.units_in(table@)),
        ensures
            r@.len() == decode_utf16(self.units_in(table@)).len(),
            forall|i: int|
                0 <= i < r@.len() ==> decode_utf16(self.units_in(table@))[i] == Decoded::Scalar(
                    #[trigger] r@[i] as u32,
                ),
    {
        let ghost d = decode_utf16(self.units_in(table@));
        proof {
            lemma_decode_scalars_valid(self.units_in(table@));
        }
        let decoded = self.chars(table);
        let n = decoded.len();
        let mut out = String::new();
        let mut i: usize = 0;
        while i < n
            invariant
                i <= n,
                n == d.len(),
                decoded@ == d,
                decode_all_scalars(self.units_in(table@)),
                d == decode_utf16(self.units_in(table@)),
                forall|k: int|
                    0 <= k < d.len() ==> (#[trigger] d[k] matches Decoded::Scalar(v)
                        ==> is_unicode_scalar(v)),
                out@.len() == i,
                forall|k: int| 0 <= k < i ==> d[k] == Decoded::Scalar(#[trigger] out@[k] as u32),
            decreases n - i,
        {
            match decoded[i] {
                Decoded::Scalar(v) => {
                    match char::from_u32(v) {
                        Some(c) => {
                            out.push(c);
                        },
                        None => {
                            vstd::pervasive::unreached::<()>();
                        },
                    }
                },
                Decoded::LoneSurrogate(_) => {
                    vstd::pervasive::unreached::<()>();
                },
            }
            i = i + 1;
        }
        out
    }

    /// Decides equality against a native string: true exactly when every
    /// position decodes to the scalar value of the corresponding character —
    /// a decode failure equals no character, and differing lengths differ.
    pub fn eq_str(&self, table: &Table, s: &str) -> (r: bool)
        requires
            self.valid(table@),
        ensures
            r == text_matches(self.units_in(table@), s@),
    {
        let ghost d = decode_utf16(self.units_in(table@));
        let decoded = self.chars(table);
        let n = s.unicode_len();
        if decoded.len() != n {
            return false;
        }
        let mut i: usize = 0;
        while i < n
            invariant
                i <= n,
                n == s@.len(),
                decoded@ == d,
                d == decode_utf16(self.units_in(table@)),
                d.len() == n,
                forall|k: int| 0 <= k < i ==> d[k] == Decoded::Scalar(#[trigger] s@[k] as u32),
            decreases n - i,
        {
            let c = s.get_char(i);
            let matches_here: bool = match decoded[i] {
                Decoded::Scalar(v) => v == c as u32,
                Decoded::LoneSurrogate(_) => false,
            };
            if !matches_here {
                proof {
                    assert(d[i as int] != Decoded::Scalar(s@[i as int] as u32));
                }
                return false;
            }
            i = i + 1;
        }
        true
    }

    /// The underlying table reference, for calls on the table's own surface.
    /// Transfers no ownership of the reference count.
    pub fn as_ptr(&self) -> (r: nsIAtom)
        ensures
            r == self.ptr,
    {
        self.ptr
    }
}

/// Decides equality of a native string against a handle: the same predicate
/// as [`Atom::eq_str`], so the comparison is symmetric in its argument order.
pub fn str_eq_atom(s: &str, table: &Table, a: &Atom) -> (r: bool)
    requires
        a.valid(table@),
    ensures
        r == text_matches(a.units_in(table@), s@),
{
    a.eq_str(table, s)
}

/// Cloning preserves the hash: a clone references the same entry, the acquire
/// it performs changes no entry's hash, and the hash is answered by the
/// table's entry alone — so the hash of a clone equals the hash of the
/// original.
pub proof fn lemma_hash_of_clone(tv: Seq<EntryModel>, a: Atom)
    requires
        a.valid(tv),
    ensures
        a.valid(acquire_at(tv, a.id())),
        acquire_at(tv, a.id())[a.id()].hash == tv[a.id()].hash,
{
    crate::table::lemma_count_change_preserves_entries(tv, a.id());
}

/// A value carrying an identity drawn from the interning space: a thin
/// wrapper composing exactly one [`Atom`].  Identity, equality and hash are
/// entirely those of the contained handle; it adds no state of its own.
#[derive(PartialEq, Eq, Hash, Structural, Debug)]
pub struct Namespace(pub Atom);

impl Namespace {
    /// The index of the entry the contained handle references.
    pub open spec fn id(self) -> int {
        self.0.id()
    }

    /// The contained handle is valid for the table.
    pub open spec fn valid(self, tv: Seq<EntryModel>) -> bool {
        self.0.valid(tv)
    }

    /// Wraps a handle.
    pub fn construct(atom: Atom) -> (n: Namespace)
        ensures
            n.0 == atom,
    {
        Namespace(atom)
    }

    /// Forwards to the handle's clone: acquires one more unit on the entry.
    pub fn clone_value(&self, table: &mut Table) -> (n: Namespace)
        requires
            old(table).wf(),
            self.valid(old(table)@),
            old(table)@[self.id()].count < u64::MAX,
        ensures
            final(table).wf(),
            final(table)@ == acquire_at(old(table)@, self.id()),
            n == *self,
            n.valid(final(table)@),
            self.valid(final(table)@),
    {
        Namespace(self.0.clone_handle(table))
    }

    /// Forwards to the handle's destruction: releases the owned unit.
    pub fn destroy(self, table: &mut Table)
        requires
            old(table).wf(),
            self.valid(old(table)@),
        ensures
            final(table).wf(),
            final(table)@ == release_at(old(table)@, self.id()),
    {
        self.0.destroy(table);
    }

    /// Forwards to the handle's hash.
    pub fn get_hash(&self, table: &Table) -> (h: u32)
        requires
            self.valid(table@),
        ensures
            h == table@[self.id()].hash,
    {
        self.0.get_hash(table)
    }

    /// Forwards to the handle's comparison against a native string.
    pub fn eq_str(&self, table: &Table, s: &str) -> (r: bool)
        requires
            self.valid(table@),
        ensures
            r == text_matches(self.0.units_in(table@), s@),
    {
        self.0.eq_str(table, s)
    }
}

} // verus!

