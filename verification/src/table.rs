//! The interning table: canonical storage for text, with one reference count
//! and one stable hash per entry.

use vstd::prelude::*;

use crate::utf16::encode_utf16;

verus! {

/// An opaque reference to one entry of a [`Table`]: an address-sized
/// identifier.  Passing it around transfers no ownership of the entry's
/// reference count.
#[allow(non_camel_case_types)]
#[derive(Clone, Copy, PartialEq, Eq, Hash, Structural, Debug)]
pub struct nsIAtom {
    pub index: usize,
}

/// One interned entry as the contracts see it: its code units, its hash, and
/// how many units of reference count are outstanding on it.
pub struct EntryModel {
    pub units: Seq<u16>,
    pub hash: u32,
    pub count: nat,
}

struct Entry {
    units: Vec<u16>,
    hash: u32,
    count: u64,
}

impl View for Entry {
    type V = EntryModel;

    closed spec fn view(&self) -> EntryModel {
        EntryModel { units: self.units@, hash: self.hash, count: self.count as nat }
    }
}

/// The seed of the table's hash.
pub open spec fn hash_seed() -> u32 {
    0x811C9DC5
}

/// One step of the table's hash: multiply and add, reduced to 32 bits.
pub open spec fn hash_step(h: u32, u: u16) -> u32 {
    (((h as int) * 31 + (u as int)) % 0x1_0000_0000) as u32
}

/// The hash the table stores for a code-unit sequence.
pub open spec fn hash_units(units: Seq<u16>) -> u32
    decreases units.len(),
{
    if units.len() == 0 {
        hash_seed()
    } else {
        hash_step(hash_units(units.drop_last()), units.last())
    }
}

/// Well-formedness of a table: no two entries hold the same text, every
/// stored hash is the hash of the entry's units, and every entry fits the
/// table's 32-bit length field.
pub open spec fn table_wf(tv: Seq<EntryModel>) -> bool {
    &&& forall|i: int, j: int|
        0 <= i < tv.len() && 0 <= j < tv.len() && i != j ==> tv[i].units != tv[j].units
    &&& forall|i: int| 0 <= i < tv.len() ==> (#[trigger] tv[i]).hash == hash_units(tv[i].units)
    &&& forall|i: int| 0 <= i < tv.len() ==> (#[trigger] tv[i]).units.len() <= 0xFFFF_FFFF
}

/// True when some entry already holds these units.
pub open spec fn has_entry(tv: Seq<EntryModel>, units: Seq<u16>) -> bool {
    exists|j: int| 0 <= j < tv.len() && tv[j].units == units
}

/// The index of the entry holding these units; in a well-formed table there
/// is at most one.
pub open spec fn entry_index(tv: Seq<EntryModel>, units: Seq<u16>) -> int {
    choose|j: int| 0 <= j < tv.len() && tv[j].units == units
}

/// Where interning these units lands: the existing entry, or one past the end.
pub open spec fn intern_index(tv: Seq<EntryModel>, units: Seq<u16>) -> int {
    if has_entry(tv, units) {
        entry_index(tv, units)
    } else {
        tv.len() as int
    }
}

/// A table after one unit of reference count is acquired on entry `i`.
pub open spec fn acquire_at(tv: Seq<EntryModel>, i: int) -> Seq<EntryModel> {
    tv.update(i, EntryModel { count: tv[i].count + 1, ..tv[i] })
}

/// A table after one unit of reference count is released on entry `i`.
pub open spec fn release_at(tv: Seq<EntryModel>, i: int) -> Seq<EntryModel> {
    tv.update(i, EntryModel { count: (tv[i].count - 1) as nat, ..tv[i] })
}

/// A fresh entry: the given units, their hash, one unit of reference count
/// credited to the caller.
pub open spec fn new_entry(units: Seq<u16>) -> EntryModel {
    EntryModel { units: units, hash: hash_units(units), count: 1 }
}

/// A table after interning: the existing entry acquired, or a fresh entry
/// appended.
pub open spec fn intern_effect(tv: Seq<EntryModel>, units: Seq<u16>) -> Seq<EntryModel> {
    if has_entry(tv, units) {
        acquire_at(tv, entry_index(tv, units))
    } else {
        tv.push(new_entry(units))
    }
}

/// Interning must not overflow the existing entry's reference count.
pub open spec fn can_intern(tv: Seq<EntryModel>, units: Seq<u16>) -> bool {
    has_entry(tv, units) ==> tv[entry_index(tv, units)].count < u64::MAX
}

/// What interning guarantees, stated once over the model: the result index is
/// in range, holds exactly the requested units and at least one unit of count,
/// no other entry changes, and it is the only entry with these units.
pub proof fn lemma_intern_effect(tv: Seq<EntryModel>, units: Seq<u16>)
    requires
        table_wf(tv),
        units.len() <= 0xFFFF_FFFF,
    ensures
        table_wf(intern_effect(tv, units)),
        0 <= intern_index(tv, units) < intern_effect(tv, units).len(),
        intern_effect(tv, units)[intern_index(tv, units)].units == units,
        intern_effect(tv, units)[intern_index(tv, units)].hash == hash_units(units),
        intern_effect(tv, units)[intern_index(tv, units)].count >= 1,
        intern_effect(tv, units).len() == tv.len() + if has_entry(tv, units) { 0int } else { 1int },
        forall|j: int|
            0 <= j < tv.len() && j != intern_index(tv, units)
                ==> intern_effect(tv, units)[j] == tv[j],
        forall|j: int|
            0 <= j < intern_effect(tv, units).len()
                && (#[trigger] intern_effect(tv, units)[j]).units == units
                ==> j == intern_index(tv, units),
{
    if has_entry(tv, units) {
        let k = entry_index(tv, units);
        assert(0 <= k < tv.len() && tv[k].units == units);
    }
}

/// Acquiring or releasing reference count changes no entry's text or hash and
/// no entry's place; in particular the hash an entry answers after a clone is
/// the hash it answered before.
pub proof fn lemma_count_change_preserves_entries(tv: Seq<EntryModel>, i: int)
    requires
        0 <= i < tv.len(),
    ensures
        acquire_at(tv, i).len() == tv.len(),
        release_at(tv, i).len() == tv.len(),
        forall|j: int|
            0 <= j < tv.len()
                ==> (#[trigger] acquire_at(tv, i)[j]).units == tv[j].units && acquire_at(tv, i)[j].hash
                == tv[j].hash,
        forall|j: int|
            0 <= j < tv.len()
                ==> (#[trigger] release_at(tv, i)[j]).units == tv[j].units && release_at(tv, i)[j].hash
                == tv[j].hash,
        table_wf(tv) ==> table_wf(acquire_at(tv, i)),
        table_wf(tv) ==> table_wf(release_at(tv, i)),
{
}

/// Interned identity decides text identity: interning two texts, one after
/// the other, lands on the same entry exactly when the texts are equal,
/// character for character.
pub proof fn lemma_intern_identity(tv: Seq<EntryModel>, t1: Seq<char>, t2: Seq<char>)
    requires
        table_wf(tv),
        encode_utf16(t1).len() <= 0xFFFF_FFFF,
        encode_utf16(t2).len() <= 0xFFFF_FFFF,
    ensures
        ({
            let i1 = intern_index(tv, encode_utf16(t1));
            let tv1 = intern_effect(tv, encode_utf16(t1));
            let i2 = intern_index(tv1, encode_utf16(t2));
            (i1 == i2) <==> (t1 == t2)
        }),
{
    let u1 = encode_utf16(t1);
    let u2 = encode_utf16(t2);
    lemma_intern_effect(tv, u1);
    let tv1 = intern_effect(tv, u1);
    let i1 = intern_index(tv, u1);
    let i2 = intern_index(tv1, u2);
    if t1 == t2 {
        assert(tv1[i1].units == u2);
        assert(has_entry(tv1, u2));
        let k = entry_index(tv1, u2);
        assert(0 <= k < tv1.len() && tv1[k].units == u2);
        assert(k == i1);
    } else {
        if u1 == u2 {
            crate::utf16::lemma_encode_injective(t1, t2);
        }
        if i2 == i1 {
            if has_entry(tv1, u2) {
                let k = entry_index(tv1, u2);
                assert(0 <= k < tv1.len() && tv1[k].units == u2);
                assert(tv1[i1].units == u1);
            } else {
                assert(i2 == tv1.len());
            }
        }
    }
}

/// One step of the handle lifecycle against one entry's reference count:
/// construction and cloning acquire a unit, destruction releases one.
#[derive(Clone, Copy, PartialEq, Eq, Structural, Debug)]
pub enum RefOp {
    Acquire,
    Release,
}

/// How many steps of a run acquire a unit.
pub open spec fn count_acquires(ops: Seq<RefOp>) -> int
    decreases ops.len(),
{
    if ops.len() == 0 {
        0
    } else {
        (if ops[0] is Acquire {
            1int
        } else {
            0int
        }) + count_acquires(ops.skip(1))
    }
}

/// How many steps of a run release a unit.
pub open spec fn count_releases(ops: Seq<RefOp>) -> int
    decreases ops.len(),
{
    if ops.len() == 0 {
        0
    } else {
        (if ops[0] is Release {
            1int
        } else {
            0int
        }) + count_releases(ops.skip(1))
    }
}

/// The reference count after a run of lifecycle steps, provided no release
/// ever finds the count at zero; `None` marks the double release that would.
pub open spec fn safe_count_after(c: nat, ops: Seq<RefOp>) -> Option<nat>
    decreases ops.len(),
{
    if ops.len() == 0 {
        Some(c)
    } else if ops[0] is Acquire {
        safe_count_after((c + 1) as nat, ops.skip(1))
    } else if c >= 1 {
        safe_count_after((c - 1) as nat, ops.skip(1))
    } else {
        None
    }
}

proof fn lemma_refcount_balance_credit(c: nat, credit: nat, ops: Seq<RefOp>)
    requires
        credit <= c,
        forall|k: int|
            0 <= k <= ops.len() ==> count_releases(#[trigger] ops.take(k)) <= count_acquires(
                ops.take(k),
            ) + credit,
    ensures
        safe_count_after(c, ops) == Some(
            ((c + count_acquires(ops) - count_releases(ops)) as nat),
        ),
        count_releases(ops) <= count_acquires(ops) + credit,
    decreases ops.len(),
{
    if ops.len() == 0 {
        assert(ops.take(0) =~= ops);
    } else {
        let tail = ops.skip(1);
        assert(ops.take(ops.len() as int) =~= ops);
        assert(ops.take(1)[0] == ops[0]);
        assert(ops.take(1).skip(1) =~= Seq::<RefOp>::empty());
        assert(count_releases(Seq::<RefOp>::empty()) == 0);
        assert(count_acquires(Seq::<RefOp>::empty()) == 0);
        assert(count_releases(ops.take(1)) == if ops[0] is Release {
            1int
        } else {
            0int
        });
        assert(count_acquires(ops.take(1)) == if ops[0] is Acquire {
            1int
        } else {
            0int
        });
        let new_credit: nat = if ops[0] is Acquire {
            (credit + 1) as nat
        } else {
            (credit - 1) as nat
        };
        let new_c: nat = if ops[0] is Acquire {
            (c + 1) as nat
        } else {
            (c - 1) as nat
        };
        assert forall|k: int|
            0 <= k <= tail.len() implies count_releases(#[trigger] tail.take(k))
            <= count_acquires(tail.take(k)) + new_credit by {
            let p = ops.take(k + 1);
            assert(p.skip(1) =~= tail.take(k));
            assert(p[0] == ops[0]);
            assert(count_releases(p) <= count_acquires(p) + credit);
        };
        lemma_refcount_balance_credit(new_c, new_credit, tail);
    }
}

/// Reference-count balance: over a run of lifecycle steps in which, at every
/// point, no more units have been released than acquired — every destruction
/// destroys a handle made earlier in the run — no release ever finds the
/// count at zero, and the run moves the count by exactly its acquires minus
/// its releases.  In particular a handle interned once, cloned `n` times and
/// then destroyed `n + 1` times over, the clones and the original in any
/// order, returns the entry's count to its value before the run, and the last
/// destruction is not a double release.
pub proof fn lemma_refcount_balance(c: nat, ops: Seq<RefOp>)
    requires
        forall|k: int|
            0 <= k <= ops.len() ==> count_releases(#[trigger] ops.take(k)) <= count_acquires(
                ops.take(k),
            ),
    ensures
        safe_count_after(c, ops) == Some(
            ((c + count_acquires(ops) - count_releases(ops)) as nat),
        ),
        count_acquires(ops) == count_releases(ops) ==> safe_count_after(c, ops) == Some(c),
{
    lemma_refcount_balance_credit(c, 0, ops);
}

/// Compares two code-unit sequences for equality.
fn units_eq(a: &Vec<u16>, b: &Vec<u16>) -> (r: bool)
    ensures
        r == (a@ == b@),
{
    if a.len() != b.len() {
        return false;
    }
    let n = a.len();
    let mut i: usize = 0;
    while i < n
        invariant
            i <= n,
            n == a@.len(),
            a@.len() == b@.len(),
            forall|j: int| 0 <= j < i ==> a@[j] == b@[j],
        decreases n - i,
    {
        if a[i] != b[i] {
            return false;
        }
        i = i + 1;
    }
    proof {
        assert(a@ =~= b@);
    }
    true
}

/// Computes the table's hash of a code-unit sequence.
fn hash_of_units(units: &Vec<u16>) -> (h: u32)
    ensures
        h == hash_units(units@),
{
    let n = units.len();
    let mut h: u32 = 0x811C9DC5;
    let mut i: usize = 0;
    proof {
        assert(units@.take(0) =~= Seq::<u16>::empty());
    }
    while i < n
        invariant
            i <= n,
            n == units@.len(),
            h == hash_units(units@.take(i as int)),
        decreases n - i,
    {
        let u = units[i];
        let wide: u64 = (h as u64) * 31 + (u as u64);
        proof {
            let t = units@.take(i as int + 1);
            assert(t.drop_last() =~= units@.take(i as int));
            assert(t.last() == units@[i as int]);
        }
        h = (wide % 0x1_0000_0000) as u32;
        i = i + 1;
    }
    proof {
        assert(units@.take(n as int) =~= units@);
    }
    h
}

/// The interning table.  Text is stored once: interning equal text returns
/// the same entry.  Each entry carries a reference count; handles acquire a
/// unit when created or cloned and release it when destroyed.
pub struct Table {
    entries: Vec<Entry>,
}

impl View for Table {
    type V = Seq<EntryModel>;

    closed spec fn view(&self) -> Seq<EntryModel> {
        self.entries@.map_values(|e: Entry| e@)
    }
}

impl Table {
    /// Well-formedness of this table.
    pub open spec fn wf(&self) -> bool {
        table_wf(self@)
    }

    /// An empty table.
    pub fn new() -> (t: Table)
        ensures
            t@ == Seq::<EntryModel>::empty(),
            t.wf(),
    {
        let t = Table { entries: Vec::new() };
        proof {
            assert(t@ =~= Seq::<EntryModel>::empty());
        }
        t
    }

    /// How many entries the table holds, live or not.
    pub fn len(&self) -> (n: usize)
        ensures
            n == self@.len(),
    {
        self.entries.len()
    }

    /// Interns a code-unit sequence: returns the reference of the entry that
    /// already holds equal text, its count raised by the one unit credited to
    /// the caller, or of a fresh entry holding the sequence with a count of
    /// one.
    pub fn intern(&mut self, units: Vec<u16>) -> (r: nsIAtom)
        requires
            old(self).wf(),
            units@.len() <= 0xFFFF_FFFF,
            can_intern(old(self)@, units@),
        ensures
            final(self).wf(),
            final(self)@ == intern_effect(old(self)@, units@),
            r.index as int == intern_index(old(self)@, units@),
    {
        proof {
            lemma_intern_effect(old(self)@, units@);
        }
        let n = self.entries.len();
        let mut i: usize = 0;
        while i < n
            invariant
                *self == *old(self),
                old(self).wf(),
                units@.len() <= 0xFFFF_FFFF,
                can_intern(old(self)@, units@),
                n == self@.len(),
                i <= n,
                forall|j: int| 0 <= j < i ==> (#[trigger] self@[j]).units != units@,
            decreases n - i,
        {
            proof {
                assert(self@[i as int] == self.entries@[i as int]@);
            }
            if units_eq(&self.entries[i].units, &units) {
                proof {
                    assert(self@[i as int].units == units@);
                    assert(has_entry(self@, units@));
                    let k = entry_index(self@, units@);
                    assert(0 <= k < self@.len() && self@[k].units == units@);
                    assert(k == i as int);
                }
                let c = self.entries[i].count;
                let e = vstd::std_specs::vec::vec_index_mut(&mut self.entries, i);
                e.count = c + 1;
                proof {
                    assert forall|j: int| 0 <= j < self@.len() implies self@[j] == acquire_at(
                        old(self)@,
                        i as int,
                    )[j] by {
                        assert(self@[j] == self.entries@[j]@);
                        assert(old(self)@[j] == old(self).entries@[j]@);
                    };
                    assert(self@ =~= acquire_at(old(self)@, i as int));
                }
                return nsIAtom { index: i };
            }
            i = i + 1;
        }
        proof {
            assert(!has_entry(old(self)@, units@));
        }
        let h = hash_of_units(&units);
        let ghost gunits = units@;
        self.entries.push(Entry { units: units, hash: h, count: 1 });
        proof {
            assert forall|j: int|
                0 <= j < self@.len() implies self@[j] == old(self)@.push(new_entry(gunits))[j] by {
                assert(self@[j] == self.entries@[j]@);
                if j < old(self)@.len() {
                    assert(old(self)@[j] == old(self).entries@[j]@);
                }
            };
            assert(self@ =~= old(self)@.push(new_entry(gunits)));
        }
        nsIAtom { index: n }
    }

    /// Acquires one unit of reference count on the entry: the caller promises
    /// to release it later.
    pub fn add_ref(&mut self, r: nsIAtom)
        requires
            old(self).wf(),
            r.index < old(self)@.len(),
            old(self)@[r.index as int].count >= 1,
            old(self)@[r.index as int].count < u64::MAX,
        ensures
            final(self).wf(),
            final(self)@ == acquire_at(old(self)@, r.index as int),
    {
        proof {
            assert(self@[r.index as int] == self.entries@[r.index as int]@);
        }
        let c = self.entries[r.index].count;
        let e = vstd::std_specs::vec::vec_index_mut(&mut self.entries, r.index);
        e.count = c + 1;
        proof {
            assert forall|j: int| 0 <= j < self@.len() implies self@[j] == acquire_at(
                old(self)@,
                r.index as int,
            )[j] by {
                assert(self@[j] == self.entries@[j]@);
                assert(old(self)@[j] == old(self).entries@[j]@);
            };
            assert(self@ =~= acquire_at(old(self)@, r.index as int));
            lemma_count_change_preserves_entries(old(self)@, r.index as int);
        }
    }

    /// Releases one unit of reference count on the entry.  The entry itself
    /// stays in place whatever the count: this table reclaims no storage.
    pub fn release(&mut self, r: nsIAtom)
        requires
            old(self).wf(),
            r.index < old(self)@.len(),
            old(self)@[r.index as int].count >= 1,
        ensures
            final(self).wf(),
            final(self)@ == release_at(old(self)@, r.index as int),
    {
        proof {
            assert(self@[r.index as int] == self.entries@[r.index as int]@);
        }
        let c = self.entries[r.index].count;
        let e = vstd::std_specs::vec::vec_index_mut(&mut self.entries, r.index);
        e.count = c - 1;
        proof {
            assert forall|j: int| 0 <= j < self@.len() implies self@[j] == release_at(
                old(self)@,
                r.index as int,
            )[j] by {
                assert(self@[j] == self.entries@[j]@);
                assert(old(self)@[j] == old(self).entries@[j]@);
            };
            assert(self@ =~= release_at(old(self)@, r.index as int));
            lemma_count_change_preserves_entries(old(self)@, r.index as int);
        }
    }

    /// The hash stored for the entry: stable for the entry's lifetime.
    pub fn get_hash(&self, r: nsIAtom) -> (h: u32)
        requires
            r.index < self@.len(),
        ensures
            h == self@[r.index as int].hash,
    {
        proof {
            assert(self@[r.index as int] == self.entries@[r.index as int]@);
        }
        self.entries[r.index].hash
    }

    /// A read-only view of the entry's code units, valid while the table
    /// holds the entry.
    pub fn get_units<'a>(&'a self, r: nsIAtom) -> (u: &'a [u16])
        requires
            r.index < self@.len(),
        ensures
            u@ == self@[r.index as int].units,
    {
        proof {
            assert(self@[r.index as int] == self.entries@[r.index as int]@);
        }
        self.entries[r.index].units.as_slice()
    }

    /// How many units of reference count are outstanding on the entry.
    pub fn ref_count(&self, r: nsIAtom) -> (c: u64)
        requires
            r.index < self@.len(),
        ensures
            c as nat == self@[r.index as int].count,
    {
        proof {
            assert(self@[r.index as int] == self.entries@[r.index as int]@);
        }
        self.entries[r.index].count
    }
}

} // verus!
