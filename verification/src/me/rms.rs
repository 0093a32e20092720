//! `javax.microedition.rms.RecordStore` — a host-owned in-memory model of the
//! MIDP record store the save system persists into.
//!
//! [`RmsRuntime`] is the RMS host seam: the game shell owns one and threads
//! `&mut RmsRuntime` through the save/load code. It lets the save methods be
//! written faithfully and round-tripped (write a slot, read it back).
//!
//! The modeled surface is the one a typical save-file wrapper touches:
//! `openRecordStore(name, create)`, `closeRecordStore()`,
//! `deleteRecordStore(name)`, `getNumRecords()`, `getNextRecordID()`,
//! `getRecordSize(id)`, `getRecord(id)`, `addRecord`, `setRecord`, and
//! `deleteRecord`. Record IDs are **monotonic** as in MIDP — assigned by
//! `addRecord`, never reused, reset only when the store itself is deleted and
//! recreated.

use vstd::prelude::*;
use crate::jvm::io::slice_to_vec;
use crate::jvm::JavaError;
use crate::table::{find_key, find_position, insert_position, key_index, lemma_insert_position, lemma_key_index, lemma_text_less_trans, lemma_unique_index, names_ascending, names_distinct};
use crate::text::{debug_text, text_before, text_less, with_decimal, decimal_spec};

verus! {

/// `RecordStoreNotFoundException` for `name`.
pub open spec fn not_found_message(name: Seq<char>) -> Seq<char> {
    "RecordStoreNotFoundException: "@ + name
}

/// `InvalidRecordIDException` for `id`.
pub open spec fn invalid_id_message(id: i32) -> Seq<char> {
    "InvalidRecordIDException: "@ + decimal_spec(id as int)
}

fn not_found(name: &str) -> (e: JavaError)
    ensures
        e matches JavaError::RecordStore(m) && m@ == not_found_message(name@),
{
    let mut m = String::from_str("RecordStoreNotFoundException: ");
    m.append(name);
    JavaError::RecordStore(m)
}

fn invalid_id(id: i32) -> (e: JavaError)
    ensures
        e matches JavaError::RecordStore(m) && m@ == invalid_id_message(id),
{
    JavaError::RecordStore(with_decimal("InvalidRecordIDException: ", id as i64))
}

/// Whether `[offset, offset + num_bytes)` is outside an array of `len`.
pub open spec fn bad_slice(len: int, offset: i32, num_bytes: i32) -> bool {
    offset < 0 || num_bytes < 0 || offset + num_bytes > len
}

/// The `ArrayIndexOutOfBoundsException` for a bad slice: it names the offset
/// when that is negative, else the slice's end.
pub open spec fn slice_error(len: int, offset: i32, num_bytes: i32) -> JavaError {
    JavaError::ArrayIndexOutOfBounds {
        index: if offset < 0 {
            offset
        } else {
            offset.wrapping_add(num_bytes)
        },
        length: len as i32,
    }
}

/// Java-semantics slice copy: a negative offset or length, or a range past
/// the end, is `ArrayIndexOutOfBoundsException` rather than a panic.
fn slice_checked(data: &[i8], offset: i32, num_bytes: i32) -> (r: Result<Vec<i8>, JavaError>)
    ensures
        bad_slice(data@.len() as int, offset, num_bytes) ==> r == Err::<Vec<i8>, JavaError>(
            slice_error(data@.len() as int, offset, num_bytes),
        ),
        !bad_slice(data@.len() as int, offset, num_bytes) ==> (r matches Ok(v) && v@ == data@.subrange(
            offset as int,
            offset + num_bytes,
        )),
{
    if offset < 0 || num_bytes < 0 || (offset as u64) + (num_bytes as u64) > data.len() as u64 {
        return Err(
            JavaError::ArrayIndexOutOfBounds {
                index: if offset < 0 {
                    offset
                } else {
                    offset.wrapping_add(num_bytes)
                },
                length: data.len() as i32,
            },
        );
    }
    let start = offset as usize;
    let end = start + num_bytes as usize;
    Ok(slice_to_vec(vstd::slice::slice_subrange(data, start, end)))
}

/// The records of a store, by id, in ascending id order.
pub type RecordList = Seq<(i32, Seq<i8>)>;

/// The abstract store: its records and the id the next `addRecord` assigns.
pub struct RecordStoreView {
    pub records: RecordList,
    pub next_id: i32,
}

/// Whether ids are ascending, all at least 1, and all below `next_id`.
pub open spec fn id_sequence_ok(records: RecordList, next_id: i32) -> bool {
    &&& next_id >= 1
    &&& forall|i: int, j: int| 0 <= i < j < records.len() ==> records[i].0 < records[j].0
    &&& forall|i: int| 0 <= i < records.len() ==> 1 <= #[trigger] records[i].0 < next_id
}

/// The index of the record with `id`, if the store holds one.
pub open spec fn record_index(records: RecordList, id: i32) -> Option<int>
    decreases records.len(),
{
    if records.len() == 0 {
        None
    } else if records.last().0 == id {
        Some(records.len() - 1)
    } else {
        record_index(records.drop_last(), id)
    }
}

/// The bytes of record `id`, if the store holds it.
pub open spec fn record_of(records: RecordList, id: i32) -> Option<Seq<i8>> {
    match record_index(records, id) {
        Some(i) => Some(records[i].1),
        None => None,
    }
}

/// The total length of the records.
pub open spec fn total_bytes(records: RecordList) -> int
    decreases records.len(),
{
    if records.len() == 0 {
        0
    } else {
        total_bytes(records.drop_last()) + records.last().1.len()
    }
}

proof fn lemma_record_index(records: RecordList, id: i32)
    ensures
        record_index(records, id) matches Some(i) ==> 0 <= i < records.len() && records[i].0 == id,
        record_index(records, id) is None ==> forall|i: int| 0 <= i < records.len() ==> records[i].0 != id,
    decreases records.len(),
{
    if records.len() > 0 {
        lemma_record_index(records.drop_last(), id);
        assert forall|i: int| 0 <= i < records.len() - 1 implies records.drop_last()[i] == records[i] by {}
    }
}

proof fn lemma_record_index_unique(records: RecordList, id: i32, k: int)
    requires
        0 <= k < records.len(),
        records[k].0 == id,
        forall|i: int, j: int| 0 <= i < j < records.len() ==> records[i].0 < records[j].0,
    ensures
        record_index(records, id) == Some(k),
    decreases records.len(),
{
    if k < records.len() - 1 {
        assert(records.last().0 != id);
        let w = records.drop_last();
        assert forall|i: int, j: int| 0 <= i < j < w.len() implies w[i].0 < w[j].0 by {
            assert(w[i] == records[i] && w[j] == records[j]);
        }
        assert(w[k] == records[k]);
        lemma_record_index_unique(w, id, k);
    }
}

proof fn lemma_count_below(records: RecordList, next_id: i32)
    requires
        id_sequence_ok(records, next_id),
    ensures
        records.len() < next_id,
{
    if records.len() > 0 {
        assert forall|k: int| 0 <= k < records.len() implies #[trigger] records[k].0 >= k + 1 by {
            lemma_ascending_floor(records, k);
        }
        assert(records[records.len() - 1].0 >= records.len());
    }
}

proof fn lemma_ascending_floor(records: RecordList, k: int)
    requires
        0 <= k < records.len(),
        forall|i: int, j: int| 0 <= i < j < records.len() ==> records[i].0 < records[j].0,
        forall|i: int| 0 <= i < records.len() ==> 1 <= #[trigger] records[i].0,
    ensures
        records[k].0 >= k + 1,
    decreases k,
{
    if k > 0 {
        lemma_ascending_floor(records, k - 1);
    }
}

/// One record store: records keyed by their monotonic 1-based id, in
/// ascending id order, plus the id the next `addRecord` will assign
/// (MIDP's `getNextRecordID`).
#[derive(Debug)]
pub struct RecordStore {
    records: Vec<(i32, Vec<i8>)>,
    next_id: i32,
}

/// The abstract records of a concrete record list.
pub open spec fn records_view(v: Seq<(i32, Vec<i8>)>) -> RecordList {
    v.map_values(|e: (i32, Vec<i8>)| (e.0, e.1@))
}

impl View for RecordStore {
    type V = RecordStoreView;

    closed spec fn view(&self) -> RecordStoreView {
        RecordStoreView { records: records_view(self.records@), next_id: self.next_id }
    }
}

pub(crate) fn copy_records(v: &Vec<(i32, Vec<i8>)>) -> (r: Vec<(i32, Vec<i8>)>)
    ensures
        records_view(r@) == records_view(v@),
{
    let mut out: Vec<(i32, Vec<i8>)> = Vec::new();
    let mut i: usize = 0;
    while i < v.len()
        invariant
            i <= v@.len(),
            out@.len() == i,
            forall|j: int| 0 <= j < i ==> (#[trigger] out@[j]).0 == v@[j].0 && out@[j].1@ == v@[j].1@,
        decreases v@.len() - i,
    {
        let bytes = slice_to_vec(v[i].1.as_slice());
        out.push((v[i].0, bytes));
        i += 1;
    }
    assert(records_view(out@) =~= records_view(v@));
    out
}

impl RecordStore {
    /// The store's invariant: a valid, monotonic id sequence.
    pub open spec fn wf(&self) -> bool {
        id_sequence_ok(self@.records, self@.next_id)
    }

    /// A fresh store: no records, and the first record added gets id 1.
    pub fn new() -> (r: RecordStore)
        ensures
            r.wf(),
            r@.records == Seq::<(i32, Seq<i8>)>::empty(),
            r@.next_id == 1,
    {
        let r = RecordStore { records: Vec::new(), next_id: 1 };
        assert(records_view(r.records@) =~= Seq::<(i32, Seq<i8>)>::empty());
        r
    }

    /// `getNumRecords()`.
    pub fn num_records(&self) -> (r: i32)
        requires
            self.wf(),
        ensures
            r == self@.records.len(),
    {
        proof {
            lemma_count_below(self@.records, self@.next_id);
        }
        self.records.len() as i32
    }

    /// `getNextRecordID()` — the id the next `addRecord` will assign.
    pub fn next_record_id(&self) -> (r: i32)
        ensures
            r == self@.next_id,
    {
        self.next_id
    }

    fn find(&self, id: i32) -> (r: Option<usize>)
        requires
            self.wf(),
        ensures
            r is None <==> record_index(self@.records, id) is None,
            r matches Some(i) ==> i < self.records@.len() && record_index(self@.records, id) == Some(i as int),
    {
        proof {
            lemma_record_index(self@.records, id);
        }
        let mut i: usize = 0;
        while i < self.records.len()
            invariant
                self.wf(),
                i <= self.records@.len(),
                forall|j: int| 0 <= j < i ==> self.records@[j].0 != id,
            decreases self.records@.len() - i,
        {
            if self.records[i].0 == id {
                proof {
                    assert(self@.records[i as int].0 == id);
                    lemma_record_index_unique(self@.records, id, i as int);
                }
                return Some(i);
            }
            i += 1;
        }
        proof {
            assert forall|j: int| 0 <= j < self@.records.len() implies self@.records[j].0 != id by {
                assert(self@.records[j].0 == self.records@[j].0);
            }
            lemma_record_index(self@.records, id);
            if record_index(self@.records, id) is Some {
                let k = record_index(self@.records, id)->0;
                assert(self@.records[k].0 == id);
            }
        }
        None
    }

    /// `addRecord(data, offset, numBytes)` — appends a record with the next
    /// monotonic id and returns it. A slice outside the array is
    /// `ArrayIndexOutOfBoundsException`, and the store is left as it was.
    pub fn add_record(&mut self, data: &[i8], offset: i32, num_bytes: i32) -> (r: Result<i32, JavaError>)
        requires
            old(self).wf(),
            old(self)@.next_id < i32::MAX,
        ensures
            final(self).wf(),
            r is Err ==> *final(self) == *old(self),
            bad_slice(data@.len() as int, offset, num_bytes) ==> r == Err::<i32, JavaError>(
                slice_error(data@.len() as int, offset, num_bytes),
            ) && final(self)@ == old(self)@,
            !bad_slice(data@.len() as int, offset, num_bytes) ==> r == Ok::<i32, JavaError>(old(self)@.next_id)
                && final(self)@ == (RecordStoreView {
                records: old(self)@.records.push(
                    (old(self)@.next_id, data@.subrange(offset as int, offset + num_bytes)),
                ),
                next_id: (old(self)@.next_id + 1) as i32,
            }),
    {
        let rec = match slice_checked(data, offset, num_bytes) {
            Ok(rec) => rec,
            Err(e) => return Err(e),
        };
        let id = self.next_id;
        self.records.push((id, rec));
        self.next_id = id + 1;
        proof {
            assert(records_view(self.records@) =~= records_view(old(self).records@).push((id, rec@)));
        }
        Ok(id)
    }

    /// `getRecord(id)` — a copy of the record's bytes; a missing id throws
    /// `InvalidRecordIDException`.
    pub fn get_record(&self, id: i32) -> (r: Result<Vec<i8>, JavaError>)
        requires
            self.wf(),
        ensures
            match record_of(self@.records, id) {
                Some(bytes) => r matches Ok(v) && v@ == bytes,
                None => r matches Err(JavaError::RecordStore(m)) && m@ == invalid_id_message(id),
            },
    {
        match self.find(id) {
            Some(i) => {
                assert(self@.records[i as int] == (self.records@[i as int].0, self.records@[i as int].1@));
                Ok(slice_to_vec(self.records[i].1.as_slice()))
            },
            None => Err(invalid_id(id)),
        }
    }

    /// `getRecordSize(id)` — the record's length in bytes; a missing id
    /// throws.
    pub fn get_record_size(&self, id: i32) -> (r: Result<i32, JavaError>)
        requires
            self.wf(),
        ensures
            match record_of(self@.records, id) {
                Some(bytes) => r == Ok::<i32, JavaError>(bytes.len() as i32),
                None => r matches Err(JavaError::RecordStore(m)) && m@ == invalid_id_message(id),
            },
    {
        match self.find(id) {
            Some(i) => {
                assert(self@.records[i as int] == (self.records@[i as int].0, self.records@[i as int].1@));
                Ok(self.records[i].1.len() as i32)
            },
            None => Err(invalid_id(id)),
        }
    }

    /// `setRecord(id, data, offset, numBytes)` replaces a record without
    /// changing its id or the next-id sequence. A missing id is checked
    /// before the slice.
    pub fn set_record(&mut self, id: i32, data: &[i8], offset: i32, num_bytes: i32) -> (r: Result<(), JavaError>)
        requires
            old(self).wf(),
        ensures
            final(self).wf(),
            r is Err ==> *final(self) == *old(self),
            match record_index(old(self)@.records, id) {
                None => final(self)@ == old(self)@ && (r matches Err(JavaError::RecordStore(m)) && m@
                    == invalid_id_message(id)),
                Some(i) => if bad_slice(data@.len() as int, offset, num_bytes) {
                    r == Err::<(), JavaError>(slice_error(data@.len() as int, offset, num_bytes)) && final(self)@
                        == old(self)@
                } else {
                    r is Ok && final(self)@ == (RecordStoreView {
                        records: old(self)@.records.update(
                            i,
                            (id, data@.subrange(offset as int, offset + num_bytes)),
                        ),
                        next_id: old(self)@.next_id,
                    })
                },
            },
    {
        let i = match self.find(id) {
            Some(i) => i,
            None => return Err(invalid_id(id)),
        };
        let rec = match slice_checked(data, offset, num_bytes) {
            Ok(rec) => rec,
            Err(e) => return Err(e),
        };
        proof {
            lemma_record_index(old(self)@.records, id);
        }
        self.records.set(i, (id, rec));
        proof {
            assert(records_view(self.records@) =~= records_view(old(self).records@).update(i as int, (id, rec@)));
            let a = old(self)@.records;
            let b = self@.records;
            assert(a[i as int].0 == id);
            assert forall|x: int, y: int| 0 <= x < y < b.len() implies b[x].0 < b[y].0 by {
                assert(b[x].0 == a[x].0 && b[y].0 == a[y].0);
            }
            assert forall|x: int| 0 <= x < b.len() implies 1 <= #[trigger] b[x].0 < self@.next_id by {
                assert(b[x].0 == a[x].0);
            }
        }
        Ok(())
    }

    /// `deleteRecord(id)`. Deleted identifiers are never reused.
    pub fn delete_record(&mut self, id: i32) -> (r: Result<(), JavaError>)
        requires
            old(self).wf(),
        ensures
            final(self).wf(),
            r is Err ==> *final(self) == *old(self),
            match record_index(old(self)@.records, id) {
                None => final(self)@ == old(self)@ && (r matches Err(JavaError::RecordStore(m)) && m@
                    == invalid_id_message(id)),
                Some(i) => r is Ok && final(self)@ == (RecordStoreView {
                    records: old(self)@.records.remove(i),
                    next_id: old(self)@.next_id,
                }),
            },
    {
        let i = match self.find(id) {
            Some(i) => i,
            None => return Err(invalid_id(id)),
        };
        self.records.remove(i);
        proof {
            assert(records_view(self.records@) =~= records_view(old(self).records@).remove(i as int));
            let a = old(self)@.records;
            let b = self@.records;
            assert forall|x: int, y: int| 0 <= x < y < b.len() implies b[x].0 < b[y].0 by {
                let xo = if x < i { x } else { x + 1 };
                let yo = if y < i { y } else { y + 1 };
                assert(b[x] == a[xo] && b[y] == a[yo]);
            }
            assert forall|x: int| 0 <= x < b.len() implies 1 <= #[trigger] b[x].0 < self@.next_id by {
                let xo = if x < i { x } else { x + 1 };
                assert(b[x] == a[xo]);
            }
        }
        Ok(())
    }

    /// The total length of the records, saturating at `u64::MAX`.
    pub fn size_bytes(&self) -> (r: u64)
        ensures
            r == (if total_bytes(self@.records) > u64::MAX { u64::MAX as int } else { total_bytes(self@.records) }),
    {
        let mut total: u64 = 0;
        let mut i: usize = 0;
        while i < self.records.len()
            invariant
                i <= self.records@.len(),
                total == (if total_bytes(self@.records.subrange(0, i as int)) > u64::MAX {
                    u64::MAX as int
                } else {
                    total_bytes(self@.records.subrange(0, i as int))
                }),
            decreases self.records@.len() - i,
        {
            proof {
                assert(self@.records.subrange(0, i + 1).drop_last() =~= self@.records.subrange(0, i as int));
                assert(total_bytes(self@.records.subrange(0, i + 1)) >= total_bytes(self@.records.subrange(0, i as int)));
            }
            total = total.saturating_add(self.records[i].1.len() as u64);
            i += 1;
        }
        proof {
            assert(self@.records.subrange(0, i as int) =~= self@.records);
        }
        total
    }

    /// The store as its host-facing snapshot.
    pub fn snapshot(&self) -> (r: RecordStoreSnapshot)
        ensures
            records_view(r.records@) == self@.records,
            r.next_id == self@.next_id,
    {
        RecordStoreSnapshot { next_id: self.next_id, records: copy_records(&self.records) }
    }

    /// A store from its snapshot, after checking that the ids ascend, are
    /// all at least 1, and all lie below the next id; otherwise a
    /// `RecordStoreException`.
    pub fn from_snapshot(snapshot: RecordStoreSnapshot) -> (r: Result<RecordStore, JavaError>)
        ensures
            id_sequence_ok(records_view(snapshot.records@), snapshot.next_id) ==> (r matches Ok(s) && s.wf() && s@
                == (RecordStoreView { records: records_view(snapshot.records@), next_id: snapshot.next_id })),
            !id_sequence_ok(records_view(snapshot.records@), snapshot.next_id) ==> (r matches Err(
                JavaError::RecordStore(m),
            ) && m@ == "invalid persisted record-id sequence"@),
    {
        let ghost recs = records_view(snapshot.records@);
        let n = snapshot.records.len();
        let mut ok = snapshot.next_id >= 1;
        let mut i: usize = 0;
        while i < n && ok
            invariant
                n == snapshot.records@.len(),
                recs == records_view(snapshot.records@),
                i <= n,
                ok == (snapshot.next_id >= 1),
                ok ==> forall|a: int, b: int| 0 <= a < b < i ==> recs[a].0 < recs[b].0,
                ok ==> forall|a: int| 0 <= a < i ==> 1 <= #[trigger] recs[a].0 < snapshot.next_id,
            decreases n - i,
        {
            let id = snapshot.records[i].0;
            if id < 1 || id >= snapshot.next_id || (i > 0 && snapshot.records[i - 1].0 >= id) {
                proof {
                    assert(recs[i as int].0 == id);
                    if i > 0 {
                        assert(recs[i - 1].0 == snapshot.records@[i - 1].0);
                    }
                }
                return Err(JavaError::RecordStore(String::from_str("invalid persisted record-id sequence")));
            }
            proof {
                assert(recs[i as int].0 == id);
                if i > 0 {
                    assert(recs[i - 1].0 == snapshot.records@[i - 1].0);
                    assert forall|a: int| 0 <= a < i implies recs[a].0 < id by {
                        if a < i - 1 {
                            assert(recs[a].0 < recs[i - 1].0);
                        }
                    }
                }
            }
            i += 1;
        }
        if !ok {
            return Err(JavaError::RecordStore(String::from_str("invalid persisted record-id sequence")));
        }
        Ok(RecordStore { records: snapshot.records, next_id: snapshot.next_id })
    }
}

/// Stable host-facing representation of one store: the next id and the
/// records in ascending id order. This is not a wire format; host crates may
/// encode it however they choose while preserving MIDP ids.
#[derive(Debug, PartialEq, Eq)]
pub struct RecordStoreSnapshot {
    pub next_id: i32,
    pub records: Vec<(i32, Vec<i8>)>,
}

} // verus!

verus! {

/// Deterministically ordered snapshot of the whole RMS namespace: each store
/// by name, in ascending name order.
#[derive(Debug, PartialEq, Eq)]
pub struct RmsSnapshot {
    pub stores: Vec<(String, RecordStoreSnapshot)>,
}

impl Default for RmsSnapshot {
    fn default() -> (r: RmsSnapshot)
        ensures
            r.stores@.len() == 0,
    {
        RmsSnapshot { stores: Vec::new() }
    }
}

/// How many times `name` is open.
pub open spec fn open_count(counts: Seq<(String, u32)>, name: Seq<char>) -> u32 {
    match key_index(counts, name, 0) {
        Some(k) => counts[k].1,
        None => 0,
    }
}

/// The bytes every store holds, together.
pub open spec fn stores_bytes(s: Seq<(String, RecordStore)>) -> int
    decreases s.len(),
{
    if s.len() == 0 {
        0
    } else {
        stores_bytes(s.drop_last()) + total_bytes(s.last().1@.records)
    }
}

/// A byte count saturated to `u64`.
pub open spec fn saturate_u64(x: int) -> int {
    if x > u64::MAX { u64::MAX as int } else { x }
}

/// The message for a store that is not open.
pub open spec fn not_open_message(name: Seq<char>) -> Seq<char> {
    "RecordStoreNotOpenException: "@ + name
}

/// The message for a write the quota refuses.
pub open spec fn full_message() -> Seq<char> {
    "RecordStoreFullException: RMS capacity exceeded"@
}

/// Whether the quota refuses `growth` more bytes over `used`.
pub open spec fn over_quota(capacity: Option<u64>, used: int, growth: int) -> bool {
    capacity matches Some(c) && saturate_u64(used + growth) > c
}

/// The set of named record stores on the device (the RMS namespace) — the
/// host seam. A store handle in the game code is its name.
#[derive(Debug)]
pub struct RmsRuntime {
    stores: Vec<(String, RecordStore)>,
    open_counts: Vec<(String, u32)>,
    capacity_bytes: Option<u64>,
}

impl RmsRuntime {
    /// The stores, by name, in ascending name order.
    pub closed spec fn store_entries(&self) -> Seq<(String, RecordStore)> {
        self.stores@
    }

    /// How many times each name is open.
    pub closed spec fn count_entries(&self) -> Seq<(String, u32)> {
        self.open_counts@
    }

    /// The profile's RMS quota, if it sets one.
    pub closed spec fn capacity(&self) -> Option<u64> {
        self.capacity_bytes
    }

    /// The namespace's invariant: stores in ascending name order, each with a
    /// valid id sequence, and each open count kept once.
    pub open spec fn wf(&self) -> bool {
        &&& names_ascending(self.store_entries())
        &&& forall|i: int| 0 <= i < self.store_entries().len() ==> (#[trigger] self.store_entries()[i]).1.wf()
        &&& names_distinct(self.count_entries())
    }

    /// The bytes every store holds, saturated to `u64`.
    pub open spec fn used_spec(&self) -> int {
        saturate_u64(stores_bytes(self.store_entries()))
    }

    /// A fresh, empty RMS namespace with no quota.
    pub fn new() -> (r: RmsRuntime)
        ensures
            r.wf(),
            r.store_entries().len() == 0,
            r.count_entries().len() == 0,
            r.capacity() is None,
    {
        RmsRuntime { stores: Vec::new(), open_counts: Vec::new(), capacity_bytes: None }
    }

    /// An empty namespace with the reviewed device profile's RMS quota.
    pub fn with_capacity(capacity_bytes: Option<u64>) -> (r: RmsRuntime)
        ensures
            r.wf(),
            r.store_entries().len() == 0,
            r.count_entries().len() == 0,
            r.capacity() == capacity_bytes,
    {
        RmsRuntime { stores: Vec::new(), open_counts: Vec::new(), capacity_bytes }
    }

    /// Whether a record store with this name exists.
    pub fn contains(&self, name: &str) -> (r: bool)
        ensures
            r == key_index(self.store_entries(), name@, 0) is Some,
    {
        find_key(&self.stores, name).is_some()
    }

    /// `RecordStore.openRecordStore(name, createIfNecessary)`. Returns the
    /// store handle (its name); an absent store is created when `create` is
    /// set and is otherwise `RecordStoreNotFoundException`.
    pub fn open(&mut self, name: &str, create: bool) -> (r: Result<String, JavaError>)
        requires
            old(self).wf(),
            open_count(old(self).count_entries(), name@) < u32::MAX,
        ensures
            final(self).wf(),
            final(self).capacity() == old(self).capacity(),
            key_index(old(self).store_entries(), name@, 0) is None && !create ==> (r matches Err(
                JavaError::RecordStore(m),
            ) && m@ == not_found_message(name@)) && final(self).store_entries() == old(self).store_entries()
                && final(self).count_entries() == old(self).count_entries(),
            key_index(old(self).store_entries(), name@, 0) is Some ==> final(self).store_entries()
                == old(self).store_entries(),
            key_index(old(self).store_entries(), name@, 0) is None && create ==> ({
                let p = insert_position(old(self).store_entries(), name@, 0);
                let s = final(self).store_entries();
                &&& s.len() == old(self).store_entries().len() + 1
                &&& s[p].0@ == name@ && s[p].1@.records.len() == 0 && s[p].1@.next_id == 1
                &&& forall|j: int| 0 <= j < p ==> s[j] == old(self).store_entries()[j]
                &&& forall|j: int| p < j < s.len() ==> s[j] == old(self).store_entries()[j - 1]
            }),
            key_index(old(self).store_entries(), name@, 0) is Some || create ==> (r matches Ok(h) && h@ == name@)
                && forall|n: Seq<char>| #[trigger] open_count(final(self).count_entries(), n) == if n == name@ {
                    (open_count(old(self).count_entries(), n) + 1) as u32
                } else {
                    open_count(old(self).count_entries(), n)
                },
    {
        if find_key(&self.stores, name).is_none() {
            if !create {
                return Err(not_found(name));
            }
            let p = find_position(&self.stores, name);
            let ghost before = self.stores@;
            proof {
                lemma_key_index(before, name@, 0);
                lemma_insert_position(before, name@, 0);
                if p < before.len() {
                    crate::text::lemma_text_order(before[p as int].0@, name@);
                }
            }
            self.stores.insert(p, (String::from_str(name), RecordStore::new()));
            proof {
                let s = self.stores@;
                assert forall|i: int| 0 <= i < s.len() - 1 implies text_less(#[trigger] s[i].0@, s[i + 1].0@) by {
                    if i + 1 < p {
                        assert(s[i] == before[i] && s[i + 1] == before[i + 1]);
                    } else if i + 1 == p {
                        assert(s[i] == before[i]);
                    } else if i == p {
                        assert(s[i + 1] == before[i]);
                    } else {
                        assert(s[i] == before[i - 1] && s[i + 1] == before[i]);
                    }
                }
                assert forall|i: int| 0 <= i < s.len() implies (#[trigger] s[i]).1.wf() by {
                    if i < p {
                        assert(s[i] == before[i]);
                    } else if i > p {
                        assert(s[i] == before[i - 1]);
                    }
                }
            }
        }
        self.bump(name);
        Ok(String::from_str(name))
    }

    fn bump(&mut self, name: &str)
        requires
            names_distinct(old(self).open_counts@),
            open_count(old(self).open_counts@, name@) < u32::MAX,
        ensures
            names_distinct(final(self).open_counts@),
            final(self).stores@ == old(self).stores@,
            final(self).capacity_bytes == old(self).capacity_bytes,
            forall|n: Seq<char>| #[trigger] open_count(final(self).open_counts@, n) == if n == name@ {
                (open_count(old(self).open_counts@, n) + 1) as u32
            } else {
                open_count(old(self).open_counts@, n)
            },
    {
        let ghost before = self.open_counts@;
        proof {
            lemma_key_index(before, name@, 0);
        }
        match find_key(&self.open_counts, name) {
            Some(k) => {
                let c = self.open_counts[k].1;
                let key = self.open_counts[k].0.clone();
                self.open_counts.set(k, (key, c + 1));
                proof {
                    let after = self.open_counts@;
                    assert forall|n: Seq<char>| #[trigger] open_count(after, n) == if n == name@ {
                        (open_count(before, n) + 1) as u32
                    } else {
                        open_count(before, n)
                    } by {
                        lemma_key_index(before, n, 0);
                        lemma_key_index(after, n, 0);
                        if key_index(before, n, 0) is Some {
                            let j = key_index(before, n, 0)->0;
                            lemma_unique_index(after, n, j);
                        } else if key_index(after, n, 0) is Some {
                            let j = key_index(after, n, 0)->0;
                            assert(before[j].0@ == after[j].0@);
                        }
                    }
                }
            },
            None => {
                self.open_counts.push((String::from_str(name), 1));
                proof {
                    let after = self.open_counts@;
                    assert forall|i: int, j: int| 0 <= i < j < after.len() implies (#[trigger] after[i]).0@
                        != (#[trigger] after[j]).0@ by {
                        if j == after.len() - 1 {
                            assert(after[i] == before[i]);
                        } else {
                            assert(after[i] == before[i] && after[j] == before[j]);
                        }
                    }
                    assert forall|n: Seq<char>| #[trigger] open_count(after, n) == if n == name@ {
                        (open_count(before, n) + 1) as u32
                    } else {
                        open_count(before, n)
                    } by {
                        lemma_key_index(before, n, 0);
                        lemma_key_index(after, n, 0);
                        if n == name@ {
                            lemma_unique_index(after, n, after.len() - 1);
                        } else if key_index(before, n, 0) is Some {
                            let j = key_index(before, n, 0)->0;
                            assert(after[j] == before[j]);
                            lemma_unique_index(after, n, j);
                        } else if key_index(after, n, 0) is Some {
                            let j = key_index(after, n, 0)->0;
                            if j < before.len() {
                                assert(after[j] == before[j]);
                            }
                        }
                    }
                }
            },
        }
    }
}

impl RmsRuntime {
    /// `closeRecordStore()` — closes one handle. The store persists in the
    /// namespace; closing a name that is not open is
    /// `RecordStoreNotOpenException`.
    pub fn close(&mut self, name: &str) -> (r: Result<(), JavaError>)
        requires
            old(self).wf(),
        ensures
            final(self).wf(),
            final(self).store_entries() == old(self).store_entries(),
            final(self).capacity() == old(self).capacity(),
            open_count(old(self).count_entries(), name@) == 0 ==> (r matches Err(JavaError::RecordStore(m)) && m@
                == not_open_message(name@)) && final(self).count_entries() == old(self).count_entries(),
            open_count(old(self).count_entries(), name@) > 0 ==> r is Ok && forall|n: Seq<char>|
                #[trigger] open_count(final(self).count_entries(), n) == if n == name@ {
                    (open_count(old(self).count_entries(), n) - 1) as u32
                } else {
                    open_count(old(self).count_entries(), n)
                },
    {
        let ghost before = self.open_counts@;
        proof {
            lemma_key_index(before, name@, 0);
        }
        let k = match find_key(&self.open_counts, name) {
            Some(k) => k,
            None => {
                let mut m = String::from_str("RecordStoreNotOpenException: ");
                m.append(name);
                return Err(JavaError::RecordStore(m));
            },
        };
        let c = self.open_counts[k].1;
        if c == 0 {
            let mut m = String::from_str("RecordStoreNotOpenException: ");
            m.append(name);
            return Err(JavaError::RecordStore(m));
        }
        let key = self.open_counts[k].0.clone();
        self.open_counts.set(k, (key, c - 1));
        proof {
            let after = self.open_counts@;
            assert forall|i: int, j: int| 0 <= i < j < after.len() implies (#[trigger] after[i]).0@
                != (#[trigger] after[j]).0@ by {
                assert(after[i].0@ == before[i].0@ && after[j].0@ == before[j].0@);
            }
            assert forall|n: Seq<char>| #[trigger] open_count(after, n) == if n == name@ {
                (open_count(before, n) - 1) as u32
            } else {
                open_count(before, n)
            } by {
                lemma_key_index(before, n, 0);
                lemma_key_index(after, n, 0);
                if key_index(before, n, 0) is Some {
                    let j = key_index(before, n, 0)->0;
                    lemma_unique_index(after, n, j);
                } else if key_index(after, n, 0) is Some {
                    let j = key_index(after, n, 0)->0;
                    assert(before[j].0@ == after[j].0@);
                }
            }
        }
        Ok(())
    }

    /// `RecordStore.deleteRecordStore(name)` — removes the store (and its
    /// ids) entirely, and forgets its open handles; an absent store is
    /// `RecordStoreNotFoundException`.
    pub fn delete_store(&mut self, name: &str) -> (r: Result<(), JavaError>)
        requires
            old(self).wf(),
        ensures
            final(self).wf(),
            final(self).capacity() == old(self).capacity(),
            match key_index(old(self).store_entries(), name@, 0) {
                None => (r matches Err(JavaError::RecordStore(m)) && m@ == not_found_message(name@))
                    && final(self).store_entries() == old(self).store_entries(),
                Some(i) => r is Ok && final(self).store_entries() == old(self).store_entries().remove(i),
            },
            forall|n: Seq<char>| #[trigger] open_count(final(self).count_entries(), n) == if n == name@ {
                0
            } else {
                open_count(old(self).count_entries(), n)
            },
    {
        let ghost stores_before = self.stores@;
        let result = match find_key(&self.stores, name) {
            Some(i) => {
                self.stores.remove(i);
                proof {
                    let a = stores_before;
                    let b = self.stores@;
                    assert forall|x: int| 0 <= x < b.len() - 1 implies text_less(#[trigger] b[x].0@, b[x + 1].0@) by {
                        if x + 1 < i {
                            assert(b[x] == a[x] && b[x + 1] == a[x + 1]);
                        } else if x + 1 == i {
                            assert(b[x] == a[x] && b[x + 1] == a[x + 2]);
                            lemma_text_less_trans(a[x].0@, a[x + 1].0@, a[x + 2].0@);
                        } else {
                            assert(b[x] == a[x + 1] && b[x + 1] == a[x + 2]);
                        }
                    }
                    assert forall|x: int| 0 <= x < b.len() implies (#[trigger] b[x]).1.wf() by {
                        if x < i {
                            assert(b[x] == a[x]);
                        } else {
                            assert(b[x] == a[x + 1]);
                        }
                    }
                }
                Ok(())
            },
            None => Err(not_found(name)),
        };
        let ghost before = self.open_counts@;
        proof {
            lemma_key_index(before, name@, 0);
        }
        if let Some(k) = find_key(&self.open_counts, name) {
            self.open_counts.remove(k);
            proof {
                let after = self.open_counts@;
                assert forall|x: int, y: int| 0 <= x < y < after.len() implies (#[trigger] after[x]).0@
                    != (#[trigger] after[y]).0@ by {
                    let xo = if x < k { x } else { x + 1 };
                    let yo = if y < k { y } else { y + 1 };
                    assert(after[x] == before[xo] && after[y] == before[yo]);
                }
                assert forall|n: Seq<char>| #[trigger] open_count(after, n) == if n == name@ {
                    0
                } else {
                    open_count(before, n)
                } by {
                    lemma_key_index(before, n, 0);
                    lemma_key_index(after, n, 0);
                    if key_index(after, n, 0) is Some {
                        let j = key_index(after, n, 0)->0;
                        let jo = if j < k { j } else { j + 1 };
                        assert(after[j] == before[jo]);
                        lemma_unique_index(before, n, jo);
                    } else if key_index(before, n, 0) is Some {
                        let j = key_index(before, n, 0)->0;
                        if j != k {
                            let ja = if j < k { j } else { j - 1 };
                            assert(after[ja] == before[j]);
                        }
                    }
                }
            }
        } else {
            proof {
                assert forall|n: Seq<char>| #[trigger] open_count(before, n) == if n == name@ {
                    0
                } else {
                    open_count(before, n)
                } by {}
            }
        }
        result
    }

    /// `RecordStore.listRecordStores()`, in ascending name order. An empty
    /// vector corresponds to the Java API's `null` result.
    pub fn list_record_stores(&self) -> (r: Vec<String>)
        ensures
            r@.len() == self.store_entries().len(),
            forall|i: int| 0 <= i < r@.len() ==> r@[i]@ == (#[trigger] self.store_entries()[i]).0@,
    {
        let mut names: Vec<String> = Vec::new();
        let mut i: usize = 0;
        while i < self.stores.len()
            invariant
                i <= self.stores@.len(),
                names@.len() == i,
                forall|j: int| 0 <= j < i ==> names@[j]@ == (#[trigger] self.stores@[j]).0@,
            decreases self.stores@.len() - i,
        {
            names.push(self.stores[i].0.clone());
            i += 1;
        }
        names
    }

    /// The bytes every store holds, saturating at `u64::MAX`.
    pub fn used_bytes(&self) -> (r: u64)
        ensures
            r == self.used_spec(),
    {
        let mut total: u64 = 0;
        let mut i: usize = 0;
        while i < self.stores.len()
            invariant
                i <= self.stores@.len(),
                total == saturate_u64(stores_bytes(self.stores@.subrange(0, i as int))),
            decreases self.stores@.len() - i,
        {
            proof {
                assert(self.stores@.subrange(0, i + 1).drop_last() =~= self.stores@.subrange(0, i as int));
                lemma_total_nonneg(self.stores@[i as int].1@.records);
                lemma_stores_nonneg(self.stores@.subrange(0, i as int));
            }
            total = total.saturating_add(self.stores[i].1.size_bytes());
            i += 1;
        }
        proof {
            assert(self.stores@.subrange(0, i as int) =~= self.stores@);
        }
        total
    }

    /// `getSizeAvailable`: the quota left, or `i32::MAX` without a quota,
    /// saturated to Java's signed integer range.
    pub fn size_available(&self) -> (r: i32)
        ensures
            r == ({
                let remaining = match self.capacity() {
                    Some(c) => if self.used_spec() > c { 0 } else { c - self.used_spec() },
                    None => i32::MAX as int,
                };
                if remaining > i32::MAX { i32::MAX as int } else { remaining }
            }),
    {
        let remaining = match self.capacity_bytes {
            Some(capacity) => capacity.saturating_sub(self.used_bytes()),
            None => 0x7fff_ffffu64,
        };
        if remaining > 0x7fff_ffff {
            0x7fff_ffff
        } else {
            remaining as i32
        }
    }

    fn require_space(&self, growth: u64) -> (r: Result<(), JavaError>)
        ensures
            over_quota(self.capacity(), self.used_spec(), growth as int) ==> (r matches Err(
                JavaError::RecordStore(m),
            ) && m@ == full_message()),
            !over_quota(self.capacity(), self.used_spec(), growth as int) ==> r is Ok,
    {
        match self.capacity_bytes {
            Some(capacity) => if self.used_bytes().saturating_add(growth) > capacity {
                Err(JavaError::RecordStore(String::from_str("RecordStoreFullException: RMS capacity exceeded")))
            } else {
                Ok(())
            },
            None => Ok(()),
        }
    }

    /// Shared access to a store; a missing store is
    /// `RecordStoreNotFoundException`.
    pub fn get(&self, name: &str) -> (r: Result<&RecordStore, JavaError>)
        requires
            self.wf(),
        ensures
            match key_index(self.store_entries(), name@, 0) {
                Some(i) => (r matches Ok(s) && *s == self.store_entries()[i].1) && self.store_entries()[i].1.wf(),
                None => r matches Err(JavaError::RecordStore(m)) && m@ == not_found_message(name@),
            },
    {
        match find_key(&self.stores, name) {
            Some(i) => Ok(&self.stores[i].1),
            None => Err(not_found(name)),
        }
    }

    fn entry_mut(&mut self, i: usize) -> (r: &mut RecordStore)
        requires
            i < old(self).stores@.len(),
        ensures
            *r == old(self).stores@[i as int].1,
            final(self).stores@ == old(self).stores@.update(i as int, (old(self).stores@[i as int].0, *final(r))),
            final(self).open_counts == old(self).open_counts,
            final(self).capacity_bytes == old(self).capacity_bytes,
    {
        &mut self.stores[i].1
    }

    /// Mutable access to a store; a missing store is
    /// `RecordStoreNotFoundException`. The namespace keeps its invariant as
    /// long as the store keeps its own.
    pub fn get_mut(&mut self, name: &str) -> (r: Result<&mut RecordStore, JavaError>)
        requires
            old(self).wf(),
        ensures
            match key_index(old(self).store_entries(), name@, 0) {
                Some(i) => (r matches Ok(s) && *s == old(self).store_entries()[i].1 && s.wf()
                    && final(self).store_entries() == old(self).store_entries().update(
                    i,
                    (old(self).store_entries()[i].0, *final(s)),
                ) && (final(s).wf() ==> final(self).wf())) && final(self).count_entries()
                    == old(self).count_entries() && final(self).capacity() == old(self).capacity(),
                None => (r matches Err(JavaError::RecordStore(m)) && m@ == not_found_message(name@))
                    && *final(self) == *old(self),
            },
    {
        match find_key(&self.stores, name) {
            Some(i) => Ok(&mut self.stores[i].1),
            None => Err(not_found(name)),
        }
    }
}

proof fn lemma_total_nonneg(records: RecordList)
    ensures
        total_bytes(records) >= 0,
    decreases records.len(),
{
    if records.len() > 0 {
        lemma_total_nonneg(records.drop_last());
    }
}

proof fn lemma_stores_nonneg(s: Seq<(String, RecordStore)>)
    ensures
        stores_bytes(s) >= 0,
    decreases s.len(),
{
    if s.len() > 0 {
        lemma_stores_nonneg(s.drop_last());
        lemma_total_nonneg(s.last().1@.records);
    }
}

/// The bytes every store of a snapshot holds, together.
pub open spec fn snapshot_bytes(s: Seq<(String, RecordStoreSnapshot)>) -> int
    decreases s.len(),
{
    if s.len() == 0 {
        0
    } else {
        snapshot_bytes(s.drop_last()) + total_bytes(records_view(s.last().1.records@))
    }
}

/// Whether a store entry holds what a snapshot entry describes.
pub open spec fn restored(e: (String, RecordStore), s: (String, RecordStoreSnapshot)) -> bool {
    e.0@ == s.0@ && e.1@.records == records_view(s.1.records@) && e.1@.next_id == s.1.next_id
}

proof fn lemma_bytes_agree(e: Seq<(String, RecordStore)>, s: Seq<(String, RecordStoreSnapshot)>)
    requires
        e.len() == s.len(),
        forall|i: int| 0 <= i < e.len() ==> restored(#[trigger] e[i], s[i]),
    ensures
        stores_bytes(e) == snapshot_bytes(s),
    decreases e.len(),
{
    if e.len() > 0 {
        let (a, b) = (e.drop_last(), s.drop_last());
        assert forall|i: int| 0 <= i < a.len() implies restored(#[trigger] a[i], b[i]) by {
            assert(a[i] == e[i] && b[i] == s[i]);
        }
        lemma_bytes_agree(a, b);
        assert(restored(e[e.len() - 1], s[s.len() - 1]));
    }
}

/// Whether every store of a snapshot has a valid id sequence.
pub open spec fn snapshot_ids_ok(s: Seq<(String, RecordStoreSnapshot)>) -> bool {
    forall|i: int| 0 <= i < s.len() ==> id_sequence_ok(records_view((#[trigger] s[i]).1.records@), s[i].1.next_id)
}

impl RmsRuntime {
    /// Quota-aware `addRecord`: the slice is checked first, then the quota,
    /// then that the store exists.
    pub fn add_record(&mut self, name: &str, data: &[i8], offset: i32, num_bytes: i32) -> (r: Result<i32, JavaError>)
        requires
            old(self).wf(),
            key_index(old(self).store_entries(), name@, 0) matches Some(i) ==> old(self).store_entries()[i].1@.next_id
                < i32::MAX,
        ensures
            final(self).wf(),
            final(self).count_entries() == old(self).count_entries(),
            final(self).capacity() == old(self).capacity(),
            bad_slice(data@.len() as int, offset, num_bytes) ==> r == Err::<i32, JavaError>(
                slice_error(data@.len() as int, offset, num_bytes),
            ) && final(self).store_entries() == old(self).store_entries(),
            !bad_slice(data@.len() as int, offset, num_bytes) && over_quota(
                old(self).capacity(),
                old(self).used_spec(),
                num_bytes as int,
            ) ==> (r matches Err(JavaError::RecordStore(m)) && m@ == full_message()) && final(self).store_entries()
                == old(self).store_entries(),
            !bad_slice(data@.len() as int, offset, num_bytes) && !over_quota(
                old(self).capacity(),
                old(self).used_spec(),
                num_bytes as int,
            ) ==> match key_index(old(self).store_entries(), name@, 0) {
                None => (r matches Err(JavaError::RecordStore(m)) && m@ == not_found_message(name@))
                    && final(self).store_entries() == old(self).store_entries(),
                Some(i) => {
                    let before = old(self).store_entries()[i];
                    let after = final(self).store_entries();
                    &&& r == Ok::<i32, JavaError>(before.1@.next_id)
                    &&& after.len() == old(self).store_entries().len()
                    &&& after[i].0 == before.0
                    &&& after[i].1@ == (RecordStoreView {
                        records: before.1@.records.push(
                            (before.1@.next_id, data@.subrange(offset as int, offset + num_bytes)),
                        ),
                        next_id: (before.1@.next_id + 1) as i32,
                    })
                    &&& forall|j: int| 0 <= j < after.len() && j != i ==> after[j] == old(self).store_entries()[j]
                },
            },
    {
        let record = match slice_checked(data, offset, num_bytes) {
            Ok(record) => record,
            Err(e) => return Err(e),
        };
        if let Err(e) = self.require_space(record.len() as u64) {
            return Err(e);
        }
        let ghost before = self.stores@;
        let i = match find_key(&self.stores, name) {
            Some(i) => i,
            None => return Err(not_found(name)),
        };
        let result = self.entry_mut(i).add_record(data, offset, num_bytes);
        proof {
            if result is Err {
                assert(self.stores@ =~= before);
            }
            self.lemma_update_keeps_wf(before, i as int);
        }
        result
    }

    /// Quota-aware `setRecord`: the slice is checked first, then the store
    /// and the record, then the quota against the record's growth.
    pub fn set_record(&mut self, name: &str, id: i32, data: &[i8], offset: i32, num_bytes: i32) -> (r: Result<
        (),
        JavaError,
    >)
        requires
            old(self).wf(),
        ensures
            final(self).wf(),
            final(self).count_entries() == old(self).count_entries(),
            final(self).capacity() == old(self).capacity(),
            r is Err ==> final(self).store_entries() == old(self).store_entries(),
            bad_slice(data@.len() as int, offset, num_bytes) ==> r == Err::<(), JavaError>(
                slice_error(data@.len() as int, offset, num_bytes),
            ),
            !bad_slice(data@.len() as int, offset, num_bytes) ==> match key_index(
                old(self).store_entries(),
                name@,
                0,
            ) {
                None => r matches Err(JavaError::RecordStore(m)) && m@ == not_found_message(name@),
                Some(i) => {
                    let before = old(self).store_entries()[i];
                    match record_index(before.1@.records, id) {
                        None => r matches Err(JavaError::RecordStore(m)) && m@ == invalid_id_message(id),
                        Some(k) => {
                            let old_len = (before.1@.records[k].1.len() as i32) as u64;
                            let growth = if num_bytes >= old_len { num_bytes - old_len } else { 0 };
                            if over_quota(old(self).capacity(), old(self).used_spec(), growth) {
                                r matches Err(JavaError::RecordStore(m)) && m@ == full_message()
                            } else {
                                let after = final(self).store_entries();
                                &&& r is Ok
                                &&& after.len() == old(self).store_entries().len()
                                &&& after[i].0 == before.0
                                &&& after[i].1@ == (RecordStoreView {
                                    records: before.1@.records.update(
                                        k,
                                        (id, data@.subrange(offset as int, offset + num_bytes)),
                                    ),
                                    next_id: before.1@.next_id,
                                })
                                &&& forall|j: int| 0 <= j < after.len() && j != i ==> after[j] == old(self).store_entries()[j]
                            }
                        },
                    }
                },
            },
    {
        let new_len = match slice_checked(data, offset, num_bytes) {
            Ok(record) => record.len() as u64,
            Err(e) => return Err(e),
        };
        let old_len = match self.get(name) {
            Ok(store) => match store.get_record_size(id) {
                Ok(n) => n as u64,
                Err(e) => return Err(e),
            },
            Err(e) => return Err(e),
        };
        if let Err(e) = self.require_space(new_len.saturating_sub(old_len)) {
            return Err(e);
        }
        let ghost before = self.stores@;
        let i = match find_key(&self.stores, name) {
            Some(i) => i,
            None => return Err(not_found(name)),
        };
        let result = self.entry_mut(i).set_record(id, data, offset, num_bytes);
        proof {
            if result is Err {
                assert(self.stores@ =~= before);
            }
            self.lemma_update_keeps_wf(before, i as int);
        }
        result
    }

    /// `deleteRecord(id)` on the named store.
    pub fn delete_record(&mut self, name: &str, id: i32) -> (r: Result<(), JavaError>)
        requires
            old(self).wf(),
        ensures
            final(self).wf(),
            final(self).count_entries() == old(self).count_entries(),
            final(self).capacity() == old(self).capacity(),
            r is Err ==> final(self).store_entries() == old(self).store_entries(),
            match key_index(old(self).store_entries(), name@, 0) {
                None => r matches Err(JavaError::RecordStore(m)) && m@ == not_found_message(name@),
                Some(i) => {
                    let before = old(self).store_entries()[i];
                    match record_index(before.1@.records, id) {
                        None => r matches Err(JavaError::RecordStore(m)) && m@ == invalid_id_message(id),
                        Some(k) => {
                            let after = final(self).store_entries();
                            &&& r is Ok
                            &&& after.len() == old(self).store_entries().len()
                            &&& after[i].0 == before.0
                            &&& after[i].1@ == (RecordStoreView {
                                records: before.1@.records.remove(k),
                                next_id: before.1@.next_id,
                            })
                            &&& forall|j: int| 0 <= j < after.len() && j != i ==> after[j] == old(self).store_entries()[j]
                        },
                    }
                },
            },
    {
        let ghost before = self.stores@;
        let i = match find_key(&self.stores, name) {
            Some(i) => i,
            None => return Err(not_found(name)),
        };
        let result = self.entry_mut(i).delete_record(id);
        proof {
            if result is Err {
                assert(self.stores@ =~= before);
            }
            self.lemma_update_keeps_wf(before, i as int);
        }
        result
    }

    proof fn lemma_update_keeps_wf(&self, before: Seq<(String, RecordStore)>, i: int)
        requires
            0 <= i < before.len(),
            names_ascending(before),
            forall|j: int| 0 <= j < before.len() ==> (#[trigger] before[j]).1.wf(),
            self.stores@.len() == before.len(),
            self.stores@[i].0 == before[i].0,
            self.stores@[i].1.wf(),
            forall|j: int| 0 <= j < before.len() && j != i ==> self.stores@[j] == before[j],
        ensures
            names_ascending(self.stores@),
            forall|j: int| 0 <= j < self.stores@.len() ==> (#[trigger] self.stores@[j]).1.wf(),
    {
        let s = self.stores@;
        assert forall|x: int| 0 <= x < s.len() - 1 implies text_less(#[trigger] s[x].0@, s[x + 1].0@) by {
            assert(s[x].0 == before[x].0 && s[x + 1].0 == before[x + 1].0);
        }
        assert forall|x: int| 0 <= x < s.len() implies (#[trigger] s[x]).1.wf() by {
            if x != i {
                assert(s[x] == before[x]);
            }
        }
    }

    /// Export every store, in ascending name order, without imposing a
    /// host file format.
    pub fn snapshot(&self) -> (r: RmsSnapshot)
        ensures
            r.stores@.len() == self.store_entries().len(),
            forall|i: int| 0 <= i < r.stores@.len() ==> restored(#[trigger] self.store_entries()[i], r.stores@[i]),
    {
        let mut stores: Vec<(String, RecordStoreSnapshot)> = Vec::new();
        let mut i: usize = 0;
        while i < self.stores.len()
            invariant
                i <= self.stores@.len(),
                stores@.len() == i,
                forall|j: int| 0 <= j < i ==> restored(#[trigger] self.stores@[j], stores@[j]),
            decreases self.stores@.len() - i,
        {
            stores.push((self.stores[i].0.clone(), self.stores[i].1.snapshot()));
            i += 1;
        }
        RmsSnapshot { stores }
    }

    /// Restore a host snapshot after validating every monotonic record-id
    /// sequence. Invalid host data becomes a typed `RecordStoreException`.
    pub fn from_snapshot(snapshot: RmsSnapshot) -> (r: Result<RmsRuntime, JavaError>)
        ensures
            !names_ascending(snapshot.stores@) ==> (r matches Err(JavaError::RecordStore(m)) && m@
                == "invalid persisted store order"@),
            names_ascending(snapshot.stores@) && !snapshot_ids_ok(snapshot.stores@) ==> (r matches Err(
                JavaError::RecordStore(m),
            ) && m@ == "invalid persisted record-id sequence"@),
            names_ascending(snapshot.stores@) && snapshot_ids_ok(snapshot.stores@) ==> (r matches Ok(rt) && rt.wf()
                && rt.capacity() is None && rt.count_entries().len() == 0 && rt.store_entries().len()
                == snapshot.stores@.len() && forall|i: int|
                0 <= i < rt.store_entries().len() ==> restored(#[trigger] rt.store_entries()[i], snapshot.stores@[i])),
    {
        Self::from_snapshot_with_capacity(snapshot, None)
    }

    /// [`from_snapshot`](Self::from_snapshot) under a quota: a snapshot that
    /// already holds more bytes than the quota is `RecordStoreFullException`.
    pub fn from_snapshot_with_capacity(snapshot: RmsSnapshot, capacity_bytes: Option<u64>) -> (r: Result<
        RmsRuntime,
        JavaError,
    >)
        ensures
            !names_ascending(snapshot.stores@) ==> (r matches Err(JavaError::RecordStore(m)) && m@
                == "invalid persisted store order"@),
            names_ascending(snapshot.stores@) && !snapshot_ids_ok(snapshot.stores@) ==> (r matches Err(
                JavaError::RecordStore(m),
            ) && m@ == "invalid persisted record-id sequence"@),
            names_ascending(snapshot.stores@) && snapshot_ids_ok(snapshot.stores@) && over_quota(
                capacity_bytes,
                saturate_u64(snapshot_bytes(snapshot.stores@)),
                0,
            ) ==> (r matches Err(JavaError::RecordStore(m)) && m@ == full_message()),
            names_ascending(snapshot.stores@) && snapshot_ids_ok(snapshot.stores@) && !over_quota(
                capacity_bytes,
                saturate_u64(snapshot_bytes(snapshot.stores@)),
                0,
            ) ==> (r matches Ok(rt) && rt.wf() && rt.capacity() == capacity_bytes && rt.count_entries().len() == 0
                && rt.store_entries().len() == snapshot.stores@.len() && forall|i: int|
                0 <= i < rt.store_entries().len() ==> restored(#[trigger] rt.store_entries()[i], snapshot.stores@[i])),
    {
        let src = &snapshot.stores;
        let mut k: usize = 1;
        while k < src.len()
            invariant
                1 <= k,
                src@ == snapshot.stores@,
                forall|j: int| 0 <= j < k - 1 && j < src@.len() - 1 ==> text_less(#[trigger] src@[j].0@, src@[j + 1].0@),
            decreases src@.len() - k,
        {
            if !text_before(src[k - 1].0.as_str(), src[k].0.as_str()) {
                proof {
                    assert(!text_less(src@[k - 1].0@, src@[(k - 1) + 1].0@));
                    assert(!names_ascending(src@));
                }
                return Err(JavaError::RecordStore(String::from_str("invalid persisted store order")));
            }
            k += 1;
        }
        proof {
            assert(names_ascending(src@));
        }
        let mut stores: Vec<(String, RecordStore)> = Vec::new();
        let mut i: usize = 0;
        while i < src.len()
            invariant
                names_ascending(src@),
                src@ == snapshot.stores@,
                i <= src@.len(),
                stores@.len() == i,
                forall|j: int| 0 <= j < i ==> restored(#[trigger] stores@[j], src@[j]) && stores@[j].1.wf(),
                forall|j: int| 0 <= j < i ==> id_sequence_ok(records_view((#[trigger] src@[j]).1.records@), src@[j].1.next_id),
            decreases src@.len() - i,
        {
            let copy = RecordStoreSnapshot { next_id: src[i].1.next_id, records: copy_records(&src[i].1.records) };
            match RecordStore::from_snapshot(copy) {
                Ok(store) => stores.push((src[i].0.clone(), store)),
                Err(e) => {
                    proof {
                        assert(!id_sequence_ok(records_view(src@[i as int].1.records@), src@[i as int].1.next_id));
                        assert(!snapshot_ids_ok(src@));
                    }
                    return Err(e);
                },
            }
            i += 1;
        }
        let runtime = RmsRuntime { stores, open_counts: Vec::new(), capacity_bytes };
        proof {
            lemma_bytes_agree(runtime.stores@, src@);
            let e = runtime.stores@;
            assert forall|x: int| 0 <= x < e.len() - 1 implies text_less(#[trigger] e[x].0@, e[x + 1].0@) by {
                assert(restored(e[x], src@[x]) && restored(e[x + 1], src@[x + 1]));
            }
            assert forall|x: int| 0 <= x < e.len() implies (#[trigger] e[x]).1.wf() by {}
        }
        if let Err(e) = runtime.require_space(0) {
            return Err(e);
        }
        Ok(runtime)
    }
}

/// A record reads back as it was written: after `addRecord` appends bytes
/// under the store's next id, `getRecord` of that id gives those bytes, and
/// every record already there reads as before.
pub proof fn lemma_add_then_get(before: RecordStoreView, bytes: Seq<i8>, other: i32)
    requires
        id_sequence_ok(before.records, before.next_id),
        before.next_id < i32::MAX,
        other != before.next_id,
    ensures
        record_of(before.records.push((before.next_id, bytes)), before.next_id) == Some(bytes),
        record_of(before.records.push((before.next_id, bytes)), other) == record_of(before.records, other),
        id_sequence_ok(before.records.push((before.next_id, bytes)), (before.next_id + 1) as i32),
{
    let after = before.records.push((before.next_id, bytes));
    assert(after.drop_last() =~= before.records);
    lemma_record_index(before.records, other);
    if record_index(before.records, other) is Some {
        let i = record_index(before.records, other)->0;
        assert(after[i] == before.records[i]);
    }
}

/// Deleted ids are never reused: after `deleteRecord(id)` the id reads as
/// missing, and the next id stays where it was, so no later `addRecord` can
/// hand it out again.
pub proof fn lemma_delete_forgets(before: RecordStoreView, id: i32)
    requires
        id_sequence_ok(before.records, before.next_id),
        record_index(before.records, id) is Some,
    ensures
        record_of(before.records.remove(record_index(before.records, id)->0), id) is None,
        id < before.next_id,
{
    let k = record_index(before.records, id)->0;
    lemma_record_index(before.records, id);
    let after = before.records.remove(k);
    lemma_record_index(after, id);
    if record_index(after, id) is Some {
        let j = record_index(after, id)->0;
        let jo = if j < k { j } else { j + 1 };
        assert(after[j] == before.records[jo]);
        if jo < k {
            assert(before.records[jo].0 < before.records[k].0);
        } else {
            assert(before.records[k].0 < before.records[jo].0);
        }
    }
}

/// A snapshot of a namespace restores it: the snapshot's names ascend, its
/// id sequences are valid, and it holds as many bytes as the namespace, so
/// `from_snapshot` (under the same quota) accepts it and rebuilds the same
/// stores.
pub proof fn lemma_snapshot_restores(rt: RmsRuntime, snapshot: RmsSnapshot)
    requires
        rt.wf(),
        snapshot.stores@.len() == rt.store_entries().len(),
        forall|i: int| 0 <= i < snapshot.stores@.len() ==> restored(#[trigger] rt.store_entries()[i], snapshot.stores@[i]),
    ensures
        names_ascending(snapshot.stores@),
        snapshot_ids_ok(snapshot.stores@),
        saturate_u64(snapshot_bytes(snapshot.stores@)) == rt.used_spec(),
{
    let e = rt.store_entries();
    let s = snapshot.stores@;
    assert forall|i: int| 0 <= i < s.len() - 1 implies text_less(#[trigger] s[i].0@, s[i + 1].0@) by {
        assert(restored(e[i], s[i]) && restored(e[i + 1], s[i + 1]));
    }
    assert forall|i: int| 0 <= i < s.len() implies id_sequence_ok(
        records_view((#[trigger] s[i]).1.records@),
        s[i].1.next_id,
    ) by {
        assert(restored(e[i], s[i]));
        assert(e[i].1.wf());
    }
    lemma_bytes_agree(e, s);
}

} // verus!
