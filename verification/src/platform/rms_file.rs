//! The versioned host file format for RMS snapshots.
//!
//! The file is the eight-byte signature `J2RMS\x01\0\0`, the store count, and
//! each store in ascending name order: the name's UTF-8 length and bytes, the
//! next record id, the record count, and each record in ascending id order
//! (id, payload length, payload). Every integer is four bytes, big-endian.
//! This is a host storage format, not a game's save schema and not a claim
//! about a handset's private RMS files.

use vstd::prelude::*;
use vstd::utf8::{decode_utf8, encode_utf8, valid_utf8};
use crate::codec::be32;
use crate::jvm::{error_text, JavaError};
use crate::me::rms::{
    id_sequence_ok, records_view, restored, snapshot_ids_ok, RecordStoreSnapshot, RmsRuntime, RmsSnapshot, RecordList,
};
use crate::platform::PlatformError;
use crate::table::{find_key, find_position, insert_position, key_index, lemma_insert_position, lemma_key_index, names_ascending};
use crate::text::{debug_quoted, debug_text, decimal_spec, lemma_text_order, text_less, with_decimal};

verus! {

/// The signature and format version.
pub open spec fn magic() -> Seq<u8> {
    seq![0x4au8, 0x32u8, 0x52u8, 0x4du8, 0x53u8, 0x01u8, 0x00u8, 0x00u8]
}

/// A value below `2^32` as four big-endian bytes.
pub open spec fn u32_bytes(v: int) -> Seq<u8> {
    seq![(v / 0x100_0000) as u8, (v / 0x1_0000 % 256) as u8, (v / 0x100 % 256) as u8, (v % 256) as u8]
}

/// A Java `int` as its four big-endian two's-complement bytes.
pub open spec fn i32_bytes(v: i32) -> Seq<u8> {
    u32_bytes(if v < 0 { v + 0x1_0000_0000 } else { v as int })
}

/// Java's signed bytes as the octets they stand for, and back.
pub open spec fn unsigned_octets(s: Seq<i8>) -> Seq<u8> {
    s.map_values(|b: i8| b as u8)
}

pub open spec fn signed_octets(s: Seq<u8>) -> Seq<i8> {
    s.map_values(|b: u8| b as i8)
}

/// One record as the file holds it.
pub open spec fn record_bytes(id: i32, data: Seq<i8>) -> Seq<u8> {
    i32_bytes(id) + u32_bytes(data.len() as int) + unsigned_octets(data)
}

/// A store's records as the file holds them, in order.
pub open spec fn records_bytes(rs: RecordList) -> Seq<u8>
    decreases rs.len(),
{
    if rs.len() == 0 {
        Seq::empty()
    } else {
        records_bytes(rs.drop_last()) + record_bytes(rs.last().0, rs.last().1)
    }
}

/// One store as the file holds it.
pub open spec fn store_bytes(name: Seq<char>, next_id: i32, rs: RecordList) -> Seq<u8> {
    u32_bytes(encode_utf8(name).len() as int) + encode_utf8(name) + i32_bytes(next_id) + u32_bytes(rs.len() as int)
        + records_bytes(rs)
}

/// The abstract snapshot: each store's name, next id and records.
pub type StoreModel = Seq<(Seq<char>, i32, RecordList)>;

/// The stores as the file holds them, in order.
pub open spec fn stores_bytes(ss: StoreModel) -> Seq<u8>
    decreases ss.len(),
{
    if ss.len() == 0 {
        Seq::empty()
    } else {
        stores_bytes(ss.drop_last()) + store_bytes(ss.last().0, ss.last().1, ss.last().2)
    }
}

/// The whole file for a snapshot.
pub open spec fn file_bytes(ss: StoreModel) -> Seq<u8> {
    magic() + u32_bytes(ss.len() as int) + stores_bytes(ss)
}

/// The abstract snapshot a concrete one holds.
pub open spec fn model_of(s: Seq<(String, RecordStoreSnapshot)>) -> StoreModel {
    s.map_values(|e: (String, RecordStoreSnapshot)| (e.0@, e.1.next_id, records_view(e.1.records@)))
}

/// Whether every count and length of a snapshot fits the format's four bytes.
pub open spec fn fits_format(ss: StoreModel) -> bool {
    &&& ss.len() < 0x1_0000_0000
    &&& forall|i: int| 0 <= i < ss.len() ==> encode_utf8((#[trigger] ss[i]).0).len() < 0x1_0000_0000
    &&& forall|i: int| 0 <= i < ss.len() ==> (#[trigger] ss[i]).2.len() < 0x1_0000_0000
    &&& forall|i: int, k: int| 0 <= i < ss.len() && 0 <= k < ss[i].2.len() ==> (#[trigger] ss[i].2[k]).1.len()
        < 0x1_0000_0000
}

// ---------------------------------------------------------------- decoding

/// The big-endian value of the four bytes at `p`.
pub open spec fn be32_at(b: Seq<u8>, p: int) -> int {
    be32(b[p], b[p + 1], b[p + 2], b[p + 3])
}

/// Two's-complement reading of a 32-bit value.
pub open spec fn signed32(v: int) -> i32 {
    (if v >= 0x8000_0000 { v - 0x1_0000_0000 } else { v }) as i32
}

/// Whether a record list holds `id`.
pub open spec fn has_id(rs: RecordList, id: i32) -> bool {
    exists|k: int| 0 <= k < rs.len() && (#[trigger] rs[k]).0 == id
}

/// Where `id` goes in an ascending record list.
pub open spec fn id_position(rs: RecordList, id: i32, i: int) -> int
    decreases rs.len() - i,
{
    if i < 0 || i >= rs.len() {
        rs.len() as int
    } else if rs[i].0 < id {
        id_position(rs, id, i + 1)
    } else {
        i
    }
}

/// Whether a store model holds `name`.
pub open spec fn has_name(ss: StoreModel, name: Seq<char>) -> bool {
    exists|k: int| 0 <= k < ss.len() && (#[trigger] ss[k]).0 == name
}

/// Where `name` goes in an ascending store model.
pub open spec fn name_position(ss: StoreModel, name: Seq<char>, i: int) -> int
    decreases ss.len() - i,
{
    if i < 0 || i >= ss.len() {
        ss.len() as int
    } else if text_less(ss[i].0, name) {
        name_position(ss, name, i + 1)
    } else {
        i
    }
}

/// Reading `count` records from `p` on, for the store `name`, into `acc`:
/// the records in ascending id order and where they end, or the message of
/// the first problem.
pub open spec fn parse_records(b: Seq<u8>, p: int, count: nat, name: Seq<char>, acc: RecordList) -> Result<
    (RecordList, int),
    Seq<char>,
>
    decreases count,
{
    if count == 0 {
        Ok((acc, p))
    } else if p + 4 > b.len() {
        Err("truncated record id"@)
    } else if p + 8 > b.len() {
        Err("truncated record length"@)
    } else {
        let id = signed32(be32_at(b, p));
        let len = be32_at(b, p + 4);
        if p + 8 + len > b.len() {
            Err("truncated record payload"@)
        } else if has_id(acc, id) {
            Err("duplicate record id "@ + decimal_spec(id as int) + " in "@ + debug_text(name))
        } else {
            let payload = signed_octets(b.subrange(p + 8, p + 8 + len));
            parse_records(b, p + 8 + len, (count - 1) as nat, name, acc.insert(id_position(acc, id, 0), (id, payload)))
        }
    }
}

/// Reading `count` stores from `p` on into `acc`: the stores in ascending
/// name order and where they end, or the message of the first problem.
pub open spec fn parse_stores(b: Seq<u8>, p: int, count: nat, acc: StoreModel) -> Result<(StoreModel, int), Seq<char>>
    decreases count,
{
    if count == 0 {
        Ok((acc, p))
    } else if p + 4 > b.len() {
        Err("truncated store-name length"@)
    } else {
        let nl = be32_at(b, p);
        if p + 4 + nl > b.len() {
            Err("truncated store name"@)
        } else if !valid_utf8(b.subrange(p + 4, p + 4 + nl)) {
            Err("store name is not UTF-8"@)
        } else {
            let name = decode_utf8(b.subrange(p + 4, p + 4 + nl));
            let q = p + 4 + nl;
            if q + 4 > b.len() {
                Err("truncated next record id"@)
            } else if q + 8 > b.len() {
                Err("truncated record count"@)
            } else {
                let next_id = signed32(be32_at(b, q));
                let rc = be32_at(b, q + 4);
                if rc > (b.len() - (q + 8)) / 8 {
                    Err("record count for "@ + debug_text(name) + " exceeds the remaining payload"@)
                } else {
                    match parse_records(b, q + 8, rc as nat, name, Seq::empty()) {
                        Err(m) => Err(m),
                        Ok((rs, end)) => if has_name(acc, name) {
                            Err("duplicate store "@ + debug_text(name))
                        } else {
                            parse_stores(
                                b,
                                end,
                                (count - 1) as nat,
                                acc.insert(name_position(acc, name, 0), (name, next_id, rs)),
                            )
                        },
                    }
                }
            }
        }
    }
}

/// Whether every store of a model has a valid id sequence.
pub open spec fn model_ids_ok(ss: StoreModel) -> bool {
    forall|i: int| 0 <= i < ss.len() ==> id_sequence_ok((#[trigger] ss[i]).2, ss[i].1)
}

/// What decoding a file gives: the snapshot, or the message of the first
/// problem.
pub open spec fn decode_spec(b: Seq<u8>) -> Result<StoreModel, Seq<char>> {
    if b.len() < 8 {
        Err("truncated header"@)
    } else if b.subrange(0, 8) != magic() {
        Err("bad magic/version"@)
    } else if b.len() < 12 {
        Err("truncated store count"@)
    } else if be32_at(b, 8) > (b.len() - 12) / 12 {
        Err("store count exceeds the remaining payload"@)
    } else {
        match parse_stores(b, 12, be32_at(b, 8) as nat, Seq::empty()) {
            Err(m) => Err(m),
            Ok((ss, end)) => if end != b.len() {
                Err("trailing bytes"@)
            } else if !model_ids_ok(ss) {
                Err("RecordStoreException: invalid persisted record-id sequence"@)
            } else {
                Ok(ss)
            },
        }
    }
}

} // verus!

verus! {

/// `std::str::from_utf8`: a text exactly for valid UTF-8, and then the text
/// the bytes spell.
#[verifier::external_body]
fn utf8_text(bytes: &[u8]) -> (r: Option<String>)
    ensures
        r is Some <==> valid_utf8(bytes@),
        r matches Some(s) ==> s@ == decode_utf8(bytes@),
{
    std::str::from_utf8(bytes).ok().map(str::to_owned)
}

fn be32_of(b: &[u8], p: usize) -> (r: u32)
    requires
        p + 4 <= b@.len(),
    ensures
        r == be32_at(b@, p as int),
{
    b[p] as u32 * 0x100_0000 + b[p + 1] as u32 * 0x1_0000 + b[p + 2] as u32 * 0x100 + b[p + 3] as u32
}

fn signed_of(v: u32) -> (r: i32)
    ensures
        r == signed32(v as int),
{
    if v >= 0x8000_0000 {
        (v as i64 - 0x1_0000_0000i64) as i32
    } else {
        v as i32
    }
}

fn signed_payload(b: &[u8], from: usize, to: usize) -> (r: Vec<i8>)
    requires
        from <= to <= b@.len(),
    ensures
        r@ == signed_octets(b@.subrange(from as int, to as int)),
{
    let mut out: Vec<i8> = Vec::new();
    let mut k = from;
    while k < to
        invariant
            from <= k <= to <= b@.len(),
            out@ == signed_octets(b@.subrange(from as int, k as int)),
        decreases to - k,
    {
        out.push(b[k] as i8);
        k += 1;
        assert(out@ =~= signed_octets(b@.subrange(from as int, k as int)));
    }
    out
}

/// Ids strictly ascend.
pub open spec fn ids_ascending(rs: RecordList) -> bool {
    forall|i: int, j: int| 0 <= i < j < rs.len() ==> rs[i].0 < rs[j].0
}

proof fn lemma_id_position(rs: RecordList, id: i32, i: int)
    requires
        0 <= i <= rs.len(),
        ids_ascending(rs),
        forall|j: int| 0 <= j < i ==> rs[j].0 < id,
    ensures
        0 <= id_position(rs, id, i) <= rs.len(),
        forall|j: int| 0 <= j < id_position(rs, id, i) ==> rs[j].0 < id,
        forall|j: int| id_position(rs, id, i) <= j < rs.len() ==> rs[j].0 >= id,
    decreases rs.len() - i,
{
    if i < rs.len() && rs[i].0 < id {
        lemma_id_position(rs, id, i + 1);
    }
}

/// Read `count` records of the store `name` from `p` on.
fn read_records(b: &[u8], p: usize, count: u32, name: &str) -> (r: Result<(Vec<(i32, Vec<i8>)>, usize), String>)
    requires
        p <= b@.len(),
    ensures
        match parse_records(b@, p as int, count as nat, name@, Seq::empty()) {
            Ok((rs, end)) => r matches Ok((v, e)) && records_view(v@) == rs && e == end && ids_ascending(rs),
            Err(m) => r matches Err(x) && x@ == m,
        },
        r matches Ok((v, e)) ==> e <= b@.len(),
{
    let mut acc: Vec<(i32, Vec<i8>)> = Vec::new();
    let mut pos = p;
    let mut left = count;
    proof {
        assert(records_view(acc@) =~= Seq::<(i32, Seq<i8>)>::empty());
    }
    while left > 0
        invariant
            pos <= b@.len(),
            ids_ascending(records_view(acc@)),
            parse_records(b@, p as int, count as nat, name@, Seq::empty()) == parse_records(
                b@,
                pos as int,
                left as nat,
                name@,
                records_view(acc@),
            ),
        decreases left,
    {
        let ghost racc = records_view(acc@);
        if b.len() - pos < 4 {
            return Err(String::from_str("truncated record id"));
        }
        if b.len() - pos < 8 {
            return Err(String::from_str("truncated record length"));
        }
        let id = signed_of(be32_of(b, pos));
        let len = be32_of(b, pos + 4) as usize;
        if len > b.len() - (pos + 8) {
            return Err(String::from_str("truncated record payload"));
        }
        let mut k: usize = 0;
        while k < acc.len() && acc[k].0 < id
            invariant
                k <= acc@.len(),
                racc == records_view(acc@),
                ids_ascending(racc),
                id_position(racc, id, 0) == id_position(racc, id, k as int),
                forall|j: int| 0 <= j < k ==> racc[j].0 < id,
            decreases acc@.len() - k,
        {
            assert(racc[k as int].0 == acc@[k as int].0);
            k += 1;
        }
        proof {
            lemma_id_position(racc, id, k as int);
        }
        if k < acc.len() && acc[k].0 == id {
            proof {
                assert(racc[k as int].0 == id);
                assert(has_id(racc, id));
            }
            let mut m = with_decimal("duplicate record id ", id as i64);
            m.append(" in ");
            let q = debug_quoted(name);
            m.append(q.as_str());
            return Err(m);
        }
        proof {
            assert(!has_id(racc, id)) by {
                if has_id(racc, id) {
                    let w = choose|w: int| 0 <= w < racc.len() && (#[trigger] racc[w]).0 == id;
                    if w < k {
                    } else if w == k {
                        assert(racc[k as int].0 == acc@[k as int].0);
                    } else {
                        assert(racc[k as int].0 == acc@[k as int].0);
                        assert(racc[k as int].0 < racc[w].0);
                    }
                }
            }
        }
        let payload = signed_payload(b, pos + 8, pos + 8 + len);
        acc.insert(k, (id, payload));
        proof {
            let na = records_view(acc@);
            assert(na =~= racc.insert(k as int, (id, payload@)));
            assert forall|x: int, y: int| 0 <= x < y < na.len() implies na[x].0 < na[y].0 by {
                if k < acc@.len() - 1 {
                    assert(racc[k as int].0 == acc@[k as int + 1].0);
                }
                let xo = if x < k { x } else { x - 1 };
                let yo = if y < k { y } else { y - 1 };
                if x != k && y != k {
                    assert(na[x] == racc[xo] && na[y] == racc[yo]);
                } else if x == k {
                    assert(na[y] == racc[yo]);
                } else {
                    assert(na[x] == racc[xo]);
                }
            }
        }
        pos = pos + 8 + len;
        left = left - 1;
    }
    Ok((acc, pos))
}

} // verus!

verus! {

proof fn lemma_positions_agree(v: Seq<(String, RecordStoreSnapshot)>, n: Seq<char>, i: int)
    requires
        0 <= i <= v.len(),
    ensures
        insert_position(v, n, i) == name_position(model_of(v), n, i),
    decreases v.len() - i,
{
    if i < v.len() {
        assert(model_of(v)[i].0 == v[i].0@);
        lemma_positions_agree(v, n, i + 1);
    }
}

/// Read `count` stores from `p` on.
fn read_stores(b: &[u8], p: usize, count: u32) -> (r: Result<(Vec<(String, RecordStoreSnapshot)>, usize), String>)
    requires
        p <= b@.len(),
    ensures
        match parse_stores(b@, p as int, count as nat, Seq::empty()) {
            Ok((ss, end)) => r matches Ok((v, e)) && model_of(v@) == ss && e == end && names_ascending(v@),
            Err(m) => r matches Err(x) && x@ == m,
        },
        r matches Ok((v, e)) ==> e <= b@.len(),
{
    let mut acc: Vec<(String, RecordStoreSnapshot)> = Vec::new();
    let mut pos = p;
    let mut left = count;
    proof {
        assert(model_of(acc@) =~= Seq::<(Seq<char>, i32, RecordList)>::empty());
    }
    while left > 0
        invariant
            pos <= b@.len(),
            names_ascending(acc@),
            parse_stores(b@, p as int, count as nat, Seq::empty()) == parse_stores(
                b@,
                pos as int,
                left as nat,
                model_of(acc@),
            ),
        decreases left,
    {
        let ghost macc = model_of(acc@);
        if b.len() - pos < 4 {
            return Err(String::from_str("truncated store-name length"));
        }
        let nl = be32_of(b, pos) as usize;
        if nl > b.len() - (pos + 4) {
            return Err(String::from_str("truncated store name"));
        }
        let name = match utf8_text(vstd::slice::slice_subrange(b, pos + 4, pos + 4 + nl)) {
            Some(name) => name,
            None => return Err(String::from_str("store name is not UTF-8")),
        };
        let q = pos + 4 + nl;
        if b.len() - q < 4 {
            return Err(String::from_str("truncated next record id"));
        }
        if b.len() - q < 8 {
            return Err(String::from_str("truncated record count"));
        }
        let next_id = signed_of(be32_of(b, q));
        let rc = be32_of(b, q + 4);
        if rc as usize > (b.len() - (q + 8)) / 8 {
            let mut m = String::from_str("record count for ");
            let dq = debug_quoted(name.as_str());
            m.append(dq.as_str());
            m.append(" exceeds the remaining payload");
            return Err(m);
        }
        let (records, end) = match read_records(b, q + 8, rc, name.as_str()) {
            Ok(found) => found,
            Err(m) => return Err(m),
        };
        let ghost before = acc@;
        proof {
            lemma_key_index(before, name@, 0);
        }
        if find_key(&acc, name.as_str()).is_some() {
            proof {
                let k = key_index(before, name@, 0)->0;
                assert(macc[k].0 == name@);
                assert(has_name(macc, name@));
            }
            let mut m = String::from_str("duplicate store ");
            let dq = debug_quoted(name.as_str());
            m.append(dq.as_str());
            return Err(m);
        }
        proof {
            assert(!has_name(macc, name@)) by {
                if has_name(macc, name@) {
                    let w = choose|w: int| 0 <= w < macc.len() && (#[trigger] macc[w]).0 == name@;
                    assert(before[w].0@ == name@);
                }
            }
        }
        let k = find_position(&acc, name.as_str());
        proof {
            lemma_positions_agree(before, name@, 0);
            lemma_insert_position(before, name@, 0);
            if k < before.len() {
                lemma_text_order(before[k as int].0@, name@);
            }
        }
        let ghost store_view = (name@, next_id, records_view(records@));
        acc.insert(k, (name, RecordStoreSnapshot { next_id, records }));
        proof {
            let na = acc@;
            assert(model_of(na) =~= macc.insert(k as int, store_view));
            assert forall|x: int| 0 <= x < na.len() - 1 implies text_less(#[trigger] na[x].0@, na[x + 1].0@) by {
                if x + 1 < k {
                    assert(na[x] == before[x] && na[x + 1] == before[x + 1]);
                } else if x + 1 == k {
                    assert(na[x] == before[x]);
                } else if x == k {
                    assert(na[x + 1] == before[x]);
                } else {
                    assert(na[x] == before[x - 1] && na[x + 1] == before[x]);
                }
            }
        }
        pos = end;
        left = left - 1;
    }
    Ok((acc, pos))
}

} // verus!

verus! {

/// Whether two snapshots hold the same stores.
pub open spec fn same_stores(a: Seq<(String, RecordStoreSnapshot)>, b: Seq<(String, RecordStoreSnapshot)>) -> bool {
    a.len() == b.len() && forall|i: int|
        0 <= i < a.len() ==> (#[trigger] a[i]).0@ == b[i].0@ && a[i].1.next_id == b[i].1.next_id && records_view(
            a[i].1.records@,
        ) == records_view(b[i].1.records@)
}

fn copy_snapshot(s: &RmsSnapshot) -> (r: RmsSnapshot)
    ensures
        same_stores(r.stores@, s.stores@),
{
    let mut stores: Vec<(String, RecordStoreSnapshot)> = Vec::new();
    let mut i: usize = 0;
    while i < s.stores.len()
        invariant
            i <= s.stores@.len(),
            stores@.len() == i,
            forall|j: int|
                0 <= j < i ==> (#[trigger] stores@[j]).0@ == s.stores@[j].0@ && stores@[j].1.next_id
                    == s.stores@[j].1.next_id && records_view(stores@[j].1.records@) == records_view(
                    s.stores@[j].1.records@,
                ),
        decreases s.stores@.len() - i,
    {
        let store = RecordStoreSnapshot {
            next_id: s.stores[i].1.next_id,
            records: crate::me::rms::copy_records(&s.stores[i].1.records),
        };
        stores.push((s.stores[i].0.clone(), store));
        i += 1;
    }
    RmsSnapshot { stores }
}

proof fn lemma_same_stores(a: Seq<(String, RecordStoreSnapshot)>, b: Seq<(String, RecordStoreSnapshot)>)
    requires
        same_stores(a, b),
    ensures
        names_ascending(a) == names_ascending(b),
        snapshot_ids_ok(a) == snapshot_ids_ok(b),
        model_of(a) == model_of(b),
        snapshot_ids_ok(a) == model_ids_ok(model_of(a)),
{
    assert(model_of(a) =~= model_of(b));
    if names_ascending(a) {
        assert forall|i: int| 0 <= i < b.len() - 1 implies text_less(#[trigger] b[i].0@, b[i + 1].0@) by {
            assert(a[i].0@ == b[i].0@ && a[i + 1].0@ == b[i + 1].0@);
        }
    }
    if names_ascending(b) {
        assert forall|i: int| 0 <= i < a.len() - 1 implies text_less(#[trigger] a[i].0@, a[i + 1].0@) by {
            assert(a[i].0@ == b[i].0@ && a[i + 1].0@ == b[i + 1].0@);
        }
    }
    let m = model_of(a);
    assert forall|i: int| 0 <= i < a.len() implies (#[trigger] m[i]) == (
        a[i].0@,
        a[i].1.next_id,
        records_view(a[i].1.records@),
    ) by {}
    if snapshot_ids_ok(a) {
        assert forall|i: int| 0 <= i < b.len() implies id_sequence_ok(
            records_view((#[trigger] b[i]).1.records@),
            b[i].1.next_id,
        ) by {
            assert(id_sequence_ok(records_view(a[i].1.records@), a[i].1.next_id));
        }
        assert forall|i: int| 0 <= i < m.len() implies id_sequence_ok((#[trigger] m[i]).2, m[i].1) by {
            assert(id_sequence_ok(records_view(a[i].1.records@), a[i].1.next_id));
        }
    }
    if snapshot_ids_ok(b) {
        assert forall|i: int| 0 <= i < a.len() implies id_sequence_ok(
            records_view((#[trigger] a[i]).1.records@),
            a[i].1.next_id,
        ) by {
            assert(id_sequence_ok(records_view(b[i].1.records@), b[i].1.next_id));
        }
    }
    if model_ids_ok(m) {
        assert forall|i: int| 0 <= i < a.len() implies id_sequence_ok(
            records_view((#[trigger] a[i]).1.records@),
            a[i].1.next_id,
        ) by {
            assert(id_sequence_ok(m[i].2, m[i].1));
        }
    }
}

fn corrupt(message: &str) -> (r: PlatformError)
    ensures
        r matches PlatformError::CorruptRms(m) && m@ == message@,
{
    PlatformError::CorruptRms(String::from_str(message))
}

/// Decode and structurally validate a host RMS snapshot: its stores come
/// out in ascending name order and each store's records in ascending id
/// order, whatever order the file lists them in.
pub fn decode_rms_snapshot(bytes: &[u8]) -> (r: Result<RmsSnapshot, PlatformError>)
    ensures
        match decode_spec(bytes@) {
            Ok(ss) => r matches Ok(s) && model_of(s.stores@) == ss && names_ascending(s.stores@),
            Err(m) => r matches Err(PlatformError::CorruptRms(x)) && x@ == m,
        },
{
    if bytes.len() < 8 {
        return Err(corrupt("truncated header"));
    }
    if !(bytes[0] == 0x4a && bytes[1] == 0x32 && bytes[2] == 0x52 && bytes[3] == 0x4d && bytes[4] == 0x53 && bytes[5]
        == 0x01 && bytes[6] == 0x00 && bytes[7] == 0x00) {
        proof {
            if bytes@.subrange(0, 8) == magic() {
                assert(bytes@.subrange(0, 8)[0] == bytes@[0]);
                assert(bytes@.subrange(0, 8)[1] == bytes@[1]);
                assert(bytes@.subrange(0, 8)[2] == bytes@[2]);
                assert(bytes@.subrange(0, 8)[3] == bytes@[3]);
                assert(bytes@.subrange(0, 8)[4] == bytes@[4]);
                assert(bytes@.subrange(0, 8)[5] == bytes@[5]);
                assert(bytes@.subrange(0, 8)[6] == bytes@[6]);
                assert(bytes@.subrange(0, 8)[7] == bytes@[7]);
            }
        }
        return Err(corrupt("bad magic/version"));
    }
    proof {
        assert(bytes@.subrange(0, 8) =~= magic());
    }
    if bytes.len() < 12 {
        return Err(corrupt("truncated store count"));
    }
    let count = be32_of(bytes, 8);
    if count as usize > (bytes.len() - 12) / 12 {
        return Err(corrupt("store count exceeds the remaining payload"));
    }
    let (stores, end) = match read_stores(bytes, 12, count) {
        Ok(found) => found,
        Err(m) => return Err(PlatformError::CorruptRms(m)),
    };
    if end != bytes.len() {
        return Err(corrupt("trailing bytes"));
    }
    let snapshot = RmsSnapshot { stores };
    let copy = copy_snapshot(&snapshot);
    proof {
        lemma_same_stores(copy.stores@, snapshot.stores@);
    }
    match RmsRuntime::from_snapshot(copy) {
        Ok(_) => Ok(snapshot),
        Err(e) => {
            proof {
                reveal_strlit("RecordStoreException: ");
                reveal_strlit("invalid persisted record-id sequence");
                reveal_strlit("RecordStoreException: invalid persisted record-id sequence");
                assert("RecordStoreException: "@ + "invalid persisted record-id sequence"@
                    =~= "RecordStoreException: invalid persisted record-id sequence"@);
            }
            Err(PlatformError::CorruptRms(e.message()))
        },
    }
}

} // verus!

verus! {

fn push_u32(out: &mut Vec<u8>, v: u32)
    ensures
        final(out)@ == old(out)@ + u32_bytes(v as int),
{
    out.push((v / 0x100_0000) as u8);
    out.push((v / 0x1_0000 % 256) as u8);
    out.push((v / 0x100 % 256) as u8);
    out.push((v % 256) as u8);
    assert(out@ =~= old(out)@ + u32_bytes(v as int));
}

fn push_i32(out: &mut Vec<u8>, v: i32)
    ensures
        final(out)@ == old(out)@ + i32_bytes(v),
{
    let u: u32 = if v < 0 { (v as i64 + 0x1_0000_0000i64) as u32 } else { v as u32 };
    push_u32(out, u);
}

/// Append a count or length, which must fit four bytes.
fn push_len(out: &mut Vec<u8>, len: usize, label: &str) -> (r: Result<(), PlatformError>)
    ensures
        len < 0x1_0000_0000 ==> r is Ok && final(out)@ == old(out)@ + u32_bytes(len as int),
        len >= 0x1_0000_0000 ==> (r matches Err(PlatformError::Config(m)) && m@ == label@
            + " does not fit the RMS format"@),
{
    if len > 0xffff_ffff {
        let mut m = String::from_str(label);
        m.append(" does not fit the RMS format");
        return Err(PlatformError::Config(m));
    }
    push_u32(out, len as u32);
    Ok(())
}

fn push_octets(out: &mut Vec<u8>, data: &Vec<i8>)
    ensures
        final(out)@ == old(out)@ + unsigned_octets(data@),
{
    let ghost start = out@;
    let mut j: usize = 0;
    while j < data.len()
        invariant
            j <= data@.len(),
            out@ == start + unsigned_octets(data@.subrange(0, j as int)),
        decreases data@.len() - j,
    {
        out.push(data[j] as u8);
        j += 1;
        assert(out@ =~= start + unsigned_octets(data@.subrange(0, j as int)));
    }
    assert(data@.subrange(0, j as int) =~= data@);
}

fn push_bytes(out: &mut Vec<u8>, data: &[u8])
    ensures
        final(out)@ == old(out)@ + data@,
{
    let ghost start = out@;
    let mut j: usize = 0;
    while j < data.len()
        invariant
            j <= data@.len(),
            out@ == start + data@.subrange(0, j as int),
        decreases data@.len() - j,
    {
        out.push(data[j]);
        j += 1;
        assert(out@ =~= start + data@.subrange(0, j as int));
    }
    assert(data@.subrange(0, j as int) =~= data@);
}

/// Whether every record's length fits four bytes.
pub open spec fn record_lengths_fit(rs: RecordList) -> bool {
    forall|k: int| 0 <= k < rs.len() ==> (#[trigger] rs[k]).1.len() < 0x1_0000_0000
}

fn push_records(out: &mut Vec<u8>, records: &Vec<(i32, Vec<i8>)>) -> (r: Result<(), PlatformError>)
    ensures
        r is Ok <==> record_lengths_fit(records_view(records@)),
        r is Ok ==> final(out)@ == old(out)@ + records_bytes(records_view(records@)),
        r matches Err(e) ==> e is Config,
{
    let ghost recs = records_view(records@);
    let ghost start = out@;
    let mut k: usize = 0;
    proof {
        assert(recs.subrange(0, 0) =~= Seq::<(i32, Seq<i8>)>::empty());
    }
    while k < records.len()
        invariant
            recs == records_view(records@),
            k <= records@.len(),
            out@ == start + records_bytes(recs.subrange(0, k as int)),
            forall|x: int| 0 <= x < k ==> (#[trigger] recs[x]).1.len() < 0x1_0000_0000,
        decreases records@.len() - k,
    {
        push_i32(out, records[k].0);
        if let Err(e) = push_len(out, records[k].1.len(), "record length") {
            proof {
                assert(recs[k as int].1.len() == records@[k as int].1@.len());
            }
            return Err(e);
        }
        push_octets(out, &records[k].1);
        proof {
            assert(recs[k as int] == (records@[k as int].0, records@[k as int].1@));
            assert(recs.subrange(0, k + 1).drop_last() =~= recs.subrange(0, k as int));
        }
        k += 1;
    }
    proof {
        assert(recs.subrange(0, k as int) =~= recs);
    }
    Ok(())
}

fn push_store(out: &mut Vec<u8>, name: &str, store: &RecordStoreSnapshot) -> (r: Result<(), PlatformError>)
    ensures
        r is Ok <==> (encode_utf8(name@).len() < 0x1_0000_0000 && store.records@.len() < 0x1_0000_0000
            && record_lengths_fit(records_view(store.records@))),
        r is Ok ==> final(out)@ == old(out)@ + store_bytes(name@, store.next_id, records_view(store.records@)),
        r matches Err(e) ==> e is Config,
{
    let name_bytes = name.as_bytes();
    if let Err(e) = push_len(out, name_bytes.len(), "store-name length") {
        return Err(e);
    }
    push_bytes(out, name_bytes);
    push_i32(out, store.next_id);
    if let Err(e) = push_len(out, store.records.len(), "record count") {
        return Err(e);
    }
    push_records(out, &store.records)
}

/// Encode a deterministic, versioned snapshot, after checking it as
/// [`RmsRuntime::from_snapshot`] does. A count or length that does not fit
/// four bytes is refused.
pub fn encode_rms_snapshot(snapshot: &RmsSnapshot) -> (r: Result<Vec<u8>, PlatformError>)
    ensures
        !names_ascending(snapshot.stores@) ==> (r matches Err(PlatformError::Config(m)) && m@
            == "RecordStoreException: invalid persisted store order"@),
        names_ascending(snapshot.stores@) && !snapshot_ids_ok(snapshot.stores@) ==> (r matches Err(
            PlatformError::Config(m),
        ) && m@ == "RecordStoreException: invalid persisted record-id sequence"@),
        names_ascending(snapshot.stores@) && snapshot_ids_ok(snapshot.stores@) && fits_format(
            model_of(snapshot.stores@),
        ) ==> (r matches Ok(v) && v@ == file_bytes(model_of(snapshot.stores@))),
        names_ascending(snapshot.stores@) && snapshot_ids_ok(snapshot.stores@) && !fits_format(
            model_of(snapshot.stores@),
        ) ==> r matches Err(PlatformError::Config(_)),
{
    let copy = copy_snapshot(snapshot);
    proof {
        lemma_same_stores(copy.stores@, snapshot.stores@);
        reveal_strlit("RecordStoreException: ");
        reveal_strlit("invalid persisted record-id sequence");
        reveal_strlit("RecordStoreException: invalid persisted record-id sequence");
        reveal_strlit("invalid persisted store order");
        reveal_strlit("RecordStoreException: invalid persisted store order");
        assert("RecordStoreException: "@ + "invalid persisted record-id sequence"@
            =~= "RecordStoreException: invalid persisted record-id sequence"@);
        assert("RecordStoreException: "@ + "invalid persisted store order"@
            =~= "RecordStoreException: invalid persisted store order"@);
    }
    if let Err(e) = RmsRuntime::from_snapshot(copy) {
        return Err(PlatformError::Config(e.message()));
    }
    let ghost model = model_of(snapshot.stores@);
    let stores = &snapshot.stores;
    let mut out: Vec<u8> = Vec::new();
    out.push(0x4a);
    out.push(0x32);
    out.push(0x52);
    out.push(0x4d);
    out.push(0x53);
    out.push(0x01);
    out.push(0x00);
    out.push(0x00);
    proof {
        assert(out@ =~= magic());
    }
    if let Err(e) = push_len(&mut out, stores.len(), "store count") {
        return Err(e);
    }
    let ghost head = out@;
    let mut i: usize = 0;
    proof {
        assert(model.subrange(0, 0) =~= Seq::<(Seq<char>, i32, RecordList)>::empty());
    }
    while i < stores.len()
        invariant
            model == model_of(stores@),
            stores@ == snapshot.stores@,
            names_ascending(snapshot.stores@),
            snapshot_ids_ok(snapshot.stores@),
            stores@.len() < 0x1_0000_0000,
            head == magic() + u32_bytes(stores@.len() as int),
            i <= stores@.len(),
            out@ == head + stores_bytes(model.subrange(0, i as int)),
            forall|j: int| 0 <= j < i ==> encode_utf8((#[trigger] model[j]).0).len() < 0x1_0000_0000
                && model[j].2.len() < 0x1_0000_0000 && record_lengths_fit(model[j].2),
        decreases stores@.len() - i,
    {
        let ghost prefix = out@;
        proof {
            assert(model[i as int] == (stores@[i as int].0@, stores@[i as int].1.next_id, records_view(
                stores@[i as int].1.records@,
            )));
        }
        if let Err(e) = push_store(&mut out, stores[i].0.as_str(), &stores[i].1) {
            proof {
                let m = model[i as int];
                if fits_format(model) {
                    assert(encode_utf8(m.0).len() < 0x1_0000_0000);
                    assert(m.2.len() < 0x1_0000_0000);
                    assert forall|x: int| 0 <= x < m.2.len() implies (#[trigger] m.2[x]).1.len() < 0x1_0000_0000 by {
                        assert(model[i as int].2[x] == m.2[x]);
                    }
                }
            }
            return Err(e);
        }
        proof {
            assert(model.subrange(0, i + 1).drop_last() =~= model.subrange(0, i as int));
        }
        i += 1;
    }
    proof {
        assert(model.subrange(0, i as int) =~= model);
        assert forall|j: int, k: int| 0 <= j < model.len() && 0 <= k < model[j].2.len() implies (#[trigger] model[j].2[k]).1.len()
            < 0x1_0000_0000 by {
            assert(record_lengths_fit(model[j].2));
        }
    }
    Ok(out)
}

} // verus!

verus! {

proof fn lemma_u32_round_trip(v: int)
    requires
        0 <= v < 0x1_0000_0000,
    ensures
        be32_at(u32_bytes(v), 0) == v,
        u32_bytes(v).len() == 4,
{
    let b = u32_bytes(v);
    assert(b[0] as int == v / 0x100_0000);
    assert(b[1] as int == v / 0x1_0000 % 256);
    assert(b[2] as int == v / 0x100 % 256);
    assert(b[3] as int == v % 256);
}

proof fn lemma_i32_round_trip(v: i32)
    ensures
        signed32(be32_at(i32_bytes(v), 0)) == v,
        i32_bytes(v).len() == 4,
{
    let u = if v < 0 { v + 0x1_0000_0000 } else { v as int };
    lemma_u32_round_trip(u);
}

proof fn lemma_octets_round_trip(d: Seq<i8>)
    ensures
        signed_octets(unsigned_octets(d)) == d,
        unsigned_octets(d).len() == d.len(),
{
    assert forall|i: int| 0 <= i < d.len() implies signed_octets(unsigned_octets(d))[i] == d[i] by {
        let x = d[i];
        assert(((x as u8) as i8) == x) by (bit_vector);
    }
    assert(signed_octets(unsigned_octets(d)) =~= d);
}

proof fn lemma_records_concat(a: RecordList, b: RecordList)
    ensures
        records_bytes(a + b) == records_bytes(a) + records_bytes(b),
    decreases b.len(),
{
    if b.len() == 0 {
        assert(a + b =~= a);
        assert(records_bytes(a) + records_bytes(b) =~= records_bytes(a));
    } else {
        lemma_records_concat(a, b.drop_last());
        assert((a + b).drop_last() =~= a + b.drop_last());
        assert((a + b).last() == b.last());
    }
}

proof fn lemma_records_size(rs: RecordList)
    ensures
        records_bytes(rs).len() >= 8 * rs.len(),
    decreases rs.len(),
{
    if rs.len() > 0 {
        lemma_records_size(rs.drop_last());
        lemma_i32_round_trip(rs.last().0);
        lemma_u32_round_trip(0);
        assert(u32_bytes(rs.last().1.len() as int).len() == 4);
    }
}

proof fn lemma_stores_concat(a: StoreModel, b: StoreModel)
    ensures
        stores_bytes(a + b) == stores_bytes(a) + stores_bytes(b),
    decreases b.len(),
{
    if b.len() == 0 {
        assert(a + b =~= a);
        assert(stores_bytes(a) + stores_bytes(b) =~= stores_bytes(a));
    } else {
        lemma_stores_concat(a, b.drop_last());
        assert((a + b).drop_last() =~= a + b.drop_last());
        assert((a + b).last() == b.last());
    }
}

proof fn lemma_stores_size(ss: StoreModel)
    ensures
        stores_bytes(ss).len() >= 12 * ss.len(),
    decreases ss.len(),
{
    if ss.len() > 0 {
        lemma_stores_size(ss.drop_last());
        let (n, id, rs) = ss.last();
        lemma_i32_round_trip(id);
        assert(u32_bytes(encode_utf8(n).len() as int).len() == 4);
        assert(u32_bytes(rs.len() as int).len() == 4);
    }
}

/// Reading records that the file holds in ascending id order, after ones
/// already read, gives them all back, ending just past them.
proof fn lemma_parse_records(b: Seq<u8>, p: int, name: Seq<char>, acc: RecordList, rest: RecordList)
    requires
        0 <= p,
        p + records_bytes(rest).len() <= b.len(),
        b.subrange(p, p + records_bytes(rest).len()) == records_bytes(rest),
        ids_ascending(acc + rest),
        record_lengths_fit(rest),
    ensures
        parse_records(b, p, rest.len(), name, acc) == Ok::<(RecordList, int), Seq<char>>(
            (acc + rest, p + records_bytes(rest).len()),
        ),
    decreases rest.len(),
{
    if rest.len() == 0 {
        assert(acc + rest =~= acc);
    } else {
        let (id, d) = rest[0];
        let tail = rest.drop_first();
        assert(rest =~= seq![rest[0]] + tail);
        lemma_records_concat(seq![rest[0]], tail);
        assert(seq![rest[0]].drop_last() =~= Seq::<(i32, Seq<i8>)>::empty());
        assert(records_bytes(Seq::<(i32, Seq<i8>)>::empty()) == Seq::<u8>::empty());
        assert(seq![rest[0]].last() == rest[0]);
        assert(records_bytes(seq![rest[0]]) =~= record_bytes(id, d));
        let rb = record_bytes(id, d);
        lemma_i32_round_trip(id);
        assert(d.len() < 0x1_0000_0000);
        lemma_u32_round_trip(d.len() as int);
        lemma_octets_round_trip(d);
        let whole = records_bytes(rest);
        assert(whole =~= rb + records_bytes(tail));
        // The fields of the first record, read from the file.
        assert forall|j: int| 0 <= j < rb.len() implies b[p + j] == rb[j] by {
            assert(b.subrange(p, p + whole.len())[j] == whole[j]);
        }
        assert(b.subrange(p, p + 4) =~= i32_bytes(id));
        assert(be32_at(b, p) == be32_at(i32_bytes(id), 0));
        let lb = u32_bytes(d.len() as int);
        assert(b[p + 4] == lb[0] && b[p + 5] == lb[1] && b[p + 6] == lb[2] && b[p + 7] == lb[3]) by {
            assert(rb[4] == lb[0] && rb[5] == lb[1] && rb[6] == lb[2] && rb[7] == lb[3]);
        }
        assert(be32_at(b, p + 4) == be32_at(lb, 0));
        assert(b.subrange(p + 8, p + 8 + d.len()) =~= unsigned_octets(d)) by {
            assert forall|j: int| 0 <= j < d.len() implies b.subrange(p + 8, p + 8 + d.len())[j] == unsigned_octets(
                d,
            )[j] by {
                assert(rb[8 + j] == unsigned_octets(d)[j]);
            }
        }
        // The id sorts after everything read so far.
        assert forall|k: int| 0 <= k < acc.len() implies acc[k].0 < id by {
            assert((acc + rest)[k] == acc[k]);
            assert((acc + rest)[acc.len() as int] == rest[0]);
        }
        assert(!has_id(acc, id));
        lemma_id_position_end(acc, id, 0);
        assert(acc.insert(acc.len() as int, (id, d)) =~= acc.push((id, d)));
        let q = p + rb.len();
        assert(b.subrange(q, q + records_bytes(tail).len()) =~= records_bytes(tail)) by {
            assert forall|j: int| 0 <= j < records_bytes(tail).len() implies b.subrange(
                q,
                q + records_bytes(tail).len(),
            )[j] == records_bytes(tail)[j] by {
                assert(b.subrange(p, p + whole.len())[rb.len() + j] == whole[rb.len() + j]);
            }
        }
        assert(acc.push((id, d)) + tail =~= acc + rest);
        assert forall|k: int| 0 <= k < tail.len() implies (#[trigger] tail[k]).1.len() < 0x1_0000_0000 by {
            assert(tail[k] == rest[k + 1]);
        }
        lemma_parse_records(b, q, name, acc.push((id, d)), tail);
    }
}

proof fn lemma_id_position_end(acc: RecordList, id: i32, i: int)
    requires
        0 <= i <= acc.len(),
        forall|k: int| 0 <= k < acc.len() ==> acc[k].0 < id,
    ensures
        id_position(acc, id, i) == acc.len(),
    decreases acc.len() - i,
{
    if i < acc.len() {
        lemma_id_position_end(acc, id, i + 1);
    }
}

} // verus!

verus! {

/// Store names strictly ascend.
#[verifier::opaque]
pub open spec fn model_names_ascending(ss: StoreModel) -> bool {
    forall|i: int, j: int| 0 <= i < j < ss.len() ==> text_less(#[trigger] ss[i].0, #[trigger] ss[j].0)
}

proof fn lemma_name_position_end(acc: StoreModel, name: Seq<char>, i: int)
    requires
        0 <= i <= acc.len(),
        forall|k: int| 0 <= k < acc.len() ==> text_less(acc[k].0, name),
    ensures
        name_position(acc, name, i) == acc.len(),
    decreases acc.len() - i,
{
    if i < acc.len() {
        lemma_name_position_end(acc, name, i + 1);
    }
}

/// Whether each store's records can be written and read back: ids ascend
/// and every count and length fits four bytes.
#[verifier::opaque]
pub open spec fn stores_fit(ss: StoreModel) -> bool {
    forall|i: int|
        0 <= i < ss.len() ==> ids_ascending((#[trigger] ss[i]).2) && record_lengths_fit(ss[i].2) && ss[i].2.len()
            < 0x1_0000_0000 && encode_utf8(ss[i].0).len() < 0x1_0000_0000
}

proof fn lemma_store_fields(b: Seq<u8>, p: int, name: Seq<char>, next_id: i32, rs: RecordList)
    requires
        0 <= p,
        p + store_bytes(name, next_id, rs).len() <= b.len(),
        forall|j: int| 0 <= j < store_bytes(name, next_id, rs).len() ==> b[p + j] == store_bytes(name, next_id, rs)[j],
        ids_ascending(rs),
        record_lengths_fit(rs),
        rs.len() < 0x1_0000_0000,
        encode_utf8(name).len() < 0x1_0000_0000,
    ensures
        ({
            let nl = encode_utf8(name).len() as int;
            let q = p + 4 + nl;
            &&& be32_at(b, p) == nl
            &&& p + 4 + nl <= b.len()
            &&& valid_utf8(b.subrange(p + 4, p + 4 + nl))
            &&& decode_utf8(b.subrange(p + 4, p + 4 + nl)) == name
            &&& q + 8 <= b.len()
            &&& signed32(be32_at(b, q)) == next_id
            &&& be32_at(b, q + 4) == rs.len()
            &&& rs.len() <= (b.len() - (q + 8)) / 8
            &&& parse_records(b, q + 8, rs.len(), name, Seq::empty()) == Ok::<(RecordList, int), Seq<char>>(
                (rs, q + 8 + records_bytes(rs).len()),
            )
            &&& store_bytes(name, next_id, rs).len() == 12 + nl + records_bytes(rs).len()
        }),
{
    let sb = store_bytes(name, next_id, rs);
    let nb = encode_utf8(name);
    let nl = nb.len() as int;
    let lb = u32_bytes(nl);
    lemma_u32_round_trip(nl);
    assert(b[p] == lb[0] && b[p + 1] == lb[1] && b[p + 2] == lb[2] && b[p + 3] == lb[3]) by {
        assert(sb[0] == lb[0] && sb[1] == lb[1] && sb[2] == lb[2] && sb[3] == lb[3]);
    }
    assert(b.subrange(p + 4, p + 4 + nl) =~= nb) by {
        assert forall|j: int| 0 <= j < nl implies b.subrange(p + 4, p + 4 + nl)[j] == nb[j] by {
            assert(sb[4 + j] == nb[j]);
        }
    }
    vstd::utf8::encode_utf8_valid_utf8(name);
    vstd::utf8::encode_utf8_decode_utf8(name);
    let q = p + 4 + nl;
    let ib = i32_bytes(next_id);
    lemma_i32_round_trip(next_id);
    assert(b[q] == ib[0] && b[q + 1] == ib[1] && b[q + 2] == ib[2] && b[q + 3] == ib[3]) by {
        assert(sb[4 + nl] == ib[0] && sb[4 + nl + 1] == ib[1] && sb[4 + nl + 2] == ib[2] && sb[4 + nl + 3] == ib[3]);
    }
    let cb = u32_bytes(rs.len() as int);
    lemma_u32_round_trip(rs.len() as int);
    assert(b[q + 4] == cb[0] && b[q + 5] == cb[1] && b[q + 6] == cb[2] && b[q + 7] == cb[3]) by {
        assert(sb[8 + nl] == cb[0] && sb[8 + nl + 1] == cb[1] && sb[8 + nl + 2] == cb[2] && sb[8 + nl + 3] == cb[3]);
    }
    let rb = records_bytes(rs);
    lemma_records_size(rs);
    assert(b.subrange(q + 8, q + 8 + rb.len()) =~= rb) by {
        assert forall|j: int| 0 <= j < rb.len() implies b.subrange(q + 8, q + 8 + rb.len())[j] == rb[j] by {
            assert(sb[12 + nl + j] == rb[j]);
        }
    }
    assert(Seq::<(i32, Seq<i8>)>::empty() + rs =~= rs);
    lemma_parse_records(b, q + 8, name, Seq::empty(), rs);
}

proof fn lemma_fit_first(ss: StoreModel)
    requires
        stores_fit(ss),
        ss.len() > 0,
    ensures
        ids_ascending(ss[0].2),
        record_lengths_fit(ss[0].2),
        ss[0].2.len() < 0x1_0000_0000,
        encode_utf8(ss[0].0).len() < 0x1_0000_0000,
        stores_fit(ss.drop_first()),
{
    reveal(stores_fit);
    assert forall|k: int| 0 <= k < ss.drop_first().len() implies ids_ascending((#[trigger] ss.drop_first()[k]).2)
        && record_lengths_fit(ss.drop_first()[k].2) && ss.drop_first()[k].2.len() < 0x1_0000_0000 && encode_utf8(
        ss.drop_first()[k].0,
    ).len() < 0x1_0000_0000 by {
        assert(ss.drop_first()[k] == ss[k + 1]);
    }
}

proof fn lemma_names_before(acc: StoreModel, rest: StoreModel)
    requires
        model_names_ascending(acc + rest),
        rest.len() > 0,
    ensures
        forall|k: int| 0 <= k < acc.len() ==> text_less(#[trigger] acc[k].0, rest[0].0),
        model_names_ascending(acc.push(rest[0]) + rest.drop_first()),
{
    reveal(model_names_ascending);
    assert forall|k: int| 0 <= k < acc.len() implies text_less(#[trigger] acc[k].0, rest[0].0) by {
        assert((acc + rest)[k] == acc[k]);
        assert((acc + rest)[acc.len() as int] == rest[0]);
    }
    assert(acc.push(rest[0]) + rest.drop_first() =~= acc + rest);
}

/// Bytes that match `x + y` at `p` match `x` there and `y` right after it.
proof fn lemma_split_match(b: Seq<u8>, p: int, x: Seq<u8>, y: Seq<u8>)
    requires
        0 <= p,
        p + (x + y).len() <= b.len(),
        b.subrange(p, p + (x + y).len()) == x + y,
    ensures
        forall|j: int| 0 <= j < x.len() ==> b[p + j] == #[trigger] x[j],
        b.subrange(p + x.len(), p + x.len() + y.len()) == y,
{
    let w = x + y;
    assert forall|j: int| 0 <= j < x.len() implies b[p + j] == #[trigger] x[j] by {
        assert(b.subrange(p, p + w.len())[j] == w[j]);
    }
    assert(b.subrange(p + x.len(), p + x.len() + y.len()) =~= y) by {
        assert forall|j: int| 0 <= j < y.len() implies b.subrange(p + x.len(), p + x.len() + y.len())[j] == y[j] by {
            assert(b.subrange(p, p + w.len())[x.len() + j] == w[x.len() + j]);
        }
    }
}

/// One store read from the file: the parse goes on just past it, with the
/// store appended.
proof fn lemma_store_step(b: Seq<u8>, p: int, count: nat, acc: StoreModel, name: Seq<char>, next_id: i32, rs: RecordList)
    requires
        0 <= p,
        count >= 1,
        p + store_bytes(name, next_id, rs).len() <= b.len(),
        forall|j: int| 0 <= j < store_bytes(name, next_id, rs).len() ==> b[p + j] == #[trigger] store_bytes(
            name,
            next_id,
            rs,
        )[j],
        ids_ascending(rs),
        record_lengths_fit(rs),
        rs.len() < 0x1_0000_0000,
        encode_utf8(name).len() < 0x1_0000_0000,
        forall|k: int| 0 <= k < acc.len() ==> text_less(#[trigger] acc[k].0, name),
    ensures
        parse_stores(b, p, count, acc) == parse_stores(
            b,
            p + store_bytes(name, next_id, rs).len(),
            (count - 1) as nat,
            acc.push((name, next_id, rs)),
        ),
{
    lemma_store_fields(b, p, name, next_id, rs);
    assert(!has_name(acc, name)) by {
        if has_name(acc, name) {
            let w = choose|w: int| 0 <= w < acc.len() && (#[trigger] acc[w]).0 == name;
            assert(text_less(acc[w].0, name));
            lemma_text_order(name, name);
        }
    }
    lemma_name_position_end(acc, name, 0);
    assert(acc.insert(acc.len() as int, (name, next_id, rs)) =~= acc.push((name, next_id, rs)));
}

proof fn lemma_parse_stores(b: Seq<u8>, p: int, acc: StoreModel, rest: StoreModel)
    requires
        0 <= p,
        p + stores_bytes(rest).len() <= b.len(),
        b.subrange(p, p + stores_bytes(rest).len()) == stores_bytes(rest),
        model_names_ascending(acc + rest),
        stores_fit(rest),
    ensures
        parse_stores(b, p, rest.len(), acc) == Ok::<(StoreModel, int), Seq<char>>(
            (acc + rest, p + stores_bytes(rest).len()),
        ),
    decreases rest.len(),
{
    if rest.len() == 0 {
        assert(acc + rest =~= acc);
    } else {
        let first = rest[0];
        let tail = rest.drop_first();
        assert(rest =~= seq![first] + tail);
        lemma_stores_concat(seq![first], tail);
        assert(stores_bytes(Seq::<(Seq<char>, i32, RecordList)>::empty()) == Seq::<u8>::empty());
        assert(seq![first].drop_last() =~= Seq::<(Seq<char>, i32, RecordList)>::empty());
        let sb = store_bytes(first.0, first.1, first.2);
        assert(stores_bytes(seq![first]) =~= sb);
        assert(stores_bytes(rest) =~= sb + stores_bytes(tail));
        lemma_split_match(b, p, sb, stores_bytes(tail));
        lemma_fit_first(rest);
        lemma_names_before(acc, rest);
        lemma_store_step(b, p, rest.len(), acc, first.0, first.1, first.2);
        assert(acc.push(first) + tail =~= acc + rest);
        lemma_parse_stores(b, p + sb.len(), acc.push(first), tail);
    }
}

/// What the encoder writes, the decoder reads back: for a snapshot whose
/// store names ascend, whose id sequences are valid, and whose counts and
/// lengths fit the format, decoding the file gives the same snapshot.
pub proof fn lemma_file_round_trip(ss: StoreModel)
    requires
        model_names_ascending(ss),
        model_ids_ok(ss),
        fits_format(ss),
    ensures
        decode_spec(file_bytes(ss)) == Ok::<StoreModel, Seq<char>>(ss),
{
    let b = file_bytes(ss);
    let body = stores_bytes(ss);
    lemma_u32_round_trip(ss.len() as int);
    let head = magic() + u32_bytes(ss.len() as int);
    assert(b =~= head + body);
    assert(b.subrange(0, 8) =~= magic());
    let cb = u32_bytes(ss.len() as int);
    assert(b[8] == cb[0] && b[9] == cb[1] && b[10] == cb[2] && b[11] == cb[3]);
    assert(be32_at(b, 8) == ss.len());
    lemma_stores_size(ss);
    assert(ss.len() <= (b.len() - 12) / 12);
    assert(b.subrange(12, 12 + body.len() as int) =~= body);
    lemma_fit_all(ss);
    assert(Seq::<(Seq<char>, i32, RecordList)>::empty() + ss =~= ss);
    lemma_parse_stores(b, 12, Seq::empty(), ss);
}

proof fn lemma_fit_all(ss: StoreModel)
    requires
        model_ids_ok(ss),
        fits_format(ss),
    ensures
        stores_fit(ss),
{
    reveal(stores_fit);
    assert forall|i: int| 0 <= i < ss.len() implies ids_ascending((#[trigger] ss[i]).2) && record_lengths_fit(ss[i].2)
        && ss[i].2.len() < 0x1_0000_0000 && encode_utf8(ss[i].0).len() < 0x1_0000_0000 by {
        assert(id_sequence_ok(ss[i].2, ss[i].1));
        assert forall|k: int| 0 <= k < ss[i].2.len() implies (#[trigger] ss[i].2[k]).1.len() < 0x1_0000_0000 by {}
    }
}

proof fn lemma_model_names(s: Seq<(String, RecordStoreSnapshot)>, i: int, j: int)
    requires
        names_ascending(s),
        0 <= i < j < s.len(),
    ensures
        text_less(model_of(s)[i].0, model_of(s)[j].0),
    decreases j - i,
{
    assert(model_of(s)[j].0 == s[j].0@);
    assert(model_of(s)[j - 1].0 == s[j - 1].0@);
    assert(text_less(s[j - 1].0@, s[j].0@));
    if j > i + 1 {
        lemma_model_names(s, i, j - 1);
        crate::table::lemma_text_less_trans(model_of(s)[i].0, model_of(s)[j - 1].0, model_of(s)[j].0);
    }
}

/// What [`encode_rms_snapshot`] writes for a snapshot it accepts,
/// [`decode_rms_snapshot`] reads back as the same snapshot: the same store
/// names, next ids, record ids and signed payload bytes, in the same order.
pub proof fn lemma_snapshot_round_trip(s: Seq<(String, RecordStoreSnapshot)>)
    requires
        names_ascending(s),
        snapshot_ids_ok(s),
        fits_format(model_of(s)),
    ensures
        decode_spec(file_bytes(model_of(s))) == Ok::<StoreModel, Seq<char>>(model_of(s)),
{
    let m = model_of(s);
    assert(model_names_ascending(m)) by {
        reveal(model_names_ascending);
        assert forall|i: int, j: int| 0 <= i < j < m.len() implies text_less(#[trigger] m[i].0, #[trigger] m[j].0) by {
            lemma_model_names(s, i, j);
        }
    }
    assert forall|i: int| 0 <= i < m.len() implies id_sequence_ok((#[trigger] m[i]).2, m[i].1) by {
        assert(id_sequence_ok(records_view(s[i].1.records@), s[i].1.next_id));
    }
    lemma_file_round_trip(m);
}

} // verus!
