//! The layout of a stored filter, byte by byte, and the proof that what is
//! written is read back unchanged.
//!
//! In order: the number of slots (8 bytes), the width of a slot in bits
//! (1 byte), the seed (8 bytes), the segment length, its mask and the total
//! length of the segments (4 bytes each), the slots (4 bytes each), the
//! number of license records (8 bytes), and the records, each as five texts:
//! a length in bytes (8 bytes) and that many bytes of UTF-8. All integers
//! are little-endian.

use vstd::prelude::*;
use vstd::bytes::*;
use vstd::utf8::{
    decode_utf8, decode_utf8_encode_utf8, encode_utf8, encode_utf8_decode_utf8,
    encode_utf8_valid_utf8, valid_utf8,
};
use crate::fuse::Layout;
use crate::password_filter::FilterView;
use crate::util::LicenseView;

verus! {

/// The width of a slot, in bits.
pub const FINGERPRINT_WIDTH: u8 = 32;

/// The slots, four bytes each.
pub open spec fn encode_table(table: Seq<u32>) -> Seq<u8> {
    Seq::new(4 * table.len(), |k: int| spec_u32_to_le_bytes(table[k / 4])[k % 4])
}

/// A text: the length of its UTF-8 form, then that form.
#[verifier::opaque]
pub open spec fn encode_text(text: Seq<char>) -> Seq<u8> {
    spec_u64_to_le_bytes(encode_utf8(text).len() as u64) + encode_utf8(text)
}

/// A license record: its five texts.
#[verifier::opaque]
pub open spec fn encode_license(record: LicenseView) -> Seq<u8> {
    encode_text(record.part) + encode_text(record.author) + encode_text(record.owner_url)
        + encode_text(record.project_url) + encode_text(record.license)
}

/// License records, one after the other.
pub open spec fn encode_licenses(records: Seq<LicenseView>) -> Seq<u8>
    decreases records.len(),
{
    if records.len() == 0 {
        Seq::empty()
    } else {
        encode_license(records.first()) + encode_licenses(records.drop_first())
    }
}

/// The four integers of a layout.
pub open spec fn encode_layout(layout: Layout) -> Seq<u8> {
    spec_u64_to_le_bytes(layout.seed) + spec_u32_to_le_bytes(layout.segment_length)
        + spec_u32_to_le_bytes(layout.segment_length_mask) + spec_u32_to_le_bytes(
        layout.segment_count_length,
    )
}

/// A whole filter.
pub open spec fn encode_filter(filter: FilterView) -> Seq<u8> {
    spec_u64_to_le_bytes(filter.table.len() as u64) + seq![FINGERPRINT_WIDTH] + encode_layout(
        filter.layout,
    ) + encode_table(filter.table) + spec_u64_to_le_bytes(filter.licenses.len() as u64)
        + encode_licenses(filter.licenses)
}

/// Whether every length in a text fits the eight bytes it is written in.
pub open spec fn text_storable(text: Seq<char>) -> bool {
    encode_utf8(text).len() <= u64::MAX
}

/// Whether every length in a record fits the eight bytes it is written in.
pub open spec fn license_storable(record: LicenseView) -> bool {
    &&& text_storable(record.part)
    &&& text_storable(record.author)
    &&& text_storable(record.owner_url)
    &&& text_storable(record.project_url)
    &&& text_storable(record.license)
}

/// Whether every length in a filter fits the eight bytes it is written in.
pub open spec fn storable(filter: FilterView) -> bool {
    &&& filter.table.len() <= u64::MAX
    &&& filter.licenses.len() <= u64::MAX
    &&& forall|i: int| 0 <= i < filter.licenses.len() ==> license_storable(#[trigger] filter.licenses[i])
}

/// Reads eight bytes as an integer; gives it with the bytes that follow.
pub open spec fn take_u64(bytes: Seq<u8>) -> Option<(u64, Seq<u8>)> {
    if bytes.len() >= 8 {
        Some((spec_u64_from_le_bytes(bytes.subrange(0, 8)), bytes.skip(8)))
    } else {
        None
    }
}

/// Reads a layout; gives it with the bytes that follow.
pub open spec fn take_layout(bytes: Seq<u8>) -> Option<(Layout, Seq<u8>)> {
    if bytes.len() >= 20 {
        Some(
            (
                Layout {
                    seed: spec_u64_from_le_bytes(bytes.subrange(0, 8)),
                    segment_length: spec_u32_from_le_bytes(bytes.subrange(8, 12)),
                    segment_length_mask: spec_u32_from_le_bytes(bytes.subrange(12, 16)),
                    segment_count_length: spec_u32_from_le_bytes(bytes.subrange(16, 20)),
                },
                bytes.skip(20),
            ),
        )
    } else {
        None
    }
}

/// Reads `slots` slots; gives them with the bytes that follow.
pub open spec fn take_table(bytes: Seq<u8>, slots: nat) -> Option<(Seq<u32>, Seq<u8>)> {
    if bytes.len() >= 4 * slots {
        Some(
            (
                Seq::new(slots, |i: int| spec_u32_from_le_bytes(bytes.subrange(4 * i, 4 * i + 4))),
                bytes.skip(4 * slots as int),
            ),
        )
    } else {
        None
    }
}

/// Reads a text; gives it with the bytes that follow. There is none where
/// the bytes end early or are no UTF-8.
#[verifier::opaque]
pub open spec fn take_text(bytes: Seq<u8>) -> Option<(Seq<char>, Seq<u8>)> {
    match take_u64(bytes) {
        Some((length, rest)) => if rest.len() >= length && valid_utf8(
            rest.subrange(0, length as int),
        ) {
            Some((decode_utf8(rest.subrange(0, length as int)), rest.skip(length as int)))
        } else {
            None
        },
        None => None,
    }
}

/// Reads a license record; gives it with the bytes that follow.
#[verifier::opaque]
pub open spec fn take_license(bytes: Seq<u8>) -> Option<(LicenseView, Seq<u8>)> {
    match take_text(bytes) {
        Some((part, rest1)) => match take_text(rest1) {
            Some((author, rest2)) => match take_text(rest2) {
                Some((owner_url, rest3)) => match take_text(rest3) {
                    Some((project_url, rest4)) => match take_text(rest4) {
                        Some((license, rest5)) => Some(
                            (LicenseView { part, author, owner_url, project_url, license }, rest5),
                        ),
                        None => None,
                    },
                    None => None,
                },
                None => None,
            },
            None => None,
        },
        None => None,
    }
}

/// Reads `count` license records; gives them with the bytes that follow.
pub open spec fn take_licenses(bytes: Seq<u8>, count: nat) -> Option<(Seq<LicenseView>, Seq<u8>)>
    decreases count,
{
    if count == 0 {
        Some((Seq::empty(), bytes))
    } else {
        match take_license(bytes) {
            Some((record, rest)) => match take_licenses(rest, (count - 1) as nat) {
                Some((records, last)) => Some((seq![record] + records, last)),
                None => None,
            },
            None => None,
        }
    }
}

/// Reads a whole filter. There is none where the bytes end early, where
/// bytes are left over, where the width is not that of this library, where
/// a text is no UTF-8, or where the table does not fit its layout.
pub open spec fn parse_filter(bytes: Seq<u8>) -> Option<FilterView> {
    match take_u64(bytes) {
        Some((slots, rest1)) => if rest1.len() >= 1 && rest1[0] == FINGERPRINT_WIDTH {
            match take_layout(rest1.skip(1)) {
                Some((layout, rest2)) => match take_table(rest2, slots as nat) {
                    Some((table, rest3)) => match take_u64(rest3) {
                        Some((count, rest4)) => match take_licenses(rest4, count as nat) {
                            Some((licenses, rest5)) => {
                                let filter = FilterView { layout, table, licenses };
                                if rest5.len() == 0 && filter.well_formed() {
                                    Some(filter)
                                } else {
                                    None
                                }
                            },
                            None => None,
                        },
                        None => None,
                    },
                    None => None,
                },
                None => None,
            }
        } else {
            None
        },
        None => None,
    }
}

/// An integer of eight bytes is read back from in front of anything.
pub proof fn lemma_take_u64(value: u64, rest: Seq<u8>)
    ensures
        take_u64(spec_u64_to_le_bytes(value) + rest) == Some((value, rest)),
{
    lemma_auto_spec_u64_to_from_le_bytes();
    let bytes = spec_u64_to_le_bytes(value) + rest;
    assert(bytes.subrange(0, 8) =~= spec_u64_to_le_bytes(value));
    assert(bytes.skip(8) =~= rest);
}

/// A layout is read back from in front of anything.
pub proof fn lemma_take_layout(layout: Layout, rest: Seq<u8>)
    ensures
        take_layout(encode_layout(layout) + rest) == Some((layout, rest)),
{
    lemma_auto_spec_u64_to_from_le_bytes();
    lemma_auto_spec_u32_to_from_le_bytes();
    let bytes = encode_layout(layout) + rest;
    assert(bytes.subrange(0, 8) =~= spec_u64_to_le_bytes(layout.seed));
    assert(bytes.subrange(8, 12) =~= spec_u32_to_le_bytes(layout.segment_length));
    assert(bytes.subrange(12, 16) =~= spec_u32_to_le_bytes(layout.segment_length_mask));
    assert(bytes.subrange(16, 20) =~= spec_u32_to_le_bytes(layout.segment_count_length));
    assert(bytes.skip(20) =~= rest);
}

/// A table is read back from in front of anything.
pub proof fn lemma_take_table(table: Seq<u32>, rest: Seq<u8>)
    ensures
        take_table(encode_table(table) + rest, table.len()) == Some((table, rest)),
{
    lemma_auto_spec_u32_to_from_le_bytes();
    let bytes = encode_table(table) + rest;
    let read = Seq::new(
        table.len(),
        |i: int| spec_u32_from_le_bytes(bytes.subrange(4 * i, 4 * i + 4)),
    );
    assert forall|i: int| 0 <= i < table.len() implies read[i] == table[i] by {
        assert(bytes.subrange(4 * i, 4 * i + 4) =~= spec_u32_to_le_bytes(table[i])) by {
            assert forall|j: int| 0 <= j < 4 implies bytes.subrange(4 * i, 4 * i + 4)[j]
                == spec_u32_to_le_bytes(table[i])[j] by {
                assert((4 * i + j) / 4 == i);
                assert((4 * i + j) % 4 == j);
            }
        }
    }
    assert(read =~= table);
    assert(bytes.skip(4 * table.len() as int) =~= rest);
}

/// A text is read back from in front of anything.
pub proof fn lemma_take_text(text: Seq<char>, rest: Seq<u8>)
    requires
        text_storable(text),
    ensures
        take_text(encode_text(text) + rest) == Some((text, rest)),
{
    reveal(take_text);
    reveal(encode_text);
    let body = encode_utf8(text);
    let bytes = encode_text(text) + rest;
    assert(bytes =~= spec_u64_to_le_bytes(body.len() as u64) + (body + rest));
    lemma_take_u64(body.len() as u64, body + rest);
    assert((body + rest).subrange(0, body.len() as int) =~= body);
    assert((body + rest).skip(body.len() as int) =~= rest);
    encode_utf8_valid_utf8(text);
    encode_utf8_decode_utf8(text);
}

/// A license record is read back from in front of anything.
pub proof fn lemma_take_license(record: LicenseView, rest: Seq<u8>)
    requires
        license_storable(record),
    ensures
        take_license(encode_license(record) + rest) == Some((record, rest)),
{
    reveal(take_license);
    reveal(encode_license);
    let e5 = encode_text(record.license) + rest;
    let e4 = encode_text(record.project_url) + e5;
    let e3 = encode_text(record.owner_url) + e4;
    let e2 = encode_text(record.author) + e3;
    assert(encode_license(record) + rest =~= encode_text(record.part) + e2);
    lemma_take_text(record.part, e2);
    lemma_take_text(record.author, e3);
    lemma_take_text(record.owner_url, e4);
    lemma_take_text(record.project_url, e5);
    lemma_take_text(record.license, rest);
}

/// License records are read back from in front of anything.
pub proof fn lemma_take_licenses(records: Seq<LicenseView>, rest: Seq<u8>)
    requires
        forall|i: int| 0 <= i < records.len() ==> license_storable(#[trigger] records[i]),
    ensures
        take_licenses(encode_licenses(records) + rest, records.len()) == Some((records, rest)),
    decreases records.len(),
{
    if records.len() == 0 {
        assert(encode_licenses(records) + rest =~= rest);
        assert(records =~= Seq::<LicenseView>::empty());
    } else {
        let tail = records.drop_first();
        let after = encode_licenses(tail) + rest;
        assert(encode_licenses(records) + rest =~= encode_license(records.first()) + after);
        assert(license_storable(records[0]));
        lemma_take_license(records.first(), after);
        assert forall|i: int| 0 <= i < tail.len() implies license_storable(#[trigger] tail[i]) by {
            assert(tail[i] == records[i + 1]);
        }
        lemma_take_licenses(tail, rest);
        assert(seq![records.first()] + tail =~= records);
    }
}

/// Appending one record to a list appends its bytes.
pub proof fn lemma_encode_licenses_push(records: Seq<LicenseView>, record: LicenseView)
    ensures
        encode_licenses(records.push(record)) == encode_licenses(records) + encode_license(record),
    decreases records.len(),
{
    let longer = records.push(record);
    if records.len() == 0 {
        assert(longer.drop_first() =~= Seq::<LicenseView>::empty());
        assert(encode_licenses(longer.drop_first()) =~= Seq::<u8>::empty());
        assert(encode_licenses(longer) =~= encode_license(record));
        assert(encode_licenses(records) + encode_license(record) =~= encode_license(record));
    } else {
        assert(longer.drop_first() =~= records.drop_first().push(record));
        lemma_encode_licenses_push(records.drop_first(), record);
        assert(encode_licenses(longer) =~= encode_licenses(records) + encode_license(record));
    }
}

/// Appending one slot to a table appends its four bytes.
pub proof fn lemma_encode_table_push(table: Seq<u32>, slot: u32)
    ensures
        encode_table(table.push(slot)) == encode_table(table) + spec_u32_to_le_bytes(slot),
{
    lemma_auto_spec_u32_to_from_le_bytes();
    let longer = encode_table(table.push(slot));
    let joined = encode_table(table) + spec_u32_to_le_bytes(slot);
    assert(longer.len() == joined.len());
    assert forall|k: int| 0 <= k < longer.len() implies longer[k] == joined[k] by {
        if k < 4 * table.len() {
            assert(table.push(slot)[k / 4] == table[k / 4]);
        } else {
            assert(k / 4 == table.len());
            assert(k % 4 == k - 4 * table.len());
        }
    }
    assert(longer =~= joined);
}

/// What was written is read back: the bytes of a well-formed filter parse
/// to that filter, slot for slot and record for record.
pub proof fn lemma_round_trip(filter: FilterView)
    requires
        filter.well_formed(),
        storable(filter),
    ensures
        parse_filter(encode_filter(filter)) == Some(filter),
{
    let e5 = encode_licenses(filter.licenses);
    let e4 = spec_u64_to_le_bytes(filter.licenses.len() as u64) + e5;
    let e3 = encode_table(filter.table) + e4;
    let e2 = encode_layout(filter.layout) + e3;
    let e1 = seq![FINGERPRINT_WIDTH] + e2;
    assert(encode_filter(filter) =~= spec_u64_to_le_bytes(filter.table.len() as u64) + e1);
    lemma_take_u64(filter.table.len() as u64, e1);
    assert(e1.skip(1) =~= e2);
    lemma_take_layout(filter.layout, e3);
    lemma_take_table(filter.table, e4);
    lemma_take_u64(filter.licenses.len() as u64, e5);
    assert(e5 =~= e5 + Seq::<u8>::empty());
    lemma_take_licenses(filter.licenses, Seq::empty());
}

/// Bytes from which an integer of eight bytes is read begin with it.
pub proof fn lemma_taken_u64(bytes: Seq<u8>)
    requires
        take_u64(bytes) is Some,
    ensures
        bytes == spec_u64_to_le_bytes(take_u64(bytes)->Some_0.0) + take_u64(bytes)->Some_0.1,
{
    lemma_auto_spec_u64_to_from_le_bytes();
    let head = bytes.subrange(0, 8);
    assert(spec_u64_to_le_bytes(spec_u64_from_le_bytes(head)) == head);
    assert(bytes =~= head + bytes.skip(8));
}

/// Bytes from which a layout is read begin with it.
pub proof fn lemma_taken_layout(bytes: Seq<u8>)
    requires
        take_layout(bytes) is Some,
    ensures
        bytes == encode_layout(take_layout(bytes)->Some_0.0) + take_layout(bytes)->Some_0.1,
{
    lemma_auto_spec_u64_to_from_le_bytes();
    lemma_auto_spec_u32_to_from_le_bytes();
    let a = bytes.subrange(0, 8);
    let b = bytes.subrange(8, 12);
    let c = bytes.subrange(12, 16);
    let d = bytes.subrange(16, 20);
    assert(spec_u64_to_le_bytes(spec_u64_from_le_bytes(a)) == a);
    assert(spec_u32_to_le_bytes(spec_u32_from_le_bytes(b)) == b);
    assert(spec_u32_to_le_bytes(spec_u32_from_le_bytes(c)) == c);
    assert(spec_u32_to_le_bytes(spec_u32_from_le_bytes(d)) == d);
    assert(bytes =~= a + b + c + d + bytes.skip(20));
}

/// Bytes from which a table is read begin with it.
pub proof fn lemma_taken_table(bytes: Seq<u8>, slots: nat)
    requires
        take_table(bytes, slots) is Some,
    ensures
        take_table(bytes, slots)->Some_0.0.len() == slots,
        bytes == encode_table(take_table(bytes, slots)->Some_0.0) + take_table(
            bytes,
            slots,
        )->Some_0.1,
{
    lemma_auto_spec_u32_to_from_le_bytes();
    let table = take_table(bytes, slots)->Some_0.0;
    let written = encode_table(table);
    assert forall|k: int| 0 <= k < 4 * slots implies written[k] == bytes[k] by {
        let i = k / 4;
        let part = bytes.subrange(4 * i, 4 * i + 4);
        assert(spec_u32_to_le_bytes(spec_u32_from_le_bytes(part)) == part);
        assert(part[k % 4] == bytes[4 * i + k % 4]);
    }
    assert(bytes =~= written + bytes.skip(4 * slots as int));
}

/// Bytes from which a text is read begin with it.
pub proof fn lemma_taken_text(bytes: Seq<u8>)
    requires
        take_text(bytes) is Some,
    ensures
        text_storable(take_text(bytes)->Some_0.0),
        bytes == encode_text(take_text(bytes)->Some_0.0) + take_text(bytes)->Some_0.1,
{
    reveal(take_text);
    reveal(encode_text);
    lemma_taken_u64(bytes);
    let length = take_u64(bytes)->Some_0.0;
    let rest = take_u64(bytes)->Some_0.1;
    let body = rest.subrange(0, length as int);
    decode_utf8_encode_utf8(body);
    assert(rest =~= body + rest.skip(length as int));
    assert(bytes =~= encode_text(decode_utf8(body)) + rest.skip(length as int));
}

/// Bytes from which a license record is read begin with it.
pub proof fn lemma_taken_license(bytes: Seq<u8>)
    requires
        take_license(bytes) is Some,
    ensures
        license_storable(take_license(bytes)->Some_0.0),
        bytes == encode_license(take_license(bytes)->Some_0.0) + take_license(bytes)->Some_0.1,
{
    reveal(take_license);
    reveal(encode_license);
    lemma_taken_text(bytes);
    let r1 = take_text(bytes)->Some_0.1;
    lemma_taken_text(r1);
    let r2 = take_text(r1)->Some_0.1;
    lemma_taken_text(r2);
    let r3 = take_text(r2)->Some_0.1;
    lemma_taken_text(r3);
    let r4 = take_text(r3)->Some_0.1;
    lemma_taken_text(r4);
    let r5 = take_text(r4)->Some_0.1;
    let record = take_license(bytes)->Some_0.0;
    assert(bytes =~= encode_license(record) + r5);
}

/// Bytes from which license records are read begin with them.
pub proof fn lemma_taken_licenses(bytes: Seq<u8>, count: nat)
    requires
        take_licenses(bytes, count) is Some,
    ensures
        take_licenses(bytes, count)->Some_0.0.len() == count,
        forall|i: int|
            0 <= i < count ==> license_storable(#[trigger] take_licenses(bytes, count)->Some_0.0[i]),
        bytes == encode_licenses(take_licenses(bytes, count)->Some_0.0) + take_licenses(
            bytes,
            count,
        )->Some_0.1,
    decreases count,
{
    if count == 0 {
        assert(encode_licenses(Seq::<LicenseView>::empty()) + bytes =~= bytes);
    } else {
        lemma_taken_license(bytes);
        let record = take_license(bytes)->Some_0.0;
        let rest = take_license(bytes)->Some_0.1;
        lemma_taken_licenses(rest, (count - 1) as nat);
        let tail = take_licenses(rest, (count - 1) as nat)->Some_0.0;
        let last = take_licenses(rest, (count - 1) as nat)->Some_0.1;
        let records = seq![record] + tail;
        assert(records.first() == record);
        assert(records.drop_first() =~= tail);
        assert(bytes =~= encode_licenses(records) + last);
        assert forall|i: int| 0 <= i < count implies license_storable(#[trigger] records[i]) by {
            if i > 0 {
                assert(records[i] == tail[i - 1]);
            }
        }
    }
}

/// What is read was written: bytes that parse to a filter are the bytes of
/// that filter, so no two artifacts hold the same filter.
pub proof fn lemma_parsed_is_written(bytes: Seq<u8>)
    requires
        parse_filter(bytes) is Some,
    ensures
        parse_filter(bytes)->Some_0.well_formed(),
        storable(parse_filter(bytes)->Some_0),
        encode_filter(parse_filter(bytes)->Some_0) == bytes,
{
    lemma_taken_u64(bytes);
    let slots = take_u64(bytes)->Some_0.0;
    let rest1 = take_u64(bytes)->Some_0.1;
    assert(rest1 =~= seq![FINGERPRINT_WIDTH] + rest1.skip(1));
    lemma_taken_layout(rest1.skip(1));
    let rest2 = take_layout(rest1.skip(1))->Some_0.1;
    lemma_taken_table(rest2, slots as nat);
    let rest3 = take_table(rest2, slots as nat)->Some_0.1;
    lemma_taken_u64(rest3);
    let count = take_u64(rest3)->Some_0.0;
    let rest4 = take_u64(rest3)->Some_0.1;
    lemma_taken_licenses(rest4, count as nat);
    let rest5 = take_licenses(rest4, count as nat)->Some_0.1;
    let filter = parse_filter(bytes)->Some_0;
    assert(rest5 =~= Seq::<u8>::empty());
    assert(bytes =~= encode_filter(filter));
}

/// A filter that was stored and read back answers every key as before and
/// carries the same license records.
pub proof fn lemma_restored_answers_alike(filter: FilterView, key: u64)
    requires
        filter.well_formed(),
        storable(filter),
    ensures
        parse_filter(encode_filter(filter)) matches Some(restored) && restored.contains(key)
            == filter.contains(key) && restored.licenses == filter.licenses,
{
    lemma_round_trip(filter);
}

} // verus!
