//! Writing a filter to bytes and reading it back.

use vstd::prelude::*;
use vstd::bytes::*;
use vstd::slice::{slice_subrange, slice_to_vec};
use vstd::utf8::{encode_utf8, encode_utf8_decode_utf8, valid_utf8};
use crate::format::{
    encode_filter, encode_layout, encode_license, encode_licenses, encode_table, encode_text,
    lemma_encode_licenses_push, lemma_encode_table_push, lemma_parsed_is_written,
    lemma_round_trip, license_storable,
    parse_filter, take_layout, take_license, take_licenses, take_table, take_text, take_u64,
    text_storable, FINGERPRINT_WIDTH,
};
use crate::fuse::{fuse_from_parts, Layout};
use crate::password_filter::PasswordFilter;
use crate::util::{licenses_view, License, LicenseView};

verus! {

/// The bytes are not those of a stored filter.
#[derive(Clone, Copy, Debug, PartialEq, Eq, Structural)]
pub struct CorruptArtifact;

/// `String::from_utf8`: the string whose UTF-8 form is `bytes`, or `None`
/// where the bytes are not valid UTF-8.
#[verifier::external_body]
fn string_from_utf8(bytes: Vec<u8>) -> (r: Option<String>)
    ensures
        r.is_some() == valid_utf8(bytes@),
        r matches Some(text) ==> encode_utf8(text@) == bytes@,
{
    String::from_utf8(bytes).ok()
}

fn put_u64(out: &mut Vec<u8>, value: u64)
    ensures
        final(out)@ == old(out)@ + spec_u64_to_le_bytes(value),
{
    let bytes = u64_to_le_bytes(value);
    out.extend_from_slice(bytes.as_slice());
}

fn put_u32(out: &mut Vec<u8>, value: u32)
    ensures
        final(out)@ == old(out)@ + spec_u32_to_le_bytes(value),
{
    let bytes = u32_to_le_bytes(value);
    out.extend_from_slice(bytes.as_slice());
}

fn put_text(out: &mut Vec<u8>, text: &String)
    ensures
        final(out)@ == old(out)@ + encode_text(text@),
        text_storable(text@),
{
    let bytes = text.as_str().as_bytes();
    put_u64(out, bytes.len() as u64);
    out.extend_from_slice(bytes);
    proof {
        reveal(encode_text);
        assert(final(out)@ =~= old(out)@ + encode_text(text@));
    }
}

fn put_license(out: &mut Vec<u8>, record: &License)
    ensures
        final(out)@ == old(out)@ + encode_license(record@),
        license_storable(record@),
{
    put_text(out, &record.part);
    put_text(out, &record.author);
    put_text(out, &record.owner_url);
    put_text(out, &record.project_url);
    put_text(out, &record.license);
    proof {
        reveal(encode_license);
        assert(final(out)@ =~= old(out)@ + encode_license(record@));
    }
}

/// The bytes of a filter. Read back, they give the filter again.
pub fn encode(filter: &PasswordFilter) -> (r: Vec<u8>)
    ensures
        r@ == encode_filter(filter@),
        parse_filter(r@) == Some(filter@),
{
    let slots: usize = filter.len();
    let layout: Layout = filter.layout();
    let mut out: Vec<u8> = Vec::new();
    put_u64(&mut out, slots as u64);
    out.push(FINGERPRINT_WIDTH);
    put_u64(&mut out, layout.seed);
    put_u32(&mut out, layout.segment_length);
    put_u32(&mut out, layout.segment_length_mask);
    put_u32(&mut out, layout.segment_count_length);
    let ghost head = spec_u64_to_le_bytes(filter@.table.len() as u64) + seq![FINGERPRINT_WIDTH]
        + encode_layout(filter@.layout);
    proof {
        assert(out@ =~= head);
        assert(encode_table(filter@.table.subrange(0, 0)) =~= Seq::<u8>::empty());
        assert(out@ =~= head + encode_table(filter@.table.subrange(0, 0)));
    }
    let mut i: usize = 0;
    while i < slots
        invariant
            i <= slots,
            slots == filter@.table.len(),
            out@ == head + encode_table(filter@.table.subrange(0, i as int)),
        decreases slots - i,
    {
        let slot: u32 = filter.slot(i);
        proof {
            lemma_encode_table_push(filter@.table.subrange(0, i as int), slot);
            assert(filter@.table.subrange(0, i as int).push(slot) =~= filter@.table.subrange(
                0,
                i + 1,
            ));
        }
        put_u32(&mut out, slot);
        proof {
            assert(out@ =~= head + encode_table(filter@.table.subrange(0, i + 1)));
        }
        i = i + 1;
    }
    let records = filter.licenses();
    let ghost views = filter@.licenses;
    put_u64(&mut out, records.len() as u64);
    let ghost body = head + encode_table(filter@.table) + spec_u64_to_le_bytes(
        views.len() as u64,
    );
    proof {
        assert(filter@.table.subrange(0, slots as int) =~= filter@.table);
        assert(views.len() == records@.len());
        assert(encode_licenses(views.subrange(0, 0)) =~= Seq::<u8>::empty());
        assert(out@ =~= body + encode_licenses(views.subrange(0, 0)));
    }
    let mut j: usize = 0;
    while j < records.len()
        invariant
            j <= records.len(),
            views == licenses_view(records@),
            out@ == body + encode_licenses(views.subrange(0, j as int)),
            forall|k: int| 0 <= k < j ==> license_storable(#[trigger] views[k]),
        decreases records.len() - j,
    {
        proof {
            lemma_encode_licenses_push(views.subrange(0, j as int), records@[j as int]@);
            assert(views.subrange(0, j as int).push(records@[j as int]@) =~= views.subrange(
                0,
                j + 1,
            ));
        }
        put_license(&mut out, &records[j]);
        proof {
            assert(out@ =~= body + encode_licenses(views.subrange(0, j + 1)));
        }
        j = j + 1;
    }
    proof {
        assert(views.subrange(0, records@.len() as int) =~= views);
        assert(out@ =~= encode_filter(filter@));
        lemma_round_trip(filter@);
    }
    out
}

fn read_u64(bytes: &[u8], pos: usize) -> (r: Option<(u64, usize)>)
    requires
        pos <= bytes@.len(),
    ensures
        match r {
            Some((value, next)) => pos <= next <= bytes@.len() && take_u64(
                bytes@.skip(pos as int),
            ) == Some((value, bytes@.skip(next as int))),
            None => take_u64(bytes@.skip(pos as int)) is None,
        },
{
    if bytes.len() - pos < 8 {
        return None;
    }
    let value: u64 = u64_from_le_bytes(slice_subrange(bytes, pos, pos + 8));
    proof {
        assert(bytes@.skip(pos as int).subrange(0, 8) =~= bytes@.subrange(pos as int, pos + 8));
        assert(bytes@.skip(pos as int).skip(8) =~= bytes@.skip(pos + 8));
    }
    Some((value, pos + 8))
}

fn read_layout(bytes: &[u8], pos: usize) -> (r: Option<(Layout, usize)>)
    requires
        pos <= bytes@.len(),
    ensures
        match r {
            Some((layout, next)) => pos <= next <= bytes@.len() && take_layout(
                bytes@.skip(pos as int),
            ) == Some((layout, bytes@.skip(next as int))),
            None => take_layout(bytes@.skip(pos as int)) is None,
        },
{
    if bytes.len() - pos < 20 {
        return None;
    }
    let seed: u64 = u64_from_le_bytes(slice_subrange(bytes, pos, pos + 8));
    let segment_length: u32 = u32_from_le_bytes(slice_subrange(bytes, pos + 8, pos + 12));
    let segment_length_mask: u32 = u32_from_le_bytes(slice_subrange(bytes, pos + 12, pos + 16));
    let segment_count_length: u32 = u32_from_le_bytes(slice_subrange(bytes, pos + 16, pos + 20));
    proof {
        let rest = bytes@.skip(pos as int);
        assert(rest.subrange(0, 8) =~= bytes@.subrange(pos as int, pos + 8));
        assert(rest.subrange(8, 12) =~= bytes@.subrange(pos + 8, pos + 12));
        assert(rest.subrange(12, 16) =~= bytes@.subrange(pos + 12, pos + 16));
        assert(rest.subrange(16, 20) =~= bytes@.subrange(pos + 16, pos + 20));
        assert(rest.skip(20) =~= bytes@.skip(pos + 20));
    }
    Some((Layout { seed, segment_length, segment_length_mask, segment_count_length }, pos + 20))
}

fn read_table(bytes: &[u8], pos: usize, slots: u64) -> (r: Option<(Vec<u32>, usize)>)
    requires
        pos <= bytes@.len(),
    ensures
        match r {
            Some((table, next)) => pos <= next <= bytes@.len() && take_table(
                bytes@.skip(pos as int),
                slots as nat,
            ) == Some((table@, bytes@.skip(next as int))),
            None => take_table(bytes@.skip(pos as int), slots as nat) is None,
        },
{
    let room: usize = (bytes.len() - pos) / 4;
    if slots > room as u64 {
        return None;
    }
    let count: usize = slots as usize;
    let ghost rest = bytes@.skip(pos as int);
    let mut table: Vec<u32> = Vec::new();
    let mut i: usize = 0;
    while i < count
        invariant
            i <= count,
            count == slots,
            pos + 4 * count <= bytes@.len() <= usize::MAX,
            rest == bytes@.skip(pos as int),
            table@.len() == i,
            forall|k: int|
                0 <= k < i ==> table@[k] == spec_u32_from_le_bytes(
                    #[trigger] rest.subrange(4 * k, 4 * k + 4),
                ),
        decreases count - i,
    {
        let at: usize = pos + 4 * i;
        let slot: u32 = u32_from_le_bytes(slice_subrange(bytes, at, at + 4));
        proof {
            assert(rest.subrange(4 * i, 4 * i + 4) =~= bytes@.subrange(at as int, at + 4));
        }
        table.push(slot);
        i = i + 1;
    }
    proof {
        assert(table@ =~= Seq::new(
            slots as nat,
            |k: int| spec_u32_from_le_bytes(rest.subrange(4 * k, 4 * k + 4)),
        ));
        assert(rest.skip(4 * slots as int) =~= bytes@.skip(pos + 4 * count));
    }
    Some((table, pos + 4 * count))
}

fn read_text(bytes: &[u8], pos: usize) -> (r: Option<(String, usize)>)
    requires
        pos <= bytes@.len(),
    ensures
        match r {
            Some((text, next)) => pos <= next <= bytes@.len() && take_text(
                bytes@.skip(pos as int),
            ) == Some((text@, bytes@.skip(next as int))),
            None => take_text(bytes@.skip(pos as int)) is None,
        },
{
    proof {
        reveal(take_text);
    }
    match read_u64(bytes, pos) {
        None => None,
        Some((length, start)) => {
            if length > (bytes.len() - start) as u64 {
                return None;
            }
            let end: usize = start + length as usize;
            let body: Vec<u8> = slice_to_vec(slice_subrange(bytes, start, end));
            proof {
                assert(bytes@.skip(start as int).subrange(0, length as int) =~= bytes@.subrange(
                    start as int,
                    end as int,
                ));
                assert(bytes@.skip(start as int).skip(length as int) =~= bytes@.skip(end as int));
            }
            match string_from_utf8(body) {
                None => None,
                Some(text) => {
                    proof {
                        encode_utf8_decode_utf8(text@);
                    }
                    Some((text, end))
                },
            }
        },
    }
}

fn read_license(bytes: &[u8], pos: usize) -> (r: Option<(License, usize)>)
    requires
        pos <= bytes@.len(),
    ensures
        match r {
            Some((record, next)) => pos <= next <= bytes@.len() && take_license(
                bytes@.skip(pos as int),
            ) == Some((record@, bytes@.skip(next as int))),
            None => take_license(bytes@.skip(pos as int)) is None,
        },
{
    proof {
        reveal(take_license);
    }
    let (part, at_author) = match read_text(bytes, pos) {
        Some(found) => found,
        None => { return None; },
    };
    let (author, at_owner) = match read_text(bytes, at_author) {
        Some(found) => found,
        None => { return None; },
    };
    let (owner_url, at_project) = match read_text(bytes, at_owner) {
        Some(found) => found,
        None => { return None; },
    };
    let (project_url, at_license) = match read_text(bytes, at_project) {
        Some(found) => found,
        None => { return None; },
    };
    let (license, at_end) = match read_text(bytes, at_license) {
        Some(found) => found,
        None => { return None; },
    };
    Some((License { part, author, owner_url, project_url, license }, at_end))
}

/// What reading `count` records gives once `done` have been read and those
/// after them are read from `rest`.
spec fn continued(done: Seq<LicenseView>, rest: Seq<u8>, count: nat) -> Option<
    (Seq<LicenseView>, Seq<u8>),
> {
    match take_licenses(rest, count) {
        Some((records, last)) => Some((done + records, last)),
        None => None,
    }
}

fn read_licenses(bytes: &[u8], pos: usize, count: u64) -> (r: Option<(Vec<License>, usize)>)
    requires
        pos <= bytes@.len(),
    ensures
        match r {
            Some((records, next)) => pos <= next <= bytes@.len() && take_licenses(
                bytes@.skip(pos as int),
                count as nat,
            ) == Some((licenses_view(records@), bytes@.skip(next as int))),
            None => take_licenses(bytes@.skip(pos as int), count as nat) is None,
        },
{
    let ghost whole = take_licenses(bytes@.skip(pos as int), count as nat);
    let mut records: Vec<License> = Vec::new();
    let mut at: usize = pos;
    let mut i: u64 = 0;
    proof {
        match whole {
            Some((all, last)) => {
                assert(Seq::<LicenseView>::empty() + all =~= all);
            },
            None => {},
        }
        assert(licenses_view(records@) =~= Seq::<LicenseView>::empty());
    }
    while i < count
        invariant
            i <= count,
            pos <= at <= bytes@.len(),
            whole == take_licenses(bytes@.skip(pos as int), count as nat),
            whole == continued(
                licenses_view(records@),
                bytes@.skip(at as int),
                (count - i) as nat,
            ),
        decreases count - i,
    {
        let ghost done = licenses_view(records@);
        match read_license(bytes, at) {
            None => {
                return None;
            },
            Some((record, next)) => {
                proof {
                    let after = take_licenses(bytes@.skip(next as int), (count - i - 1) as nat);
                    match after {
                        Some((more, last)) => {
                            assert(done + (seq![record@] + more) =~= done.push(record@) + more);
                        },
                        None => {},
                    }
                    assert(licenses_view(records@.push(record)) =~= done.push(record@));
                }
                records.push(record);
                at = next;
                i = i + 1;
            },
        }
    }
    proof {
        assert(licenses_view(records@) + Seq::<LicenseView>::empty() =~= licenses_view(records@));
    }
    Some((records, at))
}

/// Reads a filter from its bytes. Every filter that `encode` wrote is read
/// back as it was; bytes that `encode` would not have written are refused
/// as a whole.
pub fn decode(bytes: &Vec<u8>) -> (r: Result<PasswordFilter, CorruptArtifact>)
    ensures
        match r {
            Ok(filter) => parse_filter(bytes@) == Some(filter@) && encode_filter(filter@)
                == bytes@,
            Err(_) => parse_filter(bytes@) is None,
        },
{
    let input = bytes.as_slice();
    proof {
        assert(input@.skip(0) =~= input@);
    }
    let (slots, at_width) = match read_u64(input, 0) {
        Some(found) => found,
        None => { return Err(CorruptArtifact); },
    };
    if input.len() - at_width < 1 || input[at_width] != FINGERPRINT_WIDTH {
        return Err(CorruptArtifact);
    }
    proof {
        assert(input@.skip(at_width as int)[0] == input@[at_width as int]);
        assert(input@.skip(at_width as int).skip(1) =~= input@.skip(at_width + 1));
    }
    let (layout, at_table) = match read_layout(input, at_width + 1) {
        Some(found) => found,
        None => { return Err(CorruptArtifact); },
    };
    let (table, at_count) = match read_table(input, at_table, slots) {
        Some(found) => found,
        None => { return Err(CorruptArtifact); },
    };
    let (count, at_records) = match read_u64(input, at_count) {
        Some(found) => found,
        None => { return Err(CorruptArtifact); },
    };
    let (licenses, at_end) = match read_licenses(input, at_records, count) {
        Some(found) => found,
        None => { return Err(CorruptArtifact); },
    };
    if at_end != input.len() {
        return Err(CorruptArtifact);
    }
    match PasswordFilter::new(fuse_from_parts(layout, table), licenses) {
        Some(filter) => {
            proof {
                lemma_parsed_is_written(bytes@);
            }
            Ok(filter)
        },
        None => Err(CorruptArtifact),
    }
}

} // verus!
