//! Reading an archive: all rows in order, the place of each block, or the
//! one row at a known place.

use vstd::prelude::*;
use vstd::slice::slice_subrange;
use vstd::slice::slice_to_vec;
use crate::cbor::strings_view;
use crate::content_id::ContentId;
use crate::encoding::decode_row;
use crate::error::CarError;
use crate::error::Failure;
use crate::format::archive_index;
use crate::format::archive_rows;
use crate::format::block_parts;
use crate::format::checked_row_at;
use crate::format::checked_rows;
use crate::format::entries_of;
use crate::format::framed_block_parts;
use crate::format::header_at;
use crate::format::located_rows;
use crate::format::prefixed_block;
use crate::format::row_at;
use crate::format::row_in;
use crate::header::parse_header;
use crate::stream::ByteStream;
use crate::types::index_view;
use crate::types::rows_view;
use crate::types::EntryView;
use crate::types::RowData;
use crate::types::RowKey;
use crate::types::RowView;
use crate::varint::decode_varint;
use crate::varint::read_varint;

verus! {

/// Reads the framed block at the position of `reader` and moves behind it.
/// On failure the position stays.
pub fn read_prefixed_block(reader: &mut ByteStream) -> (r: Result<Vec<u8>, CarError>)
    ensures
        final(reader)@.bytes == old(reader)@.bytes,
        match prefixed_block(old(reader)@.bytes, old(reader)@.pos as int) {
            Ok((block, next)) => r matches Ok(out) && out@ == block && final(reader)@.pos == next,
            Err(e) => r == Err::<Vec<u8>, CarError>(e) && final(reader)@.pos == old(reader)@.pos,
        },
{
    let start: u64 = reader.position();
    let length: u64 = match read_varint(reader) {
        Ok(length) => length,
        Err(e) => {
            return Err(e);
        },
    };
    match reader.read_exact(length) {
        Ok(block) => Ok(block),
        Err(e) => {
            reader.seek(start);
            Err(e)
        },
    }
}

/// Reads the framed block at the position of `reader`, and says where it
/// lies: from `start_offset` on, which is at or before that position, up to
/// the end of the block. On failure the position stays.
pub fn read_block_with_offset(reader: &mut ByteStream, start_offset: u64) -> (r: Result<
    (u64, u64, Vec<u8>),
    CarError,
>)
    requires
        start_offset <= old(reader)@.pos,
    ensures
        final(reader)@.bytes == old(reader)@.bytes,
        match prefixed_block(old(reader)@.bytes, old(reader)@.pos as int) {
            Ok((block, next)) => {
                &&& r matches Ok(found)
                &&& found.0 == start_offset
                &&& found.1 == next - start_offset
                &&& found.2@ == block
                &&& final(reader)@.pos == next
            },
            Err(e) => {
                &&& r == Err::<(u64, u64, Vec<u8>), CarError>(e)
                &&& final(reader)@.pos == old(reader)@.pos
            },
        },
{
    let block = match read_prefixed_block(reader) {
        Ok(block) => block,
        Err(e) => {
            return Err(e);
        },
    };
    let end_offset: u64 = reader.position();
    Ok((start_offset, end_offset - start_offset, block))
}

/// Splits a block into the content identifier at its front and the row
/// bytes behind it.
pub fn split_cid_and_data(block: &[u8]) -> (r: Result<(ContentId, Vec<u8>), CarError>)
    ensures
        match block_parts(block@) {
            Some((id, row_bytes)) => r matches Ok(parts) && parts.0@ == id && parts.1@
                == row_bytes,
            None => r matches Err(e) && e@ == Failure::MalformedBlock,
        },
{
    match ContentId::read_prefix(block) {
        Some((id, used)) => Ok((id, bytes_behind(block, used))),
        None => Err(CarError::MalformedBlock),
    }
}

/// The bytes of `block` behind its first `used` bytes.
pub fn bytes_behind(block: &[u8], used: usize) -> (rest: Vec<u8>)
    requires
        used <= block@.len(),
    ensures
        rest@ == block@.skip(used as int),
{
    let rest = slice_to_vec(slice_subrange(block, used, block.len()));
    rest
}

/// Holds the content identifier that a block carries against the one that
/// its root announces: they must have the same version, tags and digest.
pub fn hold_against_root(expected: ContentId, actual: ContentId) -> (r: Result<ContentId, CarError>)
    ensures
        expected@ == actual@ ==> r == Ok::<ContentId, CarError>(actual),
        expected@ != actual@ ==> r == Err::<ContentId, CarError>(
            CarError::CidMismatch { expected, actual },
        ),
{
    if actual.same_as(&expected) {
        Ok(actual)
    } else {
        Err(CarError::CidMismatch { expected, actual })
    }
}

/// Splits a framed block, length prefix first, into the content identifier
/// and the row bytes. Bytes behind the block are left alone.
pub fn split_cid_and_data_from_block(block_with_prefix: &[u8]) -> (r: Result<
    (ContentId, Vec<u8>),
    CarError,
>)
    ensures
        match framed_block_parts(block_with_prefix@) {
            Ok((id, row_bytes)) => r matches Ok(parts) && parts.0@ == id && parts.1@ == row_bytes,
            Err(e) => r matches Err(f) && f@ == e,
        },
{
    let (length, start) = match decode_varint(block_with_prefix, 0) {
        Ok(found) => found,
        Err(e) => {
            return Err(e);
        },
    };
    let total: u64 = block_with_prefix.len() as u64;
    if length > total - start {
        return Err(CarError::UnexpectedEof);
    }
    let block = slice_subrange(block_with_prefix, start as usize, (start + length) as usize);
    split_cid_and_data(block)
}

/// Reads the block at the position of `reader`, holds its content
/// identifier against `root` and decodes its row. On failure the position
/// stays.
pub fn read_checked_row(reader: &mut ByteStream, root: &String) -> (r: Result<
    (RowKey, RowData),
    CarError,
>)
    ensures
        final(reader)@.bytes == old(reader)@.bytes,
        match checked_row_at(old(reader)@.bytes, old(reader)@.pos as int, root@) {
            Ok((row, next)) => {
                &&& r matches Ok(out)
                &&& out.0@ == row.0
                &&& out.1@ == row.1
                &&& final(reader)@.pos == next
            },
            Err(e) => r matches Err(f) && f@ == e && final(reader)@.pos == old(reader)@.pos,
        },
{
    let start: u64 = reader.position();
    let expected = match ContentId::from_text(root.as_str()) {
        Some(expected) => expected,
        None => {
            return Err(CarError::InvalidCidString);
        },
    };
    let block = match read_prefixed_block(reader) {
        Ok(block) => block,
        Err(e) => {
            return Err(e);
        },
    };
    let (actual, row_bytes) = match split_cid_and_data(block.as_slice()) {
        Ok(parts) => parts,
        Err(e) => {
            reader.seek(start);
            return Err(e);
        },
    };
    match hold_against_root(expected, actual) {
        Ok(_) => {},
        Err(e) => {
            reader.seek(start);
            return Err(e);
        },
    }
    match decode_row(row_bytes.as_slice()) {
        Ok(row) => Ok(row),
        Err(e) => {
            reader.seek(start);
            Err(e)
        },
    }
}

/// Reads the block at the position of `reader` and decodes its row, without
/// holding it against a root; says where the block lies. On failure the
/// position stays.
pub fn read_located_row(reader: &mut ByteStream) -> (r: Result<
    (RowKey, RowData, u64, u64),
    CarError,
>)
    ensures
        final(reader)@.bytes == old(reader)@.bytes,
        match row_at(old(reader)@.bytes, old(reader)@.pos as int) {
            Ok((row, next)) => {
                &&& r matches Ok(out)
                &&& out.0@ == row.0
                &&& out.1@ == row.1
                &&& out.2 == old(reader)@.pos
                &&& out.3 == next - old(reader)@.pos
                &&& final(reader)@.pos == next
            },
            Err(e) => r matches Err(f) && f@ == e && final(reader)@.pos == old(reader)@.pos,
        },
{
    let start: u64 = reader.position();
    let (offset, length, block) = match read_block_with_offset(reader, start) {
        Ok(found) => found,
        Err(e) => {
            return Err(e);
        },
    };
    let (_id, row_bytes) = match split_cid_and_data(block.as_slice()) {
        Ok(parts) => parts,
        Err(e) => {
            reader.seek(start);
            return Err(e);
        },
    };
    match decode_row(row_bytes.as_slice()) {
        Ok((key, data)) => Ok((key, data, offset, length)),
        Err(e) => {
            reader.seek(start);
            Err(e)
        },
    }
}

/// Reads the header at the position of `reader`: its roots, of which there
/// is at least one. On failure the position stays.
pub fn read_roots(reader: &mut ByteStream) -> (r: Result<Vec<String>, CarError>)
    ensures
        final(reader)@.bytes == old(reader)@.bytes,
        match header_at(old(reader)@.bytes, old(reader)@.pos as int) {
            Ok((roots, next)) => {
                &&& r matches Ok(out)
                &&& strings_view(out@) == roots
                &&& out@.len() > 0
                &&& final(reader)@.pos == next
            },
            Err(e) => r matches Err(f) && f@ == e && final(reader)@.pos == old(reader)@.pos,
        },
{
    let start: u64 = reader.position();
    let header_bytes = match read_prefixed_block(reader) {
        Ok(bytes) => bytes,
        Err(e) => {
            return Err(e);
        },
    };
    let (roots, _version) = match parse_header(header_bytes.as_slice()) {
        Ok(header) => header,
        Err(e) => {
            reader.seek(start);
            return Err(e);
        },
    };
    if roots.len() == 0 {
        reader.seek(start);
        return Err(CarError::NoRoots);
    }
    Ok(roots)
}

/// Once a block fails, the blocks behind it are not read.
pub proof fn lemma_checked_rows_fail(
    s: Seq<u8>,
    pos: int,
    roots: Seq<Seq<char>>,
    count: nat,
    more: nat,
)
    requires
        count <= more,
        checked_rows(s, pos, roots, count) is Err,
    ensures
        checked_rows(s, pos, roots, more) == checked_rows(s, pos, roots, count),
    decreases more,
{
    if count < more {
        lemma_checked_rows_fail(s, pos, roots, count, (more - 1) as nat);
    }
}

/// Once a block fails, the blocks behind it are not read.
pub proof fn lemma_located_rows_fail(s: Seq<u8>, pos: int, count: nat, more: nat)
    requires
        count <= more,
        located_rows(s, pos, count) is Err,
    ensures
        located_rows(s, pos, more) == located_rows(s, pos, count),
    decreases more,
{
    if count < more {
        lemma_located_rows_fail(s, pos, count, (more - 1) as nat);
    }
}

/// Reads all rows of the archive at the position of `reader`, in order, and
/// moves behind the archive. Each block must carry the content identifier
/// that its root announces. On failure no row is given and the position
/// stays.
pub fn read_all_rows_from_car_reader(reader: &mut ByteStream) -> (r: Result<
    Vec<(RowKey, RowData)>,
    CarError,
>)
    ensures
        final(reader)@.bytes == old(reader)@.bytes,
        match archive_rows(old(reader)@.bytes, old(reader)@.pos as int) {
            Ok((rows, next)) => {
                &&& r matches Ok(out)
                &&& rows_view(out@) == rows
                &&& final(reader)@.pos == next
            },
            Err(e) => r matches Err(f) && f@ == e && final(reader)@.pos == old(reader)@.pos,
        },
{
    let start: u64 = reader.position();
    let roots = match read_roots(reader) {
        Ok(roots) => roots,
        Err(e) => {
            return Err(e);
        },
    };
    let ghost s = reader@.bytes;
    let ghost first = reader@.pos as int;
    let ghost names = strings_view(roots@);
    let mut rows: Vec<(RowKey, RowData)> = Vec::new();
    let mut i: usize = 0;
    assert(rows_view(rows@) =~= Seq::<RowView>::empty());
    while i < roots.len()
        invariant
            reader@.bytes == s,
            s == old(reader)@.bytes,
            start == old(reader)@.pos,
            header_at(s, start as int) == Ok::<(Seq<Seq<char>>, int), Failure>((names, first)),
            names == strings_view(roots@),
            i <= roots@.len(),
            checked_rows(s, first, names, i as nat) == Ok::<(Seq<RowView>, int), Failure>(
                (rows_view(rows@), reader@.pos as int),
            ),
        decreases roots.len() - i,
    {
        let ghost before = rows_view(rows@);
        match read_checked_row(reader, &roots[i]) {
            Ok(row) => {
                rows.push(row);
                assert(rows_view(rows@) =~= before.push((row.0@, row.1@)));
            },
            Err(e) => {
                proof {
                    lemma_checked_rows_fail(s, first, names, (i + 1) as nat, roots@.len());
                }
                reader.seek(start);
                return Err(e);
            },
        }
        i = i + 1;
    }
    Ok(rows)
}

/// Finds the place of every block of the archive at the position of
/// `reader`: for each root of the header the key of the row, the position of
/// the block's length prefix and the number of bytes of prefix and block.
/// The blocks are not held against the roots. On failure the position stays.
pub fn generate_index_from_car_reader(reader: &mut ByteStream) -> (r: Result<
    Vec<(RowKey, u64, u64)>,
    CarError,
>)
    ensures
        final(reader)@.bytes == old(reader)@.bytes,
        match archive_index(old(reader)@.bytes, old(reader)@.pos as int) {
            Ok((entries, next)) => {
                &&& r matches Ok(out)
                &&& index_view(out@) == entries
                &&& final(reader)@.pos == next
            },
            Err(e) => r matches Err(f) && f@ == e && final(reader)@.pos == old(reader)@.pos,
        },
{
    let start: u64 = reader.position();
    let roots = match read_roots(reader) {
        Ok(roots) => roots,
        Err(e) => {
            return Err(e);
        },
    };
    let ghost s = reader@.bytes;
    let ghost first = reader@.pos as int;
    let ghost mut located: Seq<(RowView, EntryView)> = Seq::empty();
    let mut index: Vec<(RowKey, u64, u64)> = Vec::new();
    let mut i: usize = 0;
    while i < roots.len()
        invariant
            reader@.bytes == s,
            s == old(reader)@.bytes,
            start == old(reader)@.pos,
            header_at(s, start as int) == Ok::<(Seq<Seq<char>>, int), Failure>(
                (strings_view(roots@), first),
            ),
            i <= roots@.len(),
            located_rows(s, first, i as nat) == Ok::<(Seq<(RowView, EntryView)>, int), Failure>(
                (located, reader@.pos as int),
            ),
            index_view(index@) == entries_of(located),
            index@.len() == i,
            located.len() == i,
        decreases roots.len() - i,
    {
        let ghost before = located;
        let ghost held = index_view(index@);
        let ghost at = reader@.pos as int;
        match read_located_row(reader) {
            Ok((key, data, offset, length)) => {
                proof {
                    located = before.push(
                        (
                            (key@, data@),
                            EntryView { key: key@, offset: at, length: length as int },
                        ),
                    );
                }
                index.push((key, offset, length));
                proof {
                    let now = index_view(index@);
                    assert forall|j: int| 0 <= j < now.len() implies now[j] == entries_of(
                        located,
                    )[j] by {
                        if j < i {
                            assert(entries_of(located)[j] == entries_of(before)[j]);
                        }
                    }
                }
            },
            Err(e) => {
                proof {
                    lemma_located_rows_fail(s, first, (i + 1) as nat, roots@.len());
                }
                reader.seek(start);
                return Err(e);
            },
        }
        i = i + 1;
    }
    Ok(index)
}

/// Reads the one row whose framed block stands at the front of the `length`
/// bytes from `offset` on, and moves behind those bytes. The block is not
/// held against a root. On failure the position stays.
pub fn read_block_at_offset_reader(reader: &mut ByteStream, offset: u64, length: u64) -> (r: Result<
    (RowKey, RowData),
    CarError,
>)
    ensures
        final(reader)@.bytes == old(reader)@.bytes,
        match row_in(old(reader)@.bytes, offset as int, length as int) {
            Ok(row) => {
                &&& r matches Ok(out)
                &&& out.0@ == row.0
                &&& out.1@ == row.1
                &&& final(reader)@.pos == offset + length
            },
            Err(e) => r matches Err(f) && f@ == e && final(reader)@.pos == old(reader)@.pos,
        },
{
    let start: u64 = reader.position();
    reader.seek(offset);
    let framed = match reader.read_exact(length) {
        Ok(framed) => framed,
        Err(e) => {
            reader.seek(start);
            return Err(e);
        },
    };
    let (_id, row_bytes) = match split_cid_and_data_from_block(framed.as_slice()) {
        Ok(parts) => parts,
        Err(e) => {
            reader.seek(start);
            return Err(e);
        },
    };
    match decode_row(row_bytes.as_slice()) {
        Ok(row) => Ok(row),
        Err(e) => {
            reader.seek(start);
            Err(e)
        },
    }
}

} // verus!
