//! The wire format, as functions from bytes to what they hold and back.
//!
//! An archive is a framed header followed by one framed block for each root
//! of the header, in the order of the roots. A framed block is a length
//! prefix and as many bytes as it says. A block is the binary form of a
//! content identifier followed by the bytes of a row.

use vstd::prelude::*;
use crate::content_id::cid_of_text;
use crate::content_id::cid_split;
use crate::content_id::cid_text;
use crate::content_id::ContentIdView;
use crate::content_id::row_cid;
use crate::encoding::row_bytes;
use crate::encoding::row_of_bytes;
use crate::error::CarError;
use crate::error::Failure;
use crate::header::header_bytes;
use crate::header::header_of_bytes;
use crate::stream::bytes_at;
use crate::types::EntryView;
use crate::types::RowView;
use crate::varint::varint_at;
use crate::varint::varint_encoding;

verus! {

/// The framed block at position `pos` of `s`: its bytes, and the position
/// behind it.
pub open spec fn prefixed_block(s: Seq<u8>, pos: int) -> Result<(Seq<u8>, int), CarError> {
    match varint_at(s, pos) {
        Ok((len, start)) => match bytes_at(s, start, len as int) {
            Some(block) => Ok((block, start + len)),
            None => Err(CarError::UnexpectedEof),
        },
        Err(e) => Err(e),
    }
}

/// The two parts of a block: the content identifier at its front and the row
/// bytes behind it.
pub open spec fn block_parts(block: Seq<u8>) -> Option<(ContentIdView, Seq<u8>)> {
    match cid_split(block) {
        Some((id, used)) => Some((id, block.skip(used as int))),
        None => None,
    }
}

/// The two parts of the block that `framed` starts with, length prefix
/// first; what follows the block is not looked at.
pub open spec fn framed_block_parts(framed: Seq<u8>) -> Result<(ContentIdView, Seq<u8>), Failure> {
    match prefixed_block(framed, 0) {
        Ok((block, next)) => match block_parts(block) {
            Some(parts) => Ok(parts),
            None => Err(Failure::MalformedBlock),
        },
        Err(e) => Err(e@),
    }
}

/// The roots of the header at position `pos` of `s`, of which there is at
/// least one, and the position behind the header.
pub open spec fn header_at(s: Seq<u8>, pos: int) -> Result<(Seq<Seq<char>>, int), Failure> {
    match prefixed_block(s, pos) {
        Ok((bytes, next)) => match header_of_bytes(bytes) {
            Some((roots, version)) => if roots.len() == 0 {
                Err(Failure::NoRoots)
            } else {
                Ok((roots, next))
            },
            None => Err(Failure::MalformedHeader),
        },
        Err(e) => Err(e@),
    }
}

/// The row of the block at position `pos` of `s`, held against the root
/// that announces it, and the position behind the block.
pub open spec fn checked_row_at(s: Seq<u8>, pos: int, root: Seq<char>) -> Result<
    (RowView, int),
    Failure,
> {
    match cid_of_text(root) {
        Some(expected) => match prefixed_block(s, pos) {
            Ok((block, next)) => match block_parts(block) {
                Some((actual, row_bytes)) => if actual != expected {
                    Err(Failure::CidMismatch { expected, actual })
                } else {
                    match row_of_bytes(row_bytes) {
                        Some(row) => Ok((row, next)),
                        None => Err(Failure::MalformedRow),
                    }
                },
                None => Err(Failure::MalformedBlock),
            },
            Err(e) => Err(e@),
        },
        None => Err(Failure::InvalidCidString),
    }
}

/// The rows of the blocks that the first `count` roots announce, the first
/// block at position `pos` of `s`, and the position behind the last.
pub open spec fn checked_rows(s: Seq<u8>, pos: int, roots: Seq<Seq<char>>, count: nat) -> Result<
    (Seq<RowView>, int),
    Failure,
>
    decreases count,
{
    if count == 0 {
        Ok((Seq::empty(), pos))
    } else {
        match checked_rows(s, pos, roots, (count - 1) as nat) {
            Ok((rows, at)) => match checked_row_at(s, at, roots[count - 1]) {
                Ok((row, next)) => Ok((rows.push(row), next)),
                Err(e) => Err(e),
            },
            Err(e) => Err(e),
        }
    }
}

/// The rows of the archive at position `pos` of `s`, each block held
/// against its root, and the position behind the archive.
pub open spec fn archive_rows(s: Seq<u8>, pos: int) -> Result<(Seq<RowView>, int), Failure> {
    match header_at(s, pos) {
        Ok((roots, at)) => checked_rows(s, at, roots, roots.len()),
        Err(e) => Err(e),
    }
}

/// The row of the block at position `pos` of `s`, and the position behind
/// the block.
pub open spec fn row_at(s: Seq<u8>, pos: int) -> Result<(RowView, int), Failure> {
    match prefixed_block(s, pos) {
        Ok((block, next)) => match block_parts(block) {
            Some((id, row_bytes)) => match row_of_bytes(row_bytes) {
                Some(row) => Ok((row, next)),
                None => Err(Failure::MalformedRow),
            },
            None => Err(Failure::MalformedBlock),
        },
        Err(e) => Err(e@),
    }
}

/// The rows of `count` blocks, the first at position `pos` of `s`, with the
/// place of each, and the position behind the last.
pub open spec fn located_rows(s: Seq<u8>, pos: int, count: nat) -> Result<
    (Seq<(RowView, EntryView)>, int),
    Failure,
>
    decreases count,
{
    if count == 0 {
        Ok((Seq::empty(), pos))
    } else {
        match located_rows(s, pos, (count - 1) as nat) {
            Ok((rows, at)) => match row_at(s, at) {
                Ok((row, next)) => Ok(
                    (
                        rows.push((row, EntryView { key: row.0, offset: at, length: next - at })),
                        next,
                    ),
                ),
                Err(e) => Err(e),
            },
            Err(e) => Err(e),
        }
    }
}

/// The entries alone.
pub open spec fn entries_of(located: Seq<(RowView, EntryView)>) -> Seq<EntryView> {
    Seq::new(located.len(), |i: int| located[i].1)
}

/// The index of the archive at position `pos` of `s`: for each root of the
/// header the place of its block, which is not held against the root; and
/// the position behind the archive.
pub open spec fn archive_index(s: Seq<u8>, pos: int) -> Result<(Seq<EntryView>, int), Failure> {
    match header_at(s, pos) {
        Ok((roots, at)) => match located_rows(s, at, roots.len()) {
            Ok((located, next)) => Ok((entries_of(located), next)),
            Err(e) => Err(e),
        },
        Err(e) => Err(e),
    }
}

/// The row of the framed block at the front of the `length` bytes of `s`
/// from `offset` on; what follows the block within them is not looked at.
pub open spec fn row_in(s: Seq<u8>, offset: int, length: int) -> Result<RowView, Failure> {
    match bytes_at(s, offset, length) {
        Some(framed) => match framed_block_parts(framed) {
            Ok((id, row_bytes)) => match row_of_bytes(row_bytes) {
                Some(row) => Ok(row),
                None => Err(Failure::MalformedRow),
            },
            Err(e) => Err(e),
        },
        None => Err(Failure::UnexpectedEof),
    }
}

/// A row as an archive stores it.
pub struct EncodedRow {
    pub key: Seq<char>,
    pub id: ContentIdView,
    pub bytes: Seq<u8>,
}

/// The row `(key, data)` as an archive stores it: its bytes and the content
/// identifier of those bytes.
pub open spec fn encoded_row(key: Seq<char>, data: Seq<u8>) -> EncodedRow {
    EncodedRow { key, id: row_cid(row_bytes(key, data)), bytes: row_bytes(key, data) }
}

/// The rows `rows` as an archive stores them.
pub open spec fn encoded_rows(rows: Seq<RowView>) -> Seq<EncodedRow> {
    Seq::new(rows.len(), |i: int| encoded_row(rows[i].0, rows[i].1))
}

/// A length prefix and the bytes that it counts.
pub open spec fn framed(block: Seq<u8>) -> Seq<u8> {
    varint_encoding(block.len()) + block
}

/// The block of a row: its content identifier in binary form, then its bytes.
pub open spec fn block_of(row: EncodedRow) -> Seq<u8> {
    row.id.binary() + row.bytes
}

/// The roots that announce `rows`: the text forms of their identifiers.
pub open spec fn roots_of(rows: Seq<EncodedRow>) -> Seq<Seq<char>> {
    Seq::new(rows.len(), |i: int| cid_text(rows[i].id))
}

/// The framed header of the archive of `rows`.
pub open spec fn header_block(rows: Seq<EncodedRow>) -> Seq<u8> {
    framed(header_bytes(roots_of(rows)))
}

/// The framed blocks of the first `count` of `rows`, one after the other.
pub open spec fn blocks(rows: Seq<EncodedRow>, count: nat) -> Seq<u8>
    decreases count,
{
    if count == 0 {
        Seq::empty()
    } else {
        blocks(rows, (count - 1) as nat) + framed(block_of(rows[count - 1]))
    }
}

/// The archive of `rows`.
pub open spec fn archive_bytes(rows: Seq<EncodedRow>) -> Seq<u8> {
    header_block(rows) + blocks(rows, rows.len())
}

/// Where the block of row `i` starts in the archive of `rows`.
pub open spec fn block_offset(rows: Seq<EncodedRow>, i: nat) -> int {
    (header_block(rows).len() + blocks(rows, i).len()) as int
}

/// The place of each block in the archive of `rows`.
pub open spec fn written_index(rows: Seq<EncodedRow>) -> Seq<EntryView> {
    Seq::new(
        rows.len(),
        |i: int|
            EntryView {
                key: rows[i].key,
                offset: block_offset(rows, i as nat),
                length: framed(block_of(rows[i])).len() as int,
            },
    )
}

} // verus!
