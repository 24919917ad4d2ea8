//! Writing an archive: rows are collected, then laid out as a header and
//! one framed block for each row, with the place of each block.

use vstd::prelude::*;
use crate::content_id::ContentId;
use crate::encoding::encode_row;
use crate::error::CarError;
use crate::format::archive_bytes;
use crate::format::blocks;
use crate::format::encoded_row;
use crate::format::encoded_rows;
use crate::format::framed;
use crate::format::header_block;
use crate::format::roots_of;
use crate::format::written_index;
use crate::format::EncodedRow;
use crate::header::encode_header;
use crate::cbor::strings_view;
use crate::types::rows_view;
use crate::types::EntryView;
use crate::types::RowData;
use crate::types::RowKey;
use crate::varint::write_varint_to_vec;

verus! {

/// Where the framed block of a row lies in an archive: the position of its
/// length prefix, and the number of bytes of prefix and block together.
#[derive(Debug)]
pub struct BlockIndexEntry {
    pub row_key: RowKey,
    pub offset: u64,
    pub length: u64,
}

impl View for BlockIndexEntry {
    type V = EntryView;

    open spec fn view(&self) -> EntryView {
        EntryView { key: self.row_key@, offset: self.offset as int, length: self.length as int }
    }
}

/// The entries that `index` holds.
pub open spec fn block_index_view(index: Seq<BlockIndexEntry>) -> Seq<EntryView> {
    Seq::new(index.len(), |i: int| index[i]@)
}

/// Appends `bytes` to `out`.
pub fn append_bytes(out: &mut Vec<u8>, bytes: &[u8])
    ensures
        final(out)@ == old(out)@ + bytes@,
{
    let mut i: usize = 0;
    while i < bytes.len()
        invariant
            i <= bytes@.len(),
            out@ == old(out)@ + bytes@.take(i as int),
        decreases bytes.len() - i,
    {
        out.push(bytes[i]);
        i = i + 1;
    }
}

/// Collects rows and lays them out as an archive in memory.
pub struct InMemoryCarBuilder {
    cids: Vec<(RowKey, ContentId, Vec<u8>)>,
}

impl View for InMemoryCarBuilder {
    type V = Seq<EncodedRow>;

    closed spec fn view(&self) -> Seq<EncodedRow> {
        Seq::new(
            self.cids@.len(),
            |i: int|
                EncodedRow { key: self.cids@[i].0@, id: self.cids@[i].1@, bytes: self.cids@[i].2@ },
        )
    }
}

impl InMemoryCarBuilder {
    /// A builder that holds no row.
    pub fn new() -> (builder: InMemoryCarBuilder)
        ensures
            builder@ == Seq::<EncodedRow>::empty(),
    {
        let builder = InMemoryCarBuilder { cids: Vec::new() };
        builder
    }

    /// Encodes the row `(key, data)` and keeps it behind the rows added
    /// before. Nothing is laid out yet.
    pub fn add_row(&mut self, key: &RowKey, data: &RowData) -> (r: Result<(), CarError>)
        ensures
            r is Ok,
            final(self)@ == old(self)@.push(encoded_row(key@, data@)),
    {
        match encode_row(key, data) {
            Ok((id, block_data)) => {
                self.cids.push((key.clone(), id, block_data));
                Ok(())
            },
            Err(e) => Err(e),
        }
    }

    /// The number of rows added.
    pub fn len(&self) -> (count: usize)
        ensures
            count == self@.len(),
    {
        self.cids.len()
    }

    /// The text forms of the content identifiers of the rows, in order.
    fn root_strings(&self) -> (roots: Vec<String>)
        ensures
            strings_view(roots@) == roots_of(self@),
    {
        let mut roots: Vec<String> = Vec::new();
        let mut i: usize = 0;
        while i < self.cids.len()
            invariant
                i <= self.cids@.len(),
                roots@.len() == i,
                forall|j: int| 0 <= j < i ==> (#[trigger] roots@[j])@ == roots_of(self@)[j],
            decreases self.cids.len() - i,
        {
            roots.push(self.cids[i].1.to_text());
            i = i + 1;
        }
        roots
    }

    /// Appends the framed header to `out`: the roots are the content
    /// identifiers of the rows in the order in which they were added.
    fn write_header(&self, out: &mut Vec<u8>)
        ensures
            final(out)@ == old(out)@ + header_block(self@),
    {
        let root_strings = self.root_strings();
        let header_bytes = encode_header(&root_strings);
        let length_bytes = write_varint_to_vec(header_bytes.len() as u64);
        append_bytes(out, length_bytes.as_slice());
        append_bytes(out, header_bytes.as_slice());
    }

    /// Lays out the archive: the header, then the block of each row in the
    /// order in which the rows were added. Gives the bytes, and for each row
    /// the place of its block.
    pub fn finalize(self) -> (r: Result<(Vec<u8>, Vec<BlockIndexEntry>), CarError>)
        ensures
            r matches Ok((bytes, index)) && bytes@ == archive_bytes(self@) && block_index_view(
                index@,
            ) == written_index(self@),
    {
        let mut out: Vec<u8> = Vec::new();
        self.write_header(&mut out);
        let mut index: Vec<BlockIndexEntry> = Vec::new();
        let mut current_offset: u64 = out.len() as u64;
        let mut i: usize = 0;
        while i < self.cids.len()
            invariant
                i <= self.cids@.len(),
                self@.len() == self.cids@.len(),
                out@ == header_block(self@) + blocks(self@, i as nat),
                current_offset == out@.len(),
                index@.len() == i,
                forall|j: int| 0 <= j < i ==> (#[trigger] index@[j])@ == written_index(self@)[j],
            decreases self.cids.len() - i,
        {
            let block_start_offset: u64 = current_offset;
            let mut block_buf: Vec<u8> = Vec::new();
            let id_bytes = self.cids[i].1.to_bytes();
            append_bytes(&mut block_buf, id_bytes.as_slice());
            append_bytes(&mut block_buf, self.cids[i].2.as_slice());
            let length_bytes = write_varint_to_vec(block_buf.len() as u64);
            append_bytes(&mut out, length_bytes.as_slice());
            append_bytes(&mut out, block_buf.as_slice());
            let end_offset: u64 = out.len() as u64;
            let block_total_length: u64 = end_offset - block_start_offset;
            current_offset = end_offset;
            index.push(
                BlockIndexEntry {
                    row_key: self.cids[i].0.clone(),
                    offset: block_start_offset,
                    length: block_total_length,
                },
            );
            i = i + 1;
        }
        Ok((out, index))
    }
}

/// Lays out the archive of `rows` in memory: its bytes, and for each row the
/// place of its block.
pub fn build_in_memory_car(rows: &[(RowKey, RowData)]) -> (r: Result<
    (Vec<u8>, Vec<BlockIndexEntry>),
    CarError,
>)
    ensures
        r matches Ok((bytes, index)) && bytes@ == archive_bytes(encoded_rows(rows_view(rows@)))
            && block_index_view(index@) == written_index(encoded_rows(rows_view(rows@))),
{
    let mut builder = InMemoryCarBuilder::new();
    let mut i: usize = 0;
    while i < rows.len()
        invariant
            i <= rows@.len(),
            builder@ == encoded_rows(rows_view(rows@)).take(i as int),
        decreases rows.len() - i,
    {
        match builder.add_row(&rows[i].0, &rows[i].1) {
            Ok(()) => {},
            Err(e) => {
                return Err(e);
            },
        }
        i = i + 1;
    }
    assert(encoded_rows(rows_view(rows@)).take(i as int) =~= encoded_rows(rows_view(rows@)));
    builder.finalize()
}

} // verus!
