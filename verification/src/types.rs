//! The two parts of a row.

use vstd::prelude::*;

verus! {

/// The key of a row: it names the row within one archive.
pub type RowKey = String;

/// The payload of a row: any bytes.
pub type RowData = Vec<u8>;

/// A row as its key's text and its payload's bytes.
pub type RowView = (Seq<char>, Seq<u8>);

/// The rows that `rows` hold.
pub open spec fn rows_view(rows: Seq<(RowKey, RowData)>) -> Seq<RowView> {
    Seq::new(rows.len(), |i: int| (rows[i].0@, rows[i].1@))
}

/// Where a framed block lies in an archive: the position of its length
/// prefix and the number of bytes of prefix and block together.
pub struct EntryView {
    pub key: Seq<char>,
    pub offset: int,
    pub length: int,
}

/// The entries that a list of `(key, offset, length)` holds.
pub open spec fn index_view(index: Seq<(RowKey, u64, u64)>) -> Seq<EntryView> {
    Seq::new(
        index.len(),
        |i: int|
            EntryView { key: index[i].0@, offset: index[i].1 as int, length: index[i].2 as int },
    )
}

} // verus!
