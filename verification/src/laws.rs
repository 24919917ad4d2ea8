//! What holds of the format as a whole: of what is written, of what is read
//! back, and of the two together.

use vstd::prelude::*;
use crate::content_id::cid_of_text;
use crate::content_id::cid_text;
use crate::content_id::ContentIdView;
use crate::cbor::cbor_decoding;
use crate::cbor::cbor_encoding;
use crate::encoding::encodes;
use crate::encoding::lemma_row_model_restores;
use crate::encoding::row_bytes;
use crate::encoding::row_model;
use crate::encoding::row_of_bytes;
use crate::error::CarError;
use crate::error::Failure;
use crate::format::archive_bytes;
use crate::format::archive_index;
use crate::format::archive_rows;
use crate::format::block_of;
use crate::format::block_offset;
use crate::format::block_parts;
use crate::format::blocks;
use crate::format::checked_row_at;
use crate::format::checked_rows;
use crate::format::encoded_row;
use crate::format::encoded_rows;
use crate::format::entries_of;
use crate::format::framed;
use crate::format::header_at;
use crate::format::header_block;
use crate::format::located_rows;
use crate::format::prefixed_block;
use crate::format::roots_of;
use crate::format::row_at;
use crate::format::row_in;
use crate::format::written_index;
use crate::format::EncodedRow;
use crate::header::header_bytes;
use crate::header::header_model;
use crate::header::lemma_header_model_restores;
use crate::header::CAR_VERSION;
use crate::header::header_of_bytes;
use crate::types::EntryView;
use crate::types::RowView;
use crate::varint::lemma_encoding_fits;
use crate::varint::lemma_parse_bounds;
use crate::varint::lemma_parse_encoding;
use crate::varint::lemma_parse_local;
use crate::varint::varint_at;
use crate::varint::varint_encoding;
use crate::varint::varint_parse;
use crate::varint::MAX_VARINT_LEN;

verus! {

/// A framed block is read from its own bytes alone: where `t` holds from
/// `q` on what `s` holds from `p` up to the end of the block, it holds the
/// same block there.
pub proof fn lemma_block_local(s: Seq<u8>, p: int, t: Seq<u8>, q: int)
    requires
        prefixed_block(s, p) is Ok,
        0 <= q,
        q + (prefixed_block(s, p)->Ok_0.1 - p) <= t.len(),
        t.subrange(q, q + (prefixed_block(s, p)->Ok_0.1 - p)) == s.subrange(
            p,
            prefixed_block(s, p)->Ok_0.1,
        ),
    ensures
        prefixed_block(t, q) == Ok::<(Seq<u8>, int), CarError>(
            (prefixed_block(s, p)->Ok_0.0, q + (prefixed_block(s, p)->Ok_0.1 - p)),
        ),
        p < prefixed_block(s, p)->Ok_0.1 <= s.len(),
{
    let parsed = varint_parse(s.skip(p), MAX_VARINT_LEN as nat);
    let used = parsed->Ok_0.1;
    let (len, start) = varint_at(s, p)->Ok_0;
    let next = prefixed_block(s, p)->Ok_0.1;
    let ts = t.subrange(q, q + (next - p));
    let ss = s.subrange(p, next);
    assert forall|i: int| 0 <= i < used implies t.skip(q)[i] == s.skip(p)[i] by {}
    lemma_parse_local(s.skip(p), t.skip(q), MAX_VARINT_LEN as nat);
    let tb = t.subrange(q + used, q + used + len);
    let sb = s.subrange(start, start + len);
    assert forall|i: int| 0 <= i < len implies #[trigger] tb[i] == sb[i] by {
        assert(ts[used + i] == ss[used + i]);
    }
    assert(tb =~= sb);
}

/// A length prefix that is cut short is an unexpected end.
pub proof fn lemma_parse_cut(s: Seq<u8>, budget: nat, keep: int)
    requires
        varint_parse(s, budget) is Ok,
        0 <= keep < varint_parse(s, budget)->Ok_0.1,
    ensures
        varint_parse(s.take(keep), budget) == Err::<(nat, nat), CarError>(CarError::UnexpectedEof),
    decreases budget,
{
    lemma_parse_bounds(s, budget);
    if keep > 0 {
        if s[0] >= 128 {
            lemma_parse_cut(s.skip(1), (budget - 1) as nat, keep - 1);
            assert(s.take(keep).skip(1) =~= s.skip(1).take(keep - 1));
        }
    }
}

/// A framed block that is cut short is an unexpected end.
pub proof fn lemma_block_cut(s: Seq<u8>, p: int, cut: int)
    requires
        prefixed_block(s, p) is Ok,
        p <= cut < prefixed_block(s, p)->Ok_0.1,
    ensures
        prefixed_block(s.take(cut), p) == Err::<(Seq<u8>, int), CarError>(CarError::UnexpectedEof),
{
    let t = s.take(cut);
    let parsed = varint_parse(s.skip(p), MAX_VARINT_LEN as nat);
    let used = parsed->Ok_0.1;
    let (len, start) = varint_at(s, p)->Ok_0;
    if cut >= start {
        assert forall|i: int| 0 <= i < used implies t.skip(p)[i] == s.skip(p)[i] by {}
        lemma_parse_local(s.skip(p), t.skip(p), MAX_VARINT_LEN as nat);
    } else {
        lemma_parse_cut(s.skip(p), MAX_VARINT_LEN as nat, cut - p);
        assert(t.skip(p) =~= s.skip(p).take(cut - p));
    }
}

/// The first blocks of an index are found whether or not more are asked for.
pub proof fn lemma_located_prefix(s: Seq<u8>, pos: int, count: nat, more: nat)
    requires
        count <= more,
        located_rows(s, pos, more) is Ok,
    ensures
        located_rows(s, pos, count) is Ok,
        located_rows(s, pos, more)->Ok_0.0.len() == more,
        located_rows(s, pos, count)->Ok_0.0 == located_rows(s, pos, more)->Ok_0.0.take(
            count as int,
        ),
        located_rows(s, pos, count)->Ok_0.1 <= located_rows(s, pos, more)->Ok_0.1,
        pos <= located_rows(s, pos, count)->Ok_0.1,
    decreases more,
{
    if more > 0 {
        lemma_located_prefix(s, pos, (more - 1) as nat, (more - 1) as nat);
        if count < more {
            lemma_located_prefix(s, pos, count, (more - 1) as nat);
        }
    }
}

/// The index of an archive leaves no gap: the first block starts where the
/// blocks start, each block ends where the next one starts, and the last one
/// ends where the reading ended. No block is empty.
pub proof fn law_index_contiguous(
    s: Seq<u8>,
    pos: int,
    count: nat,
    located: Seq<(RowView, EntryView)>,
    end: int,
    i: int,
)
    requires
        located_rows(s, pos, count) == Ok::<(Seq<(RowView, EntryView)>, int), Failure>(
            (located, end),
        ),
        0 <= i < count,
    ensures
        located.len() == count,
        located[0].1.offset == pos,
        located[i].1.length > 0,
        i + 1 < count ==> located[i].1.offset + located[i].1.length == located[i + 1].1.offset,
        i + 1 == count ==> located[i].1.offset + located[i].1.length == end,

{
    let whole = located_rows(s, pos, count)->Ok_0.0;
    lemma_located_prefix(s, pos, 1, count);
    assert(located_rows(s, pos, 0) == Ok::<(Seq<(RowView, EntryView)>, int), Failure>(
        (Seq::empty(), pos),
    ));
    assert(located_rows(s, pos, 1)->Ok_0.0[0] == whole.take(1)[0]);
    lemma_located_prefix(s, pos, (i + 1) as nat, count);
    let with = located_rows(s, pos, (i + 1) as nat)->Ok_0;
    assert(with.0[i] == whole.take(i + 1)[i]);
    if i + 1 < count {
        lemma_located_prefix(s, pos, (i + 2) as nat, count);
        let beyond = located_rows(s, pos, (i + 2) as nat)->Ok_0;
        assert(beyond.0[i + 1] == whole.take(i + 2)[i + 1]);
    }
}

/// Each entry of an index leads back to its row: the bytes from its offset
/// on, as many as its length says, hold the row that the index was made
/// from, and the key of the entry is the key of that row.
pub proof fn law_index_random_access(
    s: Seq<u8>,
    pos: int,
    count: nat,
    located: Seq<(RowView, EntryView)>,
    end: int,
    i: int,
)
    requires
        0 <= pos,
        located_rows(s, pos, count) == Ok::<(Seq<(RowView, EntryView)>, int), Failure>(
            (located, end),
        ),
        0 <= i < count,
    ensures
        row_in(s, located[i].1.offset, located[i].1.length) == Ok::<RowView, Failure>(
            located[i].0,
        ),
        located[i].1.key == located[i].0.0,

{
    let whole = located_rows(s, pos, count)->Ok_0.0;
    lemma_located_prefix(s, pos, i as nat, count);
    lemma_located_prefix(s, pos, (i + 1) as nat, count);
    let upto = located_rows(s, pos, i as nat)->Ok_0;
    let with = located_rows(s, pos, (i + 1) as nat)->Ok_0;
    assert(with.0[i] == whole.take(i + 1)[i]);
    let at = upto.1;
    let next = with.1;
    let framed = s.subrange(at, next);
    assert(framed.subrange(0, next - at) =~= s.subrange(at, next));
    lemma_block_local(s, at, framed, 0);
}

/// Where all rows of an archive can be read, its index can be made, and
/// holds for each row an entry with the key of that row.
pub proof fn lemma_checked_rows_located(s: Seq<u8>, pos: int, roots: Seq<Seq<char>>, count: nat)
    requires
        checked_rows(s, pos, roots, count) is Ok,
    ensures
        located_rows(s, pos, count) is Ok,
        located_rows(s, pos, count)->Ok_0.1 == checked_rows(s, pos, roots, count)->Ok_0.1,
        located_rows(s, pos, count)->Ok_0.0.len() == count,
        checked_rows(s, pos, roots, count)->Ok_0.0.len() == count,
        forall|i: int|
            0 <= i < count ==> (#[trigger] located_rows(s, pos, count)->Ok_0.0[i]).0
                == checked_rows(s, pos, roots, count)->Ok_0.0[i],
    decreases count,
{
    if count > 0 {
        lemma_checked_rows_located(s, pos, roots, (count - 1) as nat);
    }
}

/// Each row that reading an archive gives is the row that its index leads
/// to: the index has for that row an entry with its key, and reading at the
/// entry's offset and length gives the row. Reading and indexing end at the
/// same position.
pub proof fn law_random_access_matches_scan(
    s: Seq<u8>,
    pos: int,
    rows: Seq<RowView>,
    end: int,
    i: int,
)
    requires
        0 <= pos,
        archive_rows(s, pos) == Ok::<(Seq<RowView>, int), Failure>((rows, end)),
        0 <= i < rows.len(),
    ensures
        archive_index(s, pos) matches Ok(found) && found.1 == end && found.0.len() == rows.len()
            && found.0[i].key == rows[i].0 && row_in(s, found.0[i].offset, found.0[i].length)
            == Ok::<RowView, Failure>(rows[i]),
{
    let (roots, at) = header_at(s, pos)->Ok_0;
    lemma_checked_rows_located(s, at, roots, roots.len());
    let found = located_rows(s, at, roots.len())->Ok_0;
    law_index_random_access(s, at, roots.len(), found.0, found.1, i);
}

/// Blocks that lie before a cut are read as before; a cut inside the
/// blocks is an unexpected end.
pub proof fn lemma_checked_rows_cut(
    s: Seq<u8>,
    pos: int,
    roots: Seq<Seq<char>>,
    count: nat,
    cut: int,
)
    requires
        checked_rows(s, pos, roots, count) is Ok,
        0 <= pos <= cut <= s.len(),
    ensures
        cut >= checked_rows(s, pos, roots, count)->Ok_0.1 ==> checked_rows(
            s.take(cut),
            pos,
            roots,
            count,
        ) == checked_rows(s, pos, roots, count),
        cut < checked_rows(s, pos, roots, count)->Ok_0.1 ==> checked_rows(
            s.take(cut),
            pos,
            roots,
            count,
        ) == Err::<(Seq<RowView>, int), Failure>(Failure::UnexpectedEof),
    decreases count,
{
    if count > 0 {
        lemma_checked_rows_cut(s, pos, roots, (count - 1) as nat, cut);
        let before = checked_rows(s, pos, roots, (count - 1) as nat)->Ok_0;
        let next = checked_rows(s, pos, roots, count)->Ok_0.1;
        if cut >= next {
            assert(s.take(cut).subrange(before.1, next) =~= s.subrange(before.1, next));
            lemma_block_local(s, before.1, s.take(cut), before.1);
        } else if cut >= before.1 {
            lemma_block_cut(s, before.1, cut);
        }
    }
}

/// An archive that is cut short anywhere before its end is not read: the
/// reader reports an unexpected end, and gives no row.
pub proof fn law_truncation_rejected(s: Seq<u8>, pos: int, rows: Seq<RowView>, end: int, cut: int)
    requires
        0 <= pos,
        archive_rows(s, pos) == Ok::<(Seq<RowView>, int), Failure>((rows, end)),
        pos <= cut < end,
    ensures
        archive_rows(s.take(cut), pos) == Err::<(Seq<RowView>, int), Failure>(
            Failure::UnexpectedEof,
        ),

{
    let (roots, at) = header_at(s, pos)->Ok_0;
    if cut < at {
        lemma_block_cut(s, pos, cut);
    } else {
        assert(s.take(cut).subrange(pos, at) =~= s.subrange(pos, at));
        lemma_block_local(s, pos, s.take(cut), pos);
        lemma_checked_rows_cut(s, at, roots, roots.len(), cut);
    }
}

/// Blocks that lie before a cut are found as before; a cut inside the
/// blocks is an unexpected end.
pub proof fn lemma_located_rows_cut(s: Seq<u8>, pos: int, count: nat, cut: int)
    requires
        located_rows(s, pos, count) is Ok,
        0 <= pos <= cut <= s.len(),
    ensures
        cut >= located_rows(s, pos, count)->Ok_0.1 ==> located_rows(s.take(cut), pos, count)
            == located_rows(s, pos, count),
        cut < located_rows(s, pos, count)->Ok_0.1 ==> located_rows(s.take(cut), pos, count)
            == Err::<(Seq<(RowView, EntryView)>, int), Failure>(Failure::UnexpectedEof),
    decreases count,
{
    if count > 0 {
        lemma_located_rows_cut(s, pos, (count - 1) as nat, cut);
        let before = located_rows(s, pos, (count - 1) as nat)->Ok_0;
        let next = located_rows(s, pos, count)->Ok_0.1;
        if cut >= next {
            assert(s.take(cut).subrange(before.1, next) =~= s.subrange(before.1, next));
            lemma_block_local(s, before.1, s.take(cut), before.1);
        } else if cut >= before.1 {
            lemma_block_cut(s, before.1, cut);
        }
    }
}

/// An archive that is cut short anywhere before its end is not indexed: the
/// indexer reports an unexpected end, and gives no entry.
pub proof fn law_truncation_rejected_by_index(
    s: Seq<u8>,
    pos: int,
    entries: Seq<EntryView>,
    end: int,
    cut: int,
)
    requires
        0 <= pos,
        archive_index(s, pos) == Ok::<(Seq<EntryView>, int), Failure>((entries, end)),
        pos <= cut < end,
    ensures
        archive_index(s.take(cut), pos) == Err::<(Seq<EntryView>, int), Failure>(
            Failure::UnexpectedEof,
        ),

{
    let (roots, at) = header_at(s, pos)->Ok_0;
    if cut < at {
        lemma_block_cut(s, pos, cut);
    } else {
        assert(s.take(cut).subrange(pos, at) =~= s.subrange(pos, at));
        lemma_block_local(s, pos, s.take(cut), pos);
        lemma_located_rows_cut(s, at, roots.len(), cut);
    }
}

/// A block that does not lie within the bytes is not read at its place.
pub proof fn law_truncation_rejected_at_offset(s: Seq<u8>, offset: int, length: int, cut: int)
    requires
        0 <= cut <= s.len(),
        cut < offset + length,
    ensures
        row_in(s.take(cut), offset, length) == Err::<RowView, Failure>(Failure::UnexpectedEof),
{
}

/// A block that carries another content identifier than its root announces
/// stops the reading: where the blocks before it are read and the block
/// itself is well framed, the reader reports the two identifiers and gives no
/// row.
pub proof fn law_mismatch_rejected(
    s: Seq<u8>,
    pos: int,
    roots: Seq<Seq<char>>,
    first: int,
    i: int,
    before: Seq<RowView>,
    at: int,
    block: Seq<u8>,
    next: int,
    expected: ContentIdView,
    actual: ContentIdView,
    row_bytes: Seq<u8>,
)
    requires
        header_at(s, pos) == Ok::<(Seq<Seq<char>>, int), Failure>((roots, first)),
        0 <= i < roots.len(),
        checked_rows(s, first, roots, i as nat) == Ok::<(Seq<RowView>, int), Failure>(
            (before, at),
        ),
        cid_of_text(roots[i]) == Some(expected),
        prefixed_block(s, at) == Ok::<(Seq<u8>, int), CarError>((block, next)),
        block_parts(block) == Some((actual, row_bytes)),
        actual != expected,
    ensures
        archive_rows(s, pos) == Err::<(Seq<RowView>, int), Failure>(
            Failure::CidMismatch { expected, actual },
        ),
{
    assert(checked_rows(s, first, roots, (i + 1) as nat) == Err::<(Seq<RowView>, int), Failure>(
        Failure::CidMismatch { expected, actual },
    ));
    crate::reader::lemma_checked_rows_fail(s, first, roots, (i + 1) as nat, roots.len());
}

/// A header without roots stops the reading and the indexing: neither gives
/// an empty result.
pub proof fn law_empty_roots_rejected(
    s: Seq<u8>,
    pos: int,
    header: Seq<u8>,
    next: int,
    version: u64,
)
    requires
        prefixed_block(s, pos) == Ok::<(Seq<u8>, int), CarError>((header, next)),
        header_of_bytes(header) == Some((Seq::<Seq<char>>::empty(), version)),
    ensures
        archive_rows(s, pos) == Err::<(Seq<RowView>, int), Failure>(Failure::NoRoots),
        archive_index(s, pos) == Err::<(Seq<EntryView>, int), Failure>(Failure::NoRoots),
{
}

/// The first blocks lead the bytes of more blocks.
pub proof fn lemma_blocks_prefix(rows: Seq<EncodedRow>, count: nat, more: nat)
    requires
        count <= more <= rows.len(),
    ensures
        blocks(rows, count).len() <= blocks(rows, more).len(),
        blocks(rows, more).take(blocks(rows, count).len() as int) == blocks(rows, count),
    decreases more,
{
    if count < more {
        lemma_blocks_prefix(rows, count, (more - 1) as nat);
        let shorter = blocks(rows, (more - 1) as nat);
        assert(blocks(rows, more).take(blocks(rows, count).len() as int) =~= shorter.take(
            blocks(rows, count).len() as int,
        ));
    }
}

/// The framed block of row `i` stands in the archive at its offset.
pub proof fn lemma_written_block_place(rows: Seq<EncodedRow>, i: int)
    requires
        0 <= i < rows.len(),
    ensures
        block_offset(rows, i as nat) + framed(block_of(rows[i])).len() == block_offset(
            rows,
            (i + 1) as nat,
        ),
        block_offset(rows, (i + 1) as nat) <= archive_bytes(rows).len(),
        archive_bytes(rows).subrange(
            block_offset(rows, i as nat),
            block_offset(rows, (i + 1) as nat),
        ) == framed(block_of(rows[i])),
{
    lemma_blocks_prefix(rows, (i + 1) as nat, rows.len());
    let all = blocks(rows, rows.len());
    let upto = blocks(rows, i as nat);
    let with = blocks(rows, (i + 1) as nat);
    let left = archive_bytes(rows).subrange(
        block_offset(rows, i as nat),
        block_offset(rows, (i + 1) as nat),
    );
    let right = framed(block_of(rows[i]));
    assert forall|j: int| 0 <= j < left.len() implies #[trigger] left[j] == right[j] by {
        assert(all.take(with.len() as int)[upto.len() + j] == with[upto.len() + j]);
    }
}

/// The place of each block in what the writer lays out: the first block
/// follows the header, each block ends where the next one starts, and the
/// last one ends with the archive. No block is empty.
pub proof fn law_written_contiguous(rows: Seq<EncodedRow>, i: int)
    requires
        0 <= i < rows.len(),
    ensures
        written_index(rows)[0].offset == header_block(rows).len(),
        written_index(rows)[i].length > 0,
        i + 1 < rows.len() ==> written_index(rows)[i].offset + written_index(rows)[i].length
            == written_index(rows)[i + 1].offset,
        i + 1 == rows.len() ==> written_index(rows)[i].offset + written_index(rows)[i].length
            == archive_bytes(rows).len(),
{
}

/// A framed block is read back as the block that was framed.
pub proof fn lemma_framed_read(block: Seq<u8>)
    requires
        block.len() <= u64::MAX,
    ensures
        prefixed_block(framed(block), 0) == Ok::<(Seq<u8>, int), CarError>(
            (block, framed(block).len() as int),
        ),
{
    let prefix = varint_encoding(block.len());
    lemma_encoding_fits(block.len());
    lemma_parse_encoding(block.len(), block, MAX_VARINT_LEN as nat);
    assert(framed(block).skip(0) =~= prefix + block);
    let whole = framed(block);
    assert(whole.subrange(prefix.len() as int, (prefix.len() + block.len()) as int) =~= block);
}

/// A framed block that stands at `p` in `s` is read there.
pub proof fn lemma_framed_at(s: Seq<u8>, p: int, block: Seq<u8>)
    requires
        block.len() <= u64::MAX,
        0 <= p,
        p + framed(block).len() <= s.len(),
        s.subrange(p, p + framed(block).len()) == framed(block),
    ensures
        prefixed_block(s, p) == Ok::<(Seq<u8>, int), CarError>((block, p + framed(block).len())),
{
    lemma_framed_read(block);
    let f = framed(block);
    assert(f.subrange(0, f.len() as int) =~= f);
    lemma_block_local(f, 0, s, p);
}

/// Whether decoding the row `(key, data)` from its bytes gives it back.
pub open spec fn row_restored(key: Seq<char>, data: Seq<u8>) -> bool {
    row_of_bytes(row_bytes(key, data)) == Some((key, data))
}

/// Whether splitting the block of `row` gives back its content identifier
/// and its bytes.
pub open spec fn block_restored(row: EncodedRow) -> bool {
    block_parts(block_of(row)) == Some((row.id, row.bytes))
}

/// Whether reading the text form of `id` gives `id` back.
pub open spec fn root_restored(id: ContentIdView) -> bool {
    cid_of_text(cid_text(id)) == Some(id)
}

/// Whether decoding the header with these roots gives the roots back.
pub open spec fn header_restored(roots: Seq<Seq<char>>) -> bool {
    header_of_bytes(header_bytes(roots)) matches Some(header) && header.0 == roots
}

/// Whether the codecs that the archive of `rows` goes through give back what
/// they were given: the row codec each row, the identifier codec each
/// identifier from its binary form, and the header codec the roots.
pub open spec fn codecs_restore(rows: Seq<RowView>) -> bool {
    &&& header_restored(roots_of(encoded_rows(rows)))
    &&& forall|i: int|
        0 <= i < rows.len() ==> row_restored((#[trigger] rows[i]).0, rows[i].1) && block_restored(
            encoded_row(rows[i].0, rows[i].1),
        )
}

/// Whether the text form of each identifier of the archive of `rows` is read
/// back as that identifier.
pub open spec fn roots_restore(rows: Seq<RowView>) -> bool {
    forall|i: int|
        0 <= i < rows.len() ==> root_restored(encoded_row((#[trigger] rows[i]).0, rows[i].1).id)
}

/// Whether the header and each block of the archive of `rows` are short
/// enough for a length prefix.
pub open spec fn sizes_fit(rows: Seq<RowView>) -> bool {
    &&& header_bytes(roots_of(encoded_rows(rows))).len() <= u64::MAX
    &&& forall|i: int|
        0 <= i < rows.len() ==> block_of(encoded_row((#[trigger] rows[i]).0, rows[i].1)).len()
            <= u64::MAX
}

/// The rows of an archive with the place of each, as the writer lays it out.
pub open spec fn written_located(rows: Seq<RowView>, count: nat) -> Seq<(RowView, EntryView)> {
    Seq::new(count, |i: int| (rows[i], written_index(encoded_rows(rows))[i]))
}

/// The header of a written archive is read back.
pub proof fn lemma_written_header(rows: Seq<RowView>)
    requires
        rows.len() > 0,
        sizes_fit(rows),
        header_restored(roots_of(encoded_rows(rows))),
    ensures
        header_at(archive_bytes(encoded_rows(rows)), 0) == Ok::<(Seq<Seq<char>>, int), Failure>(
            (roots_of(encoded_rows(rows)), header_block(encoded_rows(rows)).len() as int),
        ),
{
    let enc = encoded_rows(rows);
    let s = archive_bytes(enc);
    let head = header_block(enc);
    assert(s.subrange(0, head.len() as int) =~= head);
    lemma_framed_at(s, 0, header_bytes(roots_of(enc)));
}

/// The blocks of a written archive are found where the writer says.
pub proof fn lemma_written_located(rows: Seq<RowView>, count: nat)
    requires
        count <= rows.len(),
        sizes_fit(rows),
        codecs_restore(rows),
    ensures
        located_rows(
            archive_bytes(encoded_rows(rows)),
            header_block(encoded_rows(rows)).len() as int,
            count,
        ) == Ok::<(Seq<(RowView, EntryView)>, int), Failure>(
            (written_located(rows, count), block_offset(encoded_rows(rows), count)),
        ),
    decreases count,
{
    let enc = encoded_rows(rows);
    let s = archive_bytes(enc);
    if count == 0 {
        assert(written_located(rows, 0) =~= Seq::empty());
    } else {
        let i = count - 1;
        lemma_written_located(rows, i as nat);
        lemma_written_block_place(enc, i);
        lemma_framed_at(s, block_offset(enc, i as nat), block_of(enc[i]));
        assert(row_at(s, block_offset(enc, i as nat)) == Ok::<(RowView, int), Failure>(
            (rows[i], block_offset(enc, count)),
        ));
        assert(written_located(rows, count) =~= written_located(rows, i as nat).push(
            (
                rows[i],
                EntryView {
                    key: rows[i].0,
                    offset: block_offset(enc, i as nat),
                    length: block_offset(enc, count) - block_offset(enc, i as nat),
                },
            ),
        ));
    }
}

/// The blocks of a written archive are read back as the rows.
pub proof fn lemma_written_checked(rows: Seq<RowView>, count: nat)
    requires
        count <= rows.len(),
        sizes_fit(rows),
        codecs_restore(rows),
        roots_restore(rows),
    ensures
        checked_rows(
            archive_bytes(encoded_rows(rows)),
            header_block(encoded_rows(rows)).len() as int,
            roots_of(encoded_rows(rows)),
            count,
        ) == Ok::<(Seq<RowView>, int), Failure>(
            (rows.take(count as int), block_offset(encoded_rows(rows), count)),
        ),
    decreases count,
{
    let enc = encoded_rows(rows);
    let s = archive_bytes(enc);
    if count == 0 {
        assert(rows.take(0) =~= Seq::empty());
    } else {
        let i = count - 1;
        lemma_written_checked(rows, i as nat);
        lemma_written_block_place(enc, i);
        lemma_framed_at(s, block_offset(enc, i as nat), block_of(enc[i]));
        assert(checked_row_at(s, block_offset(enc, i as nat), roots_of(enc)[i]) == Ok::<
            (RowView, int),
            Failure,
        >((rows[i], block_offset(enc, count))));
        assert(rows.take(count as int) =~= rows.take(i).push(rows[i]));
    }
}

/// Reading a written archive gives the rows back, in order, and ends with
/// the archive, where the codecs give back what they were given.
pub proof fn law_archive_round_trip(rows: Seq<RowView>)
    requires
        rows.len() > 0,
        sizes_fit(rows),
    ensures
        codecs_restore(rows) && roots_restore(rows) ==> archive_rows(
            archive_bytes(encoded_rows(rows)),
            0,
        ) == Ok::<(Seq<RowView>, int), Failure>(
            (rows, archive_bytes(encoded_rows(rows)).len() as int),
        ),
{
    if codecs_restore(rows) && roots_restore(rows) {
        lemma_written_header(rows);
        lemma_written_checked(rows, rows.len());
        assert(rows.take(rows.len() as int) =~= rows);
    }
}

/// The index made from a written archive is the index that the writer gave:
/// the same keys, offsets and lengths, where the codecs give back what they
/// were given.
pub proof fn law_index_matches_writer(rows: Seq<RowView>)
    requires
        rows.len() > 0,
        sizes_fit(rows),
    ensures
        codecs_restore(rows) ==> archive_index(archive_bytes(encoded_rows(rows)), 0) == Ok::<
            (Seq<EntryView>, int),
            Failure,
        >((written_index(encoded_rows(rows)), archive_bytes(encoded_rows(rows)).len() as int)),
{
    if codecs_restore(rows) {
        lemma_written_header(rows);
        lemma_written_located(rows, rows.len());
        assert(entries_of(written_located(rows, rows.len())) =~= written_index(
            encoded_rows(rows),
        ));
    }
}

/// Each entry that the writer gives leads back to its row: the bytes of the
/// archive from the entry's offset on, as many as its length says, hold the
/// row with the entry's key, where the codecs of that row give back what
/// they were given.
pub proof fn law_written_random_access(rows: Seq<RowView>, i: int)
    requires
        0 <= i < rows.len(),
        block_of(encoded_row(rows[i].0, rows[i].1)).len() <= u64::MAX,
    ensures
        written_index(encoded_rows(rows))[i].key == rows[i].0,
        row_restored(rows[i].0, rows[i].1) && block_restored(encoded_row(rows[i].0, rows[i].1))
            ==> row_in(
            archive_bytes(encoded_rows(rows)),
            written_index(encoded_rows(rows))[i].offset,
            written_index(encoded_rows(rows))[i].length,
        ) == Ok::<RowView, Failure>(rows[i]),
{
    let enc = encoded_rows(rows);
    lemma_written_block_place(enc, i);
    lemma_framed_read(block_of(enc[i]));
}

/// Each entry of the index made from a written archive leads back to the row
/// that was written: there are as many entries as rows, entry `i` has the key
/// of row `i`, and the bytes at its offset and length hold row `i`, where the
/// codecs give back what they were given.
pub proof fn law_index_leads_to_written_rows(rows: Seq<RowView>, i: int)
    requires
        sizes_fit(rows),
        0 <= i < rows.len(),
    ensures
        codecs_restore(rows) ==> (archive_index(archive_bytes(encoded_rows(rows)), 0) matches Ok(
            found,
        ) && found.0.len() == rows.len() && found.0[i].key == rows[i].0 && row_in(
            archive_bytes(encoded_rows(rows)),
            found.0[i].offset,
            found.0[i].length,
        ) == Ok::<RowView, Failure>(rows[i])),
{
    if codecs_restore(rows) {
        law_index_matches_writer(rows);
        law_written_random_access(rows, i);
    }
}

/// A written archive that is cut short anywhere before its end is neither
/// read nor indexed: both report an unexpected end, where the codecs give
/// back what they were given.
pub proof fn law_written_truncation_rejected(rows: Seq<RowView>, cut: int)
    requires
        rows.len() > 0,
        sizes_fit(rows),
        0 <= cut < archive_bytes(encoded_rows(rows)).len(),
    ensures
        codecs_restore(rows) && roots_restore(rows) ==> archive_rows(
            archive_bytes(encoded_rows(rows)).take(cut),
            0,
        ) == Err::<(Seq<RowView>, int), Failure>(Failure::UnexpectedEof),
        codecs_restore(rows) ==> archive_index(archive_bytes(encoded_rows(rows)).take(cut), 0)
            == Err::<(Seq<EntryView>, int), Failure>(Failure::UnexpectedEof),
{
    let s = archive_bytes(encoded_rows(rows));
    if codecs_restore(rows) {
        law_index_matches_writer(rows);
        law_truncation_rejected_by_index(
            s,
            0,
            written_index(encoded_rows(rows)),
            s.len() as int,
            cut,
        );
        if roots_restore(rows) {
            law_archive_round_trip(rows);
            law_truncation_rejected(s, 0, rows, s.len() as int, cut);
        }
    }
}

/// A row that is encoded and decoded comes back, where the CBOR codec gives
/// back the item that holds the row.
pub proof fn law_row_round_trip(key: Seq<char>, data: Seq<u8>)
    ensures
        cbor_decoding(cbor_encoding(row_model(key, data))) == Some(row_model(key, data))
            ==> row_restored(key, data),
{
    lemma_row_model_restores(key, data);
}

/// A header that is encoded and decoded gives its roots and its version
/// back, where the CBOR codec gives back the item that holds the header.
pub proof fn law_header_round_trip(roots: Seq<Seq<char>>)
    ensures
        cbor_decoding(cbor_encoding(header_model(roots, CAR_VERSION))) == Some(
            header_model(roots, CAR_VERSION),
        ) ==> header_of_bytes(header_bytes(roots)) == Some((roots, CAR_VERSION))
            && header_restored(roots),
{
    lemma_header_model_restores(roots, CAR_VERSION);
}

/// Encoding is a function of the row: two encodings of one key and payload
/// have the same bytes, the same content identifier and the same block.
pub proof fn law_encoding_deterministic(
    key: Seq<char>,
    data: Seq<u8>,
    first: (ContentIdView, Seq<u8>),
    second: (ContentIdView, Seq<u8>),
)
    requires
        encodes(key, data, first.0, first.1),
        encodes(key, data, second.0, second.1),
    ensures
        first == second,
        first.0.binary() + first.1 == second.0.binary() + second.1,
{
}

} // verus!
