//! The envelope of a row: a table that holds the key as a text under "key" and
//! the payload as an array of integers under "data".
//!
//! Reading is held to this one form. A row is read from a table that has a
//! text under the text key "key" and an array of integers from 0 to 255 under
//! the text key "data". Two things are let through: entries under other keys,
//! which are passed over, and a key that the bytes hold more than once, of
//! which the entry that stands last is read, because the codec has merged the
//! entries before they are looked at. A tag in front of an item is dropped by
//! the codec. Everything else is refused as malformed: an array of key and
//! payload in place of the table, field keys that are integers or byte
//! strings, a key held as a byte string, a payload held as a byte string or
//! with an item that is no integer from 0 to 255.

use vstd::prelude::*;
use crate::cbor::CborModel;
use crate::cbor::CborValue;
use crate::cbor::array_of_bytes;
use crate::cbor::byte_array;
use crate::cbor::byte_items;
use crate::cbor::bytes_of_items;
use crate::cbor::cbor_decode;
use crate::cbor::cbor_decoding;
use crate::cbor::cbor_encode;
use crate::cbor::cbor_encoding;
use crate::cbor::encodable;
use crate::cbor::field;
use crate::cbor::field_index;
use crate::cbor::find_field;
use crate::cbor::is_byte;
use crate::cbor::lemma_model_shape;
use crate::cbor::table_model;
use crate::cbor::table_of_two;
use crate::content_id::ContentId;
use crate::content_id::ContentIdView;
use crate::content_id::row_cid;
use crate::content_id::SHA2_256_LEN;
use crate::error::CarError;
use crate::types::RowData;
use crate::types::RowKey;

verus! {

/// The item that holds the row `(key, data)`.
pub open spec fn row_model(key: Seq<char>, data: Seq<u8>) -> CborModel {
    table_model("key"@, CborModel::Text(key), "data"@, byte_array(data))
}

/// The bytes of the row `(key, data)`.
pub open spec fn row_bytes(key: Seq<char>, data: Seq<u8>) -> Seq<u8> {
    cbor_encoding(row_model(key, data))
}

/// The row that the item `item` holds: the text under the text key "key" and
/// the bytes of the array under the text key "data", whatever else the table
/// holds. An item of any other form holds no row.
pub open spec fn row_of_model(item: CborModel) -> Option<(Seq<char>, Seq<u8>)> {
    match item {
        CborModel::Table(entries) => match (field(entries, "key"@), field(entries, "data"@)) {
            (Some(CborModel::Text(key)), Some(CborModel::Array(items))) => match byte_items(
                items,
            ) {
                Some(data) => Some((key, data)),
                None => None,
            },
            _ => None,
        },
        _ => None,
    }
}

/// The row that `bytes` hold.
pub open spec fn row_of_bytes(bytes: Seq<u8>) -> Option<(Seq<char>, Seq<u8>)> {
    match cbor_decoding(bytes) {
        Some(item) => row_of_model(item),
        None => None,
    }
}

/// Whether `bytes` and `id` are what encoding the row `(key, data)` gives:
/// the bytes of the row, and the content identifier of those bytes.
pub open spec fn encodes(key: Seq<char>, data: Seq<u8>, id: ContentIdView, bytes: Seq<u8>) -> bool {
    bytes == row_bytes(key, data) && id == row_cid(bytes)
}

/// The envelope gives back the row that was put into it.
pub proof fn lemma_row_model_restores(key: Seq<char>, data: Seq<u8>)
    ensures
        row_of_model(row_model(key, data)) == Some((key, data)),
{
    reveal_strlit("key");
    reveal_strlit("data");
    let entries = seq![
        (CborModel::Text("key"@), CborModel::Text(key)),
        (CborModel::Text("data"@), byte_array(data)),
    ];
    assert("key"@.len() != "data"@.len());
    assert(field_index(entries, "data"@, 1) == Some(1int));
    let items = Seq::new(data.len(), |i: int| CborModel::Integer(data[i] as int));
    assert forall|i: int| 0 <= i < items.len() implies is_byte(#[trigger] items[i]) by {}
}

/// The item that holds the row `(key, data)`.
pub fn row_value(key: &RowKey, data: &RowData) -> (item: CborValue)
    ensures
        item@ == row_model(key@, data@),
        encodable(item@),
{
    table_of_two("key", CborValue::Text(key.clone()), "data", array_of_bytes(data.as_slice()))
}

/// The row that `item` holds.
pub fn row_of_value(item: &CborValue) -> (r: Option<(RowKey, RowData)>)
    ensures
        match row_of_model(item@) {
            Some((key, data)) => r matches Some(row) && row.0@ == key && row.1@ == data,
            None => r.is_none(),
        },
{
    proof {
        lemma_model_shape(*item);
    }
    let entries = match item {
        CborValue::Table(entries) => entries,
        _ => {
            return None;
        },
    };
    let key_name: String = "key".to_owned();
    let data_name: String = "data".to_owned();
    let key_at: usize = match find_field(entries, &key_name) {
        Some(at) => at,
        None => {
            return None;
        },
    };
    let data_at: usize = match find_field(entries, &data_name) {
        Some(at) => at,
        None => {
            return None;
        },
    };
    proof {
        lemma_model_shape(entries@[data_at as int].1);
    }
    let key: &String = match &entries[key_at].1 {
        CborValue::Text(key) => key,
        _ => {
            return None;
        },
    };
    let items: &Vec<CborValue> = match &entries[data_at].1 {
        CborValue::Array(items) => items,
        _ => {
            return None;
        },
    };
    match bytes_of_items(items) {
        Some(data) => Some((key.clone(), data)),
        None => None,
    }
}

/// Encodes the row `(key, data)`: its bytes, and the content identifier of
/// those bytes.
pub fn encode_row(key: &RowKey, data: &RowData) -> (r: Result<(ContentId, Vec<u8>), CarError>)
    ensures
        r matches Ok((id, bytes)) && encodes(key@, data@, id@, bytes@) && id@.digest.len()
            == SHA2_256_LEN,
{
    let item = row_value(key, data);
    let bytes = cbor_encode(&item);
    let id = ContentId::of_row_bytes(bytes.as_slice());
    Ok((id, bytes))
}

/// Decodes the row that `bytes` hold. Bytes that hold none are malformed:
/// bytes that are no CBOR item, or an item that is not a table with a text
/// under "key" and an array of integers from 0 to 255 under "data". Entries
/// under other keys are passed over; of a key held twice the last entry is
/// read.
pub fn decode_row(bytes: &[u8]) -> (r: Result<(RowKey, RowData), CarError>)
    ensures
        match row_of_bytes(bytes@) {
            Some((key, data)) => r matches Ok(row) && row.0@ == key && row.1@ == data,
            None => r matches Err(e) && e@ == crate::error::Failure::MalformedRow,
        },
{
    match cbor_decode(bytes) {
        Some(item) => match row_of_value(&item) {
            Some(row) => Ok(row),
            None => Err(CarError::MalformedRow),
        },
        None => Err(CarError::MalformedRow),
    }
}

} // verus!
