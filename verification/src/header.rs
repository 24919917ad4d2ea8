//! The header of an archive: a table that holds the roots as an array of
//! texts under "roots" and the version as an integer under "version".
//!
//! Reading is held to this one form. A header is read from a table that has
//! an array of texts under the text key "roots" and an integer from 0 to
//! 2^64 - 1 under the text key "version". Two things are let through: entries
//! under other keys, which are passed over, and a key that the bytes hold
//! more than once, of which the entry that stands last is read, because the
//! codec has merged the entries before they are looked at. A tag in front of
//! an item is dropped by the codec. Everything else is refused as malformed:
//! an array of roots and version in place of the table, field keys that are
//! integers or byte strings, a root held as a byte string, a version below
//! zero.

use vstd::prelude::*;
use crate::cbor::CborModel;
use crate::cbor::CborValue;
use crate::cbor::array_of_texts;
use crate::cbor::cbor_decode;
use crate::cbor::cbor_decoding;
use crate::cbor::cbor_encode;
use crate::cbor::cbor_encoding;
use crate::cbor::encodable;
use crate::cbor::field;
use crate::cbor::field_index;
use crate::cbor::find_field;
use crate::cbor::lemma_model_shape;
use crate::cbor::strings_view;
use crate::cbor::table_model;
use crate::cbor::table_of_two;
use crate::cbor::text_array;
use crate::cbor::text_items;
use crate::cbor::texts_of_items;
use crate::error::CarError;

verus! {

/// The version that every archive written here carries.
pub const CAR_VERSION: u64 = 1;

/// The item that holds a header.
pub open spec fn header_model(roots: Seq<Seq<char>>, version: u64) -> CborModel {
    table_model("roots"@, text_array(roots), "version"@, CborModel::Integer(version as int))
}

/// The bytes of the header with these roots.
pub open spec fn header_bytes(roots: Seq<Seq<char>>) -> Seq<u8> {
    cbor_encoding(header_model(roots, CAR_VERSION))
}

/// The header that the item `item` holds: the texts of the array under the
/// text key "roots" and the integer under the text key "version", whatever
/// else the table holds. An item of any other form holds no header.
pub open spec fn header_of_model(item: CborModel) -> Option<(Seq<Seq<char>>, u64)> {
    match item {
        CborModel::Table(entries) => match (field(entries, "roots"@), field(entries, "version"@)) {
            (Some(CborModel::Array(items)), Some(CborModel::Integer(version))) => match text_items(
                items,
            ) {
                Some(roots) => if 0 <= version <= u64::MAX {
                    Some((roots, version as u64))
                } else {
                    None
                },
                None => None,
            },
            _ => None,
        },
        _ => None,
    }
}

/// The header that `bytes` hold.
pub open spec fn header_of_bytes(bytes: Seq<u8>) -> Option<(Seq<Seq<char>>, u64)> {
    match cbor_decoding(bytes) {
        Some(item) => header_of_model(item),
        None => None,
    }
}

/// The table gives back the header that was put into it.
pub proof fn lemma_header_model_restores(roots: Seq<Seq<char>>, version: u64)
    ensures
        header_of_model(header_model(roots, version)) == Some((roots, version)),
{
    reveal_strlit("roots");
    reveal_strlit("version");
    let entries = seq![
        (CborModel::Text("roots"@), text_array(roots)),
        (CborModel::Text("version"@), CborModel::Integer(version as int)),
    ];
    assert("roots"@.len() != "version"@.len());
    assert(field_index(entries, "version"@, 1) == Some(1int));
    let items = Seq::new(roots.len(), |i: int| CborModel::Text(roots[i]));
    assert forall|i: int| 0 <= i < items.len() implies (#[trigger] items[i]) is Text by {}
}

/// The item that holds the header with these roots and the version 1.
pub fn header_value(roots: &Vec<String>) -> (item: CborValue)
    ensures
        item@ == header_model(strings_view(roots@), CAR_VERSION),
        encodable(item@),
{
    let version = CborValue::Integer(CAR_VERSION as i128);
    table_of_two("roots", array_of_texts(roots), "version", version)
}

/// The bytes of the header with these roots.
pub fn encode_header(roots: &Vec<String>) -> (bytes: Vec<u8>)
    ensures
        bytes@ == header_bytes(strings_view(roots@)),
{
    let item = header_value(roots);
    cbor_encode(&item)
}

/// The header that `item` holds.
pub fn header_of_value(item: &CborValue) -> (r: Option<(Vec<String>, u64)>)
    ensures
        match header_of_model(item@) {
            Some((roots, version)) => r matches Some(header) && strings_view(header.0@) == roots
                && header.1 == version,
            None => r.is_none(),
        },
{
    proof {
        lemma_model_shape(*item);
    }
    let entries = match item {
        CborValue::Table(entries) => entries,
        _ => {
            return None;
        },
    };
    let roots_name: String = "roots".to_owned();
    let version_name: String = "version".to_owned();
    let roots_at: usize = match find_field(entries, &roots_name) {
        Some(at) => at,
        None => {
            return None;
        },
    };
    let version_at: usize = match find_field(entries, &version_name) {
        Some(at) => at,
        None => {
            return None;
        },
    };
    proof {
        lemma_model_shape(entries@[roots_at as int].1);
    }
    let items: &Vec<CborValue> = match &entries[roots_at].1 {
        CborValue::Array(items) => items,
        _ => {
            return None;
        },
    };
    let version: i128 = match &entries[version_at].1 {
        CborValue::Integer(version) => *version,
        _ => {
            return None;
        },
    };
    match texts_of_items(items) {
        Some(roots) => {
            if version < 0 || version > 0xffff_ffff_ffff_ffff {
                None
            } else {
                Some((roots, version as u64))
            }
        },
        None => None,
    }
}

/// Reads a header: its roots and its version. Bytes that hold none are
/// malformed: bytes that are no CBOR item, or an item that is not a table
/// with an array of texts under "roots" and an integer from 0 to 2^64 - 1
/// under "version". Entries under other keys are passed over; of a key held
/// twice the last entry is read.
pub fn parse_header(bytes: &[u8]) -> (r: Result<(Vec<String>, u64), CarError>)
    ensures
        match header_of_bytes(bytes@) {
            Some((roots, version)) => r matches Ok(header) && strings_view(header.0@) == roots
                && header.1 == version,
            None => r matches Err(e) && e@ == crate::error::Failure::MalformedHeader,
        },
{
    match cbor_decode(bytes) {
        Some(item) => match header_of_value(&item) {
            Some(header) => Ok(header),
            None => Err(CarError::MalformedHeader),
        },
        None => Err(CarError::MalformedHeader),
    }
}

} // verus!
