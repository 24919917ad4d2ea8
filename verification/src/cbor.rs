//! CBOR data items as far as the archive format uses them.

use vstd::prelude::*;

verus! {

/// What a CBOR data item holds.
pub enum CborModel {
    /// An integer, positive or negative.
    Integer(int),
    /// A byte string.
    Bytes(Seq<u8>),
    /// A text string.
    Text(Seq<char>),
    /// An array of items.
    Array(Seq<CborModel>),
    /// A map, as a list of entries of key and value. A decoded table lists
    /// its entries in the canonical order of their keys, each key once.
    /// Encoding takes the entries in any order and lays them out in the
    /// canonical order; of entries with equal keys it keeps the last.
    Table(Seq<(CborModel, CborModel)>),
    /// Anything else: null, a boolean, a float, a tagged item.
    Unsupported,
}

/// A CBOR data item.
#[derive(Debug)]
pub enum CborValue {
    /// An integer, positive or negative.
    Integer(i128),
    /// A byte string.
    Bytes(Vec<u8>),
    /// A text string.
    Text(String),
    /// An array of items.
    Array(Vec<CborValue>),
    /// A map, as a list of entries of key and value. A decoded table lists
    /// its entries in the canonical order of their keys, each key once.
    /// Encoding takes the entries in any order and lays them out in the
    /// canonical order; of entries with equal keys it keeps the last.
    Table(Vec<(CborValue, CborValue)>),
    /// Anything else: null, a boolean, a float, a tagged item.
    Unsupported,
}

/// What the item `item` holds.
pub open spec fn model_of(item: CborValue) -> CborModel
    decreases item,
{
    match item {
        CborValue::Integer(i) => CborModel::Integer(i as int),
        CborValue::Bytes(b) => CborModel::Bytes(b@),
        CborValue::Text(s) => CborModel::Text(s@),
        CborValue::Array(items) => CborModel::Array(
            Seq::new(
                items@.len(),
                |i: int|
                    if 0 <= i < items@.len() {
                        model_of(items@[i])
                    } else {
                        CborModel::Unsupported
                    },
            ),
        ),
        CborValue::Table(entries) => CborModel::Table(
            Seq::new(
                entries@.len(),
                |i: int|
                    if 0 <= i < entries@.len() {
                        (model_of(entries@[i].0), model_of(entries@[i].1))
                    } else {
                        (CborModel::Unsupported, CborModel::Unsupported)
                    },
            ),
        ),
        CborValue::Unsupported => CborModel::Unsupported,
    }
}

impl View for CborValue {
    type V = CborModel;

    open spec fn view(&self) -> CborModel {
        model_of(*self)
    }
}

/// Whether every integer in `m` fits a CBOR integer and nothing in it is
/// unsupported.
pub open spec fn encodable(m: CborModel) -> bool
    decreases m,
{
    match m {
        CborModel::Integer(i) => -0x1_0000_0000_0000_0000 <= i <= 0xffff_ffff_ffff_ffff,
        CborModel::Bytes(_) => true,
        CborModel::Text(_) => true,
        CborModel::Array(items) => forall|i: int|
            0 <= i < items.len() ==> encodable(#[trigger] items[i]),
        CborModel::Table(entries) => forall|i: int|
            0 <= i < entries.len() ==> encodable((#[trigger] entries[i]).0) && encodable(
                entries[i].1,
            ),
        CborModel::Unsupported => false,
    }
}

/// The items of an array, each by what it holds.
pub open spec fn items_view(items: Seq<CborValue>) -> Seq<CborModel> {
    Seq::new(items.len(), |i: int| items[i]@)
}

/// The entries of a table, each key and value by what it holds.
pub open spec fn entries_view(entries: Seq<(CborValue, CborValue)>) -> Seq<(CborModel, CborModel)> {
    Seq::new(entries.len(), |i: int| (entries[i].0@, entries[i].1@))
}

/// An array holds its items.
pub proof fn lemma_array_view(items: Vec<CborValue>)
    ensures
        CborValue::Array(items)@ == CborModel::Array(items_view(items@)),
{
    let item = CborValue::Array(items);
    assert(item@ matches CborModel::Array(s) && s =~= items_view(items@));
}

/// A table holds its entries.
pub proof fn lemma_table_view(entries: Vec<(CborValue, CborValue)>)
    ensures
        CborValue::Table(entries)@ == CborModel::Table(entries_view(entries@)),
{
    let item = CborValue::Table(entries);
    assert(item@ matches CborModel::Table(s) && s =~= entries_view(entries@));
}

/// An item and what it holds are of the same kind.
pub proof fn lemma_model_shape(item: CborValue)
    ensures
        item is Integer <==> item@ is Integer,
        item is Bytes <==> item@ is Bytes,
        item is Text <==> item@ is Text,
        item is Array <==> item@ is Array,
        item is Table <==> item@ is Table,
        item is Unsupported <==> item@ is Unsupported,
        item matches CborValue::Integer(i) ==> item@ == CborModel::Integer(i as int),
        item matches CborValue::Text(t) ==> item@ == CborModel::Text(t@),
        item matches CborValue::Array(items) ==> item@ == CborModel::Array(items_view(items@)),
        item matches CborValue::Table(entries) ==> item@ == CborModel::Table(
            entries_view(entries@),
        ),
{
    match item {
        CborValue::Array(items) => lemma_array_view(items),
        CborValue::Table(entries) => lemma_table_view(entries),
        _ => {},
    }
}

/// The index of the first entry from `from` on whose key is the text `name`.
pub open spec fn field_index(
    entries: Seq<(CborModel, CborModel)>,
    name: Seq<char>,
    from: int,
) -> Option<int>
    decreases entries.len() - from,
{
    if from < 0 || from >= entries.len() {
        None
    } else if entries[from].0 == CborModel::Text(name) {
        Some(from)
    } else {
        field_index(entries, name, from + 1)
    }
}

/// The value of the first entry whose key is the text `name`.
pub open spec fn field(entries: Seq<(CborModel, CborModel)>, name: Seq<char>) -> Option<
    CborModel,
> {
    match field_index(entries, name, 0) {
        Some(i) => Some(entries[i].1),
        None => None,
    }
}

/// Where in `entries` the first entry with the text `name` as its key stands.
pub fn find_field(entries: &Vec<(CborValue, CborValue)>, name: &String) -> (r: Option<usize>)
    ensures
        match field_index(entries_view(entries@), name@, 0) {
            Some(i) => r matches Some(at) && at == i && i < entries@.len(),
            None => r.is_none(),
        },
{
    let mut at: usize = 0;
    while at < entries.len()
        invariant
            at <= entries@.len(),
            field_index(entries_view(entries@), name@, 0) == field_index(
                entries_view(entries@),
                name@,
                at as int,
            ),
        decreases entries.len() - at,
    {
        let found: bool = match &entries[at].0 {
            CborValue::Text(t) => *t == *name,
            _ => false,
        };
        if found {
            return Some(at);
        }
        at = at + 1;
    }
    None
}

/// Whether `item` is an integer from 0 to 255.
pub open spec fn is_byte(item: CborModel) -> bool {
    item matches CborModel::Integer(v) && 0 <= v <= 255
}

/// The integer that `item` holds as a byte.
pub open spec fn byte_of(item: CborModel) -> u8 {
    match item {
        CborModel::Integer(v) => v as u8,
        _ => 0,
    }
}

/// The bytes that `items` hold, where each of them is an integer from 0 to 255.
pub open spec fn byte_items(items: Seq<CborModel>) -> Option<Seq<u8>> {
    if forall|i: int| 0 <= i < items.len() ==> is_byte(#[trigger] items[i]) {
        Some(Seq::new(items.len(), |i: int| byte_of(items[i])))
    } else {
        None
    }
}

/// The text that `item` holds.
pub open spec fn text_of(item: CborModel) -> Seq<char> {
    match item {
        CborModel::Text(t) => t,
        _ => Seq::empty(),
    }
}

/// The texts that `items` hold, where each of them is a text.
pub open spec fn text_items(items: Seq<CborModel>) -> Option<Seq<Seq<char>>> {
    if forall|i: int| 0 <= i < items.len() ==> (#[trigger] items[i]) is Text {
        Some(Seq::new(items.len(), |i: int| text_of(items[i])))
    } else {
        None
    }
}

/// The array of integers that holds `bytes`.
pub open spec fn byte_array(bytes: Seq<u8>) -> CborModel {
    CborModel::Array(Seq::new(bytes.len(), |i: int| CborModel::Integer(bytes[i] as int)))
}

/// The array of texts that holds `texts`.
pub open spec fn text_array(texts: Seq<Seq<char>>) -> CborModel {
    CborModel::Array(Seq::new(texts.len(), |i: int| CborModel::Text(texts[i])))
}

/// The bytes of an array of integers from 0 to 255.
pub fn bytes_of_items(items: &Vec<CborValue>) -> (r: Option<Vec<u8>>)
    ensures
        match byte_items(items_view(items@)) {
            Some(bytes) => r matches Some(out) && out@ == bytes,
            None => r.is_none(),
        },
{
    let mut out: Vec<u8> = Vec::new();
    let mut at: usize = 0;
    while at < items.len()
        invariant
            at <= items@.len(),
            out@.len() == at,
            forall|i: int| 0 <= i < at ==> is_byte(#[trigger] items_view(items@)[i]),
            forall|i: int| 0 <= i < at ==> out@[i] == byte_of(items_view(items@)[i]),
        decreases items.len() - at,
    {
        match &items[at] {
            CborValue::Integer(v) => {
                if *v < 0 || *v > 255 {
                    assert(!is_byte(items_view(items@)[at as int]));
                    return None;
                }
                out.push(*v as u8);
            },
            _ => {
                return None;
            },
        }
        at = at + 1;
    }
    Some(out)
}

/// The texts of an array of texts.
pub fn texts_of_items(items: &Vec<CborValue>) -> (r: Option<Vec<String>>)
    ensures
        match text_items(items_view(items@)) {
            Some(texts) => r matches Some(out) && strings_view(out@) == texts,
            None => r.is_none(),
        },
{
    let mut out: Vec<String> = Vec::new();
    let mut at: usize = 0;
    while at < items.len()
        invariant
            at <= items@.len(),
            out@.len() == at,
            forall|i: int| 0 <= i < at ==> (#[trigger] items_view(items@)[i]) is Text,
            forall|i: int| 0 <= i < at ==> out@[i]@ == text_of(items_view(items@)[i]),
        decreases items.len() - at,
    {
        match &items[at] {
            CborValue::Text(t) => {
                out.push(t.clone());
            },
            _ => {
                assert(!(items_view(items@)[at as int] is Text));
                return None;
            },
        }
        at = at + 1;
    }
    Some(out)
}

/// The texts that `strings` hold.
pub open spec fn strings_view(strings: Seq<String>) -> Seq<Seq<char>> {
    Seq::new(strings.len(), |i: int| strings[i]@)
}

/// The array of integers that holds `bytes`.
pub fn array_of_bytes(bytes: &[u8]) -> (item: CborValue)
    ensures
        item@ == byte_array(bytes@),
        encodable(item@),
{
    let mut items: Vec<CborValue> = Vec::new();
    let mut at: usize = 0;
    while at < bytes.len()
        invariant
            at <= bytes@.len(),
            items@.len() == at,
            forall|i: int|
                0 <= i < at ==> (#[trigger] items@[i])@ == CborModel::Integer(bytes@[i] as int),
        decreases bytes.len() - at,
    {
        items.push(CborValue::Integer(bytes[at] as i128));
        at = at + 1;
    }
    proof {
        lemma_array_view(items);
        let held = items_view(items@);
        assert(held =~= Seq::new(bytes@.len(), |i: int| CborModel::Integer(bytes@[i] as int)));
        assert forall|i: int| 0 <= i < held.len() implies encodable(#[trigger] held[i]) by {}
    }
    CborValue::Array(items)
}

/// The array of texts that holds `texts`.
pub fn array_of_texts(texts: &Vec<String>) -> (item: CborValue)
    ensures
        item@ == text_array(strings_view(texts@)),
        encodable(item@),
{
    let mut items: Vec<CborValue> = Vec::new();
    let mut at: usize = 0;
    while at < texts.len()
        invariant
            at <= texts@.len(),
            items@.len() == at,
            forall|i: int| 0 <= i < at ==> (#[trigger] items@[i])@ == CborModel::Text(texts@[i]@),
        decreases texts.len() - at,
    {
        items.push(CborValue::Text(texts[at].clone()));
        at = at + 1;
    }
    proof {
        lemma_array_view(items);
        let held = items_view(items@);
        assert(held =~= Seq::new(
            texts@.len(),
            |i: int| CborModel::Text(strings_view(texts@)[i]),
        ));
        assert forall|i: int| 0 <= i < held.len() implies encodable(#[trigger] held[i]) by {}
    }
    CborValue::Array(items)
}

/// The table of two entries with texts as keys.
pub fn table_of_two(
    first_name: &str,
    first: CborValue,
    second_name: &str,
    second: CborValue,
) -> (item: CborValue)
    requires
        encodable(first@),
        encodable(second@),
    ensures
        item@ == table_model(first_name@, first@, second_name@, second@),
        encodable(item@),
{
    let mut entries: Vec<(CborValue, CborValue)> = Vec::new();
    entries.push((CborValue::Text(first_name.to_owned()), first));
    entries.push((CborValue::Text(second_name.to_owned()), second));
    proof {
        lemma_table_view(entries);
        let held = entries_view(entries@);
        assert(held =~= seq![
            (CborModel::Text(first_name@), first@),
            (CborModel::Text(second_name@), second@),
        ]);
        assert forall|i: int| 0 <= i < held.len() implies encodable((#[trigger] held[i]).0)
            && encodable(held[i].1) by {}
    }
    CborValue::Table(entries)
}

/// The table of two entries with texts as keys.
pub open spec fn table_model(
    first_name: Seq<char>,
    first: CborModel,
    second_name: Seq<char>,
    second: CborModel,
) -> CborModel {
    CborModel::Table(
        seq![(CborModel::Text(first_name), first), (CborModel::Text(second_name), second)],
    )
}

/// What can be encoded holds only what can be encoded.
pub proof fn lemma_encodable_parts(item: CborModel, i: int)
    requires
        encodable(item),
    ensures
        item matches CborModel::Array(items) ==> 0 <= i < items.len() ==> encodable(items[i]),
        item matches CborModel::Table(entries) ==> 0 <= i < entries.len() ==> encodable(
            entries[i].0,
        ) && encodable(entries[i].1),
{
}

/// Whether `item` can be encoded: every integer in it fits a CBOR integer
/// and nothing in it is unsupported.
pub fn is_encodable(item: &CborValue) -> (r: bool)
    ensures
        r == encodable(item@),
    decreases item,
{
    proof {
        lemma_model_shape(*item);
    }
    match item {
        CborValue::Integer(i) => -0x1_0000_0000_0000_0000 <= *i && *i <= 0xffff_ffff_ffff_ffff,
        CborValue::Bytes(_) => true,
        CborValue::Text(_) => true,
        CborValue::Array(items) => {
            let mut at: usize = 0;
            while at < items.len()
                invariant
                    at <= items@.len(),
                    *item == CborValue::Array(*items),
                    item@ == CborModel::Array(items_view(items@)),
                    forall|j: int| 0 <= j < at ==> encodable(#[trigger] items_view(items@)[j]),
                decreases items.len() - at,
            {
                if !is_encodable(&items[at]) {
                    proof {
                        if encodable(item@) {
                            lemma_encodable_parts(item@, at as int);
                        }
                    }
                    return false;
                }
                at = at + 1;
            }
            true
        },
        CborValue::Table(entries) => {
            let mut at: usize = 0;
            while at < entries.len()
                invariant
                    at <= entries@.len(),
                    *item == CborValue::Table(*entries),
                    item@ == CborModel::Table(entries_view(entries@)),
                    forall|j: int|
                        0 <= j < at ==> encodable((#[trigger] entries_view(entries@)[j]).0)
                            && encodable(entries_view(entries@)[j].1),
                decreases entries.len() - at,
            {
                if !is_encodable(&entries[at].0) || !is_encodable(&entries[at].1) {
                    assert(!encodable(entries_view(entries@)[at as int].0) || !encodable(
                        entries_view(entries@)[at as int].1,
                    ));
                    proof {
                        if encodable(item@) {
                            lemma_encodable_parts(item@, at as int);
                        }
                    }
                    return false;
                }
                at = at + 1;
            }
            true
        },
        CborValue::Unsupported => false,
    }
}

/// Encodes an item that can be encoded. The entries of a table are laid out
/// in the canonical order of their keys (by kind, then shorter before longer,
/// then by content), whatever their order in the item; of entries with equal
/// keys the last one is kept.
pub fn cbor_encode(item: &CborValue) -> (bytes: Vec<u8>)
    requires
        encodable(item@),
    ensures
        bytes@ == cbor_encoding(item@),
{
    cbor_to_vec(item)
}

/// Encodes an item, where it can be encoded. Tables are laid out as
/// `cbor_encode` lays them out.
pub fn encode_item(item: &CborValue) -> (r: Option<Vec<u8>>)
    ensures
        encodable(item@) ==> (r matches Some(bytes) && bytes@ == cbor_encoding(item@)),
        !encodable(item@) ==> r.is_none(),
{
    if is_encodable(item) {
        Some(cbor_encode(item))
    } else {
        None
    }
}

/// Decodes the item that `bytes` hold. A table comes back with its entries in
/// the canonical order of their keys; where the bytes hold a key more than
/// once, the entry that stands last in them is kept.
pub fn cbor_decode(bytes: &[u8]) -> (r: Option<CborValue>)
    ensures
        r is Some <==> cbor_decoding(bytes@) is Some,
        r matches Some(item) ==> item@ == cbor_decoding(bytes@).unwrap(),
{
    cbor_from_slice(bytes)
}

/// The bytes that encode the item `item`: the canonical encoding, in which
/// the entries of a table stand in the order of their keys, each key once.
pub uninterp spec fn cbor_encoding(item: CborModel) -> Seq<u8>;

/// The item that `bytes` encode, if they encode one and nothing more. The
/// entries of a table are listed in the order of their keys, each key once.
pub uninterp spec fn cbor_decoding(bytes: Seq<u8>) -> Option<CborModel>;

/// `serde_cbor::Value`: a CBOR data item as the codec holds it. Nothing is
/// said of what a value of it holds; it is only handed from the conversions
/// to the codec and back.
#[verifier::external_type_specification]
#[verifier::external_body]
pub struct ExValue(serde_cbor::Value);

/// The `serde_cbor::Value` that holds what `item` holds. A table becomes the
/// codec's ordered map, which compares keys as it takes them in; comparing
/// encodes keys that are arrays or tables and panics where one cannot be
/// encoded, so only an item that can be encoded is taken. The arm for an
/// unsupported item is never reached.
#[verifier::external_body]
fn to_outside(item: &CborValue) -> serde_cbor::Value
    requires
        encodable(item@),
{
    match item {
        CborValue::Integer(i) => serde_cbor::Value::Integer(*i),
        CborValue::Bytes(b) => serde_cbor::Value::Bytes(b.clone()),
        CborValue::Text(t) => serde_cbor::Value::Text(t.clone()),
        CborValue::Array(a) => serde_cbor::Value::Array(a.iter().map(to_outside).collect()),
        CborValue::Table(m) => serde_cbor::Value::Map(
            m.iter().map(|(k, v)| (to_outside(k), to_outside(v))).collect(),
        ),
        CborValue::Unsupported => serde_cbor::Value::Null,
    }
}

/// The item that holds what a `serde_cbor::Value` holds; null, booleans,
/// floats and tagged items become unsupported.
#[verifier::external_body]
fn from_outside(item: serde_cbor::Value) -> CborValue {
    match item {
        serde_cbor::Value::Integer(i) => CborValue::Integer(i),
        serde_cbor::Value::Bytes(b) => CborValue::Bytes(b),
        serde_cbor::Value::Text(t) => CborValue::Text(t),
        serde_cbor::Value::Array(a) => CborValue::Array(a.into_iter().map(from_outside).collect()),
        serde_cbor::Value::Map(m) => CborValue::Table(
            m.into_iter().map(|(k, v)| (from_outside(k), from_outside(v))).collect(),
        ),
        _ => CborValue::Unsupported,
    }
}

/// `serde_cbor::to_vec`, on the `Value` that holds what `item` holds: the
/// bytes that encode it, a table by its ordered map. Written to a vector, an
/// item whose integers all fit is never refused.
#[verifier::external_body]
fn cbor_to_vec(item: &CborValue) -> (r: Vec<u8>)
    requires
        encodable(item@),
    ensures
        r@ == cbor_encoding(item@),
{
    serde_cbor::to_vec(&to_outside(item)).unwrap()
}

/// `serde_cbor::from_slice`, read as a `Value`: the item that the bytes
/// encode, or nothing where they are refused.
#[verifier::external_body]
fn cbor_from_slice(bytes: &[u8]) -> (r: Option<CborValue>)
    ensures
        r is Some <==> cbor_decoding(bytes@) is Some,
        r matches Some(item) ==> item@ == cbor_decoding(bytes@).unwrap(),
{
    serde_cbor::from_slice::<serde_cbor::Value>(bytes).ok().map(from_outside)
}

} // verus!
