//! Content identifiers: a version, a content-type tag, a hash-function tag
//! and a digest.

use vstd::prelude::*;
use vstd::slice::slice_to_vec;
use crate::varint::varint_encoding;

verus! {

/// The content-type tag of a row: dag-cbor.
pub const DAG_CBOR: u64 = 0x71;

/// The content-type tag that every version 0 identifier has: dag-pb.
pub const DAG_PB: u64 = 0x70;

/// The hash-function tag of SHA2-256.
pub const SHA2_256: u64 = 0x12;

/// The number of bytes of a SHA2-256 digest.
pub const SHA2_256_LEN: usize = 32;

/// The longest digest that an identifier holds.
pub const MAX_DIGEST_LEN: usize = 64;

/// What a `ContentId` stands for.
pub struct ContentIdView {
    pub version: u64,
    pub codec: u64,
    pub hash_code: u64,
    pub digest: Seq<u8>,
}

impl ContentIdView {
    /// The identifiers that exist: version 1 with a digest of at most 64
    /// bytes, or version 0, which is always dag-pb with a SHA2-256 digest.
    pub open spec fn valid(self) -> bool {
        &&& self.digest.len() <= MAX_DIGEST_LEN
        &&& self.version == 0 || self.version == 1
        &&& self.version == 0 ==> self.codec == DAG_PB && self.hash_code == SHA2_256
            && self.digest.len() == SHA2_256_LEN
    }

    /// The hash-function tag, the digest's length and the digest.
    pub open spec fn multihash(self) -> Seq<u8> {
        varint_encoding(self.hash_code as nat) + varint_encoding(self.digest.len()) + self.digest
    }

    /// The binary form: for version 1 the version, the content-type tag and
    /// the multihash; for version 0 the multihash alone.
    pub open spec fn binary(self) -> Seq<u8> {
        if self.version == 0 {
            self.multihash()
        } else {
            varint_encoding(self.version as nat) + varint_encoding(self.codec as nat)
                + self.multihash()
        }
    }
}

/// The SHA2-256 digest of `input`.
pub uninterp spec fn sha2_256(input: Seq<u8>) -> Seq<u8>;

/// The text form of the identifier `id`.
pub uninterp spec fn cid_text(id: ContentIdView) -> Seq<char>;

/// The identifier that `text` is the text form of, if it is one.
pub uninterp spec fn cid_of_text(text: Seq<char>) -> Option<ContentIdView>;

/// The identifier in binary form at the front of `bytes`, if there is one,
/// and the number of bytes that it takes.
pub uninterp spec fn cid_prefix(bytes: Seq<u8>) -> Option<(ContentIdView, nat)>;

/// The four parts of an identifier as plain values.
pub open spec fn parts_view(parts: (u64, u64, u64, Vec<u8>)) -> ContentIdView {
    ContentIdView { version: parts.0, codec: parts.1, hash_code: parts.2, digest: parts.3@ }
}

/// `multihash_codetable::Code::Sha2_256.digest`, taken apart by `Multihash::code`
/// and `Multihash::digest`: the tag is that of SHA2-256, the digest is the
/// SHA2-256 digest of the input and has 32 bytes.
#[verifier::external_body]
fn sha2_256_multihash(input: &[u8]) -> (r: (u64, Vec<u8>))
    ensures
        r.0 == SHA2_256,
        r.1@ == sha2_256(input@),
        r.1@.len() == SHA2_256_LEN,
{
    let hash = multihash_codetable::MultihashDigest::digest(
        &multihash_codetable::Code::Sha2_256,
        input,
    );
    (hash.code(), hash.digest().to_vec())
}

/// `cid::Cid::to_bytes`, on the identifier that `Multihash::wrap` and
/// `Cid::new` build from the parts: the varints of the version and of the
/// content-type tag, then the multihash as `Multihash::write` lays it out;
/// the multihash alone for version 0. None of the three panics on valid parts.
#[verifier::external_body]
fn cid_to_bytes(version: u64, codec: u64, hash_code: u64, digest: &[u8]) -> (r: Vec<u8>)
    requires
        (ContentIdView { version, codec, hash_code, digest: digest@ }).valid(),
    ensures
        r@ == (ContentIdView { version, codec, hash_code, digest: digest@ }).binary(),
{
    let hash = cid::multihash::Multihash::<64>::wrap(hash_code, digest).unwrap();
    let version = cid::Version::try_from(version).unwrap();
    cid::Cid::new(version, codec, hash).unwrap().to_bytes()
}

/// `cid::Cid::to_string`, on the identifier built as for the binary form: the
/// result is the text form of that identifier.
#[verifier::external_body]
fn cid_to_string(version: u64, codec: u64, hash_code: u64, digest: &[u8]) -> (r: String)
    requires
        (ContentIdView { version, codec, hash_code, digest: digest@ }).valid(),
    ensures
        r@ == cid_text(ContentIdView { version, codec, hash_code, digest: digest@ }),
{
    let hash = cid::multihash::Multihash::<64>::wrap(hash_code, digest).unwrap();
    let version = cid::Version::try_from(version).unwrap();
    cid::Cid::new(version, codec, hash).unwrap().to_string()
}

/// `cid::Cid::try_from(&str)`: the identifier that the text stands for, taken
/// apart into its parts, or nothing where the text is refused. An identifier
/// that comes back is valid: `Cid::new_v0` and `Multihash::read` see to it.
#[verifier::external_body]
fn cid_from_str(text: &str) -> (r: Option<(u64, u64, u64, Vec<u8>)>)
    ensures
        r is Some <==> cid_of_text(text@) is Some,
        r matches Some(parts) ==> parts_view(parts) == cid_of_text(text@).unwrap(),
        r matches Some(parts) ==> parts_view(parts).valid(),
{
    let id = cid::Cid::try_from(text).ok()?;
    Some((u64::from(id.version()), id.codec(), id.hash().code(), id.hash().digest().to_vec()))
}

/// `cid::Cid::read_bytes`, on a cursor over the bytes: the identifier at
/// their front, taken apart into its parts, with the cursor's position behind
/// it, or nothing where the bytes are refused.
#[verifier::external_body]
fn cid_read_bytes(bytes: &[u8]) -> (r: Option<((u64, u64, u64, Vec<u8>), u64)>)
    ensures
        r is Some <==> cid_prefix(bytes@) is Some,
        r matches Some(found) ==> parts_view(found.0) == cid_prefix(bytes@).unwrap().0
            && found.1 == cid_prefix(bytes@).unwrap().1,
        r matches Some(found) ==> parts_view(found.0).valid(),
{
    let mut cursor = std::io::Cursor::new(bytes);
    let id = cid::Cid::read_bytes(&mut cursor).ok()?;
    let hash = id.hash();
    let parts = (u64::from(id.version()), id.codec(), hash.code(), hash.digest().to_vec());
    Some((parts, cursor.position()))
}

/// A content identifier.
#[derive(Debug)]
pub struct ContentId {
    version: u64,
    codec: u64,
    hash_code: u64,
    digest: Vec<u8>,
}

impl View for ContentId {
    type V = ContentIdView;

    closed spec fn view(&self) -> ContentIdView {
        ContentIdView {
            version: self.version,
            codec: self.codec,
            hash_code: self.hash_code,
            digest: self.digest@,
        }
    }
}

/// Whether two byte strings hold the same bytes.
pub fn bytes_equal(a: &[u8], b: &[u8]) -> (same: bool)
    ensures
        same == (a@ == b@),
{
    if a.len() != b.len() {
        return false;
    }
    let mut i: usize = 0;
    while i < a.len()
        invariant
            a@.len() == b@.len(),
            i <= a@.len(),
            forall|j: int| 0 <= j < i ==> a@[j] == b@[j],
        decreases a.len() - i,
    {
        if a[i] != b[i] {
            return false;
        }
        i = i + 1;
    }
    assert(a@ =~= b@);
    true
}

impl ContentId {
    #[verifier::type_invariant]
    spec fn holds_valid_parts(self) -> bool {
        self@.valid()
    }

    /// The identifier with these parts, where there is one.
    pub fn new(version: u64, codec: u64, hash_code: u64, digest: Vec<u8>) -> (r: Option<ContentId>)
        ensures
            r is Some <==> (ContentIdView { version, codec, hash_code, digest: digest@ }).valid(),
            r matches Some(id) ==> id@ == (ContentIdView {
                version,
                codec,
                hash_code,
                digest: digest@,
            }),
    {
        if digest.len() > MAX_DIGEST_LEN || version > 1 {
            return None;
        }
        if version == 0 && (codec != DAG_PB || hash_code != SHA2_256 || digest.len()
            != SHA2_256_LEN) {
            return None;
        }
        Some(ContentId { version, codec, hash_code, digest })
    }

    /// The identifier of a row: version 1, dag-cbor, with the SHA2-256
    /// digest of the row's bytes.
    pub fn of_row_bytes(row_bytes: &[u8]) -> (id: ContentId)
        ensures
            id@ == row_cid(row_bytes@),
            id@.digest.len() == SHA2_256_LEN,
            id@.valid(),
    {
        let (hash_code, digest) = sha2_256_multihash(row_bytes);
        ContentId { version: 1, codec: DAG_CBOR, hash_code, digest }
    }

    /// The version: 0 or 1.
    pub fn version(&self) -> (version: u64)
        ensures
            version == self@.version,
    {
        self.version
    }

    /// The content-type tag.
    pub fn codec(&self) -> (codec: u64)
        ensures
            codec == self@.codec,
    {
        self.codec
    }

    /// The hash-function tag.
    pub fn hash_code(&self) -> (hash_code: u64)
        ensures
            hash_code == self@.hash_code,
    {
        self.hash_code
    }

    /// The digest.
    pub fn digest(&self) -> (digest: &[u8])
        ensures
            digest@ == self@.digest,
    {
        self.digest.as_slice()
    }

    /// A second identifier with the same parts.
    pub fn duplicate(&self) -> (id: ContentId)
        ensures
            id@ == self@,
    {
        proof {
            use_type_invariant(self);
        }
        ContentId {
            version: self.version,
            codec: self.codec,
            hash_code: self.hash_code,
            digest: slice_to_vec(self.digest.as_slice()),
        }
    }

    /// Whether `other` has the same version, tags and digest.
    pub fn same_as(&self, other: &ContentId) -> (same: bool)
        ensures
            same == (self@ == other@),
    {
        self.version == other.version && self.codec == other.codec && self.hash_code
            == other.hash_code && bytes_equal(self.digest.as_slice(), other.digest.as_slice())
    }

    /// The binary form.
    pub fn to_bytes(&self) -> (bytes: Vec<u8>)
        ensures
            bytes@ == self@.binary(),
            self@.valid(),
    {
        proof {
            use_type_invariant(self);
        }
        cid_to_bytes(self.version, self.codec, self.hash_code, self.digest.as_slice())
    }

    /// The text form.
    pub fn to_text(&self) -> (text: String)
        ensures
            text@ == cid_text(self@),
            self@.valid(),
    {
        proof {
            use_type_invariant(self);
        }
        cid_to_string(self.version, self.codec, self.hash_code, self.digest.as_slice())
    }

    /// The identifier that `text` is the text form of.
    pub fn from_text(text: &str) -> (r: Option<ContentId>)
        ensures
            r is Some <==> cid_of_text(text@) is Some,
            r matches Some(id) ==> id@ == cid_of_text(text@).unwrap() && id@.valid(),
    {
        match cid_from_str(text) {
            Some((version, codec, hash_code, digest)) => Some(
                ContentId { version, codec, hash_code, digest },
            ),
            None => None,
        }
    }

    /// The identifier in binary form at the front of `bytes`, and the number
    /// of bytes that it takes.
    pub fn read_prefix(bytes: &[u8]) -> (r: Option<(ContentId, usize)>)
        ensures
            r == None::<(ContentId, usize)> <==> cid_split(bytes@) is None,
            r matches Some((id, used)) ==> cid_split(bytes@) == Some((id@, used as nat))
                && id@.valid(),
    {
        match cid_read_bytes(bytes) {
            Some(((version, codec, hash_code, digest), used)) => identifier_within(
                ContentId { version, codec, hash_code, digest },
                used,
                bytes.len(),
            ),
            None => None,
        }
    }
}

/// An identifier that was read from the front of `available` bytes, with the
/// number of bytes that it takes, where that number lies within them.
pub fn identifier_within(id: ContentId, used: u64, available: usize) -> (r: Option<
    (ContentId, usize),
>)
    ensures
        used <= available ==> r == Some((id, used as usize)),
        used > available ==> r.is_none(),
{
    if used > available as u64 {
        None
    } else {
        Some((id, used as usize))
    }
}

/// The identifier of the row that `row_bytes` encode.
pub open spec fn row_cid(row_bytes: Seq<u8>) -> ContentIdView {
    ContentIdView {
        version: 1,
        codec: DAG_CBOR,
        hash_code: SHA2_256,
        digest: sha2_256(row_bytes),
    }
}

/// The identifier at the front of `bytes` and its length, where the bytes
/// hold that many.
pub open spec fn cid_split(bytes: Seq<u8>) -> Option<(ContentIdView, nat)> {
    match cid_prefix(bytes) {
        Some((id, used)) => if used <= bytes.len() {
            Some((id, used))
        } else {
            None
        },
        None => None,
    }
}

} // verus!
