//! Git object identities, kinds and hash algorithms.

use crate::bytes::{be_bytes, be_value, push_be, read_be};
use vstd::prelude::*;

verus! {

/// Object hash algorithm of a repository.
#[derive(Clone, Copy, Debug, PartialEq, Eq, Hash, Structural)]
pub enum HashAlgo {
    /// SHA-1 repositories.
    Sha1,
    /// SHA-256 repositories.
    Sha256,
}

impl HashAlgo {
    /// Digest length in bytes.
    pub open spec fn spec_len(self) -> nat {
        match self {
            HashAlgo::Sha1 => 20,
            HashAlgo::Sha256 => 32,
        }
    }

    /// Return the digest length in bytes.
    pub fn len(self) -> (length: usize)
        ensures
            length == self.spec_len(),
    {
        match self {
            HashAlgo::Sha1 => 20,
            HashAlgo::Sha256 => 32,
        }
    }

}

/// Canonical object kind.
#[derive(Clone, Copy, Debug, PartialEq, Eq, Hash, Structural)]
pub enum ObjectKind {
    /// Commit object.
    Commit,
    /// Tree object.
    Tree,
    /// Blob object.
    Blob,
    /// Annotated tag object.
    Tag,
}

impl ObjectKind {
    /// The kind's name in an object header.
    pub open spec fn name(self) -> Seq<u8> {
        match self {
            ObjectKind::Commit => seq![0x63u8, 0x6fu8, 0x6du8, 0x6du8, 0x69u8, 0x74u8],
            ObjectKind::Tree => seq![0x74u8, 0x72u8, 0x65u8, 0x65u8],
            ObjectKind::Blob => seq![0x62u8, 0x6cu8, 0x6fu8, 0x62u8],
            ObjectKind::Tag => seq![0x74u8, 0x61u8, 0x67u8],
        }
    }

    /// The kind's type code in a PACK entry header.
    pub open spec fn code(self) -> u8 {
        match self {
            ObjectKind::Commit => 1,
            ObjectKind::Tree => 2,
            ObjectKind::Blob => 3,
            ObjectKind::Tag => 4,
        }
    }

    /// Return the kind's type code in a PACK entry header.
    pub fn pack_type_code(self) -> (code: u8)
        ensures
            code == self.code(),
            1 <= code <= 4,
    {
        match self {
            ObjectKind::Commit => 1,
            ObjectKind::Tree => 2,
            ObjectKind::Blob => 3,
            ObjectKind::Tag => 4,
        }
    }

    /// Return the kind's name in an object header.
    pub fn name_bytes(self) -> (name: Vec<u8>)
        ensures
            name@ == self.name(),
    {
        match self {
            ObjectKind::Commit => vec![0x63u8, 0x6fu8, 0x6du8, 0x6du8, 0x69u8, 0x74u8],
            ObjectKind::Tree => vec![0x74u8, 0x72u8, 0x65u8, 0x65u8],
            ObjectKind::Blob => vec![0x62u8, 0x6cu8, 0x6fu8, 0x62u8],
            ObjectKind::Tag => vec![0x74u8, 0x61u8, 0x67u8],
        }
    }
}

/// The ASCII decimal digits of a number, most significant first.
pub open spec fn decimal(value: nat) -> Seq<u8>
    decreases value,
{
    if value < 10 {
        seq![(48 + value) as u8]
    } else {
        decimal(value / 10).push((48 + value % 10) as u8)
    }
}

/// The loose-object header: kind name, a space, the decimal payload length and a zero byte.
pub open spec fn object_header(kind: ObjectKind, size: nat) -> Seq<u8> {
    (kind.name().push(0x20u8) + decimal(size)).push(0u8)
}

/// Appends the decimal digits of `value`.
pub fn push_decimal(out: &mut Vec<u8>, value: u64)
    ensures
        final(out)@ == old(out)@ + decimal(value as nat),
    decreases value,
{
    if value >= 10 {
        push_decimal(out, value / 10);
    }
    out.push(48 + (value % 10) as u8);
    assert(out@ =~= old(out)@ + decimal(value as nat));
}

/// Builds the loose-object header of an object.
pub fn object_header_bytes(kind: ObjectKind, size: u64) -> (header: Vec<u8>)
    ensures
        header@ == object_header(kind, size as nat),
{
    let mut header: Vec<u8> = kind.name_bytes();
    header.push(0x20);
    push_decimal(&mut header, size);
    header.push(0);
    header
}

/// Canonical object identity: a SHA-1 or SHA-256 digest held as big-endian words.
#[derive(Clone, Copy, Debug, PartialEq, Eq, Hash, Structural)]
pub enum ObjectId {
    /// A 20-byte identity.
    Sha1 {
        /// The first 16 bytes.
        high: u128,
        /// The last 4 bytes.
        tail: u32,
    },
    /// A 32-byte identity.
    Sha256 {
        /// The first 16 bytes.
        high: u128,
        /// The last 16 bytes.
        low: u128,
    },
}

impl View for ObjectId {
    type V = Seq<u8>;

    open spec fn view(&self) -> Seq<u8> {
        match *self {
            ObjectId::Sha1 { high, tail } => be_bytes(high as int, 16) + be_bytes(tail as int, 4),
            ObjectId::Sha256 { high, low } => be_bytes(high as int, 16) + be_bytes(low as int, 16),
        }
    }
}

/// The identity that a digest of `algo` spells.
pub open spec fn id_from_digest(algo: HashAlgo, digest: Seq<u8>) -> ObjectId {
    match algo {
        HashAlgo::Sha1 => ObjectId::Sha1 {
            high: be_value(digest.subrange(0, 16)) as u128,
            tail: be_value(digest.subrange(16, 20)) as u32,
        },
        HashAlgo::Sha256 => ObjectId::Sha256 {
            high: be_value(digest.subrange(0, 16)) as u128,
            low: be_value(digest.subrange(16, 32)) as u128,
        },
    }
}

impl ObjectId {
    /// The hash algorithm that the identity belongs to.
    pub open spec fn spec_algo(self) -> HashAlgo {
        match self {
            ObjectId::Sha1 { .. } => HashAlgo::Sha1,
            ObjectId::Sha256 { .. } => HashAlgo::Sha256,
        }
    }

    /// Every byte of the identity is zero.
    pub open spec fn spec_is_zero(self) -> bool {
        match self {
            ObjectId::Sha1 { high, tail } => high == 0 && tail == 0,
            ObjectId::Sha256 { high, low } => high == 0 && low == 0,
        }
    }

    /// Position in the total order of identities: SHA-1 before SHA-256, then by bytes.
    pub open spec fn rank(self) -> (int, int, int) {
        match self {
            ObjectId::Sha1 { high, tail } => (0, high as int, tail as int),
            ObjectId::Sha256 { high, low } => (1, high as int, low as int),
        }
    }

    /// Strictly earlier in the total order of identities.
    pub open spec fn spec_before(self, other: ObjectId) -> bool {
        let a = self.rank();
        let b = other.rank();
        a.0 < b.0 || (a.0 == b.0 && (a.1 < b.1 || (a.1 == b.1 && a.2 < b.2)))
    }

    /// Return the hash algorithm.
    pub fn algo(self) -> (algo: HashAlgo)
        ensures
            algo == self.spec_algo(),
    {
        match self {
            ObjectId::Sha1 { .. } => HashAlgo::Sha1,
            ObjectId::Sha256 { .. } => HashAlgo::Sha256,
        }
    }

    /// Return whether every byte is zero.
    pub fn is_zero(self) -> (zero: bool)
        ensures
            zero == self.spec_is_zero(),
    {
        match self {
            ObjectId::Sha1 { high, tail } => high == 0 && tail == 0,
            ObjectId::Sha256 { high, low } => high == 0 && low == 0,
        }
    }

    /// The identity of zero bytes.
    pub open spec fn spec_null(algo: HashAlgo) -> ObjectId {
        match algo {
            HashAlgo::Sha1 => ObjectId::Sha1 { high: 0, tail: 0 },
            HashAlgo::Sha256 => ObjectId::Sha256 { high: 0, low: 0 },
        }
    }

    /// Return the identity of zero bytes.
    pub fn null(algo: HashAlgo) -> (id: ObjectId)
        ensures
            id == ObjectId::spec_null(algo),
    {
        match algo {
            HashAlgo::Sha1 => ObjectId::Sha1 { high: 0, tail: 0 },
            HashAlgo::Sha256 => ObjectId::Sha256 { high: 0, low: 0 },
        }
    }

    /// Return whether this identity comes strictly before another.
    pub fn before(self, other: ObjectId) -> (before: bool)
        ensures
            before == self.spec_before(other),
    {
        match self {
            ObjectId::Sha1 { high, tail } => match other {
                ObjectId::Sha1 { high: other_high, tail: other_tail } => high < other_high || (high
                    == other_high && tail < other_tail),
                ObjectId::Sha256 { .. } => true,
            },
            ObjectId::Sha256 { high, low } => match other {
                ObjectId::Sha1 { .. } => false,
                ObjectId::Sha256 { high: other_high, low: other_low } => high < other_high || (high
                    == other_high && low < other_low),
            },
        }
    }

    /// Parse a 20-byte or 32-byte digest; any other length is refused.
    pub fn from_bytes(bytes: &[u8]) -> (id: Option<ObjectId>)
        ensures
            match id {
                Some(found) => bytes@.len() == found.spec_algo().spec_len() && found@ == bytes@
                    && found == id_from_digest(found.spec_algo(), bytes@),
                None => bytes@.len() != 20 && bytes@.len() != 32,
            },
    {
        if bytes.len() == 20 {
            let high: u128 = read_be(bytes, 0, 16);
            let low: u128 = read_be(bytes, 16, 20);
            proof {
                lemma_id_round_trip(HashAlgo::Sha1, bytes@);
                crate::bytes::lemma_be_value_range(bytes@.subrange(16, 20));
                crate::bytes::lemma_pow256_values();
            }
            Some(ObjectId::Sha1 { high, tail: low as u32 })
        } else if bytes.len() == 32 {
            let high: u128 = read_be(bytes, 0, 16);
            let low: u128 = read_be(bytes, 16, 32);
            proof {
                lemma_id_round_trip(HashAlgo::Sha256, bytes@);
            }
            Some(ObjectId::Sha256 { high, low })
        } else {
            None
        }
    }

    /// Return the digest bytes.
    pub fn to_bytes(self) -> (bytes: Vec<u8>)
        ensures
            bytes@ == self@,
            bytes@.len() == self.spec_algo().spec_len(),
    {
        let mut bytes: Vec<u8> = Vec::new();
        match self {
            ObjectId::Sha1 { high, tail } => {
                push_be(&mut bytes, high, 16);
                push_be(&mut bytes, tail as u128, 4);
            },
            ObjectId::Sha256 { high, low } => {
                push_be(&mut bytes, high, 16);
                push_be(&mut bytes, low, 16);
            },
        }
        proof {
            lemma_id_len(self);
            assert(bytes@ =~= self@);
        }
        bytes
    }
}

/// An identity has as many bytes as its algorithm's digests.
pub proof fn lemma_id_len(id: ObjectId)
    ensures
        id@.len() == id.spec_algo().spec_len(),
{
    match id {
        ObjectId::Sha1 { high, tail } => {
            crate::bytes::lemma_be_bytes_len(high as int, 16);
            crate::bytes::lemma_be_bytes_len(tail as int, 4);
        },
        ObjectId::Sha256 { high, low } => {
            crate::bytes::lemma_be_bytes_len(high as int, 16);
            crate::bytes::lemma_be_bytes_len(low as int, 16);
        },
    }
}

/// The identity parsed from a digest of the algorithm's length has exactly that digest's bytes.
pub proof fn lemma_id_round_trip(algo: HashAlgo, digest: Seq<u8>)
    requires
        digest.len() == algo.spec_len(),
    ensures
        id_from_digest(algo, digest)@ == digest,
        id_from_digest(algo, digest).spec_algo() == algo,
{
    let head = digest.subrange(0, 16);
    let tail = digest.subrange(16, digest.len() as int);
    crate::bytes::lemma_pow256_values();
    crate::bytes::lemma_be_value_range(head);
    crate::bytes::lemma_be_value_range(tail);
    crate::bytes::lemma_be_encode_decode(head);
    crate::bytes::lemma_be_encode_decode(tail);
    assert(head + tail =~= digest);
}

/// Two identities are equal exactly when they belong to one algorithm and have the same bytes.
pub proof fn lemma_id_injective(left: ObjectId, right: ObjectId)
    ensures
        left == right <==> left.spec_algo() == right.spec_algo() && left@ == right@,
{
    if left.spec_algo() == right.spec_algo() && left@ == right@ {
        lemma_id_parse_of_bytes(left);
        lemma_id_parse_of_bytes(right);
    }
}

/// Parsing the bytes of an identity gives the identity back.
pub proof fn lemma_id_parse_of_bytes(id: ObjectId)
    ensures
        id_from_digest(id.spec_algo(), id@) == id,
{
    lemma_id_len(id);
    crate::bytes::lemma_pow256_values();
    match id {
        ObjectId::Sha1 { high, tail } => {
            crate::bytes::lemma_be_bytes_len(high as int, 16);
            crate::bytes::lemma_be_bytes_len(tail as int, 4);
            assert(id@.subrange(0, 16) =~= be_bytes(high as int, 16));
            assert(id@.subrange(16, 20) =~= be_bytes(tail as int, 4));
            crate::bytes::lemma_be_decode_encode(high as int, 16);
            crate::bytes::lemma_be_decode_encode(tail as int, 4);
        },
        ObjectId::Sha256 { high, low } => {
            crate::bytes::lemma_be_bytes_len(high as int, 16);
            crate::bytes::lemma_be_bytes_len(low as int, 16);
            assert(id@.subrange(0, 16) =~= be_bytes(high as int, 16));
            assert(id@.subrange(16, 32) =~= be_bytes(low as int, 16));
            crate::bytes::lemma_be_decode_encode(high as int, 16);
            crate::bytes::lemma_be_decode_encode(low as int, 16);
        },
    }
}

/// The order of identities is total: of two different identities one comes first.
pub proof fn lemma_id_order_total(left: ObjectId, right: ObjectId)
    ensures
        left.spec_before(right) || right.spec_before(left) || left == right,
        !(left.spec_before(right) && right.spec_before(left)),
        !left.spec_before(left),
{
}

/// One decoded object.
#[derive(Debug)]
pub struct StoredObject {
    /// Object kind.
    pub kind: ObjectKind,
    /// Payload bytes.
    pub data: Vec<u8>,
}

/// Tenant identity.
#[derive(Debug, PartialEq, Eq, Hash)]
pub struct TenantId {
    /// Stable tenant name.
    pub value: String,
}

impl View for TenantId {
    type V = Seq<char>;

    open spec fn view(&self) -> Seq<char> {
        self.value@
    }
}

impl Clone for TenantId {
    fn clone(&self) -> (copy: Self)
        ensures
            copy == *self,
    {
        TenantId { value: self.value.clone() }
    }
}

impl TenantId {
    /// Return whether two identities name the same tenant.
    pub fn same(&self, other: &TenantId) -> (same: bool)
        ensures
            same == (self@ == other@),
    {
        self.value == other.value
    }
}

/// Repository identity inside a tenant.
#[derive(Debug, PartialEq, Eq, Hash)]
pub struct RepositoryId {
    /// Stable repository name.
    pub value: String,
}

impl View for RepositoryId {
    type V = Seq<char>;

    open spec fn view(&self) -> Seq<char> {
        self.value@
    }
}

impl Clone for RepositoryId {
    fn clone(&self) -> (copy: Self)
        ensures
            copy == *self,
    {
        RepositoryId { value: self.value.clone() }
    }
}

impl RepositoryId {
    /// Return whether two identities name the same repository.
    pub fn same(&self, other: &RepositoryId) -> (same: bool)
        ensures
            same == (self@ == other@),
    {
        self.value == other.value
    }
}

} // verus!
