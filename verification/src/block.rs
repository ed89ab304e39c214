use vstd::prelude::*;

use crate::utils::{be_bytes_u32, be_bytes_u64, sha256_of, Encodable};

verus! {

/// Nodes collect new transactions into blocks, hash them into a hash tree,
/// and scan through nonce values to make the blocks's hash satisfy
/// proof-of-work requirements.
/// When they solve proof-of-work, they broadcast the block to other nodes
/// and block is added to the blockchain. The first transaction in the
/// block is a special one that creates a new coin owned by the creator
/// of the block.
pub struct Block {
    pub version: [u8; 2],
    pub index: u32,
    pub timestamp: u64,
    pub hash_prev_block: [u8; 32],
    pub hash_merkle_root: [u8; 32],
    pub nonce: u64,
}

impl Block {
    /// The canonical serialization of a header: the encodings of the six
    /// fields, in this fixed order, back to back, with nothing between.
    pub open spec fn spec_bytes(&self) -> Seq<u8> {
        self.version@ + be_bytes_u32(self.index) + be_bytes_u64(self.timestamp)
            + self.hash_prev_block@ + self.hash_merkle_root@ + be_bytes_u64(self.nonce)
    }

    /// Serialize the header into its canonical 86-byte form.
    pub fn to_bytes(&self) -> (r: Vec<u8>)
        ensures
            r@ == self.spec_bytes(),
            r@.len() == 86,
    {
        let mut b = Vec::new();
        self.version.serialize(&mut b);
        self.index.serialize(&mut b);
        self.timestamp.serialize(&mut b);
        self.hash_prev_block.serialize(&mut b);
        self.hash_merkle_root.serialize(&mut b);
        self.nonce.serialize(&mut b);
        proof {
            assert(b@ =~= self.spec_bytes());
        }
        b
    }

    /// The header's content hash: the SHA-256 digest of its canonical bytes.
    pub fn hash(&self) -> (r: [u8; 32])
        ensures
            r@ == sha256_of(self.spec_bytes()),
    {
        let bytes = self.to_bytes();
        crate::utils::sha256_bytes(bytes.as_slice())
    }
}

/// The canonical serialization is always exactly 86 bytes long,
/// whatever the six fields hold.
pub proof fn lemma_bytes_len(b: Block)
    ensures
        b.spec_bytes().len() == 86,
{
}

/// The canonical bytes, and with them the hash, are a pure function of the
/// six field values: two headers that agree on every field serialize to the
/// same bytes and hash to the same digest.
pub proof fn lemma_hash_deterministic(a: Block, b: Block)
    requires
        a.version == b.version,
        a.index == b.index,
        a.timestamp == b.timestamp,
        a.hash_prev_block == b.hash_prev_block,
        a.hash_merkle_root == b.hash_merkle_root,
        a.nonce == b.nonce,
    ensures
        a.spec_bytes() == b.spec_bytes(),
        sha256_of(a.spec_bytes()) == sha256_of(b.spec_bytes()),
{
}

/// Big-endian encoding of 64-bit values is injective: equal encodings
/// come only from equal values.
pub proof fn lemma_be_u64_injective(x: u64, y: u64)
    requires
        be_bytes_u64(x) == be_bytes_u64(y),
    ensures
        x == y,
{
    assert((x >> 56) as u8 == (y >> 56) as u8) by {
        assert(be_bytes_u64(x)[0] == be_bytes_u64(y)[0]);
    }
    assert((x >> 48) as u8 == (y >> 48) as u8) by {
        assert(be_bytes_u64(x)[1] == be_bytes_u64(y)[1]);
    }
    assert((x >> 40) as u8 == (y >> 40) as u8) by {
        assert(be_bytes_u64(x)[2] == be_bytes_u64(y)[2]);
    }
    assert((x >> 32) as u8 == (y >> 32) as u8) by {
        assert(be_bytes_u64(x)[3] == be_bytes_u64(y)[3]);
    }
    assert((x >> 24) as u8 == (y >> 24) as u8) by {
        assert(be_bytes_u64(x)[4] == be_bytes_u64(y)[4]);
    }
    assert((x >> 16) as u8 == (y >> 16) as u8) by {
        assert(be_bytes_u64(x)[5] == be_bytes_u64(y)[5]);
    }
    assert((x >> 8) as u8 == (y >> 8) as u8) by {
        assert(be_bytes_u64(x)[6] == be_bytes_u64(y)[6]);
    }
    assert(x as u8 == y as u8) by {
        assert(be_bytes_u64(x)[7] == be_bytes_u64(y)[7]);
    }
    assert(x == y) by (bit_vector)
        requires
            (x >> 56) as u8 == (y >> 56) as u8,
            (x >> 48) as u8 == (y >> 48) as u8,
            (x >> 40) as u8 == (y >> 40) as u8,
            (x >> 32) as u8 == (y >> 32) as u8,
            (x >> 24) as u8 == (y >> 24) as u8,
            (x >> 16) as u8 == (y >> 16) as u8,
            (x >> 8) as u8 == (y >> 8) as u8,
            x as u8 == y as u8,
    ;
}

/// Field order is not collapsed: swapping the two 32-byte hash fields of a
/// header changes its canonical bytes, unless the two fields hold the same
/// value.
pub proof fn lemma_swap_hash_fields_changes_bytes(a: Block, b: Block)
    requires
        b.version == a.version,
        b.index == a.index,
        b.timestamp == a.timestamp,
        b.hash_prev_block == a.hash_merkle_root,
        b.hash_merkle_root == a.hash_prev_block,
        b.nonce == a.nonce,
        a.hash_prev_block@ != a.hash_merkle_root@,
    ensures
        a.spec_bytes() != b.spec_bytes(),
{
    assert(exists|i: int|
        0 <= i < 32 && a.hash_prev_block@[i] != a.hash_merkle_root@[i]) by {
        if forall|i: int| 0 <= i < 32 ==> a.hash_prev_block@[i] == a.hash_merkle_root@[i] {
            assert(a.hash_prev_block@ =~= a.hash_merkle_root@);
        }
    }
    let i = choose|i: int| 0 <= i < 32 && a.hash_prev_block@[i] != a.hash_merkle_root@[i];
    assert(a.spec_bytes()[14 + i] == a.hash_prev_block@[i]);
    assert(b.spec_bytes()[14 + i] == b.hash_prev_block@[i]);
}

/// Field order is not collapsed for the two 64-bit fields either: swapping
/// timestamp and nonce changes the canonical bytes, unless the two values
/// are equal.
pub proof fn lemma_swap_time_nonce_changes_bytes(a: Block, b: Block)
    requires
        b.version == a.version,
        b.index == a.index,
        b.timestamp == a.nonce,
        b.hash_prev_block == a.hash_prev_block,
        b.hash_merkle_root == a.hash_merkle_root,
        b.nonce == a.timestamp,
        a.timestamp != a.nonce,
    ensures
        a.spec_bytes() != b.spec_bytes(),
{
    let ts = be_bytes_u64(a.timestamp);
    let nc = be_bytes_u64(a.nonce);
    assert(ts != nc) by {
        if ts == nc {
            lemma_be_u64_injective(a.timestamp, a.nonce);
        }
    }
    assert(exists|i: int| 0 <= i < 8 && ts[i] != nc[i]) by {
        if forall|i: int| 0 <= i < 8 ==> ts[i] == nc[i] {
            assert(ts =~= nc);
        }
    }
    let i = choose|i: int| 0 <= i < 8 && ts[i] != nc[i];
    assert(a.spec_bytes()[6 + i] == ts[i]);
    assert(b.spec_bytes()[6 + i] == nc[i]);
}

} // verus!
