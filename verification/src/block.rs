//! The block record: an index, ordered transaction texts, an epoch-seconds
//! timestamp, the previous block's hash text, its own hash text, and a nonce.

use vstd::prelude::*;

verus! {

/// A single block record. The type enforces no invariant of its own:
/// uniqueness, linkage and hash correctness are the caller's business.
#[derive(Debug, Clone)]
pub struct Block {
    pub index: u32,
    pub transactions: Vec<String>,
    pub timestamp: u64,
    pub previous_hash: String,
    pub hash: String,
    pub nonce: u32,
}

/// The mathematical content of a block: its fields, with every text as a
/// sequence of characters.
#[verifier::ext_equal]
pub ghost struct BlockView {
    pub index: u32,
    pub transactions: Seq<Seq<char>>,
    pub timestamp: u64,
    pub previous_hash: Seq<char>,
    pub hash: Seq<char>,
    pub nonce: u32,
}

impl View for Block {
    type V = BlockView;

    open spec fn view(&self) -> BlockView {
        BlockView {
            index: self.index,
            transactions: self.transactions.deep_view(),
            timestamp: self.timestamp,
            previous_hash: self.previous_hash@,
            hash: self.hash@,
            nonce: self.nonce,
        }
    }
}

/// The hash text a fresh block carries before any digest is stored in it.
pub open spec fn placeholder_hash() -> Seq<char> {
    seq!['0']
}

/// The digest of a block: the SHA-256 hash of the UTF-8 bytes of its
/// canonical text, rendered as lowercase hexadecimal. A function of the
/// block's field values alone — the stored hash text among them.
pub open spec fn block_digest(v: BlockView) -> Seq<char> {
    crate::hashing::sha256_hex_of(vstd::utf8::encode_utf8(crate::codec::encode_spec(v)))
}

/// The same block with its stored hash text frozen to the placeholder.
pub open spec fn frozen_view(v: BlockView) -> BlockView {
    BlockView {
        index: v.index,
        transactions: v.transactions,
        timestamp: v.timestamp,
        previous_hash: v.previous_hash,
        hash: placeholder_hash(),
        nonce: v.nonce,
    }
}

/// The digest of a block's content: as `block_digest`, but with the stored
/// hash text frozen to the placeholder first, so that the result does not
/// depend on whatever digest was stored earlier.
pub open spec fn content_digest(v: BlockView) -> Seq<char> {
    block_digest(frozen_view(v))
}

impl Block {
    /// Builds a block with every field given, the stored hash set to the
    /// placeholder and the nonce to zero.
    pub fn new_at(
        block_index: u32,
        transaction_vec: Vec<String>,
        prev_hash: String,
        timestamp: u64,
    ) -> (b: Block)
        ensures
            b@.index == block_index,
            b@.transactions == transaction_vec.deep_view(),
            b@.timestamp == timestamp,
            b@.previous_hash == prev_hash@,
            b@.hash == placeholder_hash(),
            b@.nonce == 0,
    {
        proof {
            reveal_strlit("0");
        }
        let placeholder = String::from_str("0");
        assert(placeholder@ =~= placeholder_hash());
        Block {
            index: block_index,
            transactions: transaction_vec,
            timestamp,
            previous_hash: prev_hash,
            hash: placeholder,
            nonce: 0u32,
        }
    }

    /// Renders the canonical text of this block.
    pub fn get_json(&self) -> (r: String)
        ensures
            r@ == crate::codec::encode_spec(self@),
    {
        let chars = crate::codec::encode_chars(self);
        crate::text::string_of(&chars)
    }

    /// Computes the digest of this block's canonical text. The record is
    /// left as it was: the result is only stored if the caller assigns it.
    pub fn compute_hash(&mut self) -> (r: String)
        ensures
            *final(self) == *old(self),
            r@ == block_digest(old(self)@),
            r@.len() == 64,
            forall|i: int| 0 <= i < r@.len() ==> crate::hashing::is_lower_hex_digit(
                #[trigger] r@[i],
            ),
    {
        let json = self.get_json();
        crate::hashing::sha256_hex(json.as_str().as_bytes())
    }

    /// Computes the digest of this block's content: the stored hash text is
    /// frozen to the placeholder before hashing, so the result is the same
    /// whatever digest was stored earlier.
    pub fn compute_content_hash(&self) -> (r: String)
        ensures
            r@ == content_digest(self@),
            r@.len() == 64,
            forall|i: int| 0 <= i < r@.len() ==> crate::hashing::is_lower_hex_digit(
                #[trigger] r@[i],
            ),
    {
        proof {
            reveal_strlit("0");
        }
        let placeholder = String::from_str("0");
        let frozen = Block {
            index: self.index,
            transactions: self.transactions.clone(),
            timestamp: self.timestamp,
            previous_hash: self.previous_hash.clone(),
            hash: placeholder,
            nonce: self.nonce,
        };
        proof {
            broadcast use vstd::std_specs::vec::vec_clone_deep_view_proof;

            assert(frozen@ =~= frozen_view(self@));
        }
        let json = frozen.get_json();
        crate::hashing::sha256_hex(json.as_str().as_bytes())
    }

    /// Computes the content digest and stores it, in one step: afterwards
    /// the stored hash text is exactly the digest of the other fields.
    pub fn finalize(&mut self)
        ensures
            final(self)@.hash == content_digest(old(self)@),
            final(self)@.index == old(self)@.index,
            final(self)@.transactions == old(self)@.transactions,
            final(self)@.timestamp == old(self)@.timestamp,
            final(self)@.previous_hash == old(self)@.previous_hash,
            final(self)@.nonce == old(self)@.nonce,
    {
        let d = self.compute_content_hash();
        self.hash = d;
    }

    /// Builds a block as `new_at` does, capturing the current time in epoch
    /// seconds as the timestamp. The timestamp is whatever the clock gave.
    pub fn new(block_index: u32, transaction_vec: Vec<String>, prev_hash: String) -> (b: Block)
        ensures
            b@.index == block_index,
            b@.transactions == transaction_vec.deep_view(),
            b@.previous_hash == prev_hash@,
            b@.hash == placeholder_hash(),
            b@.nonce == 0,
    {
        let now = crate::clock::current_epoch_seconds();
        Block::new_at(block_index, transaction_vec, prev_hash, now)
    }
}

} // verus!
