//! The laws of the block record, stated over all field values and proved
//! from the contracts of the encoder, the parser and the digest.

use vstd::prelude::*;

use crate::block::{block_digest, content_digest, frozen_view, BlockView};
use crate::codec::{encode_spec, lemma_parse_of_encode, parse_block_spec};

verus! {

/// Hashing is deterministic: blocks with equal field values have equal
/// digests, however often and wherever the digest is computed.
pub proof fn lemma_digest_deterministic(a: BlockView, b: BlockView)
    requires
        a == b,
    ensures
        block_digest(a) == block_digest(b),
{
}

/// The canonical text pins a block down: equal texts come only from equal
/// field values, so changing any field — a transaction appended, two
/// transactions swapped, the nonce moved — changes the canonical text.
pub proof fn lemma_encode_injective(a: BlockView, b: BlockView)
    requires
        encode_spec(a) == encode_spec(b),
    ensures
        a == b,
{
    lemma_parse_of_encode(a);
    lemma_parse_of_encode(b);
}

/// The byte strings handed to the hash function pin a block down as well:
/// blocks that differ in any field hand the hash different bytes.
pub proof fn lemma_hash_input_injective(a: BlockView, b: BlockView)
    requires
        vstd::utf8::encode_utf8(encode_spec(a)) == vstd::utf8::encode_utf8(encode_spec(b)),
    ensures
        a == b,
{
    vstd::utf8::encode_utf8_decode_utf8(encode_spec(a));
    vstd::utf8::encode_utf8_decode_utf8(encode_spec(b));
    lemma_encode_injective(a, b);
}

/// The content digest ignores the stored hash text: blocks that agree on
/// every other field have the same content digest. Finalizing a block twice
/// therefore stores the same digest as finalizing it once.
pub proof fn lemma_content_digest_ignores_stored_hash(a: BlockView, b: BlockView)
    requires
        a.index == b.index,
        a.transactions == b.transactions,
        a.timestamp == b.timestamp,
        a.previous_hash == b.previous_hash,
        a.nonce == b.nonce,
    ensures
        content_digest(a) == content_digest(b),
{
    assert(frozen_view(a) =~= frozen_view(b));
}

/// Decoding a canonical text and encoding what was decoded yields the same
/// text again, character for character.
pub proof fn lemma_reencode_identity(s: Seq<char>)
    requires
        exists|w: BlockView| s == encode_spec(w),
    ensures
        parse_block_spec(s) is Some,
        encode_spec(parse_block_spec(s)->0) == s,
{
    let w = choose|w: BlockView| s == encode_spec(w);
    lemma_parse_of_encode(w);
}

} // verus!
