//! The block model of the `bitcoin` crate, as far as a proof of inclusion
//! reads it: the identifiers of a block's transactions, one transaction, and
//! the block's own hash.

use bitcoin::{Block, Transaction};
use vstd::prelude::*;

verus! {

#[verifier::external_type_specification]
#[verifier::external_body]
pub struct ExTransaction(bitcoin::Transaction);

#[verifier::external_type_specification]
#[verifier::external_body]
pub struct ExBlock(bitcoin::Block);

/// The transactions of `block`, in block order.
pub uninterp spec fn block_transactions(block: Block) -> Seq<Transaction>;

/// The identifier (txid) of `tx`.
pub uninterp spec fn txid_of(tx: Transaction) -> Seq<u8>;

/// The hash of the header of `block`.
pub uninterp spec fn header_hash(block: Block) -> Seq<u8>;

/// The identifiers of the transactions of `block`, in block order.
pub open spec fn transaction_ids(block: Block) -> Seq<Seq<u8>> {
    block_transactions(block).map_values(|tx: Transaction| txid_of(tx))
}

/// Relies on `Vec::len` of `Block::txdata`: the number of transactions.
#[verifier::external_body]
pub(crate) fn transaction_count(block: &Block) -> (r: usize)
    ensures
        r == block_transactions(*block).len(),
{
    block.txdata.len()
}

/// Relies on indexing `Block::txdata`: the transaction at `i`.
#[verifier::external_body]
pub(crate) fn transaction_at(block: &Block, i: usize) -> (r: &Transaction)
    requires
        i < block_transactions(*block).len(),
    ensures
        *r == block_transactions(*block)[i as int],
{
    &block.txdata[i]
}

/// Relies on `bitcoin::Transaction::txid`, whose bytes are `into_inner` of
/// the returned hash; it depends on the transaction alone.
#[verifier::external_body]
pub(crate) fn transaction_id(tx: &Transaction) -> (r: [u8; 32])
    ensures
        r@ == txid_of(*tx),
{
    bitcoin::hashes::Hash::into_inner(tx.txid())
}

/// Relies on the derived `Clone` of `bitcoin::Transaction`, which clones
/// every field: the copy is the same transaction.
pub assume_specification[ <bitcoin::Transaction as core::clone::Clone>::clone ](
    tx: &bitcoin::Transaction,
) -> (r: bitcoin::Transaction)
    ensures
        r == *tx,
;

/// Relies on `bitcoin::BitcoinHash::bitcoin_hash` of `Block::header`, whose
/// bytes are `into_inner` of the returned block hash.
#[verifier::external_body]
pub(crate) fn block_hash_of(block: &Block) -> (r: [u8; 32])
    ensures
        r@ == header_hash(*block),
{
    bitcoin::hashes::Hash::into_inner(bitcoin::BitcoinHash::bitcoin_hash(&block.header))
}

} // verus!
