//! A transaction together with the Merkle path that proves it part of a block.

use crate::chain::{
    block_hash_of, block_transactions, header_hash, transaction_at, transaction_count,
    transaction_id, transaction_ids, txid_of,
};
use crate::merkle::{
    compute_path, fold_path, hashes_view, is_ceil_log2, merkle_path, merkle_root_of, path_view,
    root_from_path, ProofError,
};
use crate::theorems::lemma_round_trip;
use bitcoin::{Block, Transaction};
use vstd::prelude::*;

verus! {

/// A confirmed transaction with its proof of inclusion in a block.
#[derive(Clone, Debug, PartialEq, Eq)]
pub struct ProvedTransaction {
    transaction: Transaction,
    merkle_path: Vec<(bool, [u8; 32])>,
    block_hash: [u8; 32],
}

impl ProvedTransaction {
    /// The proved transaction.
    pub closed spec fn tx(&self) -> Transaction {
        self.transaction
    }

    /// The identifier of the proved transaction: the leaf of the path.
    pub open spec fn leaf(&self) -> Seq<u8> {
        txid_of(self.tx())
    }

    /// The authentication path, from the leaf up to the root.
    pub closed spec fn path(&self) -> Seq<(bool, Seq<u8>)> {
        path_view(self.merkle_path@)
    }

    /// The hash of the block that the transaction was proved against.
    pub closed spec fn block_id(&self) -> Seq<u8> {
        self.block_hash@
    }

    /// Proves the transaction at `txnr` of `block` part of it.
    pub fn new(block: &Block, txnr: usize) -> (r: Result<ProvedTransaction, ProofError>)
        ensures
            block_transactions(*block).len() <= usize::MAX,
            r is Ok <==> txnr < transaction_ids(*block).len(),
            transaction_ids(*block).len() == 0 ==> r == Err::<ProvedTransaction, ProofError>(
                ProofError::EmptyBlock,
            ),
            (transaction_ids(*block).len() > 0 && txnr >= transaction_ids(*block).len()) ==> r
                == Err::<ProvedTransaction, ProofError>(ProofError::IndexOutOfRange),
            r matches Ok(p) ==> {
                &&& p.tx() == block_transactions(*block)[txnr as int]
                &&& p.leaf() == transaction_ids(*block)[txnr as int]
                &&& p.path() == merkle_path(transaction_ids(*block), txnr as int)
                &&& p.block_id() == header_hash(*block)
                &&& fold_path(p.leaf(), p.path()) == merkle_root_of(transaction_ids(*block))
            },
    {
        match Self::compute_proof(txnr, block) {
            Err(e) => Err(e),
            Ok(merkle_path) => {
                let transaction = transaction_at(block, txnr).clone();
                let block_hash = block_hash_of(block);
                proof {
                    lemma_round_trip(transaction_ids(*block), txnr as int);
                }
                Ok(ProvedTransaction { transaction, merkle_path, block_hash })
            },
        }
    }

    /// A copy of the proved transaction.
    pub fn get_transaction(&self) -> (r: Transaction)
        ensures
            r == self.tx(),
    {
        self.transaction.clone()
    }

    /// The hash of the block that the transaction was proved against.
    pub fn get_block_hash(&self) -> (r: &[u8; 32])
        ensures
            r@ == self.block_id(),
    {
        &self.block_hash
    }

    /// The Merkle root that the proof implies: the transaction's identifier
    /// with the path folded into it.
    pub fn merkle_root(&self) -> (r: [u8; 32])
        ensures
            r@ == fold_path(self.leaf(), self.path()),
    {
        let txid = transaction_id(&self.transaction);
        root_from_path(&txid, &self.merkle_path)
    }

    /// The authentication path of the transaction at `track` of `block`.
    pub fn compute_proof(track: usize, block: &Block) -> (r: Result<
        Vec<(bool, [u8; 32])>,
        ProofError,
    >)
        ensures
            block_transactions(*block).len() <= usize::MAX,
            r is Ok <==> track < transaction_ids(*block).len(),
            transaction_ids(*block).len() == 0 ==> r == Err::<
                Vec<(bool, [u8; 32])>,
                ProofError,
            >(ProofError::EmptyBlock),
            (transaction_ids(*block).len() > 0 && track >= transaction_ids(*block).len()) ==> r
                == Err::<Vec<(bool, [u8; 32])>, ProofError>(ProofError::IndexOutOfRange),
            r matches Ok(p) ==> path_view(p@) == merkle_path(
                transaction_ids(*block),
                track as int,
            ),
            r matches Ok(p) ==> is_ceil_log2(transaction_ids(*block).len(), p.len() as nat),
    {
        let ids = block_transaction_ids(block);
        compute_path(&ids, track)
    }
}

/// The identifiers of the transactions of `block`, in block order.
fn block_transaction_ids(block: &Block) -> (r: Vec<[u8; 32]>)
    ensures
        block_transactions(*block).len() <= usize::MAX,
        hashes_view(r@) == transaction_ids(*block),
{
    let n = transaction_count(block);
    let mut ids: Vec<[u8; 32]> = Vec::with_capacity(n);
    let mut i: usize = 0;
    while i < n
        invariant
            n == block_transactions(*block).len(),
            i <= n,
            hashes_view(ids@) == transaction_ids(*block).take(i as int),
        decreases n - i,
    {
        let id = transaction_id(transaction_at(block, i));
        let ghost before = ids@;
        ids.push(id);
        assert(hashes_view(ids@) =~= hashes_view(before).push(id@));
        assert(transaction_ids(*block).take(i + 1) =~= transaction_ids(*block).take(i as int).push(
            id@,
        ));
        i += 1;
    }
    assert(transaction_ids(*block).take(n as int) =~= transaction_ids(*block));
    ids
}

} // verus!
