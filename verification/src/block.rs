//! The ledger's data: balance transfers and the blocks that batch them,
//! with their mathematical views.

use vstd::prelude::*;

verus! {

/// A balance transfer between two accounts, immutable once built.
#[derive(Clone, Debug, PartialEq)]
pub struct Transaction {
    pub from: String,
    pub to: String,
    pub amount: u64,
}

/// The mathematical content of a transaction: both account ids as
/// character strings, and the amount.
pub struct TransactionV {
    pub from: Seq<char>,
    pub to: Seq<char>,
    pub amount: u64,
}

impl View for Transaction {
    type V = TransactionV;

    open spec fn view(&self) -> TransactionV {
        TransactionV { from: self.from@, to: self.to@, amount: self.amount }
    }
}

/// The views of a batch of transactions, in order.
pub open spec fn txs_view(s: Seq<Transaction>) -> Seq<TransactionV> {
    s.map_values(|t: Transaction| t@)
}

/// One link of the chain: a batch of transactions sealed by a nonce whose
/// hash satisfies the difficulty predicate.
#[derive(Clone, Debug, PartialEq)]
pub struct Block {
    pub index: u64,
    pub previous_hash: String,
    pub timestamp: u64,
    pub transactions: Vec<Transaction>,
    pub nonce: u64,
    pub hash: String,
}

/// The mathematical content of a block.
pub struct BlockV {
    pub index: u64,
    pub previous_hash: Seq<char>,
    pub timestamp: u64,
    pub transactions: Seq<TransactionV>,
    pub nonce: u64,
    pub hash: Seq<char>,
}

impl View for Block {
    type V = BlockV;

    open spec fn view(&self) -> BlockV {
        BlockV {
            index: self.index,
            previous_hash: self.previous_hash@,
            timestamp: self.timestamp,
            transactions: txs_view(self.transactions@),
            nonce: self.nonce,
            hash: self.hash@,
        }
    }
}

/// The views of a chain of blocks, in order.
pub open spec fn chain_view(s: Seq<Block>) -> Seq<BlockV> {
    s.map_values(|b: Block| b@)
}

/// A deep copy of a transaction, with the same content.
pub fn clone_tx(t: &Transaction) -> (r: Transaction)
    ensures
        r@ == t@,
{
    Transaction { from: t.from.clone(), to: t.to.clone(), amount: t.amount }
}

/// A deep copy of a transaction batch, with the same content.
pub fn clone_txs(v: &Vec<Transaction>) -> (r: Vec<Transaction>)
    ensures
        txs_view(r@) == txs_view(v@),
{
    let mut r: Vec<Transaction> = Vec::new();
    let mut i: usize = 0;
    while i < v.len()
        invariant
            i <= v@.len(),
            r@.len() == i,
            forall|j: int| 0 <= j < i ==> (#[trigger] r@[j])@ == v@[j]@,
        decreases v@.len() - i,
    {
        r.push(clone_tx(&v[i]));
        i += 1;
    }
    proof {
        assert forall|j: int| 0 <= j < v@.len() implies txs_view(r@)[j] == txs_view(v@)[j] by {
            assert(r@[j]@ == v@[j]@);
        }
        assert(txs_view(r@) =~= txs_view(v@));
    }
    r
}

/// A deep copy of a block, with the same content.
pub fn clone_block(b: &Block) -> (r: Block)
    ensures
        r@ == b@,
{
    let r = Block {
        index: b.index,
        previous_hash: b.previous_hash.clone(),
        timestamp: b.timestamp,
        transactions: clone_txs(&b.transactions),
        nonce: b.nonce,
        hash: b.hash.clone(),
    };
    r
}

} // verus!
