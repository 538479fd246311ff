//! The ledger state machine: accounts, mempool and chain, with
//! transaction admission, proof-of-work sealing, and block validation
//! and application.

use crate::accounts::{Accounts, transfer};
use crate::block::{Block, BlockV, Transaction, TransactionV, chain_view, clone_block, clone_txs,
    txs_view};
use crate::codec::{block_json, json_of_block};
use crate::digest::{random_seed, sha256, sha256_of};
use crate::hex::{hex_of, is_hex_char, lemma_hex_of_shape, to_hex};
use crate::is_valid_hash_spec;
use vstd::prelude::*;
use vstd::string::StrSliceExecFns;

verus! {

/// The hash string of a block: the hex rendering of the digest of the
/// block's canonical encoding. The encoding covers every field, the
/// current `hash` field included.
pub open spec fn block_hash_chars(b: BlockV) -> Seq<char> {
    hex_of(sha256_of(json_of_block(b)))
}

/// What the nonce search returns for a candidate block: the first state,
/// counting nonces upward, whose hash string satisfies the difficulty
/// predicate — each round rehashes the block with the incremented nonce
/// and the previous round's hash string still in the `hash` field — or
/// the state at the end of the nonce space if no round satisfied it.
pub open spec fn pow_search(b: BlockV) -> BlockV
    decreases u64::MAX - b.nonce,
{
    if is_valid_hash_spec(b.hash) {
        b
    } else if b.nonce == u64::MAX {
        b
    } else {
        let stepped = BlockV {
            index: b.index,
            previous_hash: b.previous_hash,
            timestamp: b.timestamp,
            transactions: b.transactions,
            nonce: (b.nonce + 1) as u64,
            hash: b.hash,
        };
        let sealed = BlockV {
            index: stepped.index,
            previous_hash: stepped.previous_hash,
            timestamp: stepped.timestamp,
            transactions: stepped.transactions,
            nonce: stepped.nonce,
            hash: block_hash_chars(stepped),
        };
        pow_search(sealed)
    }
}

/// The candidate block mining starts from: next index, linked to the
/// tip, the mempool as its batch, nonce zero and an empty hash string.
pub open spec fn mined_candidate(
    c: Seq<BlockV>,
    mempool: Seq<TransactionV>,
    timestamp: u64,
) -> BlockV
    recommends
        c.len() >= 1,
        c.last().index < u64::MAX,
{
    BlockV {
        index: (c.last().index + 1) as u64,
        previous_hash: c.last().hash,
        timestamp,
        transactions: mempool,
        nonce: 0,
        hash: Seq::<char>::empty(),
    }
}

/// A block fits onto a chain when it names the tip's hash, carries the
/// next index, and declares the hash its own content yields.
pub open spec fn valid_for_chain(c: Seq<BlockV>, b: BlockV) -> bool
    recommends
        c.len() >= 1,
{
    &&& b.previous_hash == c.last().hash
    &&& b.index as int == c.last().index as int + 1
    &&& b.hash == block_hash_chars(b)
}

/// The effect of one transaction on the balance map.
pub open spec fn tx_transfer(m: Map<Seq<char>, u64>, t: TransactionV) -> Option<
    Map<Seq<char>, u64>,
> {
    transfer(m, t.from, t.to, t.amount)
}

/// Every transaction of the batch applies in order.
pub open spec fn applies_fully(m: Map<Seq<char>, u64>, ts: Seq<TransactionV>) -> bool
    decreases ts.len(),
{
    if ts.len() == 0 {
        true
    } else {
        match tx_transfer(m, ts[0]) {
            Some(m2) => applies_fully(m2, ts.drop_first()),
            None => false,
        }
    }
}

/// The balance map after applying the batch in order, stopping at the
/// first transaction that fails; what came before it stays applied.
pub open spec fn apply_all(m: Map<Seq<char>, u64>, ts: Seq<TransactionV>) -> Map<Seq<char>, u64>
    decreases ts.len(),
{
    if ts.len() == 0 {
        m
    } else {
        match tx_transfer(m, ts[0]) {
            Some(m2) => apply_all(m2, ts.drop_first()),
            None => m,
        }
    }
}

/// The ledger: the chain from genesis, the transactions awaiting a block,
/// and the balances.
pub struct Blockchain {
    pub chain: Vec<Block>,
    pub mempool: Vec<Transaction>,
    pub accounts: Accounts,
}

/// The fixed content of the first block of every chain.
pub open spec fn is_genesis(b: BlockV) -> bool {
    &&& b.index == 0
    &&& b.previous_hash == "0"@
    &&& b.timestamp == 0
    &&& b.transactions == Seq::<TransactionV>::empty()
    &&& b.nonce == 0
    &&& b.hash == "genesis_hash"@
}

impl Blockchain {
    /// Well-formedness: the chain starts at the genesis block, indexes
    /// its blocks consecutively, links each block to its predecessor's
    /// hash, and the balance store never repeats an id.
    pub open spec fn wf(&self) -> bool {
        let c = chain_view(self.chain@);
        &&& c.len() >= 1
        &&& is_genesis(c[0])
        &&& forall|i: int| 0 <= i < c.len() ==> (#[trigger] c[i]).index as int == i
        &&& forall|i: int| 1 <= i < c.len() ==> (#[trigger] c[i]).previous_hash == c[i - 1].hash
        &&& self.accounts.wf()
    }

    /// A fresh ledger: the genesis block alone, no pending transactions,
    /// no accounts.
    pub fn new() -> (r: Blockchain)
        ensures
            r.wf(),
            chain_view(r.chain@).len() == 1,
            chain_view(r.chain@)[0].index == 0,
            chain_view(r.chain@)[0].previous_hash == "0"@,
            chain_view(r.chain@)[0].timestamp == 0,
            chain_view(r.chain@)[0].transactions == Seq::<TransactionV>::empty(),
            chain_view(r.chain@)[0].nonce == 0,
            chain_view(r.chain@)[0].hash == "genesis_hash"@,
            r.mempool@ == Seq::<Transaction>::empty(),
            r.accounts@ == Map::<Seq<char>, u64>::empty(),
    {
        let mut chain: Vec<Block> = Vec::new();
        chain.push(Blockchain::create_genesis_block());
        let r = Blockchain { chain, mempool: Vec::new(), accounts: Accounts::new() };
        proof {
            assert(chain_view(r.chain@).len() == 1);
            assert(is_genesis(chain_view(r.chain@)[0]));
        }
        r
    }

    /// The fixed first block: index zero, previous hash "0", and the
    /// literal sentinel "genesis_hash" in place of a computed hash.
    pub fn create_genesis_block() -> (r: Block)
        ensures
            r@.index == 0,
            r@.previous_hash == "0"@,
            r@.timestamp == 0,
            r@.transactions == Seq::<TransactionV>::empty(),
            r@.nonce == 0,
            r@.hash == "genesis_hash"@,
    {
        let r = Block {
            index: 0,
            previous_hash: String::from_str("0"),
            timestamp: 0,
            transactions: Vec::new(),
            nonce: 0,
            hash: String::from_str("genesis_hash"),
        };
        proof {
            assert(r@.transactions =~= Seq::<TransactionV>::empty());
        }
        r
    }

    /// Draws a fresh random seed, digests it, and opens an account under
    /// the hex id with the fixed faucet balance of 50. An id is 64
    /// lowercase hex characters.
    pub fn create_account(&mut self) -> (r: String)
        requires
            old(self).wf(),
        ensures
            final(self).wf(),
            r@.len() == 64,
            forall|i: int| 0 <= i < r@.len() ==> is_hex_char(#[trigger] r@[i]),
            final(self).accounts@ == old(self).accounts@.insert(r@, 50),
            final(self).chain == old(self).chain,
            final(self).mempool == old(self).mempool,
    {
        let seed = random_seed();
        let digest = sha256(&seed);
        let id = to_hex(&digest);
        proof {
            lemma_hex_of_shape(digest@);
        }
        self.accounts.set(id.as_str(), 50);
        id
    }

    /// Admits a transfer: if the sender exists, covers the amount, and
    /// the credited balance fits, the balances move at once and the
    /// transaction joins the mempool; otherwise nothing changes.
    pub fn add_transaction(&mut self, from: String, to: String, amount: u64) -> (r: bool)
        requires
            old(self).wf(),
        ensures
            final(self).wf(),
            final(self).chain == old(self).chain,
            r == (transfer(old(self).accounts@, from@, to@, amount) is Some),
            r ==> final(self).accounts@ == transfer(old(self).accounts@, from@, to@, amount)->0
                && txs_view(final(self).mempool@) == txs_view(old(self).mempool@).push(
                (TransactionV { from: from@, to: to@, amount }),
            ),
            !r ==> final(self).accounts@ == old(self).accounts@ && final(self).mempool == old(
                self,
            ).mempool,
    {
        let tx = Transaction { from, to, amount };
        if self.apply_transaction(&tx) {
            proof {
                assert(txs_view(self.mempool@.push(tx)) =~= txs_view(self.mempool@).push(tx@));
            }
            self.mempool.push(tx);
            true
        } else {
            false
        }
    }

    /// Applies one transaction to the balances: debit the sender, credit
    /// the receiver (creating it at zero), or fail with nothing changed.
    fn apply_transaction(&mut self, tx: &Transaction) -> (r: bool)
        requires
            old(self).wf(),
        ensures
            final(self).wf(),
            final(self).chain == old(self).chain,
            final(self).mempool == old(self).mempool,
            r == (tx_transfer(old(self).accounts@, tx@) is Some),
            r ==> final(self).accounts@ == tx_transfer(old(self).accounts@, tx@)->0,
            !r ==> final(self).accounts@ == old(self).accounts@,
    {
        let bal = match self.accounts.get(tx.from.as_str()) {
            Some(b) => b,
            None => {
                return false;
            },
        };
        if bal < tx.amount {
            return false;
        }
        let debited = bal - tx.amount;
        self.accounts.set(tx.from.as_str(), debited);
        let base = match self.accounts.get(tx.to.as_str()) {
            Some(b) => b,
            None => 0,
        };
        match base.checked_add(tx.amount) {
            Some(credited) => {
                self.accounts.set(tx.to.as_str(), credited);
                true
            },
            None => {
                self.accounts.set(tx.from.as_str(), bal);
                proof {
                    assert(self.accounts@ =~= old(self).accounts@);
                }
                false
            },
        }
    }

    /// Builds the next candidate block from the mempool, stamps it with
    /// the clock, and seals it by proof-of-work.
    pub fn mine_block(&mut self) -> (r: Block)
        requires
            old(self).wf(),
        ensures
            final(self).wf(),
            final(self).accounts@ == old(self).accounts@,
            r@ == pow_search(
                mined_candidate(
                    chain_view(old(self).chain@),
                    txs_view(old(self).mempool@),
                    r@.timestamp,
                ),
            ),
            r@.index as int == chain_view(old(self).chain@).last().index as int + 1,
            r@.previous_hash == chain_view(old(self).chain@).last().hash,
            r@.transactions == txs_view(old(self).mempool@),
            is_valid_hash_spec(r@.hash) ==> chain_view(final(self).chain@) == chain_view(
                old(self).chain@,
            ).push(r@) && final(self).mempool@ == Seq::<Transaction>::empty(),
            !is_valid_hash_spec(r@.hash) ==> r@.nonce == u64::MAX && final(self).chain == old(
                self,
            ).chain && final(self).mempool == old(self).mempool,
    {
        let now = Blockchain::current_timestamp();
        self.mine_block_at(now)
    }

    /// As `mine_block`, with the timestamp supplied by the caller.
    pub fn mine_block_at(&mut self, timestamp: u64) -> (r: Block)
        requires
            old(self).wf(),
        ensures
            final(self).wf(),
            final(self).accounts@ == old(self).accounts@,
            r@ == pow_search(
                mined_candidate(
                    chain_view(old(self).chain@),
                    txs_view(old(self).mempool@),
                    timestamp,
                ),
            ),
            r@.index as int == chain_view(old(self).chain@).last().index as int + 1,
            r@.previous_hash == chain_view(old(self).chain@).last().hash,
            r@.timestamp == timestamp,
            r@.transactions == txs_view(old(self).mempool@),
            is_valid_hash_spec(r@.hash) ==> chain_view(final(self).chain@) == chain_view(
                old(self).chain@,
            ).push(r@) && final(self).mempool@ == Seq::<Transaction>::empty(),
            !is_valid_hash_spec(r@.hash) ==> r@.nonce == u64::MAX && final(self).chain == old(
                self,
            ).chain && final(self).mempool == old(self).mempool,
    {
        let n = self.chain.len();
        proof {
            assert(chain_view(self.chain@)[n - 1].index as int == n - 1);
        }
        let last = &self.chain[n - 1];
        let candidate = Block {
            index: last.index + 1,
            previous_hash: last.hash.clone(),
            timestamp,
            transactions: clone_txs(&self.mempool),
            nonce: 0,
            hash: String::new(),
        };
        proof {
            assert(chain_view(self.chain@).last() == self.chain@[n - 1]@);
            assert(candidate@ == mined_candidate(
                chain_view(self.chain@),
                txs_view(self.mempool@),
                timestamp,
            ));
        }
        let mined = self.proof_of_work(candidate);
        if Blockchain::is_valid_hash(mined.hash.as_str()) {
            let sealed = clone_block(&mined);
            proof {
                assert(chain_view(self.chain@.push(sealed)) =~= chain_view(self.chain@).push(
                    mined@,
                ));
            }
            self.chain.push(sealed);
            self.mempool.clear();
            proof {
                let c = chain_view(self.chain@);
                let c0 = chain_view(old(self).chain@);
                assert(c[0] == c0[0]);
                assert forall|i: int| 0 <= i < c.len() implies (#[trigger] c[i]).index as int
                    == i by {
                    if i < c.len() - 1 {
                        assert(c[i] == c0[i]);
                    }
                }
                assert forall|i: int| 1 <= i < c.len() implies (#[trigger] c[i]).previous_hash
                    == c[i - 1].hash by {
                    if i < c.len() - 1 {
                        assert(c[i] == c0[i]);
                        assert(c[i - 1] == c0[i - 1]);
                    }
                }
            }
        }
        mined
    }

    /// Searches nonces upward from the candidate's for one whose
    /// recomputed hash satisfies the difficulty predicate. Each round
    /// hashes the block as it then stands, the previous round's hash
    /// string included. The search gives up only when the nonce space is
    /// exhausted.
    pub fn proof_of_work(&mut self, block: Block) -> (r: Block)
        ensures
            *final(self) == *old(self),
            r@ == pow_search(block@),
            r@.index == block@.index,
            r@.previous_hash == block@.previous_hash,
            r@.timestamp == block@.timestamp,
            r@.transactions == block@.transactions,
            is_valid_hash_spec(r@.hash) || r@.nonce == u64::MAX,
            is_valid_hash_spec(block@.hash) ==> r@ == block@,
    {
        let mut b = block;
        let mut done = Blockchain::is_valid_hash(b.hash.as_str());
        while !done && b.nonce < u64::MAX
            invariant
                b@.index == block@.index,
                b@.previous_hash == block@.previous_hash,
                b@.timestamp == block@.timestamp,
                b@.transactions == block@.transactions,
                done == is_valid_hash_spec(b@.hash),
                pow_search(block@) == pow_search(b@),
            decreases u64::MAX - b.nonce,
        {
            let ghost pre = b@;
            b.nonce = b.nonce + 1;
            let ghost stepped = b@;
            b.hash = Blockchain::hash(&b);
            proof {
                assert(b@ == BlockV {
                    index: stepped.index,
                    previous_hash: stepped.previous_hash,
                    timestamp: stepped.timestamp,
                    transactions: stepped.transactions,
                    nonce: stepped.nonce,
                    hash: block_hash_chars(stepped),
                });
                assert(pow_search(pre) == pow_search(b@));
            }
            done = Blockchain::is_valid_hash(b.hash.as_str());
        }
        proof {
            assert(pow_search(b@) == b@);
        }
        b
    }

    /// The hash string a block's content yields.
    pub fn hash(block: &Block) -> (r: String)
        ensures
            r@ == block_hash_chars(block@),
    {
        let json = block_json(block);
        let digest = sha256(&json);
        to_hex(&digest)
    }

    /// Whether a hash string satisfies the difficulty predicate: its
    /// first four characters are '0'.
    pub fn is_valid_hash(hash: &str) -> (r: bool)
        ensures
            r == is_valid_hash_spec(hash@),
    {
        if hash.unicode_len() < 4 {
            return false;
        }
        let c0 = hash.get_char(0);
        let c1 = hash.get_char(1);
        let c2 = hash.get_char(2);
        let c3 = hash.get_char(3);
        c0 == '0' && c1 == '0' && c2 == '0' && c3 == '0'
    }

    /// Relies on std::time::SystemTime: the seconds of the wall clock,
    /// of which nothing further can be assumed.
    #[verifier::external_body]
    pub fn current_timestamp() -> u64 {
        match std::time::SystemTime::now().duration_since(std::time::UNIX_EPOCH) {
            Ok(since_epoch) => since_epoch.as_secs(),
            Err(_) => 0,
        }
    }

    /// Accepts a block that validates against the tip, applying its
    /// transactions in order. A transaction that fails stops the call
    /// with `false`; what was already applied stays applied and the
    /// block is not appended.
    #[verifier::rlimit(60)]
    pub fn add_block(&mut self, block: Block) -> (r: bool)
        requires
            old(self).wf(),
        ensures
            final(self).wf(),
            final(self).mempool == old(self).mempool,
            r == (valid_for_chain(chain_view(old(self).chain@), block@) && applies_fully(
                old(self).accounts@,
                block@.transactions,
            )),
            r ==> chain_view(final(self).chain@) == chain_view(old(self).chain@).push(block@),
            !r ==> final(self).chain == old(self).chain,
            valid_for_chain(chain_view(old(self).chain@), block@) ==> final(self).accounts@
                == apply_all(old(self).accounts@, block@.transactions),
            !valid_for_chain(chain_view(old(self).chain@), block@) ==> final(self).accounts@ == old(
                self,
            ).accounts@,
    {
        if !self.validate_block(&block) {
            return false;
        }
        let ghost m0 = self.accounts@;
        let ghost tsv = block@.transactions;
        proof {
            assert(tsv.subrange(0, tsv.len() as int) =~= tsv);
        }
        let mut i: usize = 0;
        while i < block.transactions.len()
            invariant
                old(self).wf(),
                self.wf(),
                valid_for_chain(chain_view(old(self).chain@), block@),
                i <= block.transactions@.len(),
                tsv == txs_view(block.transactions@),
                tsv.len() == block.transactions@.len(),
                self.chain == old(self).chain,
                self.mempool == old(self).mempool,
                applies_fully(m0, tsv) == applies_fully(self.accounts@, tsv.subrange(i as int, tsv.len() as int)),
                apply_all(m0, tsv) == apply_all(self.accounts@, tsv.subrange(i as int, tsv.len() as int)),
                m0 == old(self).accounts@,
            decreases block.transactions@.len() - i,
        {
            let ghost pre = self.accounts@;
            let ok = self.apply_transaction(&block.transactions[i]);
            proof {
                let rest = tsv.subrange(i as int, tsv.len() as int);
                assert(rest[0] == tsv[i as int]);
                assert(tsv[i as int] == block.transactions@[i as int]@);
                assert(rest.drop_first() =~= tsv.subrange(i + 1, tsv.len() as int));
            }
            if !ok {
                return false;
            }
            i += 1;
        }
        proof {
            assert(tsv.subrange(tsv.len() as int, tsv.len() as int) =~= Seq::<
                TransactionV,
            >::empty());
            assert(applies_fully(self.accounts@, Seq::<TransactionV>::empty()));
        }
        let ghost c0 = chain_view(self.chain@);
        proof {
            assert(chain_view(self.chain@.push(block)) =~= chain_view(self.chain@).push(block@));
        }
        self.chain.push(block);
        proof {
            let c = chain_view(self.chain@);
            assert(c[0] == c0[0]);
            assert forall|j: int| 0 <= j < c.len() implies (#[trigger] c[j]).index as int == j by {
                if j < c.len() - 1 {
                    assert(c[j] == c0[j]);
                }
            }
            assert forall|j: int| 1 <= j < c.len() implies (#[trigger] c[j]).previous_hash
                == c[j - 1].hash by {
                if j < c.len() - 1 {
                    assert(c[j] == c0[j]);
                    assert(c[j - 1] == c0[j - 1]);
                }
            }
        }
        true
    }

    /// Whether a block fits onto the current chain: right predecessor
    /// hash, right index, and a hash its own content yields.
    pub fn validate_block(&self, block: &Block) -> (r: bool)
        requires
            self.wf(),
        ensures
            r == valid_for_chain(chain_view(self.chain@), block@),
    {
        let n = self.chain.len();
        proof {
            assert(chain_view(self.chain@)[n - 1].index as int == n - 1);
        }
        let last = &self.chain[n - 1];
        if !(block.previous_hash == last.hash) {
            return false;
        }
        if block.index != last.index + 1 {
            return false;
        }
        let computed = Blockchain::hash(block);
        block.hash == computed
    }

    /// The stored balance of an account, zero if it is unknown.
    pub fn get_balance(&self, account: &str) -> (r: u64)
        requires
            self.wf(),
        ensures
            r == if self.accounts@.contains_key(account@) {
                self.accounts@[account@]
            } else {
                0u64
            },
    {
        match self.accounts.get(account) {
            Some(b) => b,
            None => 0,
        }
    }
}

/// An admitted transfer moves exactly the amount: the sender's balance
/// drops by it, the receiver's rises by it (from zero if the account is
/// new), a self-transfer changes nothing, and no other account moves.
pub proof fn lemma_transfer_balances(
    m: Map<Seq<char>, u64>,
    from: Seq<char>,
    to: Seq<char>,
    amount: u64,
)
    requires
        transfer(m, from, to, amount) is Some,
    ensures
        m.contains_key(from) && m[from] >= amount,
        ({
            let m2 = transfer(m, from, to, amount)->0;
            &&& m2.dom() == m.dom().insert(to)
            &&& from != to ==> m2[from] == m[from] - amount
            &&& (from != to && m.contains_key(to)) ==> m2[to] == m[to] + amount
            &&& (from != to && !m.contains_key(to)) ==> m2[to] == amount
            &&& from == to ==> m2[from] == m[from]
            &&& forall|k: Seq<char>|
                k != from && k != to && m.contains_key(k) ==> m2.contains_key(k)
                    && (#[trigger] m2[k]) == m[k]
        }),
{
    let m2 = transfer(m, from, to, amount)->0;
    assert(m2.dom() =~= m.dom().insert(to));
}

/// A transfer that is not admitted is exactly one whose sender is
/// missing, cannot cover the amount, or whose credit would not fit the
/// balance type.
pub proof fn lemma_transfer_fails(
    m: Map<Seq<char>, u64>,
    from: Seq<char>,
    to: Seq<char>,
    amount: u64,
)
    ensures
        (transfer(m, from, to, amount) is None) <==> (!m.contains_key(from) || m[from] < amount || (
        {
            let debited = m.insert(from, (m[from] - amount) as u64);
            let base: int = if debited.contains_key(to) {
                debited[to] as int
            } else {
                0
            };
            base + amount > u64::MAX
        })),
{
}

/// Validation rejects any block whose previous-hash does not name the
/// tip's hash or whose index is not the next one, whatever its hash
/// field holds.
pub proof fn lemma_validate_requires_linkage(c: Seq<BlockV>, b: BlockV)
    requires
        b.previous_hash != c.last().hash || b.index as int != c.last().index as int + 1,
    ensures
        !valid_for_chain(c, b),
{
}

/// A block just appended to a chain is rejected if resubmitted: the tip
/// has advanced past it, so its index can no longer be the next one.
pub proof fn lemma_reapplied_block_rejected(c: Seq<BlockV>, b: BlockV)
    ensures
        !valid_for_chain(c.push(b), b),
{
    assert(c.push(b).last() == b);
}

/// Peers whose chains agree judge a block alike, and appending it keeps
/// their chains agreeing: propagation of an accepted block leaves both
/// nodes with the same chain.
pub proof fn lemma_peers_stay_in_step(c1: Seq<BlockV>, c2: Seq<BlockV>, b: BlockV)
    requires
        c1 == c2,
    ensures
        valid_for_chain(c1, b) == valid_for_chain(c2, b),
        c1.push(b) == c2.push(b),
{
}

} // verus!
