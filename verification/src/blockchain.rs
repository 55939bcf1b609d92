use crate::accounts::{Accounts, TransactionHistory};
use crate::digest::{hash_hex, hash_text, lemma_hash_text_binds, sha256_collides};
use crate::error::LedgerError;
use crate::merkle_tree::{
    all_signed, merkle_leaves, merkle_root, MerkleTree, MerkleTreeView,
};
use crate::signing::{check_signature, signature_verdict};
use crate::transaction::{copy_batch, transaction_views, Transaction, TransactionView};
use crate::utils::{append_bytes, current_timestamp, decimal_bytes, decimal_digits};
use vstd::arithmetic::div_mod::lemma_small_mod;
use vstd::prelude::*;
use vstd::string::{StrSliceExecFns, StringExecFns};
use vstd::utf8::encode_utf8;

verus! {

/// The number of hexadecimal digits in the text of a hash. No difficulty can
/// ask for more leading zeros than that.
pub const HASH_TEXT_LENGTH: usize = 64;

/// Whether the first `difficulty` characters of `hash` are all `'0'`.
pub open spec fn meets_target(hash: Seq<char>, difficulty: nat) -> bool {
    &&& difficulty <= hash.len()
    &&& forall|i: int| 0 <= i < difficulty ==> hash[i] == '0'
}

/// Whether `hash` starts with `count` zeros.
pub fn has_leading_zeros(hash: &str, count: usize) -> (meets: bool)
    ensures
        meets == meets_target(hash@, count as nat),
{
    if count > hash.unicode_len() {
        return false;
    }
    let mut i: usize = 0;
    while i < count
        invariant
            i <= count <= hash@.len(),
            forall|k: int| 0 <= k < i ==> hash@[k] == '0',
        decreases count - i,
    {
        if hash.get_char(i) != '0' {
            return false;
        }
        i = i + 1;
    }
    true
}

/// The header of a block: its link to the previous block, its commitment to
/// its transactions, and the proof-of-work fields.
#[derive(Debug)]
pub struct BlockHeader {
    pub previous_hash: String,
    /// The header hash as last computed. It goes stale when a hashed field is
    /// changed by hand.
    pub block_hash: String,
    pub merkle_tree: MerkleTree,
    pub timestamp: u128,
    pub nonce: u64,
    /// The number of leading zero digits asked of the header hash. It is
    /// recorded beside the hash and is not part of what is hashed.
    pub difficulty: usize,
}

/// What a block header holds, as mathematical values.
pub struct BlockHeaderView {
    pub previous_hash: Seq<char>,
    pub block_hash: Seq<char>,
    pub merkle_tree: MerkleTreeView,
    pub timestamp: u128,
    pub nonce: u64,
    pub difficulty: usize,
}

impl View for BlockHeader {
    type V = BlockHeaderView;

    open spec fn view(&self) -> BlockHeaderView {
        BlockHeaderView {
            previous_hash: self.previous_hash@,
            block_hash: self.block_hash@,
            merkle_tree: self.merkle_tree@,
            timestamp: self.timestamp,
            nonce: self.nonce,
            difficulty: self.difficulty,
        }
    }
}

impl BlockHeaderView {
    /// The bytes that are hashed: previous hash, Merkle root, timestamp and
    /// nonce, the numbers in decimal, with nothing between them.
    pub open spec fn hash_preimage(self) -> Seq<u8> {
        encode_utf8(self.previous_hash) + encode_utf8(self.merkle_tree.root) + decimal_digits(
            self.timestamp as nat,
        ) + decimal_digits(self.nonce as nat)
    }

    /// The header hash, computed from the fields.
    pub open spec fn hash(self) -> Seq<char> {
        hash_text(self.hash_preimage())
    }

    /// The header hash that `nonce` would give.
    pub open spec fn hash_at(self, nonce: u64) -> Seq<char> {
        (BlockHeaderView { nonce, ..self }).hash()
    }

    /// Whether `nonce` would give a hash that meets the difficulty.
    pub open spec fn meets_target_at(self, nonce: u64) -> bool {
        meets_target(self.hash_at(nonce), self.difficulty as nat)
    }

    /// The header with `nonce` and the hash that belongs to it.
    pub open spec fn sealed_at(self, nonce: u64) -> BlockHeaderView {
        BlockHeaderView { nonce, block_hash: self.hash_at(nonce), ..self }
    }

    /// The header carries the first nonce from `first` on whose hash meets the
    /// difficulty, and that hash.
    pub open spec fn is_mined_from(self, first: u64) -> bool {
        &&& self.block_hash == self.hash()
        &&& meets_target(self.block_hash, self.difficulty as nat)
        &&& first <= self.nonce
        &&& forall|n: u64| first <= n < self.nonce ==> !self.meets_target_at(n)
    }

    /// No nonce from the header's own on meets the difficulty.
    pub open spec fn is_unminable(self) -> bool {
        forall|n: u64| self.nonce <= n ==> !self.meets_target_at(n)
    }
}

/// Sealing a header touches nothing that is hashed but the nonce: the sealed
/// header hashes to its cached hash, and every nonce gives it the hash that it
/// gave the header before.
pub proof fn lemma_sealing_keeps_hashes(start: BlockHeaderView, nonce: u64)
    ensures
        start.sealed_at(nonce).hash() == start.sealed_at(nonce).block_hash,
        forall|n: u64| #[trigger] start.sealed_at(nonce).hash_at(n) == start.hash_at(n),
        forall|n: u64| #[trigger]
            start.sealed_at(nonce).meets_target_at(n) == start.meets_target_at(n),
{
    let end = start.sealed_at(nonce);
    assert(end.hash_preimage() == (BlockHeaderView { nonce, ..start }).hash_preimage());
    assert forall|n: u64| #[trigger] end.hash_at(n) == start.hash_at(n) by {
        assert((BlockHeaderView { nonce: n, ..end }).hash_preimage() == (BlockHeaderView {
            nonce: n,
            ..start
        }).hash_preimage());
    }
}

impl BlockHeader {
    /// The header hash, computed afresh from the fields.
    pub fn calculate_hash(&self) -> (hash: String)
        ensures
            hash@ == self@.hash(),
            hash@.len() == HASH_TEXT_LENGTH,
    {
        let mut preimage: Vec<u8> = Vec::new();
        append_bytes(&mut preimage, self.previous_hash.as_str().as_bytes());
        append_bytes(&mut preimage, self.merkle_tree.root.as_str().as_bytes());
        append_bytes(&mut preimage, decimal_bytes(self.timestamp).as_slice());
        append_bytes(&mut preimage, decimal_bytes(self.nonce as u128).as_slice());
        assert(preimage@ =~= self@.hash_preimage());
        hash_hex(preimage.as_slice())
    }
}

impl Clone for BlockHeader {
    fn clone(&self) -> (copy: BlockHeader)
        ensures
            copy@ == self@,
    {
        BlockHeader {
            previous_hash: self.previous_hash.clone(),
            block_hash: self.block_hash.clone(),
            merkle_tree: self.merkle_tree.clone(),
            timestamp: self.timestamp,
            nonce: self.nonce,
            difficulty: self.difficulty,
        }
    }
}

/// A header together with the transactions it commits to.
#[derive(Debug)]
pub struct Block {
    pub header: BlockHeader,
    pub transactions: Vec<Transaction>,
}

/// What a block holds, as mathematical values.
pub struct BlockView {
    pub header: BlockHeaderView,
    pub transactions: Seq<TransactionView>,
}

impl View for Block {
    type V = BlockView;

    open spec fn view(&self) -> BlockView {
        BlockView { header: self.header@, transactions: transaction_views(self.transactions@) }
    }
}

/// The tree that commits to a batch.
pub open spec fn committed_tree(batch: Seq<TransactionView>) -> MerkleTreeView {
    MerkleTreeView { root: merkle_root(merkle_leaves(batch)), leaves: merkle_leaves(batch) }
}

/// The header of a block as it is created: nonce 0, and the hash that belongs
/// to that.
pub open spec fn fresh_header(
    previous_hash: Seq<char>,
    batch: Seq<TransactionView>,
    difficulty: usize,
    timestamp: u128,
) -> BlockHeaderView {
    (BlockHeaderView {
        previous_hash,
        block_hash: Seq::empty(),
        merkle_tree: committed_tree(batch),
        timestamp,
        nonce: 0,
        difficulty,
    }).sealed_at(0)
}

/// Why no block can be created over a batch at a difficulty, if anything: a
/// difficulty longer than a hash or an empty batch is a configuration error,
/// an unsigned transaction cannot be committed to.
pub open spec fn creation_error(batch: Seq<TransactionView>, difficulty: usize) -> Option<
    LedgerError,
> {
    if difficulty > HASH_TEXT_LENGTH || batch.len() == 0 {
        Some(LedgerError::ConfigurationError)
    } else if !all_signed(batch) {
        Some(LedgerError::UnsignedTransaction)
    } else {
        None
    }
}

impl Block {
    /// A block over `transactions`, stamped with the current time. It is not
    /// mined yet: its nonce is 0.
    pub fn new(previous_hash: String, transactions: Vec<Transaction>, difficulty: usize) -> (created:
        Result<Block, LedgerError>)
        ensures
            match creation_error(transaction_views(transactions@), difficulty) {
                Some(error) => created matches Err(e) && e == error,
                None => created matches Ok(block) && block@.transactions == transaction_views(
                    transactions@,
                ) && block@.header == fresh_header(
                    previous_hash@,
                    transaction_views(transactions@),
                    difficulty,
                    block@.header.timestamp,
                ),
            },
    {
        Block::new_at(previous_hash, transactions, difficulty, current_timestamp())
    }

    /// A block over `transactions` with the given timestamp.
    pub fn new_at(
        previous_hash: String,
        transactions: Vec<Transaction>,
        difficulty: usize,
        timestamp: u128,
    ) -> (created: Result<Block, LedgerError>)
        ensures
            match creation_error(transaction_views(transactions@), difficulty) {
                Some(error) => created matches Err(e) && e == error,
                None => created matches Ok(block) && block@.transactions == transaction_views(
                    transactions@,
                ) && block@.header == fresh_header(
                    previous_hash@,
                    transaction_views(transactions@),
                    difficulty,
                    timestamp,
                ),
            },
    {
        if difficulty > HASH_TEXT_LENGTH {
            return Err(LedgerError::ConfigurationError);
        }
        let merkle_tree = match MerkleTree::new(transactions.as_slice()) {
            Ok(tree) => tree,
            Err(error) => {
                return Err(error);
            },
        };
        let mut header = BlockHeader {
            previous_hash,
            block_hash: String::new(),
            merkle_tree,
            timestamp,
            nonce: 0,
            difficulty,
        };
        header.block_hash = header.calculate_hash();
        Ok(Block { header, transactions })
    }

    /// Searches for a nonce whose header hash meets the difficulty, starting
    /// at the block's own nonce and trying at most `budget` further ones. The
    /// search stops at the first nonce that meets it; the cached hash is
    /// brought up to date either way, so a search that ran out can be taken
    /// up again where it stopped.
    pub fn mine_with_budget(&mut self, budget: u64) -> (found: Result<bool, LedgerError>)
        ensures
            old(self)@.header.difficulty > HASH_TEXT_LENGTH ==> found == Err::<bool, LedgerError>(
                LedgerError::ConfigurationError,
            ) && final(self)@ == old(self)@,
            old(self)@.header.difficulty <= HASH_TEXT_LENGTH ==> {
                let start = old(self)@.header;
                let end = final(self)@.header;
                &&& final(self)@.transactions == old(self)@.transactions
                &&& end == start.sealed_at(end.nonce)
                &&& start.nonce <= end.nonce <= start.nonce + budget
                &&& forall|n: u64| start.nonce <= n < end.nonce ==> !start.meets_target_at(n)
                &&& found == Ok::<bool, LedgerError>(start.meets_target_at(end.nonce))
                &&& !start.meets_target_at(end.nonce) ==> end.nonce == u64::MAX || end.nonce
                    == start.nonce + budget
            },
    {
        if self.header.difficulty > HASH_TEXT_LENGTH {
            return Err(LedgerError::ConfigurationError);
        }
        let difficulty = self.header.difficulty;
        self.header.block_hash = self.header.calculate_hash();
        let mut found = has_leading_zeros(self.header.block_hash.as_str(), difficulty);
        let mut spent: u64 = 0;
        while !found && spent < budget && self.header.nonce < u64::MAX
            invariant
                difficulty == old(self)@.header.difficulty,
                self@.transactions == old(self)@.transactions,
                self@.header == old(self)@.header.sealed_at(self@.header.nonce),
                self@.header.nonce == old(self)@.header.nonce + spent,
                spent <= budget,
                forall|n: u64|
                    old(self)@.header.nonce <= n < self@.header.nonce ==> !old(
                        self,
                    )@.header.meets_target_at(n),
                found == old(self)@.header.meets_target_at(self@.header.nonce),
            decreases budget - spent,
        {
            self.header.nonce = self.header.nonce + 1;
            self.header.block_hash = self.header.calculate_hash();
            found = has_leading_zeros(self.header.block_hash.as_str(), difficulty);
            spent = spent + 1;
        }
        Ok(found)
    }

    /// Mines the block: searches the nonces from the block's own up to the
    /// largest for the first whose header hash meets the difficulty.
    pub fn mine_block(&mut self) -> (mined: Result<(), LedgerError>)
        ensures
            old(self)@.header.difficulty > HASH_TEXT_LENGTH ==> mined == Err::<(), LedgerError>(
                LedgerError::ConfigurationError,
            ) && final(self)@ == old(self)@,
            old(self)@.header.difficulty <= HASH_TEXT_LENGTH ==> {
                let start = old(self)@.header;
                let end = final(self)@.header;
                &&& final(self)@.transactions == old(self)@.transactions
                &&& end == start.sealed_at(end.nonce)
                &&& if start.is_unminable() {
                    mined == Err::<(), LedgerError>(LedgerError::MiningBudgetExhausted)
                        && end.nonce == u64::MAX
                } else {
                    mined is Ok && end.is_mined_from(start.nonce)
                }
            },
    {
        let outcome = self.mine_with_budget(u64::MAX);
        proof {
            lemma_sealing_keeps_hashes(old(self)@.header, self@.header.nonce);
        }
        match outcome {
            Ok(true) => Ok(()),
            Ok(false) => Err(LedgerError::MiningBudgetExhausted),
            Err(error) => Err(error),
        }
    }
}

impl Clone for Block {
    fn clone(&self) -> (copy: Block)
        ensures
            copy@ == self@,
    {
        Block { header: self.header.clone(), transactions: copy_batch(self.transactions.as_slice()) }
    }
}

/// The views of a run of blocks, in order.
pub open spec fn block_views(chain: Seq<Block>) -> Seq<BlockView> {
    chain.map_values(|block: Block| block@)
}

/// The difficulty that a new ledger starts at.
pub const INITIAL_DIFFICULTY: usize = 3;

/// The time that `ADJUSTMENT_INTERVAL` blocks are meant to span, in
/// milliseconds.
pub const TARGET_BLOCK_TIME: u128 = 60000;

/// The number of blocks between two adjustments of the difficulty.
pub const ADJUSTMENT_INTERVAL: usize = 10;

/// The chain of blocks with the state that goes with it: balances, the content
/// hashes already admitted, and the difficulty controller.
#[derive(Debug)]
pub struct BlockChain {
    pub chain: Vec<Block>,
    pub accounts: Accounts,
    pub transaction_history: TransactionHistory,
    pub difficulty: usize,
    pub block_time: u128,
    pub adjustment_interval: usize,
}

/// What a ledger holds, as mathematical values.
pub struct BlockChainView {
    pub chain: Seq<BlockView>,
    pub accounts: Map<Seq<char>, u64>,
    pub transaction_history: Set<Seq<char>>,
    pub difficulty: usize,
    pub block_time: u128,
    pub adjustment_interval: usize,
}

impl View for BlockChain {
    type V = BlockChainView;

    open spec fn view(&self) -> BlockChainView {
        BlockChainView {
            chain: block_views(self.chain@),
            accounts: self.accounts@,
            transaction_history: self.transaction_history@,
            difficulty: self.difficulty,
            block_time: self.block_time,
            adjustment_interval: self.adjustment_interval,
        }
    }
}

/// What the first block names as its predecessor.
pub open spec fn genesis_link() -> Seq<char> {
    seq!['0']
}

/// The placeholder that the first block commits to: empty addresses, nothing
/// moved, and an empty signature and key in place of real ones, so that it
/// has a content hash. No key accepts it.
pub open spec fn genesis_transaction(timestamp: u128) -> TransactionView {
    TransactionView {
        sender: Seq::empty(),
        receiver: Seq::empty(),
        amount: 0,
        fee: 0,
        signature: Some(Seq::empty()),
        public_key: Some(Seq::empty()),
        timestamp,
    }
}

/// A ledger with the starting parameters and nothing in it.
pub open spec fn empty_ledger() -> BlockChainView {
    BlockChainView {
        chain: Seq::empty(),
        accounts: Map::empty(),
        transaction_history: Set::empty(),
        difficulty: INITIAL_DIFFICULTY,
        block_time: TARGET_BLOCK_TIME,
        adjustment_interval: ADJUSTMENT_INTERVAL,
    }
}

/// Whether `block` is `start` mined: the same block, sealed at the first
/// nonce that meets the difficulty.
pub open spec fn is_mined_block(block: BlockView, batch: Seq<TransactionView>, start: BlockHeaderView) -> bool {
    &&& block.transactions == batch
    &&& block.header == start.sealed_at(block.header.nonce)
    &&& block.header.is_mined_from(start.nonce)
}

/// The header that the genesis block is mined from.
pub open spec fn genesis_header(difficulty: usize, timestamp: u128) -> BlockHeaderView {
    fresh_header(genesis_link(), seq![genesis_transaction(timestamp)], difficulty, timestamp)
}

/// Why a genesis block cannot be put on a ledger at a time, if anything.
pub open spec fn genesis_error(ledger: BlockChainView, timestamp: u128) -> Option<LedgerError> {
    if ledger.chain.len() > 0 {
        Some(LedgerError::ChainIntegrityViolation { index: ledger.chain.len() as usize })
    } else if ledger.difficulty > HASH_TEXT_LENGTH {
        Some(LedgerError::ConfigurationError)
    } else if genesis_header(ledger.difficulty, timestamp).is_unminable() {
        Some(LedgerError::MiningBudgetExhausted)
    } else {
        None
    }
}

/// What putting the genesis block on a ledger at a time comes to: a refusal
/// leaves the ledger as it was, otherwise the chain is the mined genesis block
/// and nothing else has changed.
pub open spec fn is_genesis_outcome(
    before: BlockChainView,
    after: BlockChainView,
    timestamp: u128,
    outcome: Result<(), LedgerError>,
) -> bool {
    match genesis_error(before, timestamp) {
        Some(error) => outcome == Err::<(), LedgerError>(error) && after == before,
        None => {
            &&& outcome is Ok
            &&& after.chain.len() == 1
            &&& is_mined_block(
                after.chain[0],
                seq![genesis_transaction(timestamp)],
                genesis_header(before.difficulty, timestamp),
            )
            &&& after == BlockChainView { chain: after.chain, ..before }
        },
    }
}

/// What founding a ledger at a time comes to: the genesis block on an empty
/// ledger, or the reason why it could not be mined.
pub open spec fn is_founding_outcome(
    created: Result<BlockChain, LedgerError>,
    timestamp: u128,
) -> bool {
    match created {
        Ok(ledger) => is_genesis_outcome(
            empty_ledger(),
            ledger@,
            timestamp,
            Ok::<(), LedgerError>(()),
        ),
        Err(error) => is_genesis_outcome(
            empty_ledger(),
            empty_ledger(),
            timestamp,
            Err::<(), LedgerError>(error),
        ),
    }
}

/// The difficulty after an adjustment. The time from the block
/// `adjustment_interval` places before the end to the last block is held
/// against the target: shorter raises the difficulty by one, longer lowers it
/// by one, but not below zero. An interval of zero, or one longer than the
/// chain, names no block to measure from.
pub open spec fn retarget(
    chain: Seq<BlockView>,
    difficulty: usize,
    block_time: u128,
    adjustment_interval: usize,
) -> Result<usize, LedgerError> {
    if adjustment_interval == 0 || adjustment_interval > chain.len() {
        Err(LedgerError::ConfigurationError)
    } else {
        let elapsed = chain.last().header.timestamp - chain[chain.len()
            - adjustment_interval].header.timestamp;
        if elapsed < block_time {
            if difficulty == usize::MAX {
                Err(LedgerError::ConfigurationError)
            } else {
                Ok((difficulty + 1) as usize)
            }
        } else if elapsed > block_time {
            if difficulty > 0 {
                Ok((difficulty - 1) as usize)
            } else {
                Ok(0)
            }
        } else {
            Ok(difficulty)
        }
    }
}

/// A span shorter than the target raises the difficulty by exactly one, a
/// longer span lowers it by exactly one, and a span equal to the target leaves
/// it. The two ends of the range are left out: the largest difficulty cannot
/// be raised, and difficulty zero stays at zero.
pub proof fn lemma_difficulty_step(
    chain: Seq<BlockView>,
    difficulty: usize,
    block_time: u128,
    adjustment_interval: usize,
)
    requires
        0 < adjustment_interval <= chain.len(),
    ensures
        ({
            let span = chain.last().header.timestamp - chain[chain.len()
                - adjustment_interval].header.timestamp;
            let adjusted = retarget(chain, difficulty, block_time, adjustment_interval);
            &&& span < block_time && difficulty < usize::MAX ==> adjusted == Ok::<
                usize,
                LedgerError,
            >((difficulty + 1) as usize)
            &&& span > block_time && difficulty > 0 ==> adjusted == Ok::<usize, LedgerError>(
                (difficulty - 1) as usize,
            )
            &&& span == block_time ==> adjusted == Ok::<usize, LedgerError>(difficulty)
        }),
{
}

/// Whether block `i` links to the block before it and its cached hash is the
/// hash of its header.
pub open spec fn link_holds(chain: Seq<BlockView>, i: int) -> bool {
    &&& chain[i].header.previous_hash == chain[i - 1].header.hash()
    &&& chain[i].header.block_hash == chain[i].header.hash()
}

/// Whether every block after the first links to its predecessor and carries
/// its own hash.
pub open spec fn chain_is_valid(chain: Seq<BlockView>) -> bool {
    forall|i: int| 1 <= i < chain.len() ==> link_holds(chain, i)
}

/// Whether `index` is the first block whose link does not hold.
pub open spec fn is_first_violation(chain: Seq<BlockView>, index: int) -> bool {
    &&& 1 <= index < chain.len()
    &&& !link_holds(chain, index)
    &&& forall|j: int| 1 <= j < index ==> link_holds(chain, j)
}

/// What the chain check catches. Take a valid chain and put another block in
/// place of block `index`, with hashed header fields that differ from the
/// block's (link, Merkle root, timestamp or nonce) and, for a block after the
/// first, the cached hash left as it was. Then the check fails first at
/// `index`, or for the first block, whose own cache is not read, at the block
/// after it. Otherwise SHA-256 has a collision. A change to the transactions
/// alone leaves the header as it was and is not caught here.
pub proof fn lemma_header_tampering_is_detected(
    chain: Seq<BlockView>,
    index: int,
    forged: BlockView,
)
    requires
        chain_is_valid(chain),
        chain.len() >= 2,
        0 <= index < chain.len(),
        index >= 1 ==> forged.header.block_hash == chain[index].header.block_hash,
        forged.header.hash_preimage() != chain[index].header.hash_preimage(),
    ensures
        is_first_violation(chain.update(index, forged), if index == 0 { 1 } else { index })
            || sha256_collides(),
{
    let changed = chain.update(index, forged);
    let found = if index == 0 { 1 } else { index };
    assert(link_holds(chain, found));
    assert forall|j: int| 1 <= j < found implies link_holds(changed, j) by {
        assert(link_holds(chain, j));
    }
    if link_holds(changed, found) {
        lemma_hash_text_binds(forged.header.hash_preimage(), chain[index].header.hash_preimage());
    }
}

/// At difficulty zero every nonce meets the target.
pub proof fn lemma_zero_difficulty_is_met(header: BlockHeaderView, nonce: u64)
    requires
        header.difficulty == 0,
    ensures
        header.meets_target_at(nonce),
{
}

/// Why a batch cannot be appended to a ledger at a time, if anything.
pub open spec fn append_error(
    ledger: BlockChainView,
    batch: Seq<TransactionView>,
    timestamp: u128,
) -> Option<LedgerError> {
    if ledger.chain.len() == 0 {
        Some(LedgerError::ChainIntegrityViolation { index: 0 })
    } else if ledger.adjustment_interval == 0 {
        Some(LedgerError::ConfigurationError)
    } else if creation_error(batch, ledger.difficulty) is Some {
        creation_error(batch, ledger.difficulty)
    } else if fresh_header(
        ledger.chain.last().header.hash(),
        batch,
        ledger.difficulty,
        timestamp,
    ).is_unminable() {
        Some(LedgerError::MiningBudgetExhausted)
    } else {
        None
    }
}

/// What appending a batch at a time comes to. A refusal leaves the ledger as it
/// was. Otherwise the chain has grown by one block: the batch, linked to the
/// recomputed hash of the block before it and mined at the ledger's
/// difficulty. Where the new length is a multiple of the adjustment interval
/// the difficulty has been adjusted. Balances and history are not touched.
pub open spec fn is_append_outcome(
    before: BlockChainView,
    after: BlockChainView,
    batch: Seq<TransactionView>,
    timestamp: u128,
    outcome: Result<(), LedgerError>,
) -> bool {
    match append_error(before, batch, timestamp) {
        Some(error) => outcome == Err::<(), LedgerError>(error) && after == before,
        None => {
            &&& outcome is Ok
            &&& after.chain.len() == before.chain.len() + 1
            &&& after.chain.drop_last() == before.chain
            &&& is_mined_block(
                after.chain.last(),
                batch,
                fresh_header(
                    before.chain.last().header.hash(),
                    batch,
                    before.difficulty,
                    timestamp,
                ),
            )
            &&& if after.chain.len() % (before.adjustment_interval as nat) == 0 {
                retarget(
                    after.chain,
                    before.difficulty,
                    before.block_time,
                    before.adjustment_interval,
                ) == Ok::<usize, LedgerError>(after.difficulty)
            } else {
                after.difficulty == before.difficulty
            }
            &&& after == BlockChainView {
                chain: after.chain,
                difficulty: after.difficulty,
                ..before
            }
        },
    }
}

/// Appending keeps a valid chain valid: the new block links to the block
/// before it and carries its own hash.
pub proof fn lemma_append_keeps_chain_valid(
    before: BlockChainView,
    after: BlockChainView,
    batch: Seq<TransactionView>,
    timestamp: u128,
)
    requires
        chain_is_valid(before.chain),
        is_append_outcome(before, after, batch, timestamp, Ok::<(), LedgerError>(())),
    ensures
        chain_is_valid(after.chain),
{
    let last = after.chain.len() - 1;
    let start = fresh_header(
        before.chain.last().header.hash(),
        batch,
        before.difficulty,
        timestamp,
    );
    assert forall|i: int| 1 <= i < after.chain.len() implies link_holds(after.chain, i) by {
        if i < last {
            assert(after.chain.drop_last()[i] == after.chain[i]);
            assert(after.chain.drop_last()[i - 1] == after.chain[i - 1]);
            assert(link_holds(before.chain, i));
        } else {
            assert(after.chain.drop_last()[i - 1] == after.chain[i - 1]);
            assert(after.chain[i] == after.chain.last());
            assert(after.chain[i].header == start.sealed_at(after.chain[i].header.nonce));
        }
    }
}

/// What checking the signature that a transaction carries comes to: without
/// signature or key it is unsigned, otherwise the stored signature is checked
/// against the stored key.
pub open spec fn signature_check(tx: TransactionView) -> Result<(), LedgerError> {
    if !tx.is_signed() {
        Err(LedgerError::UnsignedTransaction)
    } else {
        signature_verdict(tx.signing_digest(), tx.signature.unwrap(), tx.public_key.unwrap())
    }
}

/// What admitting a transaction comes to. The checks run in this order and the
/// first that fails decides: the signature, the sender's entry, the sender's
/// balance against the amount, and the content hash against the history. The
/// fee is not held against the balance.
pub open spec fn admission(ledger: BlockChainView, tx: TransactionView) -> Result<(), LedgerError> {
    if signature_check(tx) is Err {
        signature_check(tx)
    } else if !ledger.accounts.contains_key(tx.sender) {
        Err(LedgerError::UnknownSender)
    } else if ledger.accounts[tx.sender] < tx.amount {
        Err(LedgerError::InsufficientFunds)
    } else if ledger.transaction_history.contains(tx.content_hash()) {
        Err(LedgerError::DuplicateTransaction)
    } else {
        Ok(())
    }
}

/// The ledger after a transaction was admitted: its content hash is in the
/// history.
pub open spec fn admitted(ledger: BlockChainView, tx: TransactionView) -> BlockChainView {
    BlockChainView {
        transaction_history: ledger.transaction_history.insert(tx.content_hash()),
        ..ledger
    }
}

/// A transaction that was admitted is refused as a duplicate when it is
/// offered to the same ledger again.
pub proof fn lemma_duplicate_is_rejected(ledger: BlockChainView, tx: TransactionView)
    requires
        admission(ledger, tx) is Ok,
    ensures
        admission(admitted(ledger, tx), tx) == Err::<(), LedgerError>(
            LedgerError::DuplicateTransaction,
        ),
{
}

/// The balances after one transaction. A sender with an entry is debited and
/// must hold the amount; a receiver with an entry is credited and must have
/// room for it. Addresses without an entry are passed over.
pub open spec fn settle_one(accounts: Map<Seq<char>, u64>, tx: TransactionView) -> Result<
    Map<Seq<char>, u64>,
    LedgerError,
> {
    if accounts.contains_key(tx.sender) && accounts[tx.sender] < tx.amount {
        Err(LedgerError::InsufficientFunds)
    } else {
        let debited = if accounts.contains_key(tx.sender) {
            accounts.insert(tx.sender, (accounts[tx.sender] - tx.amount) as u64)
        } else {
            accounts
        };
        if debited.contains_key(tx.receiver) && debited[tx.receiver] + tx.amount > u64::MAX {
            Err(LedgerError::BalanceOverflow)
        } else if debited.contains_key(tx.receiver) {
            Ok(debited.insert(tx.receiver, (debited[tx.receiver] + tx.amount) as u64))
        } else {
            Ok(debited)
        }
    }
}

/// The balances after a batch, transaction by transaction in order, up to the
/// first that cannot be settled.
pub open spec fn settle(accounts: Map<Seq<char>, u64>, batch: Seq<TransactionView>) -> Result<
    Map<Seq<char>, u64>,
    LedgerError,
>
    decreases batch.len(),
{
    if batch.len() == 0 {
        Ok(accounts)
    } else {
        match settle_one(accounts, batch[0]) {
            Ok(next) => settle(next, batch.drop_first()),
            Err(error) => Err(error),
        }
    }
}

impl BlockChain {
    /// A ledger with the starting parameters and a genesis block mined at the
    /// current time.
    pub fn new() -> (created: Result<BlockChain, LedgerError>)
        ensures
            exists|timestamp: u128| is_founding_outcome(created, timestamp),
    {
        let mut blockchain = BlockChain {
            chain: Vec::new(),
            accounts: Accounts::new(),
            transaction_history: TransactionHistory::new(),
            difficulty: INITIAL_DIFFICULTY,
            block_time: TARGET_BLOCK_TIME,
            adjustment_interval: ADJUSTMENT_INTERVAL,
        };
        assert(blockchain@ == empty_ledger()) by {
            assert(blockchain@.chain =~= Seq::<BlockView>::empty());
        }
        let timestamp = current_timestamp();
        match blockchain.add_genesis_block_at(timestamp) {
            Ok(()) => {
                let created = Ok(blockchain);
                assert(is_founding_outcome(created, timestamp));
                created
            },
            Err(error) => {
                let created = Err(error);
                assert(is_founding_outcome(created, timestamp));
                created
            },
        }
    }

    /// Mines the genesis block at the current time and makes it the chain. The
    /// chain must be empty.
    pub fn add_genesis_block(&mut self) -> (outcome: Result<(), LedgerError>)
        ensures
            exists|timestamp: u128|
                is_genesis_outcome(old(self)@, final(self)@, timestamp, outcome),
    {
        let timestamp = current_timestamp();
        let outcome = self.add_genesis_block_at(timestamp);
        assert(is_genesis_outcome(old(self)@, self@, timestamp, outcome));
        outcome
    }

    /// Mines the genesis block with the given timestamp and makes it the chain.
    pub fn add_genesis_block_at(&mut self, timestamp: u128) -> (outcome: Result<(), LedgerError>)
        ensures
            is_genesis_outcome(old(self)@, final(self)@, timestamp, outcome),
    {
        if self.chain.len() > 0 {
            return Err(LedgerError::ChainIntegrityViolation { index: self.chain.len() });
        }
        let root_tx = Transaction {
            sender: String::new(),
            receiver: String::new(),
            amount: 0,
            fee: 0,
            signature: Some(String::new()),
            public_key: Some(Vec::new()),
            timestamp,
        };
        let mut batch: Vec<Transaction> = Vec::new();
        batch.push(root_tx);
        proof {
            reveal_strlit("0");
            assert("0"@ =~= genesis_link());
            assert(transaction_views(batch@) =~= seq![genesis_transaction(timestamp)]);
            assert(all_signed(transaction_views(batch@)));
        }
        let mut genesis_block = match Block::new_at(
            String::from_str("0"),
            batch,
            self.difficulty,
            timestamp,
        ) {
            Ok(block) => block,
            Err(error) => {
                return Err(error);
            },
        };
        match genesis_block.mine_block() {
            Ok(()) => {},
            Err(error) => {
                return Err(error);
            },
        }
        self.chain.push(genesis_block);
        proof {
            assert(self@.chain =~= seq![genesis_block@]);
        }
        Ok(())
    }

    /// Appends a block over `transactions`, stamped with the current time.
    pub fn add_block(&mut self, transactions: &[Transaction]) -> (outcome: Result<(), LedgerError>)
        ensures
            exists|timestamp: u128|
                is_append_outcome(
                    old(self)@,
                    final(self)@,
                    transaction_views(transactions@),
                    timestamp,
                    outcome,
                ),
    {
        let timestamp = current_timestamp();
        let outcome = self.add_block_at(transactions, timestamp);
        assert(is_append_outcome(
            old(self)@,
            self@,
            transaction_views(transactions@),
            timestamp,
            outcome,
        ));
        outcome
    }

    /// Appends a block over `transactions` with the given timestamp. The block
    /// links to the hash of the last block's header, computed afresh, and is
    /// mined at the current difficulty. The transactions are sealed as they
    /// are; admitting them is the caller's business, and so is applying the
    /// block to the balances afterwards.
    pub fn add_block_at(&mut self, transactions: &[Transaction], timestamp: u128) -> (outcome:
        Result<(), LedgerError>)
        ensures
            is_append_outcome(
                old(self)@,
                final(self)@,
                transaction_views(transactions@),
                timestamp,
                outcome,
            ),
    {
        if self.chain.len() == 0 {
            return Err(LedgerError::ChainIntegrityViolation { index: 0 });
        }
        if self.adjustment_interval == 0 {
            return Err(LedgerError::ConfigurationError);
        }
        let ghost batch = transaction_views(transactions@);
        let previous_hash = self.chain[self.chain.len() - 1].header.calculate_hash();
        let mut new_block = match Block::new_at(
            previous_hash,
            copy_batch(transactions),
            self.difficulty,
            timestamp,
        ) {
            Ok(block) => block,
            Err(error) => {
                return Err(error);
            },
        };
        match new_block.mine_block() {
            Ok(()) => {},
            Err(error) => {
                return Err(error);
            },
        }
        self.chain.push(new_block);
        proof {
            assert(self@.chain =~= old(self)@.chain.push(new_block@));
            assert(self@.chain.drop_last() =~= old(self)@.chain);
        }
        if self.chain.len() % self.adjustment_interval == 0 {
            proof {
                if self.adjustment_interval > self.chain@.len() {
                    lemma_small_mod(self.chain@.len(), self.adjustment_interval as nat);
                }
            }
            let adjusted = self.adjust_difficulty();
            assert(adjusted is Ok);
        }
        Ok(())
    }

    /// Whether every block after the first links to the recomputed hash of its
    /// predecessor and carries its own recomputed hash. A chain of one block,
    /// or none, is valid.
    pub fn is_chain_valid(&self) -> (valid: bool)
        ensures
            valid == chain_is_valid(self@.chain),
    {
        self.validate_chain().is_ok()
    }

    /// Checks the chain as `is_chain_valid` does and names the first block at
    /// which it fails.
    pub fn validate_chain(&self) -> (verdict: Result<(), LedgerError>)
        ensures
            verdict is Ok <==> chain_is_valid(self@.chain),
            verdict matches Err(error) ==> error matches LedgerError::ChainIntegrityViolation {
                index,
            } && is_first_violation(self@.chain, index as int),
    {
        let mut i: usize = 1;
        while i < self.chain.len()
            invariant
                1 <= i,
                forall|j: int| 1 <= j < i && j < self@.chain.len() ==> link_holds(self@.chain, j),
            decreases self.chain@.len() - i,
        {
            let cur_block = &self.chain[i];
            let prev_block = &self.chain[i - 1];
            let linked = cur_block.header.previous_hash == prev_block.header.calculate_hash();
            let current = cur_block.header.block_hash == cur_block.header.calculate_hash();
            if !linked || !current {
                assert(!link_holds(self@.chain, i as int));
                return Err(LedgerError::ChainIntegrityViolation { index: i });
            }
            assert(link_holds(self@.chain, i as int));
            i = i + 1;
        }
        Ok(())
    }

    /// Admits `transaction` if it passes every check, and records its content
    /// hash so that it is not admitted twice. A refusal changes nothing.
    /// The signature is checked against the key that the transaction carries;
    /// `public_key` is not consulted.
    pub fn validate_transaction(&mut self, transaction: &Transaction, public_key: &[u8]) -> (verdict:
        Result<(), LedgerError>)
        ensures
            verdict == admission(old(self)@, transaction@),
            verdict is Ok ==> final(self)@ == admitted(old(self)@, transaction@),
            verdict is Err ==> final(self)@ == old(self)@,
    {
        match receive_transaction(transaction) {
            Ok(()) => {},
            Err(error) => {
                return Err(error);
            },
        }
        match self.accounts.get(transaction.sender.as_str()) {
            Some(sender_balance) => {
                if sender_balance < transaction.amount {
                    return Err(LedgerError::InsufficientFunds);
                }
            },
            None => {
                return Err(LedgerError::UnknownSender);
            },
        }
        let transaction_hash = match transaction.calculate_hash() {
            Ok(hash) => hash,
            Err(error) => {
                return Err(error);
            },
        };
        if self.transaction_history.contains(transaction_hash.as_str()) {
            return Err(LedgerError::DuplicateTransaction);
        }
        self.transaction_history.insert(transaction_hash);
        Ok(())
    }

    /// Adjusts the difficulty by one step from the time that the last
    /// `adjustment_interval` blocks span.
    pub fn adjust_difficulty(&mut self) -> (outcome: Result<(), LedgerError>)
        ensures
            match retarget(
                old(self)@.chain,
                old(self)@.difficulty,
                old(self)@.block_time,
                old(self)@.adjustment_interval,
            ) {
                Ok(difficulty) => outcome is Ok && final(self)@ == BlockChainView {
                    difficulty,
                    ..old(self)@
                },
                Err(error) => outcome == Err::<(), LedgerError>(error) && final(self)@ == old(
                    self,
                )@,
            },
    {
        let count = self.chain.len();
        if self.adjustment_interval == 0 || self.adjustment_interval > count {
            return Err(LedgerError::ConfigurationError);
        }
        let latest = self.chain[count - 1].header.timestamp;
        let earliest = self.chain[count - self.adjustment_interval].header.timestamp;
        if latest < earliest || latest - earliest < self.block_time {
            if self.difficulty == usize::MAX {
                return Err(LedgerError::ConfigurationError);
            }
            self.difficulty = self.difficulty + 1;
        } else if latest - earliest > self.block_time {
            if self.difficulty > 0 {
                self.difficulty = self.difficulty - 1;
            }
        }
        Ok(())
    }

    /// Moves the amounts of a block's transactions between the balances, in
    /// order. The block is applied in full or, where one of its transactions
    /// cannot be settled, not at all.
    pub fn apply_block(&mut self, block: &Block) -> (outcome: Result<(), LedgerError>)
        ensures
            match settle(old(self)@.accounts, block@.transactions) {
                Ok(accounts) => outcome is Ok && final(self)@ == BlockChainView {
                    accounts,
                    ..old(self)@
                },
                Err(error) => outcome == Err::<(), LedgerError>(error) && final(self)@ == old(
                    self,
                )@,
            },
    {
        let mut accounts = self.accounts.clone();
        let ghost batch = block@.transactions;
        let mut i: usize = 0;
        assert(batch.subrange(0, batch.len() as int) =~= batch);
        while i < block.transactions.len()
            invariant
                batch == block@.transactions,
                i <= batch.len(),
                settle(accounts@, batch.subrange(i as int, batch.len() as int)) == settle(
                    old(self)@.accounts,
                    batch,
                ),
                *self == *old(self),
            decreases batch.len() - i,
        {
            let tx = &block.transactions[i];
            proof {
                let rest = batch.subrange(i as int, batch.len() as int);
                assert(rest[0] == tx@);
                assert(rest.drop_first() =~= batch.subrange(i as int + 1, batch.len() as int));
            }
            match accounts.get(tx.sender.as_str()) {
                Some(sender_balance) => {
                    if sender_balance < tx.amount {
                        return Err(LedgerError::InsufficientFunds);
                    }
                    accounts.insert(tx.sender.clone(), sender_balance - tx.amount);
                },
                None => {},
            }
            match accounts.get(tx.receiver.as_str()) {
                Some(receiver_balance) => {
                    if receiver_balance > u64::MAX - tx.amount {
                        return Err(LedgerError::BalanceOverflow);
                    }
                    accounts.insert(tx.receiver.clone(), receiver_balance + tx.amount);
                },
                None => {},
            }
            i = i + 1;
        }
        proof {
            assert(batch.subrange(i as int, batch.len() as int) =~= Seq::<TransactionView>::empty());
        }
        self.accounts = accounts;
        Ok(())
    }
}

/// Checks the signature that a transaction carries against the key that it
/// carries, over its signing digest.
pub fn receive_transaction(transaction: &Transaction) -> (verdict: Result<(), LedgerError>)
    ensures
        verdict == signature_check(transaction@),
{
    let transaction_hash = transaction.calculate_hash_sign();
    match (&transaction.signature, &transaction.public_key) {
        (Some(signature), Some(public_key)) => check_signature(
            transaction_hash.as_str(),
            signature.as_str(),
            public_key.as_slice(),
        ),
        _ => Err(LedgerError::UnsignedTransaction),
    }
}

} // verus!
