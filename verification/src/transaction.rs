use crate::digest::{hash_hex, hash_text};
use crate::error::LedgerError;
use crate::utils::{append_bytes, current_timestamp, decimal_bytes, decimal_digits};
use std::cmp::Ordering;
use vstd::prelude::*;
use vstd::set_lib::{lemma_int_range, lemma_len_subset, lemma_subset_equality, set_int_range};
use vstd::utf8::encode_utf8;

verus! {

/// A transfer between two addresses. It is created unsigned; a wallet signs it
/// once, which sets `signature` and `public_key` together.
#[derive(Debug)]
pub struct Transaction {
    pub sender: String,
    pub receiver: String,
    pub amount: u64,
    pub fee: u64,
    /// ECDSA/P-256 signature over the signing digest, in lowercase hexadecimal.
    pub signature: Option<String>,
    /// The signer's public key as an uncompressed SEC1 point.
    pub public_key: Option<Vec<u8>>,
    /// Milliseconds since the Unix epoch at creation.
    pub timestamp: u128,
}

/// What a transaction holds, as mathematical values.
pub struct TransactionView {
    pub sender: Seq<char>,
    pub receiver: Seq<char>,
    pub amount: u64,
    pub fee: u64,
    pub signature: Option<Seq<char>>,
    pub public_key: Option<Seq<u8>>,
    pub timestamp: u128,
}

impl View for Transaction {
    type V = TransactionView;

    open spec fn view(&self) -> TransactionView {
        TransactionView {
            sender: self.sender@,
            receiver: self.receiver@,
            amount: self.amount,
            fee: self.fee,
            signature: match self.signature {
                Some(text) => Some(text@),
                None => None,
            },
            public_key: match self.public_key {
                Some(bytes) => Some(bytes@),
                None => None,
            },
            timestamp: self.timestamp,
        }
    }
}

/// The views of a run of transactions, in order.
pub open spec fn transaction_views(batch: Seq<Transaction>) -> Seq<TransactionView> {
    batch.map_values(|tx: Transaction| tx@)
}

impl TransactionView {
    /// Signed means that signature and public key are both set.
    pub open spec fn is_signed(self) -> bool {
        self.signature is Some && self.public_key is Some
    }

    /// The bytes that are signed: sender, receiver, amount and timestamp, the
    /// numbers in decimal, with nothing between them. The fee is not part.
    pub open spec fn signing_preimage(self) -> Seq<u8> {
        encode_utf8(self.sender) + encode_utf8(self.receiver) + decimal_digits(self.amount as nat)
            + decimal_digits(self.timestamp as nat)
    }

    /// The digest that a signature is made over and checked against.
    pub open spec fn signing_digest(self) -> Seq<char> {
        hash_text(self.signing_preimage())
    }

    /// The bytes behind the content hash: sender, receiver, amount, signature
    /// text and timestamp. Meaningful for a signed transaction.
    pub open spec fn content_preimage(self) -> Seq<u8>
        recommends
            self.is_signed(),
    {
        encode_utf8(self.sender) + encode_utf8(self.receiver) + decimal_digits(self.amount as nat)
            + encode_utf8(self.signature.unwrap()) + decimal_digits(self.timestamp as nat)
    }

    /// The hash that identifies a signed transaction.
    pub open spec fn content_hash(self) -> Seq<char>
        recommends
            self.is_signed(),
    {
        hash_text(self.content_preimage())
    }
}

impl Transaction {
    /// An unsigned transfer stamped with the current time.
    pub fn new(sender: String, receiver: String, amount: u64, fee: u64) -> (tx: Transaction)
        ensures
            tx@.sender == sender@,
            tx@.receiver == receiver@,
            tx@.amount == amount,
            tx@.fee == fee,
            tx@.signature is None,
            tx@.public_key is None,
    {
        Transaction {
            sender,
            receiver,
            amount,
            fee,
            signature: None,
            public_key: None,
            timestamp: current_timestamp(),
        }
    }

    /// Whether signature and public key are both set.
    pub fn is_signed(&self) -> (signed: bool)
        ensures
            signed == self@.is_signed(),
    {
        self.signature.is_some() && self.public_key.is_some()
    }

    /// The signing digest. It does not cover the fee, the signature or the
    /// public key, so signing leaves it as it was.
    pub fn calculate_hash_sign(&self) -> (digest: String)
        ensures
            digest@ == self@.signing_digest(),
    {
        let mut preimage: Vec<u8> = Vec::new();
        append_bytes(&mut preimage, self.sender.as_str().as_bytes());
        append_bytes(&mut preimage, self.receiver.as_str().as_bytes());
        append_bytes(&mut preimage, decimal_bytes(self.amount as u128).as_slice());
        append_bytes(&mut preimage, decimal_bytes(self.timestamp).as_slice());
        assert(preimage@ =~= self@.signing_preimage());
        hash_hex(preimage.as_slice())
    }

    /// The content hash, which a signed transaction has and an unsigned one
    /// has not.
    pub fn calculate_hash(&self) -> (hash: Result<String, LedgerError>)
        ensures
            self@.is_signed() ==> (hash matches Ok(text) && text@ == self@.content_hash()),
            !self@.is_signed() ==> hash == Err::<String, LedgerError>(
                LedgerError::UnsignedTransaction,
            ),
    {
        match (&self.signature, &self.public_key) {
            (Some(signature), Some(_)) => {
                let mut preimage: Vec<u8> = Vec::new();
                append_bytes(&mut preimage, self.sender.as_str().as_bytes());
                append_bytes(&mut preimage, self.receiver.as_str().as_bytes());
                append_bytes(&mut preimage, decimal_bytes(self.amount as u128).as_slice());
                append_bytes(&mut preimage, signature.as_str().as_bytes());
                append_bytes(&mut preimage, decimal_bytes(self.timestamp).as_slice());
                assert(preimage@ =~= self@.content_preimage());
                Ok(hash_hex(preimage.as_slice()))
            },
            _ => Err(LedgerError::UnsignedTransaction),
        }
    }

    /// How two transactions sort when the higher fee goes first: `Less` when
    /// `self` pays more than `other`, `Greater` when it pays less.
    pub fn cmp_by_fee(&self, other: &Transaction) -> (order: Ordering)
        ensures
            order == Ordering::Less <==> self.fee > other.fee,
            order == Ordering::Equal <==> self.fee == other.fee,
            order == Ordering::Greater <==> self.fee < other.fee,
    {
        if other.fee < self.fee {
            Ordering::Less
        } else if other.fee == self.fee {
            Ordering::Equal
        } else {
            Ordering::Greater
        }
    }
}

impl Clone for Transaction {
    fn clone(&self) -> (copy: Transaction)
        ensures
            copy@ == self@,
    {
        Transaction {
            sender: self.sender.clone(),
            receiver: self.receiver.clone(),
            amount: self.amount,
            fee: self.fee,
            signature: match &self.signature {
                Some(text) => Some(text.clone()),
                None => None,
            },
            public_key: match &self.public_key {
                Some(bytes) => Some(bytes.clone()),
                None => None,
            },
            timestamp: self.timestamp,
        }
    }
}

/// Copies a batch, transaction by transaction.
pub fn copy_batch(batch: &[Transaction]) -> (copy: Vec<Transaction>)
    ensures
        transaction_views(copy@) == transaction_views(batch@),
{
    let mut copy: Vec<Transaction> = Vec::new();
    let mut i: usize = 0;
    while i < batch.len()
        invariant
            i <= batch@.len(),
            copy@.len() == i,
            forall|k: int| 0 <= k < i ==> (#[trigger] copy@[k])@ == batch@[k]@,
        decreases batch@.len() - i,
    {
        copy.push(batch[i].clone());
        i = i + 1;
    }
    assert(transaction_views(copy@) =~= transaction_views(batch@));
    copy
}

/// Whether `order` ranks the positions of `fees` by falling fee, equal fees in
/// their order of arrival. One ranking exists for each sequence of fees.
pub open spec fn is_fee_ranking(fees: Seq<u64>, order: Seq<int>) -> bool {
    &&& order.len() == fees.len()
    &&& forall|k: int| 0 <= k < order.len() ==> 0 <= #[trigger] order[k] < fees.len()
    &&& forall|k: int, l: int|
        0 <= k < l < order.len() ==> fees[#[trigger] order[k]] > fees[#[trigger] order[l]] || (
        fees[order[k]] == fees[order[l]] && order[k] < order[l])
}

/// A ranking lists every position.
proof fn lemma_ranking_covers(fees: Seq<u64>, order: Seq<int>, position: int)
    requires
        is_fee_ranking(fees, order),
        0 <= position < fees.len(),
    ensures
        exists|k: int| 0 <= k < order.len() && order[k] == position,
{
    let positions = set_int_range(0, fees.len() as int);
    assert forall|i: int, j: int|
        0 <= i < order.len() && 0 <= j < order.len() && i != j implies order[i] != order[j] by {
        if i < j {
            assert(fees[order[i]] > fees[order[j]] || order[i] < order[j]);
        } else {
            assert(fees[order[j]] > fees[order[i]] || order[j] < order[i]);
        }
    }
    order.unique_seq_to_set();
    lemma_int_range(0, fees.len() as int);
    assert forall|value: int| order.to_set().contains(value) implies positions.contains(value) by {
        let k = choose|k: int| 0 <= k < order.len() && order[k] == value;
        assert(0 <= order[k] < fees.len());
    }
    lemma_len_subset(order.to_set(), positions);
    lemma_subset_equality(order.to_set(), positions);
    assert(positions.contains(position));
    assert(order.contains(position));
}

/// Two rankings of the same fees agree at every place.
proof fn lemma_rankings_agree_at(fees: Seq<u64>, first: Seq<int>, second: Seq<int>, place: int)
    requires
        is_fee_ranking(fees, first),
        is_fee_ranking(fees, second),
        0 <= place < fees.len(),
    ensures
        first[place] == second[place],
    decreases place,
{
    assert forall|j: int| 0 <= j < place implies first[j] == second[j] by {
        lemma_rankings_agree_at(fees, first, second, j);
    }
    lemma_ranking_covers(fees, second, first[place]);
    let p = choose|k: int| 0 <= k < second.len() && second[k] == first[place];
    lemma_ranking_covers(fees, first, second[place]);
    let q = choose|k: int| 0 <= k < first.len() && first[k] == second[place];
    if p < place {
        assert(first[p] == second[p]);
        assert(fees[first[p]] > fees[first[place]] || first[p] < first[place]);
    }
    if q < place {
        assert(first[q] == second[q]);
        assert(fees[second[q]] > fees[second[place]] || second[q] < second[place]);
    }
    if p > place && q > place {
        assert(fees[second[place]] > fees[second[p]] || (fees[second[place]] == fees[second[p]]
            && second[place] < second[p]));
        assert(fees[first[place]] > fees[first[q]] || (fees[first[place]] == fees[first[q]]
            && first[place] < first[q]));
    }
}

/// Fees have one ranking: what `select_transcations_by_fee` returns is fixed
/// by the pool it is called on.
pub proof fn lemma_fee_ranking_is_unique(fees: Seq<u64>, first: Seq<int>, second: Seq<int>)
    requires
        is_fee_ranking(fees, first),
        is_fee_ranking(fees, second),
    ensures
        first == second,
{
    assert forall|k: int| 0 <= k < first.len() implies first[k] == second[k] by {
        lemma_rankings_agree_at(fees, first, second, k);
    }
    assert(first =~= second);
}

/// The fees of a run of transactions, in order.
pub open spec fn fees_of(pool: Seq<TransactionView>) -> Seq<u64> {
    pool.map_values(|tx: TransactionView| tx.fee)
}

/// Whether `a` goes strictly before `b` when the higher fee goes first.
fn outranks(a: &Transaction, b: &Transaction) -> (before: bool)
    ensures
        before == (a.fee > b.fee),
{
    match a.cmp_by_fee(b) {
        Ordering::Less => true,
        _ => false,
    }
}

/// Transactions that wait to be put into a block, in order of arrival. Nothing
/// is validated on the way in.
pub struct TransactionPool {
    pub transactions: Vec<Transaction>,
}

impl View for TransactionPool {
    type V = Seq<TransactionView>;

    open spec fn view(&self) -> Seq<TransactionView> {
        transaction_views(self.transactions@)
    }
}

impl TransactionPool {
    /// An empty pool.
    pub fn new() -> (pool: TransactionPool)
        ensures
            pool@ == Seq::<TransactionView>::empty(),
    {
        let pool = TransactionPool { transactions: Vec::new() };
        assert(pool@ =~= Seq::<TransactionView>::empty());
        pool
    }

    /// Puts `tx` at the end of the pool.
    pub fn add_transaction(&mut self, tx: Transaction)
        ensures
            final(self)@ == old(self)@.push(tx@),
    {
        self.transactions.push(tx);
        assert(self@ =~= old(self)@.push(tx@));
    }

    /// Takes up to `limit` transactions out of the pool, oldest first. The rest
    /// stay, in order.
    pub fn select_transcations(&mut self, limit: usize) -> (picked: Vec<Transaction>)
        ensures
            picked@.len() == if limit <= old(self)@.len() { limit as int } else { old(self)@.len() as int },
            transaction_views(picked@) == old(self)@.subrange(0, picked@.len() as int),
            final(self)@ == old(self)@.subrange(picked@.len() as int, old(self)@.len() as int),
    {
        let count: usize = if limit <= self.transactions.len() {
            limit
        } else {
            self.transactions.len()
        };
        let mut picked = self.transactions.split_off(count);
        std::mem::swap(&mut self.transactions, &mut picked);
        assert(transaction_views(picked@) =~= old(self)@.subrange(0, count as int));
        assert(self@ =~= old(self)@.subrange(count as int, old(self)@.len() as int));
        picked
    }

    /// Empties the pool and returns its `limit` best-paying transactions, the
    /// highest fee first and equal fees in their order of arrival. What is not
    /// returned is dropped, not kept.
    pub fn select_transcations_by_fee(&mut self, limit: usize) -> (picked: Vec<Transaction>)
        ensures
            final(self)@.len() == 0,
            picked@.len() == if limit <= old(self)@.len() { limit as int } else { old(self)@.len() as int },
            exists|order: Seq<int>|
                is_fee_ranking(fees_of(old(self)@), order) && forall|k: int|
                    0 <= k < picked@.len() ==> (#[trigger] picked@[k])@ == old(self)@[order[k]],
    {
        let mut ranked = self.drain_ranked();
        ranked.truncate(limit);
        ranked
    }

    /// Empties the pool into a vector ranked by falling fee, equal fees in
    /// their order of arrival.
    fn drain_ranked(&mut self) -> (ranked: Vec<Transaction>)
        ensures
            final(self)@.len() == 0,
            ranked@.len() == old(self)@.len(),
            exists|order: Seq<int>|
                is_fee_ranking(fees_of(old(self)@), order) && forall|k: int|
                    0 <= k < ranked@.len() ==> (#[trigger] ranked@[k])@ == old(self)@[order[k]],
    {
        let mut ranked: Vec<Transaction> = Vec::new();
        let ghost total = self.transactions@.len() as int;
        let ghost fees = fees_of(old(self)@);
        let ghost mut order: Seq<int> = Seq::empty();
        while self.transactions.len() > 0
            invariant
                total == old(self).transactions@.len(),
                fees == fees_of(old(self)@),
                self.transactions@.len() <= total,
                self.transactions@ == old(self).transactions@.subrange(
                    0,
                    self.transactions@.len() as int,
                ),
                ranked@.len() == total - self.transactions@.len(),
                order.len() == ranked@.len(),
                forall|k: int|
                    0 <= k < order.len() ==> self.transactions@.len() <= #[trigger] order[k]
                        < total,
                forall|k: int|
                    0 <= k < order.len() ==> (#[trigger] ranked@[k])@ == old(self)@[order[k]],
                forall|k: int, l: int|
                    0 <= k < l < order.len() ==> fees[#[trigger] order[k]] > fees[#[trigger] order[l]]
                        || (fees[order[k]] == fees[order[l]] && order[k] < order[l]),
            decreases self.transactions@.len(),
        {
            let ghost position = self.transactions@.len() - 1;
            let next = self.transactions.pop().unwrap();
            assert(next@ == old(self)@[position]);
            assert(self.transactions@ =~= old(self).transactions@.subrange(0, position));
            let mut slot: usize = 0;
            while slot < ranked.len() && outranks(&ranked[slot], &next)
                invariant
                    slot <= ranked@.len(),
                    forall|k: int| 0 <= k < slot ==> (#[trigger] ranked@[k]).fee > next.fee,
                decreases ranked@.len() - slot,
            {
                slot = slot + 1;
            }
            proof {
                assert forall|l: int| slot <= l < order.len() implies fees[#[trigger] order[l]]
                    <= next.fee by {
                    if l > slot {
                        assert(fees[order[slot as int]] >= fees[order[l]]);
                    }
                    assert(ranked@[l]@ == old(self)@[order[l]]);
                    assert(ranked@[slot as int]@ == old(self)@[order[slot as int]]);
                }
                assert forall|k: int| 0 <= k < slot implies fees[#[trigger] order[k]]
                    > next.fee by {
                    assert(ranked@[k]@ == old(self)@[order[k]]);
                }
                order = order.insert(slot as int, position);
            }
            ranked.insert(slot, next);
        }
        proof {
            assert(self@ =~= Seq::<TransactionView>::empty());
            assert(is_fee_ranking(fees, order));
        }
        ranked
    }

    /// The fee to ask at a level of congestion: the base fee and two units for
    /// each level.
    pub fn dynamic_fee(&self, base_fee: u64, congestion_level: u64) -> (fee: u64)
        requires
            base_fee + 2 * congestion_level <= u64::MAX,
        ensures
            fee == base_fee + 2 * congestion_level,
    {
        base_fee + congestion_level * 2
    }
}

} // verus!
