use crate::digest::{hash_hex, hash_text, lemma_hash_text_binds, sha256_collides};
use crate::error::LedgerError;
use crate::transaction::{transaction_views, Transaction, TransactionView};
use crate::utils::lemma_utf8_injective;
use vstd::prelude::*;
use vstd::string::StringExecFns;
use vstd::utf8::encode_utf8;

verus! {

/// The text of each string of a run, in order.
pub open spec fn texts(strings: Seq<String>) -> Seq<Seq<char>> {
    strings.map_values(|s: String| s@)
}

/// The hash of a piece of text: SHA-256 over its UTF-8 bytes, as text.
pub open spec fn hash_of_text(text: Seq<char>) -> Seq<char> {
    hash_text(encode_utf8(text))
}

/// The parent of two nodes: the hash of the left text followed by the right.
pub open spec fn parent_of(left: Seq<char>, right: Seq<char>) -> Seq<char> {
    hash_of_text(left + right)
}

/// A level made even: a level of odd length repeats its last node.
pub open spec fn padded_level(nodes: Seq<Seq<char>>) -> Seq<Seq<char>> {
    if nodes.len() % 2 == 1 {
        nodes.push(nodes.last())
    } else {
        nodes
    }
}

/// The level above `nodes`: the parents of its padded pairs.
pub open spec fn level_above(nodes: Seq<Seq<char>>) -> Seq<Seq<char>> {
    let padded = padded_level(nodes);
    Seq::new(padded.len() / 2, |i: int| parent_of(padded[2 * i], padded[2 * i + 1]))
}

/// The root over a level of nodes: a single node is its own root, more nodes
/// have the root of the level above. Meaningful for a level that is not empty.
pub open spec fn merkle_root(nodes: Seq<Seq<char>>) -> Seq<char>
    decreases nodes.len(),
{
    if nodes.len() == 0 {
        Seq::empty()
    } else if nodes.len() == 1 {
        nodes[0]
    } else {
        merkle_root(level_above(nodes))
    }
}

/// The position next to `index` in its pair.
pub open spec fn sibling_of(index: int) -> int {
    if index % 2 == 0 {
        index + 1
    } else {
        index - 1
    }
}

/// The siblings met on the way from the node at `index` up to the root, lowest
/// level first.
pub open spec fn merkle_path(nodes: Seq<Seq<char>>, index: int) -> Seq<Seq<char>>
    decreases nodes.len(),
{
    if nodes.len() <= 1 {
        Seq::empty()
    } else {
        seq![padded_level(nodes)[sibling_of(index)]] + merkle_path(level_above(nodes), index / 2)
    }
}

/// Folds a node upward along a path: at an even position the sibling stands
/// on the right, at an odd position on the left; the position halves at each
/// level.
pub open spec fn merkle_fold(node: Seq<char>, index: int, path: Seq<Seq<char>>) -> Seq<char>
    decreases path.len(),
{
    if path.len() == 0 {
        node
    } else {
        let parent = if index % 2 == 0 {
            parent_of(node, path[0])
        } else {
            parent_of(path[0], node)
        };
        merkle_fold(parent, index / 2, path.drop_first())
    }
}

/// The leaf that stands for a signed transaction: the hash of its content hash.
pub open spec fn leaf_of(tx: TransactionView) -> Seq<char>
    recommends
        tx.is_signed(),
{
    hash_of_text(tx.content_hash())
}

/// The leaves of a batch, in order.
pub open spec fn merkle_leaves(batch: Seq<TransactionView>) -> Seq<Seq<char>> {
    batch.map_values(|tx: TransactionView| leaf_of(tx))
}

/// Whether every transaction of a batch is signed.
pub open spec fn all_signed(batch: Seq<TransactionView>) -> bool {
    forall|i: int| 0 <= i < batch.len() ==> (#[trigger] batch[i]).is_signed()
}

/// Folding a node along its own path gives the root of its level.
pub proof fn lemma_path_folds_to_root(nodes: Seq<Seq<char>>, index: int)
    requires
        0 <= index < nodes.len(),
    ensures
        merkle_fold(nodes[index], index, merkle_path(nodes, index)) == merkle_root(nodes),
    decreases nodes.len(),
{
    if nodes.len() > 1 {
        let padded = padded_level(nodes);
        let above = level_above(nodes);
        let path = merkle_path(nodes, index);
        let rest = merkle_path(above, index / 2);
        assert(path.drop_first() =~= rest);
        assert(path[0] == padded[sibling_of(index)]);
        assert(padded[index] == nodes[index]);
        let pair = index / 2;
        assert(above[pair] == parent_of(padded[2 * pair], padded[2 * pair + 1]));
        lemma_path_folds_to_root(above, pair);
    }
}

/// Texts with the same hash are the same, or SHA-256 has a collision.
pub proof fn lemma_hash_of_text_binds(a: Seq<char>, b: Seq<char>)
    requires
        hash_of_text(a) == hash_of_text(b),
    ensures
        a == b || sha256_collides(),
{
    lemma_hash_text_binds(encode_utf8(a), encode_utf8(b));
    if encode_utf8(a) == encode_utf8(b) {
        lemma_utf8_injective(a, b);
    }
}

/// A node that folds to the root along the path of a position is the node at
/// that position, or SHA-256 has a collision.
pub proof fn lemma_fold_binds_node(nodes: Seq<Seq<char>>, index: int, node: Seq<char>)
    requires
        0 <= index < nodes.len(),
        merkle_fold(node, index, merkle_path(nodes, index)) == merkle_root(nodes),
    ensures
        node == nodes[index] || sha256_collides(),
    decreases nodes.len(),
{
    if nodes.len() > 1 {
        let padded = padded_level(nodes);
        let above = level_above(nodes);
        let path = merkle_path(nodes, index);
        let sibling = padded[sibling_of(index)];
        assert(path.drop_first() =~= merkle_path(above, index / 2));
        assert(path[0] == sibling);
        assert(padded[index] == nodes[index]);
        let pair = index / 2;
        assert(above[pair] == parent_of(padded[2 * pair], padded[2 * pair + 1]));
        let parent = if index % 2 == 0 {
            parent_of(node, sibling)
        } else {
            parent_of(sibling, node)
        };
        lemma_fold_binds_node(above, index / 2, parent);
        if parent == above[index / 2] {
            if index % 2 == 0 {
                lemma_hash_of_text_binds(node + sibling, nodes[index] + sibling);
                if node + sibling == nodes[index] + sibling {
                    assert(node.len() == nodes[index].len()) by {
                        assert((node + sibling).len() == (nodes[index] + sibling).len());
                    }
                    assert forall|i: int| 0 <= i < node.len() implies node[i] == nodes[index][i] by {
                        assert((node + sibling)[i] == (nodes[index] + sibling)[i]);
                    }
                    assert(node =~= nodes[index]);
                }
            } else {
                lemma_hash_of_text_binds(sibling + node, sibling + nodes[index]);
                if sibling + node == sibling + nodes[index] {
                    assert(node.len() == nodes[index].len()) by {
                        assert((sibling + node).len() == (sibling + nodes[index]).len());
                    }
                    assert forall|i: int| 0 <= i < node.len() implies node[i] == nodes[index][i] by {
                        assert((sibling + node)[sibling.len() + i] == (sibling + nodes[index])[
                            sibling.len() + i
                        ]);
                    }
                    assert(node =~= nodes[index]);
                }
            }
        }
    }
}

/// A commitment to a batch of transactions: one leaf for each, and the root
/// over the leaves. It is built once for a batch and not changed afterwards.
#[derive(Debug)]
pub struct MerkleTree {
    pub root: String,
    pub leaf_nodes: Vec<String>,
}

/// What a Merkle tree holds, as mathematical values.
pub struct MerkleTreeView {
    pub root: Seq<char>,
    pub leaves: Seq<Seq<char>>,
}

impl View for MerkleTree {
    type V = MerkleTreeView;

    open spec fn view(&self) -> MerkleTreeView {
        MerkleTreeView { root: self.root@, leaves: texts(self.leaf_nodes@) }
    }
}

impl MerkleTreeView {
    /// The tree that commits to a batch.
    pub open spec fn commits_to(self, batch: Seq<TransactionView>) -> bool {
        self.leaves == merkle_leaves(batch) && self.root == merkle_root(self.leaves)
    }
}

/// Every transaction of a committed batch is accepted at its own position
/// with its own path: folding its leaf along the path gives the root.
pub proof fn lemma_merkle_round_trip(
    tree: MerkleTreeView,
    batch: Seq<TransactionView>,
    index: int,
)
    requires
        tree.commits_to(batch),
        0 <= index < batch.len(),
    ensures
        merkle_fold(leaf_of(batch[index]), index, merkle_path(tree.leaves, index)) == tree.root,
{
    lemma_path_folds_to_root(merkle_leaves(batch), index);
}

/// What a commitment binds. A transaction that is accepted at a position of a
/// committed batch, with the path of that position, has the content preimage
/// of the transaction committed there: the same sender, receiver, amount,
/// signature and timestamp bytes. Otherwise SHA-256 has a collision. Fee and
/// public key are no part of the preimage and can differ.
pub proof fn lemma_accepted_means_committed(
    tree: MerkleTreeView,
    batch: Seq<TransactionView>,
    index: int,
    offered: TransactionView,
)
    requires
        tree.commits_to(batch),
        0 <= index < batch.len(),
        merkle_fold(leaf_of(offered), index, merkle_path(tree.leaves, index)) == tree.root,
    ensures
        offered.content_preimage() == batch[index].content_preimage() || sha256_collides(),
{
    lemma_fold_binds_node(merkle_leaves(batch), index, leaf_of(offered));
    if leaf_of(offered) == leaf_of(batch[index]) {
        lemma_hash_of_text_binds(offered.content_hash(), batch[index].content_hash());
        if offered.content_hash() == batch[index].content_hash() {
            lemma_hash_text_binds(offered.content_preimage(), batch[index].content_preimage());
        }
    }
}

impl Clone for MerkleTree {
    fn clone(&self) -> (copy: MerkleTree)
        ensures
            copy@ == self@,
    {
        let copy = MerkleTree {
            root: self.root.clone(),
            leaf_nodes: copy_strings(self.leaf_nodes.as_slice()),
        };
        copy
    }
}

/// Copies a run of strings.
fn copy_strings(source: &[String]) -> (copy: Vec<String>)
    ensures
        copy@ == source@,
{
    let mut copy: Vec<String> = Vec::new();
    let mut i: usize = 0;
    while i < source.len()
        invariant
            i <= source@.len(),
            copy@ == source@.subrange(0, i as int),
        decreases source@.len() - i,
    {
        copy.push(source[i].clone());
        i = i + 1;
        assert(copy@ =~= source@.subrange(0, i as int));
    }
    assert(source@.subrange(0, i as int) =~= source@);
    copy
}

/// The parent of two nodes.
fn hash_pair(left: &String, right: &String) -> (parent: String)
    ensures
        parent@ == parent_of(left@, right@),
{
    let mut joined = left.clone();
    joined.append(right.as_str());
    hash_hex(joined.as_str().as_bytes())
}

/// The level above a level of at least one node.
fn build_level_above(nodes: &Vec<String>) -> (above: Vec<String>)
    requires
        nodes@.len() >= 1,
    ensures
        texts(above@) == level_above(texts(nodes@)),
        above@.len() == nodes@.len() / 2 + nodes@.len() % 2,
{
    let count: usize = nodes.len();
    let pairs: usize = count / 2 + count % 2;
    let ghost padded = padded_level(texts(nodes@));
    let mut above: Vec<String> = Vec::new();
    let mut i: usize = 0;
    while i < pairs
        invariant
            count == nodes@.len(),
            count >= 1,
            pairs == count / 2 + count % 2,
            padded == padded_level(texts(nodes@)),
            i <= pairs,
            above@.len() == i,
            forall|k: int|
                0 <= k < i ==> (#[trigger] above@[k])@ == parent_of(padded[2 * k], padded[2 * k + 1]),
        decreases pairs - i,
    {
        let left = &nodes[2 * i];
        let right = if 2 * i + 1 < count {
            &nodes[2 * i + 1]
        } else {
            &nodes[count - 1]
        };
        above.push(hash_pair(left, right));
        i = i + 1;
    }
    assert(texts(above@) =~= level_above(texts(nodes@)));
    above
}

impl MerkleTree {
    /// Commits to a batch. An empty batch has no root, and an unsigned
    /// transaction has no content hash to commit to.
    pub fn new(transaction: &[Transaction]) -> (built: Result<MerkleTree, LedgerError>)
        ensures
            transaction@.len() == 0 ==> built == Err::<MerkleTree, LedgerError>(
                LedgerError::ConfigurationError,
            ),
            transaction@.len() > 0 && !all_signed(transaction_views(transaction@))
                ==> built == Err::<MerkleTree, LedgerError>(LedgerError::UnsignedTransaction),
            transaction@.len() > 0 && all_signed(transaction_views(transaction@)) ==> (
            built matches Ok(tree) && tree@.commits_to(transaction_views(transaction@))),
    {
        if transaction.len() == 0 {
            return Err(LedgerError::ConfigurationError);
        }
        let ghost batch = transaction_views(transaction@);
        let mut leaf_nodes: Vec<String> = Vec::new();
        let mut i: usize = 0;
        while i < transaction.len()
            invariant
                batch == transaction_views(transaction@),
                i <= transaction@.len(),
                leaf_nodes@.len() == i,
                forall|k: int| 0 <= k < i ==> (#[trigger] batch[k]).is_signed(),
                forall|k: int| 0 <= k < i ==> (#[trigger] leaf_nodes@[k])@ == leaf_of(batch[k]),
            decreases transaction@.len() - i,
        {
            match transaction[i].calculate_hash() {
                Ok(content_hash) => {
                    leaf_nodes.push(MerkleTree::hash(content_hash.as_str()));
                },
                Err(_) => {
                    assert(!batch[i as int].is_signed());
                    return Err(LedgerError::UnsignedTransaction);
                },
            }
            i = i + 1;
        }
        assert(texts(leaf_nodes@) =~= merkle_leaves(batch));
        match MerkleTree::calculate_root(leaf_nodes.as_slice()) {
            Ok(root) => Ok(MerkleTree { root, leaf_nodes }),
            Err(error) => Err(error),
        }
    }

    /// The hash of a piece of text.
    pub fn hash(data: &str) -> (hash: String)
        ensures
            hash@ == hash_of_text(data@),
    {
        hash_hex(data.as_bytes())
    }

    /// The root over a level of leaves. No leaves, no root.
    pub fn calculate_root(leat_nodes: &[String]) -> (root: Result<String, LedgerError>)
        ensures
            leat_nodes@.len() == 0 ==> root == Err::<String, LedgerError>(
                LedgerError::ConfigurationError,
            ),
            leat_nodes@.len() > 0 ==> (root matches Ok(text) && text@ == merkle_root(
                texts(leat_nodes@),
            )),
    {
        if leat_nodes.len() == 0 {
            return Err(LedgerError::ConfigurationError);
        }
        let mut nodes = copy_strings(leat_nodes);
        while nodes.len() > 1
            invariant
                nodes@.len() >= 1,
                merkle_root(texts(nodes@)) == merkle_root(texts(leat_nodes@)),
            decreases nodes@.len(),
        {
            nodes = build_level_above(&nodes);
        }
        Ok(nodes[0].clone())
    }

    /// The inclusion path of the leaf at `tx_index`: one sibling for each level
    /// below the root. A single leaf has the empty path.
    pub fn get_merkle_path(&self, tx_index: usize) -> (path: Result<Vec<String>, LedgerError>)
        ensures
            tx_index >= self@.leaves.len() ==> path == Err::<Vec<String>, LedgerError>(
                LedgerError::ConfigurationError,
            ),
            tx_index < self@.leaves.len() ==> (path matches Ok(siblings) && texts(siblings@)
                == merkle_path(self@.leaves, tx_index as int)),
    {
        if tx_index >= self.leaf_nodes.len() {
            return Err(LedgerError::ConfigurationError);
        }
        let mut path: Vec<String> = Vec::new();
        let mut index: usize = tx_index;
        let mut nodes = copy_strings(self.leaf_nodes.as_slice());
        while nodes.len() > 1
            invariant
                index < nodes@.len(),
                texts(path@) + merkle_path(texts(nodes@), index as int) == merkle_path(
                    self@.leaves,
                    tx_index as int,
                ),
            decreases nodes@.len(),
        {
            let sibling: usize = if index % 2 == 0 {
                index + 1
            } else {
                index - 1
            };
            let node = if sibling < nodes.len() {
                nodes[sibling].clone()
            } else {
                nodes[nodes.len() - 1].clone()
            };
            proof {
                let level = texts(nodes@);
                assert(node@ == padded_level(level)[sibling_of(index as int)]);
                assert(texts(path@.push(node)) + merkle_path(level_above(level), index as int / 2)
                    =~= texts(path@) + merkle_path(level, index as int));
            }
            path.push(node);
            nodes = build_level_above(&nodes);
            index = index / 2;
        }
        assert(texts(path@) + merkle_path(texts(nodes@), index as int) =~= texts(path@));
        Ok(path)
    }

    /// Whether `transaction` is committed at `tx_index`: its leaf, folded along
    /// `path`, must give the stored root. An unsigned transaction has no leaf.
    pub fn verify_transaction(&self, transaction: &Transaction, tx_index: usize, path: Vec<
        String,
    >) -> (verdict: Result<bool, LedgerError>)
        ensures
            !transaction@.is_signed() ==> verdict == Err::<bool, LedgerError>(
                LedgerError::UnsignedTransaction,
            ),
            transaction@.is_signed() ==> verdict == Ok::<bool, LedgerError>(
                merkle_fold(leaf_of(transaction@), tx_index as int, texts(path@)) == self@.root,
            ),
    {
        let content_hash = match transaction.calculate_hash() {
            Ok(text) => text,
            Err(_) => {
                return Err(LedgerError::UnsignedTransaction);
            },
        };
        let mut hash = MerkleTree::hash(content_hash.as_str());
        let mut index: usize = tx_index;
        let mut level: usize = 0;
        assert(texts(path@).subrange(0, path@.len() as int) =~= texts(path@));
        while level < path.len()
            invariant
                level <= path@.len(),
                transaction@.is_signed(),
                merkle_fold(hash@, index as int, texts(path@).subrange(level as int, path@.len() as int))
                    == merkle_fold(leaf_of(transaction@), tx_index as int, texts(path@)),
            decreases path@.len() - level,
        {
            proof {
                let rest = texts(path@).subrange(level as int, path@.len() as int);
                assert(rest[0] == path@[level as int]@);
                assert(rest.drop_first() =~= texts(path@).subrange(
                    level as int + 1,
                    path@.len() as int,
                ));
            }
            if index % 2 == 0 {
                hash = hash_pair(&hash, &path[level]);
            } else {
                hash = hash_pair(&path[level], &hash);
            }
            index = index / 2;
            level = level + 1;
        }
        Ok(hash == self.root)
    }
}

} // verus!
