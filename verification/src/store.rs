//! Trusted boundary around the external sparse-Merkle-tree commitment store.
//!
//! The tree, its hasher and its proof objects stay opaque to verification.
//! Their behaviour is modelled through uninterpreted names: the map of written
//! (key, value) pairs a tree holds, the root as a pure function of that map,
//! the proof produced for a key set, and the root a proof recomputes from a
//! claimed leaf set. Every contract below states only what the store's source
//! shows of the concrete instantiation used here (Blake2b hashing over the
//! in-memory default store).

use vstd::prelude::*;
use sparse_merkle_tree::blake2b::Blake2bHasher;
use sparse_merkle_tree::default_store::DefaultStore;
use sparse_merkle_tree::error::Error;
use sparse_merkle_tree::{MerkleProof, SparseMerkleTree, H256};
use crate::codec::zero32;

verus! {

#[verifier::external_type_specification]
#[verifier::external_body]
pub struct ExH256(H256);

#[verifier::external_type_specification]
#[verifier::external_body]
pub struct ExBlake2bHasher(Blake2bHasher);

#[verifier::external_type_specification]
#[verifier::external_body]
#[verifier::reject_recursive_types(V)]
pub struct ExDefaultStore<V>(DefaultStore<V>);

#[verifier::external_type_specification]
#[verifier::external_body]
#[verifier::reject_recursive_types(H)]
#[verifier::reject_recursive_types(V)]
#[verifier::reject_recursive_types(S)]
pub struct ExSparseMerkleTree<H, V, S>(SparseMerkleTree<H, V, S>);

#[verifier::external_type_specification]
#[verifier::external_body]
pub struct ExMerkleProof(MerkleProof);

#[verifier::external_type_specification]
#[verifier::external_body]
pub struct ExError(Error);

/// The concrete commitment store: Blake2b hashing, 32-byte values, in-memory
/// node storage.
pub type SmtTree = SparseMerkleTree<Blake2bHasher, H256, DefaultStore<H256>>;

/// The (key, value) pairs a tree holds, as 32-byte sequences. Writing a zero
/// value clears the key, so a key is present exactly when it was last written
/// with a non-zero value.
pub uninterp spec fn smt_contents(t: SmtTree) -> Map<Seq<u8>, Seq<u8>>;

/// The root hash, a pure function of the held pairs.
pub uninterp spec fn smt_root_of(m: Map<Seq<u8>, Seq<u8>>) -> Seq<u8>;

/// The data of the membership proof generated for a key sequence against held
/// pairs.
pub uninterp spec fn proof_of(m: Map<Seq<u8>, Seq<u8>>, keys: Seq<Seq<u8>>) -> Seq<u8>;

/// The data a proof object holds.
pub uninterp spec fn proof_data(p: MerkleProof) -> Seq<u8>;

/// The root that proof verification recomputes from proof data and a claimed
/// leaf sequence; `None` when the claimed leaves do not fit the proof's
/// structure and verification reports an error instead of a boolean.
pub uninterp spec fn computed_root(pd: Seq<u8>, leaves: Seq<(Seq<u8>, Seq<u8>)>) -> Option<Seq<u8>>;

/// A sequence of 32-byte keys, viewed as byte sequences.
pub open spec fn keys_view(s: Seq<[u8; 32]>) -> Seq<Seq<u8>> {
    s.map_values(|k: [u8; 32]| k@)
}

/// A sequence of 32-byte (key, value) pairs, viewed as byte sequences.
pub open spec fn pairs_view(s: Seq<([u8; 32], [u8; 32])>) -> Seq<(Seq<u8>, Seq<u8>)> {
    s.map_values(|p: ([u8; 32], [u8; 32])| (p.0@, p.1@))
}

/// One write into the held pairs: a zero value clears the key, any other
/// value overwrites it.
pub open spec fn insert_pair(
    m: Map<Seq<u8>, Seq<u8>>,
    k: Seq<u8>,
    v: Seq<u8>,
) -> Map<Seq<u8>, Seq<u8>> {
    if v == zero32() {
        m.remove(k)
    } else {
        m.insert(k, v)
    }
}

/// A batch of writes applied in order; a later write to the same key wins.
pub open spec fn apply_pairs(
    m: Map<Seq<u8>, Seq<u8>>,
    ps: Seq<(Seq<u8>, Seq<u8>)>,
) -> Map<Seq<u8>, Seq<u8>>
    decreases ps.len(),
{
    if ps.len() == 0 {
        m
    } else {
        insert_pair(apply_pairs(m, ps.drop_last()), ps.last().0, ps.last().1)
    }
}

/// No two entries share a key.
pub open spec fn unique_keys(ks: Seq<Seq<u8>>) -> bool {
    forall|i: int, j: int| 0 <= i < j < ks.len() ==> ks[i] != ks[j]
}

/// The leaf sequence that faithfully reports the held pairs for a key
/// sequence: each key paired with its held value, or with zero when absent.
pub open spec fn expected_leaves(
    m: Map<Seq<u8>, Seq<u8>>,
    ks: Seq<Seq<u8>>,
) -> Seq<(Seq<u8>, Seq<u8>)> {
    ks.map_values(|k: Seq<u8>| (k, if m.dom().contains(k) { m[k] } else { zero32() }))
}

/// The key components of a leaf sequence.
pub open spec fn leaf_keys(lv: Seq<(Seq<u8>, Seq<u8>)>) -> Seq<Seq<u8>> {
    lv.map_values(|l: (Seq<u8>, Seq<u8>)| l.0)
}

/// Relies on `SparseMerkleTree::default`: a fresh tree holds nothing and its
/// root is the defined empty root.
#[verifier::external_body]
pub(crate) fn smt_new() -> (tree: SmtTree)
    ensures
        (smt_contents(tree) == Map::<Seq<u8>, Seq<u8>>::empty()),
{
    SparseMerkleTree::default()
}

/// Relies on `SparseMerkleTree::update_all`: every pair is written, keeping
/// the last write per duplicate key; a zero value deletes the key. With the
/// in-memory default store every storage operation returns `Ok`, so the call
/// cannot fail; it expects a non-empty batch.
#[verifier::external_body]
pub(crate) fn smt_update_all(
    t: &mut SmtTree,
    pairs: &Vec<([u8; 32], [u8; 32])>,
) -> (r: Result<(), Error>)
    requires
        pairs@.len() > 0,
    ensures
        r is Ok,
        smt_contents(*final(t)) == apply_pairs(smt_contents(*old(t)), pairs_view(pairs@)),
{
    let leaves: Vec<(H256, H256)> =
        pairs.iter().map(|(k, v)| (H256::from(*k), H256::from(*v))).collect();
    t.update_all(leaves).map(|_| ())
}

/// Relies on `SparseMerkleTree::root`: returns the current root hash, a pure
/// function of the held pairs.
#[verifier::external_body]
pub(crate) fn smt_root(t: &SmtTree) -> (r: [u8; 32])
    ensures
        r@ == smt_root_of(smt_contents(*t)),
{
    (*t.root()).into()
}

/// Relies on `SparseMerkleTree::merkle_proof`: for a non-empty, duplicate-free
/// key sequence it returns a proof whose data is a function of the held pairs
/// and the keys. The store's own verification then recomputes the tree root
/// from that proof and the faithful leaf sequence (membership and
/// non-membership alike), and accepts any claimed leaf sequence that pairs
/// exactly these keys, in this order, with 32-byte values.
#[verifier::external_body]
pub(crate) fn smt_merkle_proof(
    t: &SmtTree,
    keys: &Vec<[u8; 32]>,
) -> (r: Result<MerkleProof, Error>)
    requires
        keys@.len() > 0,
        unique_keys(keys_view(keys@)),
    ensures
        r is Ok,
        r matches Ok(p) ==> {
            &&& proof_data(p) == proof_of(smt_contents(*t), keys_view(keys@))
            &&& computed_root(
                proof_data(p),
                expected_leaves(smt_contents(*t), keys_view(keys@)),
            ) == Some(smt_root_of(smt_contents(*t)))
            &&& forall|lv: Seq<(Seq<u8>, Seq<u8>)>|
                leaf_keys(lv) == keys_view(keys@) && (forall|i: int|
                    0 <= i < lv.len() ==> (#[trigger] lv[i]).1.len() == 32)
                    ==> (#[trigger] computed_root(proof_data(p), lv)) is Some
        },
{
    t.merkle_proof(keys.iter().map(|k| H256::from(*k)).collect())
}

/// Relies on `MerkleProof::verify` with `Blake2bHasher`: recomputes a root
/// from the proof data and the claimed leaves and compares it with the given
/// root; reports an error exactly when the claimed leaves do not fit the
/// proof's structure, which does not depend on the root compared against.
#[verifier::external_body]
pub(crate) fn smt_verify(
    p: &MerkleProof,
    root: &[u8; 32],
    leaves: &Vec<([u8; 32], [u8; 32])>,
) -> (r: Result<bool, Error>)
    requires
        unique_keys(leaf_keys(pairs_view(leaves@))),
    ensures
        r is Ok <==> computed_root(proof_data(*p), pairs_view(leaves@)) is Some,
        r matches Ok(b) ==> b == (computed_root(proof_data(*p), pairs_view(leaves@))
            == Some(root@)),
{
    let claimed: Vec<(H256, H256)> =
        leaves.iter().map(|(k, v)| (H256::from(*k), H256::from(*v))).collect();
    p.clone().verify::<Blake2bHasher>(&H256::from(*root), claimed)
}

} // verus!
