//! End-to-end workflow over the commitment store: validate a batch of domain
//! records, encode them, bulk-load a fresh tree, read the root, produce a
//! membership proof for chosen accounts, and verify claimed (account, amount)
//! pairs against a root.

use vstd::prelude::*;
use sparse_merkle_tree::MerkleProof;
use crate::codec::{
    encode_key, encode_value, key_bytes, lemma_encode_key_injective, lemma_value_bytes_zero,
    value_bytes, zero32,
};
use crate::store::{
    apply_pairs, computed_root, expected_leaves, insert_pair, leaf_keys, pairs_view, proof_data,
    proof_of, keys_view, smt_contents, smt_merkle_proof, smt_new, smt_root, smt_root_of,
    smt_update_all, smt_verify, SmtTree,
};

verus! {

/// A domain record: an account identifier and the amount committed for it.
#[derive(Clone, Copy, Debug)]
pub struct UserAmount {
    pub user: [u8; 20],
    pub amount: u128,
}

/// Errors of the commitment workflow. Verification returning `false` is not
/// an error: it is the expected negative outcome of checking a wrong claim.
#[derive(Clone, Copy, Debug, PartialEq, Eq)]
pub enum SmtError {
    /// A batch or claim set holds the same account twice.
    DuplicateAccount,
    /// A proof was requested for no keys at all.
    EmptyKeys,
    /// A claim set does not fit the structure of the proof it is checked
    /// against.
    LeavesMismatch,
}

/// A 32-byte commitment root.
#[derive(Clone, Copy, Debug)]
pub struct Root(pub [u8; 32]);

/// No two records name the same account.
pub open spec fn unique_accounts(rs: Seq<UserAmount>) -> bool {
    forall|i: int, j: int| 0 <= i < j < rs.len() ==> rs[i].user@ != rs[j].user@
}

/// No two entries are the same 20-byte account.
pub open spec fn unique_accounts20(ks: Seq<[u8; 20]>) -> bool {
    forall|i: int, j: int| 0 <= i < j < ks.len() ==> ks[i]@ != ks[j]@
}

/// The records encoded into the tree's 32-byte key/value space, in order.
pub open spec fn encoded_pairs(rs: Seq<UserAmount>) -> Seq<(Seq<u8>, Seq<u8>)> {
    rs.map_values(|r: UserAmount| (key_bytes(r.user@), value_bytes(r.amount)))
}

/// The tree keys of a sequence of accounts, in order.
pub open spec fn account_keys(ks: Seq<[u8; 20]>) -> Seq<Seq<u8>> {
    ks.map_values(|a: [u8; 20]| key_bytes(a@))
}

/// The pairs held by a tree freshly loaded with the encoded records.
pub open spec fn committed_map(rs: Seq<UserAmount>) -> Map<Seq<u8>, Seq<u8>> {
    apply_pairs(Map::<Seq<u8>, Seq<u8>>::empty(), encoded_pairs(rs))
}

/// Compare two 20-byte account identifiers.
fn bytes20_eq(a: &[u8; 20], b: &[u8; 20]) -> (r: bool)
    ensures
        r == (a@ == b@),
{
    let mut i: usize = 0;
    while i < 20
        invariant
            0 <= i <= 20,
            forall|j: int| 0 <= j < i ==> a@[j] == b@[j],
        decreases 20 - i,
    {
        if a[i] != b[i] {
            return false;
        }
        i += 1;
    }
    proof {
        assert(a@ =~= b@);
    }
    true
}

/// Report whether some account occurs twice in the batch.
fn has_duplicate_accounts(records: &Vec<UserAmount>) -> (r: bool)
    ensures
        r == !unique_accounts(records@),
{
    let n = records.len();
    let mut i: usize = 0;
    while i < n
        invariant
            n == records@.len(),
            0 <= i <= n,
            forall|p: int, q: int|
                0 <= p < q < n && p < i ==> records@[p].user@ != records@[q].user@,
        decreases n - i,
    {
        let mut j: usize = i + 1;
        while j < n
            invariant
                n == records@.len(),
                0 <= i < n,
                i + 1 <= j <= n,
                forall|p: int, q: int|
                    0 <= p < q < n && p < i ==> records@[p].user@ != records@[q].user@,
                forall|q: int| i < q < j ==> records@[i as int].user@ != records@[q].user@,
            decreases n - j,
        {
            if bytes20_eq(&records[i].user, &records[j].user) {
                return true;
            }
            j += 1;
        }
        i += 1;
    }
    false
}

/// Report whether some account occurs twice in the key list.
fn has_duplicate_keys(keys: &Vec<[u8; 20]>) -> (r: bool)
    ensures
        r == !unique_accounts20(keys@),
{
    let n = keys.len();
    let mut i: usize = 0;
    while i < n
        invariant
            n == keys@.len(),
            0 <= i <= n,
            forall|p: int, q: int| 0 <= p < q < n && p < i ==> keys@[p]@ != keys@[q]@,
        decreases n - i,
    {
        let mut j: usize = i + 1;
        while j < n
            invariant
                n == keys@.len(),
                0 <= i < n,
                i + 1 <= j <= n,
                forall|p: int, q: int| 0 <= p < q < n && p < i ==> keys@[p]@ != keys@[q]@,
                forall|q: int| i < q < j ==> keys@[i as int]@ != keys@[q]@,
            decreases n - j,
        {
            if bytes20_eq(&keys[i], &keys[j]) {
                return true;
            }
            j += 1;
        }
        i += 1;
    }
    false
}

/// Find the amount committed for an account, if any record names it.
fn find_amount(records: &Vec<UserAmount>, account: &[u8; 20]) -> (r: Option<u128>)
    ensures
        match r {
            Some(v) => exists|i: int|
                0 <= i < records@.len() && records@[i].user@ == account@ && records@[i].amount
                    == v,
            None => forall|i: int| 0 <= i < records@.len() ==> records@[i].user@ != account@,
        },
{
    let mut i: usize = 0;
    while i < records.len()
        invariant
            0 <= i <= records@.len(),
            forall|j: int| 0 <= j < i ==> records@[j].user@ != account@,
        decreases records@.len() - i,
    {
        if bytes20_eq(&records[i].user, account) {
            return Some(records[i].amount);
        }
        i += 1;
    }
    None
}

/// Distinct accounts encode to distinct tree keys, so a duplicate-free record
/// batch encodes to a duplicate-free key sequence.
proof fn lemma_encoded_unique(rs: Seq<UserAmount>)
    requires
        unique_accounts(rs),
    ensures
        forall|i: int, j: int|
            0 <= i < j < rs.len() ==> (#[trigger] encoded_pairs(rs)[i]).0 != (
            #[trigger] encoded_pairs(rs)[j]).0,
{
    assert forall|i: int, j: int|
        0 <= i < j < rs.len() implies (#[trigger] encoded_pairs(rs)[i]).0 != (
    #[trigger] encoded_pairs(rs)[j]).0 by {
        lemma_encode_key_injective(rs[i].user@, rs[j].user@);
    }
}

/// What a freshly loaded tree holds, for a duplicate-free batch of writes:
/// exactly the written keys whose value is non-zero, each with its written
/// value, and nothing else.
proof fn lemma_apply_unique(ps: Seq<(Seq<u8>, Seq<u8>)>)
    requires
        forall|i: int, j: int|
            0 <= i < j < ps.len() ==> (#[trigger] ps[i]).0 != (#[trigger] ps[j]).0,
    ensures
        forall|k: Seq<u8>|
            #[trigger] apply_pairs(Map::<Seq<u8>, Seq<u8>>::empty(), ps).dom().contains(k)
                ==> exists|i: int| 0 <= i < ps.len() && (#[trigger] ps[i]).0 == k,
        forall|i: int|
            0 <= i < ps.len() && (#[trigger] ps[i]).1 != zero32() ==> apply_pairs(
                Map::<Seq<u8>, Seq<u8>>::empty(),
                ps,
            ).dom().contains(ps[i].0) && apply_pairs(Map::<Seq<u8>, Seq<u8>>::empty(), ps)[ps[i].0]
                == ps[i].1,
        forall|i: int|
            0 <= i < ps.len() && (#[trigger] ps[i]).1 == zero32() ==> !apply_pairs(
                Map::<Seq<u8>, Seq<u8>>::empty(),
                ps,
            ).dom().contains(ps[i].0),
    decreases ps.len(),
{
    let m = apply_pairs(Map::<Seq<u8>, Seq<u8>>::empty(), ps);
    if ps.len() > 0 {
        let ps2 = ps.drop_last();
        lemma_apply_unique(ps2);
        let m2 = apply_pairs(Map::<Seq<u8>, Seq<u8>>::empty(), ps2);
        let last = ps.last();
        assert(m == insert_pair(m2, last.0, last.1));
        assert forall|k: Seq<u8>| #[trigger] m.dom().contains(k) implies exists|i: int|
            0 <= i < ps.len() && (#[trigger] ps[i]).0 == k by {
            if k == last.0 {
                assert(ps[ps.len() - 1].0 == k);
            } else {
                assert(m2.dom().contains(k));
                let i = choose|i: int| 0 <= i < ps2.len() && (#[trigger] ps2[i]).0 == k;
                assert(ps[i].0 == k);
            }
        }
        assert forall|i: int|
            0 <= i < ps.len() && (#[trigger] ps[i]).1 != zero32() implies m.dom().contains(
            ps[i].0) && m[ps[i].0] == ps[i].1 by {
            if i < ps.len() - 1 {
                assert(ps2[i] == ps[i]);
                assert(ps[i].0 != last.0);
            }
        }
        assert forall|i: int|
            0 <= i < ps.len() && (#[trigger] ps[i]).1 == zero32() implies !m.dom().contains(
            ps[i].0) by {
            if i < ps.len() - 1 {
                assert(ps2[i] == ps[i]);
                assert(ps[i].0 != last.0);
            }
        }
    }
}

/// The value a faithful report pairs with an account's key: the amount the
/// batch committed for it, or zero when the batch never names the account.
proof fn lemma_claim_value(rs: Seq<UserAmount>, a: Seq<u8>, v: u128)
    requires
        unique_accounts(rs),
        a.len() == 20,
        (exists|i: int| 0 <= i < rs.len() && (#[trigger] rs[i]).user@ == a && rs[i].amount == v)
            || ((forall|i: int| 0 <= i < rs.len() ==> (#[trigger] rs[i]).user@ != a) && v == 0),
    ensures
        (if committed_map(rs).dom().contains(key_bytes(a)) {
            committed_map(rs)[key_bytes(a)]
        } else {
            zero32()
        }) == value_bytes(v),
{
    let ps = encoded_pairs(rs);
    let m = committed_map(rs);
    lemma_encoded_unique(rs);
    lemma_apply_unique(ps);
    lemma_value_bytes_zero(v);
    if exists|i: int| 0 <= i < rs.len() && (#[trigger] rs[i]).user@ == a && rs[i].amount == v {
        let i = choose|i: int|
            0 <= i < rs.len() && (#[trigger] rs[i]).user@ == a && rs[i].amount == v;
        assert(ps[i] == (key_bytes(a), value_bytes(v)));
        if v == 0 {
            if m.dom().contains(key_bytes(a)) {
                let j = choose|j: int| 0 <= j < ps.len() && (#[trigger] ps[j]).0 == key_bytes(a);
                if rs[j].user@ != a {
                    lemma_encode_key_injective(rs[j].user@, a);
                }
                assert(rs[j].user@ == a);
                if i != j {
                    assert(rs[i].user@ != rs[j].user@);
                }
                assert(ps[j].1 == zero32());
                assert(false);
            }
        } else {
            assert(ps[i].1 != zero32());
        }
    } else {
        assert(v == 0);
        if m.dom().contains(key_bytes(a)) {
            let j = choose|j: int| 0 <= j < ps.len() && (#[trigger] ps[j]).0 == key_bytes(a);
            if rs[j].user@ != a {
                lemma_encode_key_injective(rs[j].user@, a);
            }
            assert(false);
        }
    }
}

/// The root is a pure function of the committed record set: two duplicate-free
/// batches holding the same records, in any order, load to the same held pairs
/// and therefore to the same root.
pub proof fn lemma_root_order_independent(r1: Seq<UserAmount>, r2: Seq<UserAmount>)
    requires
        unique_accounts(r1),
        unique_accounts(r2),
        r1.to_set() == r2.to_set(),
    ensures
        committed_map(r1) == committed_map(r2),
        smt_root_of(committed_map(r1)) == smt_root_of(committed_map(r2)),
{
    lemma_committed_subsumed(r1, r2);
    lemma_committed_subsumed(r2, r1);
    assert(committed_map(r1) =~= committed_map(r2));
}

/// One direction of root order-independence: every pair held after loading
/// `r1` is held, with the same value, after loading `r2`.
proof fn lemma_committed_subsumed(r1: Seq<UserAmount>, r2: Seq<UserAmount>)
    requires
        unique_accounts(r1),
        unique_accounts(r2),
        r1.to_set() == r2.to_set(),
    ensures
        forall|k: Seq<u8>|
            #[trigger] committed_map(r1).dom().contains(k) ==> committed_map(r2).dom().contains(k)
                && committed_map(r1)[k] == committed_map(r2)[k],
{
    let ps1 = encoded_pairs(r1);
    let ps2 = encoded_pairs(r2);
    let m1 = committed_map(r1);
    let m2 = committed_map(r2);
    lemma_encoded_unique(r1);
    lemma_encoded_unique(r2);
    lemma_apply_unique(ps1);
    lemma_apply_unique(ps2);
    assert forall|k: Seq<u8>| #[trigger] m1.dom().contains(k) implies m2.dom().contains(k)
        && m1[k] == m2[k] by {
        let i = choose|i: int| 0 <= i < ps1.len() && (#[trigger] ps1[i]).0 == k;
        let x = r1[i];
        assert(ps1[i] == (key_bytes(x.user@), value_bytes(x.amount)));
        if value_bytes(x.amount) == zero32() {
            assert(!m1.dom().contains(k));
        }
        assert(m1[k] == value_bytes(x.amount));
        assert(r1.to_set().contains(x));
        assert(r2.contains(x));
        let j = choose|j: int| 0 <= j < r2.len() && r2[j] == x;
        assert(ps2[j] == (key_bytes(x.user@), value_bytes(x.amount)));
    }
}

/// A batch of records committed into a fresh tree.
pub struct CommittedSmt {
    tree: SmtTree,
}

impl CommittedSmt {
    /// The (tree key, leaf value) pairs the tree holds.
    pub closed spec fn contents(self) -> Map<Seq<u8>, Seq<u8>> {
        smt_contents(self.tree)
    }

    /// The current root: a pure function of the held pairs.
    pub fn root(&self) -> (r: Root)
        ensures
            r.0@ == smt_root_of(self.contents()),
    {
        Root(smt_root(&self.tree))
    }

    /// Produce a membership proof for the given accounts. The account list is
    /// a set: it must be non-empty and duplicate-free, and those usage errors
    /// are reported; proof generation itself never fails.
    pub fn prove(&self, accounts: &Vec<[u8; 20]>) -> (r: Result<MerkleProof, SmtError>)
        ensures
            accounts@.len() == 0 ==> r == Err::<MerkleProof, SmtError>(SmtError::EmptyKeys),
            accounts@.len() > 0 && !unique_accounts20(accounts@) ==> r == Err::<
                MerkleProof,
                SmtError,
            >(SmtError::DuplicateAccount),
            accounts@.len() > 0 && unique_accounts20(accounts@) ==> r is Ok,
            r matches Ok(p) ==> {
                &&& proof_data(p) == proof_of(self.contents(), account_keys(accounts@))
                &&& (computed_root(
                    proof_data(p),
                    expected_leaves(self.contents(), account_keys(accounts@)),
                ) == Some(smt_root_of(self.contents())))
                &&& forall|lv: Seq<(Seq<u8>, Seq<u8>)>|
                    leaf_keys(lv) == account_keys(accounts@) && (forall|i: int|
                        0 <= i < lv.len() ==> (#[trigger] lv[i]).1.len() == 32) ==> (
                    #[trigger] computed_root(proof_data(p), lv)) is Some
            },
    {
        if accounts.len() == 0 {
            return Err(SmtError::EmptyKeys);
        }
        if has_duplicate_keys(accounts) {
            return Err(SmtError::DuplicateAccount);
        }
        let mut keys: Vec<[u8; 32]> = Vec::new();
        let mut i: usize = 0;
        while i < accounts.len()
            invariant
                0 <= i <= accounts@.len(),
                keys@.len() == i as int,
                forall|j: int| 0 <= j < i ==> (#[trigger] keys@[j])@ == key_bytes(accounts@[j]@),
            decreases accounts@.len() - i,
        {
            keys.push(encode_key(&accounts[i]).0);
            i += 1;
        }
        proof {
            assert(keys_view(keys@) =~= account_keys(accounts@));
            assert forall|p: int, q: int|
                0 <= p < q < keys@.len() implies keys_view(keys@)[p] != keys_view(keys@)[q] by {
                lemma_encode_key_injective(accounts@[p]@, accounts@[q]@);
            }
        }
        match smt_merkle_proof(&self.tree, &keys) {
            Ok(p) => Ok(p),
            Err(_) => vstd::pervasive::unreached(),
        }
    }
}

/// Validate and commit a batch of records into a fresh tree. A batch naming
/// the same account twice is a usage error and is rejected; a valid batch
/// always commits.
pub fn commit(records: &Vec<UserAmount>) -> (r: Result<CommittedSmt, SmtError>)
    ensures
        r is Ok <==> unique_accounts(records@),
        r matches Ok(c) ==> c.contents() == committed_map(records@),
        r is Err ==> r == Err::<CommittedSmt, SmtError>(SmtError::DuplicateAccount),
{
    if has_duplicate_accounts(records) {
        return Err(SmtError::DuplicateAccount);
    }
    let mut pairs: Vec<([u8; 32], [u8; 32])> = Vec::new();
    let mut i: usize = 0;
    while i < records.len()
        invariant
            0 <= i <= records@.len(),
            pairs@.len() == i as int,
            forall|j: int|
                0 <= j < i ==> (#[trigger] pairs@[j]).0@ == key_bytes(records@[j].user@)
                    && pairs@[j].1@ == value_bytes(records@[j].amount),
        decreases records@.len() - i,
    {
        let k = encode_key(&records[i].user);
        let v = encode_value(records[i].amount);
        pairs.push((k.0, v.0));
        i += 1;
    }
    proof {
        assert(pairs_view(pairs@) =~= encoded_pairs(records@));
    }
    let mut tree = smt_new();
    if pairs.len() > 0 {
        match smt_update_all(&mut tree, &pairs) {
            Ok(_) => {}
            Err(_) => {
                return vstd::pervasive::unreached();
            }
        }
    }
    Ok(CommittedSmt { tree })
}

/// Check a set of claimed (account, amount) pairs against a proof and a root.
/// Returns the verification verdict; a duplicate account among the claims, or
/// a claim set that does not fit the proof's structure, is an error distinct
/// from a `false` verdict.
pub fn verify_proof(proof: &MerkleProof, root: &Root, claims: &Vec<UserAmount>) -> (r: Result<
    bool,
    SmtError,
>)
    ensures
        !unique_accounts(claims@) ==> r == Err::<bool, SmtError>(SmtError::DuplicateAccount),
        unique_accounts(claims@) ==> match computed_root(
            proof_data(*proof),
            encoded_pairs(claims@),
        ) {
            Some(rt) => r == Ok::<bool, SmtError>(rt == root.0@),
            None => r == Err::<bool, SmtError>(SmtError::LeavesMismatch),
        },
{
    if has_duplicate_accounts(claims) {
        return Err(SmtError::DuplicateAccount);
    }
    let mut leaves: Vec<([u8; 32], [u8; 32])> = Vec::new();
    let mut i: usize = 0;
    while i < claims.len()
        invariant
            0 <= i <= claims@.len(),
            leaves@.len() == i as int,
            forall|j: int|
                0 <= j < i ==> (#[trigger] leaves@[j]).0@ == key_bytes(claims@[j].user@)
                    && leaves@[j].1@ == value_bytes(claims@[j].amount),
        decreases claims@.len() - i,
    {
        let k = encode_key(&claims[i].user);
        let v = encode_value(claims[i].amount);
        leaves.push((k.0, v.0));
        i += 1;
    }
    proof {
        assert(pairs_view(leaves@) =~= encoded_pairs(claims@));
        lemma_encoded_unique(claims@);
        assert forall|p: int, q: int|
            0 <= p < q < leaves@.len() implies leaf_keys(pairs_view(leaves@))[p] != leaf_keys(
            pairs_view(leaves@))[q] by {
            assert(leaf_keys(pairs_view(leaves@))[p] == encoded_pairs(claims@)[p].0);
            assert(leaf_keys(pairs_view(leaves@))[q] == encoded_pairs(claims@)[q].0);
        }
    }
    match smt_verify(proof, &root.0, &leaves) {
        Ok(b) => Ok(b),
        Err(_) => Err(SmtError::LeavesMismatch),
    }
}

/// The full pipeline: validate and commit the records, read the root, prove
/// the requested accounts, and verify the faithful claims reconstructed from
/// the records against that root. For a valid batch and a non-empty,
/// duplicate-free account set the verdict is always `true`: the store's proofs
/// are complete, for committed and uncommitted accounts alike.
pub fn commit_and_prove(records: &Vec<UserAmount>, keys_to_prove: &Vec<[u8; 20]>) -> (r: Result<
    (Root, MerkleProof, bool),
    SmtError,
>)
    ensures
        !unique_accounts(records@) ==> r == Err::<(Root, MerkleProof, bool), SmtError>(
            SmtError::DuplicateAccount,
        ),
        unique_accounts(records@) && keys_to_prove@.len() == 0 ==> r == Err::<
            (Root, MerkleProof, bool),
            SmtError,
        >(SmtError::EmptyKeys),
        unique_accounts(records@) && keys_to_prove@.len() > 0 && !unique_accounts20(
            keys_to_prove@,
        ) ==> r == Err::<(Root, MerkleProof, bool), SmtError>(SmtError::DuplicateAccount),
        unique_accounts(records@) && keys_to_prove@.len() > 0 && unique_accounts20(keys_to_prove@)
            ==> r is Ok,
        r matches Ok(t) ==> {
            &&& t.0.0@ == smt_root_of(committed_map(records@))
            &&& proof_data(t.1) == proof_of(committed_map(records@), account_keys(keys_to_prove@))
            &&& t.2 == true
        },
{
    let c = match commit(records) {
        Ok(c) => c,
        Err(e) => {
            return Err(e);
        },
    };
    if keys_to_prove.len() == 0 {
        return Err(SmtError::EmptyKeys);
    }
    let root = c.root();
    let p = match c.prove(keys_to_prove) {
        Ok(p) => p,
        Err(e) => {
            return Err(e);
        },
    };
    let mut claims: Vec<UserAmount> = Vec::new();
    let mut i: usize = 0;
    while i < keys_to_prove.len()
        invariant
            0 <= i <= keys_to_prove@.len(),
            claims@.len() == i as int,
            forall|j: int|
                0 <= j < i ==> (#[trigger] claims@[j]).user@ == keys_to_prove@[j]@,
            forall|j: int|
                0 <= j < i ==> ((exists|x: int|
                    0 <= x < records@.len() && (#[trigger] records@[x]).user@ == (
                    #[trigger] claims@[j]).user@ && records@[x].amount == claims@[j].amount) || ((
                forall|x: int|
                    0 <= x < records@.len() ==> (#[trigger] records@[x]).user@ != claims@[j].user@)
                    && claims@[j].amount == 0)),
        decreases keys_to_prove@.len() - i,
    {
        let account = keys_to_prove[i];
        let amount = match find_amount(records, &account) {
            Some(v) => v,
            None => 0,
        };
        claims.push(UserAmount { user: account, amount });
        i += 1;
    }
    let ghost m = committed_map(records@);
    let ghost ks = account_keys(keys_to_prove@);
    proof {
        assert forall|j: int|
            0 <= j < claims@.len() implies #[trigger] encoded_pairs(claims@)[j] == expected_leaves(
            m,
            ks,
        )[j] by {
            lemma_claim_value(records@, claims@[j].user@, claims@[j].amount);
            assert(ks[j] == key_bytes(claims@[j].user@));
        }
        assert(encoded_pairs(claims@) =~= expected_leaves(m, ks));
        assert(unique_accounts(claims@));
    }
    let b = match verify_proof(&p, &root, &claims) {
        Ok(b) => b,
        Err(_) => vstd::pervasive::unreached(),
    };
    Ok((root, p, b))
}

/// Commit a batch of records, then check a set of claimed (account, amount)
/// pairs against the resulting root, with the proof generated for exactly the
/// claimed accounts. For a valid batch and a non-empty, duplicate-free claim
/// set this never errors: a wrong or unfounded claim is refuted with a
/// `false` verdict, while the faithful claims yield `true`.
pub fn commit_and_verify(records: &Vec<UserAmount>, claims: &Vec<UserAmount>) -> (r: Result<
    (Root, MerkleProof, bool),
    SmtError,
>)
    ensures
        !unique_accounts(records@) ==> r == Err::<(Root, MerkleProof, bool), SmtError>(
            SmtError::DuplicateAccount,
        ),
        unique_accounts(records@) && claims@.len() == 0 ==> r == Err::<
            (Root, MerkleProof, bool),
            SmtError,
        >(SmtError::EmptyKeys),
        unique_accounts(records@) && claims@.len() > 0 && !unique_accounts(claims@) ==> r == Err::<
            (Root, MerkleProof, bool),
            SmtError,
        >(SmtError::DuplicateAccount),
        unique_accounts(records@) && claims@.len() > 0 && unique_accounts(claims@) ==> r is Ok,
        r matches Ok(t) ==> {
            &&& t.0.0@ == smt_root_of(committed_map(records@))
            &&& t.2 == (computed_root(proof_data(t.1), encoded_pairs(claims@)) == Some(
                smt_root_of(committed_map(records@)),
            ))
        },
{
    let c = match commit(records) {
        Ok(c) => c,
        Err(e) => {
            return Err(e);
        },
    };
    if claims.len() == 0 {
        return Err(SmtError::EmptyKeys);
    }
    let mut accounts: Vec<[u8; 20]> = Vec::new();
    let mut i: usize = 0;
    while i < claims.len()
        invariant
            0 <= i <= claims@.len(),
            accounts@.len() == i as int,
            forall|j: int| 0 <= j < i ==> (#[trigger] accounts@[j])@ == claims@[j].user@,
        decreases claims@.len() - i,
    {
        accounts.push(claims[i].user);
        i += 1;
    }
    proof {
        if unique_accounts(claims@) {
            assert forall|p: int, q: int|
                0 <= p < q < accounts@.len() implies accounts@[p]@ != accounts@[q]@ by {
                assert(claims@[p].user@ != claims@[q].user@);
            }
            assert(unique_accounts20(accounts@));
        } else {
            let (p, q) = choose|p: int, q: int|
                0 <= p < q < claims@.len() && claims@[p].user@ == claims@[q].user@;
            assert(accounts@[p]@ == accounts@[q]@);
            assert(!unique_accounts20(accounts@));
        }
    }
    let root = c.root();
    let p = match c.prove(&accounts) {
        Ok(p) => p,
        Err(e) => {
            return Err(e);
        },
    };
    proof {
        assert forall|j: int|
            0 <= j < claims@.len() implies #[trigger] leaf_keys(encoded_pairs(claims@))[j]
            == account_keys(accounts@)[j] by {
            assert(leaf_keys(encoded_pairs(claims@))[j] == key_bytes(claims@[j].user@));
        }
        assert(leaf_keys(encoded_pairs(claims@)) =~= account_keys(accounts@));
        assert forall|j: int|
            0 <= j < encoded_pairs(claims@).len() implies (#[trigger] encoded_pairs(
            claims@,
        )[j]).1.len() == 32 by {
            assert(encoded_pairs(claims@)[j].1 == value_bytes(claims@[j].amount));
        }
        assert(computed_root(proof_data(p), encoded_pairs(claims@)) is Some);
    }
    let b = match verify_proof(&p, &root, claims) {
        Ok(b) => b,
        Err(_) => vstd::pervasive::unreached(),
    };
    Ok((root, p, b))
}

} // verus!
