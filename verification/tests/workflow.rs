use smt_commit::workflow::{
    commit, commit_and_prove, commit_and_verify, verify_proof, SmtError, UserAmount,
};

const ACCOUNT: [u8; 20] = [
    0x74, 0x3a, 0x7e, 0x3b, 0x0b, 0x45, 0xff, 0xf5, 0xaf, 0x48, 0x57, 0xd6, 0x19, 0xe2, 0x32,
    0xfc, 0x9f, 0x86, 0xaf, 0x1c,
];

fn acct(tag: u8) -> [u8; 20] {
    let mut a = [0u8; 20];
    a[0] = tag;
    a[19] = tag.wrapping_mul(31);
    a
}

fn rec(user: [u8; 20], amount: u128) -> UserAmount {
    UserAmount { user, amount }
}

#[test]
fn single_record_commits_proves_and_verifies() {
    let records = vec![rec(ACCOUNT, 100)];
    let (root, _proof, verified) =
        commit_and_prove(&records, &vec![ACCOUNT]).expect("valid batch");
    assert!(verified);
    assert_ne!(root.0, [0u8; 32]);
}

#[test]
fn wrong_amount_verifies_false_not_error() {
    let records = vec![rec(ACCOUNT, 100)];
    let committed = commit(&records).unwrap();
    let root = committed.root();
    let proof = committed.prove(&vec![ACCOUNT]).unwrap();
    let verdict = verify_proof(&proof, &root, &vec![rec(ACCOUNT, 101)]);
    assert_eq!(verdict, Ok(false));
}

#[test]
fn uncommitted_account_verifies_false_not_error() {
    let records = vec![rec(ACCOUNT, 100)];
    let committed = commit(&records).unwrap();
    let root = committed.root();
    let absent = acct(9);
    let proof = committed.prove(&vec![absent]).unwrap();
    // Claiming any amount for an account never committed is refuted quietly.
    let verdict = verify_proof(&proof, &root, &vec![rec(absent, 5)]);
    assert_eq!(verdict, Ok(false));
    // Claiming zero for it is the faithful non-membership claim and holds.
    let verdict = verify_proof(&proof, &root, &vec![rec(absent, 0)]);
    assert_eq!(verdict, Ok(true));
}

#[test]
fn duplicate_account_in_batch_is_rejected() {
    let records = vec![rec(ACCOUNT, 1), rec(acct(2), 2), rec(ACCOUNT, 3)];
    assert_eq!(commit(&records).err(), Some(SmtError::DuplicateAccount));
    assert_eq!(
        commit_and_prove(&records, &vec![ACCOUNT]).err(),
        Some(SmtError::DuplicateAccount)
    );
}

#[test]
fn root_does_not_depend_on_batch_order() {
    let r1 = rec(acct(1), 10);
    let r2 = rec(acct(2), 20);
    let r3 = rec(ACCOUNT, 30);
    let root_a = commit(&vec![r1, r2, r3]).unwrap().root();
    let root_b = commit(&vec![r3, r1, r2]).unwrap().root();
    assert_eq!(root_a.0, root_b.0);
    // A different committed set gives a different root.
    let root_c = commit(&vec![r1, r2]).unwrap().root();
    assert_ne!(root_a.0, root_c.0);
}

#[test]
fn empty_key_set_is_rejected() {
    let records = vec![rec(ACCOUNT, 100)];
    assert_eq!(
        commit_and_prove(&records, &vec![]).err(),
        Some(SmtError::EmptyKeys)
    );
    let committed = commit(&records).unwrap();
    assert_eq!(committed.prove(&vec![]).err(), Some(SmtError::EmptyKeys));
}

#[test]
fn duplicate_keys_to_prove_are_rejected() {
    let records = vec![rec(ACCOUNT, 100)];
    assert_eq!(
        commit_and_prove(&records, &vec![ACCOUNT, ACCOUNT]).err(),
        Some(SmtError::DuplicateAccount)
    );
}

#[test]
fn empty_batch_commits_to_the_empty_root() {
    let committed = commit(&vec![]).unwrap();
    assert_eq!(committed.root().0, [0u8; 32]);
}

#[test]
fn claim_set_not_matching_proof_is_an_error() {
    let a = acct(1);
    let b = acct(2);
    let records = vec![rec(a, 10), rec(b, 20)];
    let committed = commit(&records).unwrap();
    let root = committed.root();
    let proof = committed.prove(&vec![a]).unwrap();
    let verdict = verify_proof(&proof, &root, &records);
    assert_eq!(verdict, Err(SmtError::LeavesMismatch));
    let verdict = verify_proof(&proof, &root, &vec![]);
    assert_eq!(verdict, Err(SmtError::LeavesMismatch));
}

#[test]
fn duplicate_claims_are_rejected() {
    let records = vec![rec(ACCOUNT, 100)];
    let committed = commit(&records).unwrap();
    let root = committed.root();
    let proof = committed.prove(&vec![ACCOUNT]).unwrap();
    let verdict = verify_proof(&proof, &root, &vec![rec(ACCOUNT, 100), rec(ACCOUNT, 100)]);
    assert_eq!(verdict, Err(SmtError::DuplicateAccount));
}

#[test]
fn multi_account_proof_verifies() {
    let records = vec![rec(acct(1), 10), rec(acct(2), 20), rec(ACCOUNT, 30)];
    let (_, _, verified) =
        commit_and_prove(&records, &vec![acct(2), ACCOUNT]).expect("valid batch");
    assert!(verified);
    // Proving an uncommitted account alongside a committed one still yields a
    // complete, truthful proof.
    let (_, _, verified) =
        commit_and_prove(&records, &vec![acct(1), acct(7)]).expect("valid batch");
    assert!(verified);
}

#[test]
fn verifying_against_a_foreign_root_is_false() {
    let records = vec![rec(ACCOUNT, 100)];
    let committed = commit(&records).unwrap();
    let proof = committed.prove(&vec![ACCOUNT]).unwrap();
    let other_root = commit(&vec![rec(ACCOUNT, 7)]).unwrap().root();
    let verdict = verify_proof(&proof, &other_root, &vec![rec(ACCOUNT, 100)]);
    assert_eq!(verdict, Ok(false));
}

#[test]
fn amount_zero_commits_like_an_absent_key() {
    // A zero amount encodes to the all-zero leaf, which the store treats as
    // deletion; the faithful claim still verifies.
    let records = vec![rec(ACCOUNT, 0), rec(acct(3), 5)];
    let (_, _, verified) =
        commit_and_prove(&records, &vec![ACCOUNT, acct(3)]).expect("valid batch");
    assert!(verified);
    let root = commit(&records).unwrap().root();
    let root_without = commit(&vec![rec(acct(3), 5)]).unwrap().root();
    assert_eq!(root.0, root_without.0);
}

#[test]
fn pipeline_refutes_wrong_claims_without_error() {
    let records = vec![rec(ACCOUNT, 100), rec(acct(4), 7)];
    // Wrong amount for a committed account: a quiet false.
    let (_, _, verified) =
        commit_and_verify(&records, &vec![rec(ACCOUNT, 101)])
            .expect("valid claim set");
    assert!(!verified);
    // Non-zero claim for an account never committed: a quiet false.
    let (_, _, verified) =
        commit_and_verify(&records, &vec![rec(acct(9), 1)])
            .expect("valid claim set");
    assert!(!verified);
    // The faithful claims: true.
    let (_, _, verified) =
        commit_and_verify(&records, &vec![rec(acct(4), 7), rec(ACCOUNT, 100)])
            .expect("valid claim set");
    assert!(verified);
}

#[test]
fn non_membership_on_the_empty_tree_verifies() {
    let committed = commit(&vec![]).unwrap();
    let root = committed.root();
    let proof = committed.prove(&vec![ACCOUNT]).unwrap();
    assert_eq!(verify_proof(&proof, &root, &vec![rec(ACCOUNT, 0)]), Ok(true));
    assert_eq!(verify_proof(&proof, &root, &vec![rec(ACCOUNT, 3)]), Ok(false));
}
