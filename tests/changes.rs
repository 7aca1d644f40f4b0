use contract_testing::address::{AccountAddress, ContractAddress};
use contract_testing::amount::{AmountDelta, AmountDeltaError};
use contract_testing::changeset::ChangeSet;
use contract_testing::ledger::{bytes_equal, ContractInstance, Ledger, Module, ModuleReference};

fn account(b: u8) -> AccountAddress {
    AccountAddress([b; 32])
}

fn contract(i: u64) -> ContractAddress {
    ContractAddress::new(i, 0)
}

fn ledger() -> Ledger {
    let mut l = Ledger::new();
    l.set_account(account(1), 1000);
    l.set_account(account(2), 50);
    l.set_module(ModuleReference([3; 32]), Module { entrypoints: vec![b"f".to_vec()], lookup_energy: 0 });
    l.set_contract(contract(0), ContractInstance { module: ModuleReference([3; 32]), balance: 500, state: vec![0] });
    l.set_contract(contract(1), ContractInstance { module: ModuleReference([3; 32]), balance: 7, state: vec![1] });
    l
}

#[test]
fn delta_arithmetic() {
    let d = AmountDelta::new();
    assert_eq!(d, AmountDelta::Positive(0));
    let d = d.add_amount(10).unwrap();
    assert_eq!(d, AmountDelta::Positive(10));
    let d = d.subtract_amount(25).unwrap();
    assert_eq!(d, AmountDelta::Negative(15));
    assert_eq!(d.add_delta(AmountDelta::Positive(20)), Ok(AmountDelta::Positive(5)));
    assert_eq!(d.apply_to_balance(100), Ok(85));
    assert_eq!(d.apply_to_balance(10), Err(AmountDeltaError::Underflow));
    assert_eq!(AmountDelta::Positive(1).apply_to_balance(u64::MAX), Err(AmountDeltaError::Overflow));
    assert_eq!(AmountDelta::Positive(u64::MAX).add_amount(1), Err(AmountDeltaError::Overflow));
    assert_eq!(AmountDelta::Negative(u64::MAX).subtract_amount(1), Err(AmountDeltaError::Underflow));
    assert_eq!(AmountDelta::Negative(u64::MAX).add_amount(u64::MAX), Ok(AmountDelta::Positive(0)));
}

#[test]
fn aliases_share_an_account() {
    let a = account(1);
    let mut b = a;
    b.0[31] = 9;
    let mut c = a;
    c.0[28] = 9;
    assert!(a.same_account(&b));
    assert!(!a.same_account(&c));
    let mut l = Ledger::new();
    l.set_account(a, 10);
    assert_eq!(l.account_balance(&b), Some(10));
    assert_eq!(l.account_balance(&c), None);
    l.set_account(b, 11);
    assert_eq!(l.account_balance(&a), Some(11));
}

#[test]
fn ledger_lookups() {
    let l = ledger();
    assert_eq!(l.contract_balance(&contract(1)), Some(7));
    assert_eq!(l.contract_balance(&contract(2)), None);
    assert!(l.find_module(&ModuleReference([3; 32])).is_some());
    assert!(l.find_module(&ModuleReference([4; 32])).is_none());
    assert!(l.modules[0].1.has_entrypoint(&b"f".to_vec()));
    assert!(!l.modules[0].1.has_entrypoint(&b"g".to_vec()));
    assert!(bytes_equal(&vec![1, 2], &vec![1, 2]));
    assert!(!bytes_equal(&vec![1, 2], &vec![1]));
}

#[test]
fn nested_commits_match_direct_writes() {
    let l = ledger();
    let mut cs = ChangeSet::new(&l);
    cs.push_frame(&l);
    cs.write_state(&l, &contract(0), vec![5]);
    cs.subtract_contract_balance(&l, &contract(0), 100).unwrap();
    cs.push_frame(&l);
    cs.add_account_balance(&l, &account(2), 100).unwrap();
    cs.write_state(&l, &contract(0), vec![6]);
    cs.push_frame(&l);
    cs.write_state(&l, &contract(1), vec![7]);
    cs.pop_commit(&l);
    cs.pop_commit(&l);
    cs.pop_commit(&l);
    assert_eq!(cs.depth(), 1);
    assert_eq!(cs.contract_balance(&l, &contract(0)), Some(400));
    assert_eq!(cs.account_balance(&l, &account(2)), Some(150));
    assert_eq!(cs.contract_state(&l, &contract(0)), Some(vec![6]));
    assert_eq!(cs.contract_state(&l, &contract(1)), Some(vec![7]));
    assert_eq!(cs.modification_index(&contract(0)), 2);
    assert_eq!(cs.modification_index(&contract(1)), 1);
    let stored = cs.persist(l);
    assert_eq!(stored.contract_balance(&contract(0)), Some(400));
    assert_eq!(stored.account_balance(&account(2)), Some(150));
    assert_eq!(stored.account_balance(&account(1)), Some(1000));
    assert_eq!(stored.contracts[stored.find_contract(&contract(0)).unwrap()].1.state, vec![6]);
    assert_eq!(stored.contracts[stored.find_contract(&contract(1)).unwrap()].1.state, vec![7]);
}

#[test]
fn rejected_subtree_is_discarded_and_sibling_kept() {
    let l = ledger();
    let mut cs = ChangeSet::new(&l);
    cs.push_frame(&l);
    // A sibling call that commits.
    cs.push_frame(&l);
    cs.write_state(&l, &contract(1), vec![8]);
    cs.add_account_balance(&l, &account(1), 5).unwrap();
    cs.pop_commit(&l);
    // A call whose sub-tree rejects.
    cs.push_frame(&l);
    cs.write_state(&l, &contract(0), vec![9]);
    cs.push_frame(&l);
    cs.subtract_account_balance(&l, &account(2), 50).unwrap();
    cs.pop_commit(&l);
    cs.pop_discard(&l);
    cs.pop_commit(&l);
    assert_eq!(cs.contract_state(&l, &contract(0)), Some(vec![0]));
    assert_eq!(cs.account_balance(&l, &account(2)), Some(50));
    assert_eq!(cs.modification_index(&contract(0)), 0);
    assert_eq!(cs.contract_state(&l, &contract(1)), Some(vec![8]));
    assert_eq!(cs.account_balance(&l, &account(1)), Some(1005));
}

#[test]
fn transfer_deltas_cancel() {
    let l = ledger();
    let mut cs = ChangeSet::new(&l);
    cs.push_frame(&l);
    cs.subtract_contract_balance(&l, &contract(1), 7).unwrap();
    cs.add_account_balance(&l, &account(2), 7).unwrap();
    let c = cs.contract_balance(&l, &contract(1)).unwrap() as i128 - 7;
    let a = cs.account_balance(&l, &account(2)).unwrap() as i128 - 50;
    assert_eq!(c + a, 0);
    assert_eq!(cs.subtract_contract_balance(&l, &contract(1), 1), Err(AmountDeltaError::Underflow));
    assert_eq!(cs.contract_balance(&l, &contract(1)), Some(0));
    assert_eq!(cs.add_account_balance(&l, &account(2), u64::MAX), Err(AmountDeltaError::Overflow));
    assert_eq!(cs.account_balance(&l, &account(2)), Some(57));
}

#[test]
fn discarding_empty_frames_keeps_ancestors() {
    let l = ledger();
    let mut cs = ChangeSet::new(&l);
    cs.push_frame(&l);
    cs.subtract_contract_balance(&l, &contract(0), 20).unwrap();
    cs.write_state(&l, &contract(0), vec![4]);
    cs.push_frame(&l);
    cs.pop_discard(&l);
    cs.push_frame(&l);
    cs.pop_discard(&l);
    assert_eq!(cs.depth(), 2);
    assert_eq!(cs.contract_balance(&l, &contract(0)), Some(480));
    assert_eq!(cs.contract_state(&l, &contract(0)), Some(vec![4]));
    assert_eq!(cs.modification_index(&contract(0)), 1);
}

#[test]
fn writes_raise_only_their_own_index() {
    let l = ledger();
    let mut cs = ChangeSet::new(&l);
    cs.push_frame(&l);
    let before0 = cs.modification_index(&contract(0));
    let before1 = cs.modification_index(&contract(1));
    cs.write_state(&l, &contract(0), vec![1]);
    assert!(cs.modification_index(&contract(0)) > before0);
    cs.write_module(&l, &contract(0), ModuleReference([3; 32]));
    assert_eq!(cs.modification_index(&contract(0)), 2);
    cs.add_contract_balance(&l, &contract(1), 3).unwrap();
    assert_eq!(cs.modification_index(&contract(1)), before1);
    cs.push_frame(&l);
    cs.write_state(&l, &contract(0), vec![2]);
    assert_eq!(cs.modification_index(&contract(0)), 3);
    cs.pop_commit(&l);
    assert_eq!(cs.modification_index(&contract(0)), 3);
}
