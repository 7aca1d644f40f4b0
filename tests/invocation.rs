use contract_testing::address::{AccountAddress, Address, ContractAddress};
use contract_testing::invocation::EntrypointInvocationHandler;
use contract_testing::ledger::{ContractInstance, Ledger, Module, ModuleReference};
use contract_testing::types::{
    EngineOutcome, InterruptRequest, InvokeFailure, InvokeResponse, Next, TestConfigurationError,
    UpdateContractPayload,
};

fn account(b: u8) -> AccountAddress {
    AccountAddress([b; 32])
}

fn contract(i: u64) -> ContractAddress {
    ContractAddress { index: i, subindex: 0 }
}

fn module_ref() -> ModuleReference {
    ModuleReference([7; 32])
}

/// A chain with account A holding 10000 and contract C (balance 0) of a module
/// that exports "receive" and costs `lookup` energy to load.
fn chain(lookup: u64, contract_balance: u64) -> Ledger {
    let mut chain = Ledger::new();
    chain.set_account(account(1), 10000);
    chain.set_module(
        module_ref(),
        Module { entrypoints: vec![b"receive".to_vec(), b"view".to_vec()], lookup_energy: lookup },
    );
    chain.set_contract(
        contract(0),
        ContractInstance { module: module_ref(), balance: contract_balance, state: b"init".to_vec() },
    );
    chain
}

fn payload(amount: u64, entrypoint: &[u8]) -> UpdateContractPayload {
    UpdateContractPayload {
        amount,
        address: contract(0),
        entrypoint: entrypoint.to_vec(),
        message: vec![],
    }
}

fn account_balance(h: &EntrypointInvocationHandler<u32>, a: &AccountAddress) -> Option<u64> {
    h.changeset.account_balance(&h.chain, a)
}

fn contract_balance(h: &EntrypointInvocationHandler<u32>, c: &ContractAddress) -> Option<u64> {
    h.changeset.contract_balance(&h.chain, c)
}

fn contract_state(h: &EntrypointInvocationHandler<u32>, c: &ContractAddress) -> Vec<u8> {
    h.changeset.contract_state(&h.chain, c).unwrap()
}

#[test]
fn call_that_transfers_and_writes_state_commits() {
    let mut h: EntrypointInvocationHandler<u32> =
        EntrypointInvocationHandler::new(chain(10, 0), account(1), 1000, 100000).unwrap();
    assert_eq!(account_balance(&h, &account(1)), Some(9000));
    let next = h.invoke_entrypoint(Address::Account(account(1)), payload(100, b"receive"));
    match next {
        Next::Initial { amount, state, energy, .. } => {
            assert_eq!(amount, 100);
            assert_eq!(state, b"init".to_vec());
            assert_eq!(energy, 100000 - 10);
        }
        other => panic!("unexpected {:?}", other),
    }
    assert_eq!(account_balance(&h, &account(1)), Some(8900));
    assert_eq!(contract_balance(&h, &contract(0)), Some(100));
    let next = h.handle_outcome(EngineOutcome::Interrupt {
        request: InterruptRequest::Transfer { receiver: account(1), amount: 100 },
        state: Some(b"paid".to_vec()),
        logs: vec![b"log1".to_vec()],
        config: 1,
        energy_used: 50,
    });
    match next {
        Next::Resume { config, response, state, state_changed, .. } => {
            assert_eq!(config, 1);
            assert!(matches!(response, InvokeResponse::Success { new_balance: 0, data: None }));
            assert_eq!(state, b"paid".to_vec());
            assert!(!state_changed);
        }
        other => panic!("unexpected {:?}", other),
    }
    let next = h.handle_outcome(EngineOutcome::Success {
        return_value: vec![1],
        state: None,
        logs: vec![b"log2".to_vec()],
        energy_used: 40,
    });
    match next {
        Next::Done { result: Ok(resp) } => {
            assert!(matches!(resp.invoke_response, InvokeResponse::Success { new_balance: 0, .. }));
            assert_eq!(resp.logs, vec![b"log1".to_vec(), b"log2".to_vec()]);
        }
        other => panic!("unexpected {:?}", other),
    }
    assert_eq!(h.remaining_energy, 100000 - 100);
    assert_eq!(account_balance(&h, &account(1)), Some(9000));
    assert_eq!(contract_balance(&h, &contract(0)), Some(0));
    assert_eq!(contract_state(&h, &contract(0)), b"paid".to_vec());
    assert_eq!(h.changeset.modification_index(&contract(0)), 1);
    // The fee for the energy used is taken from the reservation.
    assert!(h.settle(100).is_ok());
    assert_eq!(account_balance(&h, &account(1)), Some(10000 - 100));
    let stored = h.persist();
    assert_eq!(stored.account_balance(&account(1)), Some(9900));
    assert_eq!(stored.contract_balance(&contract(0)), Some(0));
    let i = stored.find_contract(&contract(0)).unwrap();
    assert_eq!(stored.contracts[i].1.state, b"paid".to_vec());
}

#[test]
fn energy_below_lookup_cost_runs_out() {
    let mut h: EntrypointInvocationHandler<u32> =
        EntrypointInvocationHandler::new(chain(500, 0), account(1), 1000, 100).unwrap();
    let next = h.invoke_entrypoint(Address::Account(account(1)), payload(0, b"receive"));
    assert!(matches!(
        next,
        Next::Done { result: Err(TestConfigurationError::OutOfEnergy) }
    ));
    assert_eq!(h.remaining_energy, 0);
    assert_eq!(h.changeset.depth(), 1);
    assert_eq!(contract_state(&h, &contract(0)), b"init".to_vec());
    assert_eq!(h.changeset.modification_index(&contract(0)), 0);
    // Only the reservation is held; settling charges the whole of it.
    assert_eq!(account_balance(&h, &account(1)), Some(9000));
    assert!(h.settle(1000).is_ok());
    assert_eq!(account_balance(&h, &account(1)), Some(9000));
}

#[test]
fn energy_equal_to_lookup_cost_runs_out() {
    let mut h: EntrypointInvocationHandler<u32> =
        EntrypointInvocationHandler::new(chain(100, 0), account(1), 1000, 100).unwrap();
    let next = h.invoke_entrypoint(Address::Account(account(1)), payload(0, b"receive"));
    assert!(matches!(
        next,
        Next::Done { result: Err(TestConfigurationError::OutOfEnergy) }
    ));
}

#[test]
fn reentrant_reject_keeps_outer_write() {
    let mut h: EntrypointInvocationHandler<u32> =
        EntrypointInvocationHandler::new(chain(1, 0), account(1), 1000, 100000).unwrap();
    let next = h.invoke_entrypoint(Address::Account(account(1)), payload(0, b"receive"));
    assert!(matches!(next, Next::Initial { .. }));
    // The outer call writes its state, then calls itself.
    let next = h.handle_outcome(EngineOutcome::Interrupt {
        request: InterruptRequest::Call {
            contract: contract(0),
            entrypoint: b"receive".to_vec(),
            parameter: vec![],
            amount: 0,
        },
        state: Some(b"outer".to_vec()),
        logs: vec![b"outer log".to_vec()],
        config: 1,
        energy_used: 10,
    });
    match next {
        Next::Initial { state, .. } => assert_eq!(state, b"outer".to_vec()),
        other => panic!("unexpected {:?}", other),
    }
    assert_eq!(h.changeset.depth(), 3);
    assert_eq!(h.changeset.modification_index(&contract(0)), 1);
    // The inner call writes, then rejects.
    let next = h.handle_outcome(EngineOutcome::Interrupt {
        request: InterruptRequest::QueryContractBalance { contract: contract(0) },
        state: Some(b"inner".to_vec()),
        logs: vec![b"inner log".to_vec()],
        config: 2,
        energy_used: 10,
    });
    match next {
        Next::Resume { config, response, state, .. } => {
            assert_eq!(config, 2);
            assert!(matches!(response, InvokeResponse::Balance { amount: 0 }));
            assert_eq!(state, b"inner".to_vec());
        }
        other => panic!("unexpected {:?}", other),
    }
    assert_eq!(h.changeset.modification_index(&contract(0)), 2);
    let next = h.handle_outcome(EngineOutcome::Reject { code: -3, return_value: vec![9], energy_used: 10 });
    match next {
        Next::Resume { config, response, state, state_changed, .. } => {
            assert_eq!(config, 1);
            match response {
                InvokeResponse::Failure { kind: InvokeFailure::ContractReject { code, data } } => {
                    assert_eq!(code, -3);
                    assert_eq!(data, vec![9]);
                }
                other => panic!("unexpected {:?}", other),
            }
            assert_eq!(state, b"outer".to_vec());
            assert!(!state_changed);
        }
        other => panic!("unexpected {:?}", other),
    }
    assert_eq!(h.changeset.depth(), 2);
    assert_eq!(h.changeset.modification_index(&contract(0)), 1);
    assert_eq!(h.logs, vec![b"outer log".to_vec()]);
    let next = h.handle_outcome(EngineOutcome::Success {
        return_value: vec![],
        state: None,
        logs: vec![],
        energy_used: 10,
    });
    match next {
        Next::Done { result: Ok(resp) } => {
            assert!(matches!(resp.invoke_response, InvokeResponse::Success { .. }));
            assert_eq!(resp.logs, vec![b"outer log".to_vec()]);
        }
        other => panic!("unexpected {:?}", other),
    }
    assert_eq!(contract_state(&h, &contract(0)), b"outer".to_vec());
}

#[test]
fn reentrant_success_reports_state_changed() {
    let mut h: EntrypointInvocationHandler<u32> =
        EntrypointInvocationHandler::new(chain(1, 0), account(1), 1000, 100000).unwrap();
    h.invoke_entrypoint(Address::Account(account(1)), payload(0, b"receive"));
    h.handle_outcome(EngineOutcome::Interrupt {
        request: InterruptRequest::Call {
            contract: contract(0),
            entrypoint: b"receive".to_vec(),
            parameter: vec![],
            amount: 0,
        },
        state: None,
        logs: vec![],
        config: 1,
        energy_used: 10,
    });
    let next = h.handle_outcome(EngineOutcome::Success {
        return_value: vec![5],
        state: Some(b"inner".to_vec()),
        logs: vec![],
        energy_used: 10,
    });
    match next {
        Next::Resume { config, response, state, state_changed, .. } => {
            assert_eq!(config, 1);
            assert!(matches!(response, InvokeResponse::Success { new_balance: 0, data: Some(_) }));
            assert_eq!(state, b"inner".to_vec());
            assert!(state_changed);
        }
        other => panic!("unexpected {:?}", other),
    }
    assert_eq!(h.changeset.modification_index(&contract(0)), 1);
}

#[test]
fn top_level_reject_leaves_nothing() {
    let mut h: EntrypointInvocationHandler<u32> =
        EntrypointInvocationHandler::new(chain(1, 0), account(1), 1000, 100000).unwrap();
    h.invoke_entrypoint(Address::Account(account(1)), payload(300, b"receive"));
    assert_eq!(account_balance(&h, &account(1)), Some(8700));
    let next = h.handle_outcome(EngineOutcome::Reject { code: -1, return_value: vec![], energy_used: 5 });
    match next {
        Next::Done { result: Ok(resp) } => {
            assert!(matches!(
                resp.invoke_response,
                InvokeResponse::Failure { kind: InvokeFailure::ContractReject { code: -1, .. } }
            ));
            assert!(resp.logs.is_empty());
        }
        other => panic!("unexpected {:?}", other),
    }
    assert_eq!(account_balance(&h, &account(1)), Some(9000));
    assert_eq!(contract_balance(&h, &contract(0)), Some(0));
}

#[test]
fn top_level_trap_leaves_nothing() {
    let mut h: EntrypointInvocationHandler<u32> =
        EntrypointInvocationHandler::new(chain(1, 0), account(1), 1000, 100000).unwrap();
    h.invoke_entrypoint(Address::Account(account(1)), payload(300, b"receive"));
    let next = h.handle_outcome(EngineOutcome::Trap { energy_used: 5 });
    match next {
        Next::Done { result: Ok(resp) } => assert!(matches!(
            resp.invoke_response,
            InvokeResponse::Failure { kind: InvokeFailure::RuntimeError }
        )),
        other => panic!("unexpected {:?}", other),
    }
    assert_eq!(account_balance(&h, &account(1)), Some(9000));
}

#[test]
fn outcome_energy_exhaustion_discards_all_frames() {
    let mut h: EntrypointInvocationHandler<u32> =
        EntrypointInvocationHandler::new(chain(1, 0), account(1), 1000, 100).unwrap();
    h.invoke_entrypoint(Address::Account(account(1)), payload(300, b"receive"));
    let next = h.handle_outcome(EngineOutcome::Success {
        return_value: vec![],
        state: Some(b"x".to_vec()),
        logs: vec![],
        energy_used: 99,
    });
    assert!(matches!(next, Next::Done { result: Err(TestConfigurationError::OutOfEnergy) }));
    assert_eq!(h.remaining_energy, 0);
    assert_eq!(account_balance(&h, &account(1)), Some(9000));
    assert_eq!(contract_state(&h, &contract(0)), b"init".to_vec());
}

#[test]
fn missing_contract_is_reported() {
    let mut h: EntrypointInvocationHandler<u32> =
        EntrypointInvocationHandler::new(chain(1, 0), account(1), 1000, 100).unwrap();
    let mut p = payload(0, b"receive");
    p.address = contract(9);
    let next = h.invoke_entrypoint(Address::Account(account(1)), p);
    match next {
        Next::Done { result: Ok(resp) } => assert!(matches!(
            resp.invoke_response,
            InvokeResponse::Failure { kind: InvokeFailure::NonExistentContract }
        )),
        other => panic!("unexpected {:?}", other),
    }
}

#[test]
fn missing_entrypoint_is_reported() {
    let mut h: EntrypointInvocationHandler<u32> =
        EntrypointInvocationHandler::new(chain(1, 0), account(1), 1000, 100).unwrap();
    let next = h.invoke_entrypoint(Address::Account(account(1)), payload(0, b"nothing"));
    match next {
        Next::Done { result: Ok(resp) } => assert!(matches!(
            resp.invoke_response,
            InvokeResponse::Failure { kind: InvokeFailure::NonExistentEntrypoint }
        )),
        other => panic!("unexpected {:?}", other),
    }
    assert_eq!(h.remaining_energy, 99);
}

#[test]
fn missing_sender_is_reported() {
    let mut h: EntrypointInvocationHandler<u32> =
        EntrypointInvocationHandler::new(chain(1, 0), account(1), 1000, 100).unwrap();
    let next = h.invoke_entrypoint(Address::Account(account(2)), payload(0, b"receive"));
    match next {
        Next::Done { result: Ok(resp) } => assert!(matches!(
            resp.invoke_response,
            InvokeResponse::Failure { kind: InvokeFailure::NonExistentAccount }
        )),
        other => panic!("unexpected {:?}", other),
    }
}

#[test]
fn amount_above_available_balance_is_too_large() {
    let mut h: EntrypointInvocationHandler<u32> =
        EntrypointInvocationHandler::new(chain(1, 0), account(1), 1000, 100).unwrap();
    // 9000 is available once 1000 is reserved.
    let next = h.invoke_entrypoint(Address::Account(account(1)), payload(9001, b"receive"));
    match next {
        Next::Done { result: Ok(resp) } => assert!(matches!(
            resp.invoke_response,
            InvokeResponse::Failure { kind: InvokeFailure::AmountTooLarge }
        )),
        other => panic!("unexpected {:?}", other),
    }
    assert_eq!(account_balance(&h, &account(1)), Some(9000));
}

#[test]
fn transfer_failures_resume_the_caller() {
    let mut h: EntrypointInvocationHandler<u32> =
        EntrypointInvocationHandler::new(chain(1, 50), account(1), 1000, 100000).unwrap();
    h.invoke_entrypoint(Address::Account(account(1)), payload(0, b"receive"));
    let next = h.handle_outcome(EngineOutcome::Interrupt {
        request: InterruptRequest::Transfer { receiver: account(3), amount: 1 },
        state: None,
        logs: vec![],
        config: 1,
        energy_used: 1,
    });
    assert!(matches!(
        next,
        Next::Resume { response: InvokeResponse::Failure { kind: InvokeFailure::NonExistentAccount }, .. }
    ));
    let next = h.handle_outcome(EngineOutcome::Interrupt {
        request: InterruptRequest::Transfer { receiver: account(1), amount: 51 },
        state: None,
        logs: vec![],
        config: 2,
        energy_used: 1,
    });
    assert!(matches!(
        next,
        Next::Resume { response: InvokeResponse::Failure { kind: InvokeFailure::AmountTooLarge }, .. }
    ));
    assert_eq!(contract_balance(&h, &contract(0)), Some(50));
}

#[test]
fn queries_and_upgrade_are_answered() {
    let mut chain = chain(1, 50);
    chain.set_module(ModuleReference([8; 32]), Module { entrypoints: vec![], lookup_energy: 1 });
    let mut h: EntrypointInvocationHandler<u32> =
        EntrypointInvocationHandler::new(chain, account(1), 1000, 100000).unwrap();
    h.invoke_entrypoint(Address::Account(account(1)), payload(0, b"receive"));
    let next = h.handle_outcome(EngineOutcome::Interrupt {
        request: InterruptRequest::QueryAccountBalance { account: account(1) },
        state: None,
        logs: vec![],
        config: 1,
        energy_used: 1,
    });
    assert!(matches!(next, Next::Resume { response: InvokeResponse::Balance { amount: 9000 }, .. }));
    let next = h.handle_outcome(EngineOutcome::Interrupt {
        request: InterruptRequest::QueryAccountBalance { account: account(4) },
        state: None,
        logs: vec![],
        config: 2,
        energy_used: 1,
    });
    assert!(matches!(
        next,
        Next::Resume { response: InvokeResponse::Failure { kind: InvokeFailure::NonExistentAccount }, .. }
    ));
    let next = h.handle_outcome(EngineOutcome::Interrupt {
        request: InterruptRequest::Upgrade { module: ModuleReference([9; 32]) },
        state: None,
        logs: vec![],
        config: 3,
        energy_used: 1,
    });
    assert!(matches!(
        next,
        Next::Resume { response: InvokeResponse::Failure { kind: InvokeFailure::UpgradeInvalidModuleRef }, .. }
    ));
    let next = h.handle_outcome(EngineOutcome::Interrupt {
        request: InterruptRequest::Upgrade { module: ModuleReference([8; 32]) },
        state: None,
        logs: vec![],
        config: 4,
        energy_used: 1,
    });
    assert!(matches!(next, Next::Resume { response: InvokeResponse::Success { new_balance: 50, .. }, .. }));
    assert_eq!(h.changeset.modification_index(&contract(0)), 1);
    assert_eq!(h.changeset.contract_module(&h.chain, &contract(0)).unwrap().0, [8; 32]);
}

#[test]
fn reservation_above_balance_is_refused() {
    let h: Option<EntrypointInvocationHandler<u32>> =
        EntrypointInvocationHandler::new(chain(1, 0), account(1), 10001, 100);
    assert!(h.is_none());
    let h: Option<EntrypointInvocationHandler<u32>> =
        EntrypointInvocationHandler::new(chain(1, 0), account(2), 0, 100);
    assert!(h.is_none());
    let h: Option<EntrypointInvocationHandler<u32>> =
        EntrypointInvocationHandler::new(chain(1, 0), account(1), 10000, 100);
    assert!(h.is_some());
}
