use vstd::prelude::*;
use crate::address::{AccountAddress, Address, ContractAddress};
use crate::ledger::ModuleReference;

verus! {

/// A call of a contract entrypoint, as a transaction or a contract asks for it.
#[derive(Debug)]
pub struct UpdateContractPayload {
    /// The amount sent along with the call.
    pub amount: u64,
    /// The contract called.
    pub address: ContractAddress,
    /// The name of the entrypoint.
    pub entrypoint: Vec<u8>,
    /// The parameter handed to the entrypoint.
    pub message: Vec<u8>,
}

/// What is kept of one entrypoint call while it runs or waits for a nested call.
#[derive(Debug)]
pub struct InvocationData {
    /// Who made the call.
    pub sender: Address,
    /// The contract being called.
    pub address: ContractAddress,
    /// The entrypoint being run.
    pub entrypoint: Vec<u8>,
    /// The amount sent from the sender to the contract.
    pub amount: u64,
    /// The parameter given to the entrypoint.
    pub parameter: Vec<u8>,
    /// The length of the log when the call began; a failed call cuts the log back to it.
    pub trace_elements_checkpoint: usize,
    /// The contract's modification index when it last handed control to a nested call.
    pub mod_idx_before_invoke: u64,
}

/// Why a call failed, as the calling contract is told.
#[derive(Debug)]
pub enum InvokeFailure {
    /// The contract rejected the call.
    ContractReject { code: i32, data: Vec<u8> },
    /// The sender's balance is smaller than the amount.
    AmountTooLarge,
    /// The receiving account does not exist.
    NonExistentAccount,
    /// The called contract does not exist.
    NonExistentContract,
    /// The called contract has no such entrypoint.
    NonExistentEntrypoint,
    /// The contract trapped while running.
    RuntimeError,
    /// An upgrade named a module that does not exist.
    UpgradeInvalidModuleRef,
}

/// The answer to a call, a transfer, a query or an upgrade.
#[derive(Debug)]
pub enum InvokeResponse {
    /// It succeeded; `new_balance` is the asking contract's balance afterwards.
    Success { new_balance: u64, data: Option<Vec<u8>> },
    /// A balance query was answered.
    Balance { amount: u64 },
    /// It failed.
    Failure { kind: InvokeFailure },
}

/// What a running contract asks for when it interrupts.
#[derive(Debug)]
pub enum InterruptRequest {
    /// Send an amount from the contract to an account.
    Transfer { receiver: AccountAddress, amount: u64 },
    /// Call an entrypoint of a contract, possibly the same one.
    Call { contract: ContractAddress, entrypoint: Vec<u8>, parameter: Vec<u8>, amount: u64 },
    /// Replace the contract's own module.
    Upgrade { module: ModuleReference },
    /// Ask for an account's balance.
    QueryAccountBalance { account: AccountAddress },
    /// Ask for a contract's balance.
    QueryContractBalance { contract: ContractAddress },
}

/// What the execution engine reports after running a contract until it ends
/// or interrupts. `S` is the engine's suspended continuation, resumed once.
#[derive(Debug)]
pub enum EngineOutcome<S> {
    /// The entrypoint returned successfully; `state` is its new state, where it changed it.
    Success { return_value: Vec<u8>, state: Option<Vec<u8>>, logs: Vec<Vec<u8>>, energy_used: u64 },
    /// The entrypoint rejected; nothing it changed is kept.
    Reject { code: i32, return_value: Vec<u8>, energy_used: u64 },
    /// The entrypoint trapped.
    Trap { energy_used: u64 },
    /// The entrypoint asks for something before it can go on; `state` is its
    /// state at this point, where it changed it.
    Interrupt {
        request: InterruptRequest,
        state: Option<Vec<u8>>,
        logs: Vec<Vec<u8>>,
        config: S,
        energy_used: u64,
    },
}

impl<S> EngineOutcome<S> {
    pub open spec fn energy_used(&self) -> u64 {
        match self {
            EngineOutcome::Success { energy_used, .. } => *energy_used,
            EngineOutcome::Reject { energy_used, .. } => *energy_used,
            EngineOutcome::Trap { energy_used } => *energy_used,
            EngineOutcome::Interrupt { energy_used, .. } => *energy_used,
        }
    }
}

/// Errors that come from how the test is set up, not from a contract; they
/// end the whole transaction.
#[derive(Debug, Clone, Copy, PartialEq, Eq, Structural)]
pub enum TestConfigurationError {
    /// The energy ran out.
    OutOfEnergy,
    /// A balance went above the largest amount.
    BalanceOverflow,
    /// A contract's modification index reached its largest value.
    ModificationIndexOverflow,
}

/// The end of a transaction's top-level call.
#[derive(Debug)]
pub struct InvokeEntrypointResponse {
    /// The result of the call.
    pub invoke_response: InvokeResponse,
    /// The logs of the calls that took effect; empty unless the result is a success.
    pub logs: Vec<Vec<u8>>,
}

/// What the driver does next: run the engine on a fresh call, resume a
/// suspended one with an answer, or stop.
#[derive(Debug)]
pub enum Next<S> {
    /// Start running an entrypoint.
    Initial {
        address: ContractAddress,
        entrypoint: Vec<u8>,
        parameter: Vec<u8>,
        amount: u64,
        /// The contract's state as the frames show it.
        state: Vec<u8>,
        energy: u64,
    },
    /// Resume a suspended entrypoint with the answer to what it asked.
    Resume {
        config: S,
        response: InvokeResponse,
        /// The contract's state as the frames show it now.
        state: Vec<u8>,
        /// Whether a nested call changed the contract's state or module meanwhile.
        state_changed: bool,
        energy: u64,
    },
    /// The transaction's call tree has ended.
    Done { result: Result<InvokeEntrypointResponse, TestConfigurationError> },
}

} // verus!
