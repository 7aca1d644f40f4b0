use vstd::prelude::*;
use crate::address::{account_class, AccountAddress, Address, ContractAddress};
use crate::changes::ChangesView;
use crate::changeset::{
    account_balance_moved, effective_account_balance, effective_contract_balance, effective_module,
    effective_state, ChangeSet,
};
use crate::ledger::{module_key, Ledger};
use crate::types::{
    EngineOutcome, InterruptRequest, InvocationData, InvokeEntrypointResponse, InvokeFailure,
    InvokeResponse, Next, TestConfigurationError, UpdateContractPayload,
};

verus! {

/// Drives one transaction's call tree: it owns the change stack over the
/// ledger and the energy budget, reacts to what the execution engine reports,
/// and tells the driver what to run next.
#[derive(Debug)]
pub struct EntrypointInvocationHandler<S> {
    /// Amount reserved from the invoker for the energy of the transaction.
    pub reserved_amount: u64,
    /// The account that sent the transaction.
    pub invoker: AccountAddress,
    /// The changes made so far, one frame per active call over a base frame.
    pub changeset: ChangeSet,
    /// The energy left.
    pub remaining_energy: u64,
    /// The persisted store beneath the changes.
    pub chain: Ledger,
    /// The logs of the calls so far.
    pub logs: Vec<Vec<u8>>,
    /// The call that the engine is running, if any.
    pub current: Option<InvocationData>,
    /// The calls waiting for a nested call to end, innermost last, each with
    /// the engine's suspended continuation.
    pub suspended: Vec<(InvocationData, S)>,
}

/// Whether the sender of a call exists.
pub open spec fn sender_exists(chain: Ledger, s: Address) -> bool {
    match s {
        Address::Account(a) => chain.accounts_view().contains_key(account_class(a)),
        Address::Contract(c) => chain.contracts_view().contains_key(c),
    }
}

/// The sender's balance as the frames show it.
pub open spec fn sender_balance(chain: Ledger, fr: Seq<ChangesView>, s: Address) -> int {
    match s {
        Address::Account(a) => effective_account_balance(chain, fr, account_class(a)),
        Address::Contract(c) => effective_contract_balance(chain, fr, c),
    }
}

/// The failure of a call whose sender does not exist.
pub open spec fn missing_sender(s: Address) -> InvokeFailure {
    match s {
        Address::Account(_) => InvokeFailure::NonExistentAccount,
        Address::Contract(_) => InvokeFailure::NonExistentContract,
    }
}

impl<S> EntrypointInvocationHandler<S> {
    /// What holds in every state: the changes are consistent with the ledger,
    /// and every call in progress is on a contract of the ledger.
    pub open spec fn wf_core(&self) -> bool {
        &&& self.changeset.wf(self.chain)
        &&& forall|i: int| 0 <= i < self.suspended@.len()
            ==> self.chain.contracts_view().contains_key(#[trigger] self.suspended@[i].0.address)
    }

    /// No call is in progress: only the base frame is left.
    pub open spec fn idle(&self) -> bool {
        &&& self.wf_core()
        &&& self.current is None
        &&& self.suspended@.len() == 0
        &&& self.changeset.frames().len() == 1
    }

    /// The engine is running a call, which has a frame above those of the
    /// waiting calls and the base frame.
    pub open spec fn running(&self) -> bool {
        &&& self.wf_core()
        &&& self.current is Some
        &&& self.chain.contracts_view().contains_key(self.current->Some_0.address)
        &&& self.changeset.frames().len() == self.suspended@.len() + 2
    }

    /// A call has just ended, or is about to begin: one frame per waiting call
    /// over the base frame.
    pub open spec fn between(&self) -> bool {
        &&& self.wf_core()
        &&& self.current is None
        &&& self.changeset.frames().len() == self.suspended@.len() + 1
    }

    /// The handler is in the state that the directive `r` expects.
    pub open spec fn ready_for(&self, r: &Next<S>) -> bool {
        match r {
            Next::Done { .. } => self.idle(),
            _ => self.running(),
        }
    }

    /// `r` ends the transaction with `response`, and with the logs only where
    /// the response is not a failure.
    pub open spec fn ends_with(logs: Seq<Vec<u8>>, response: InvokeResponse, r: Next<S>) -> bool {
        &&& r matches Next::Done { result: Ok(end) }
        &&& r->result->Ok_0.invoke_response == response
        &&& (response is Failure ==> r->result->Ok_0.logs@.len() == 0)
        &&& (!(response is Failure) ==> r->result->Ok_0.logs@ == logs)
    }

    /// `r` resumes the waiting `caller` with `response`, its balance filled in
    /// where the response is a success, with its state as the frames show it
    /// and whether a nested call wrote to it.
    pub open spec fn resumes_with(
        chain: Ledger,
        frames: Seq<crate::changes::ChangesView>,
        caller: InvocationData,
        config: S,
        energy: u64,
        response: InvokeResponse,
        r: Next<S>,
    ) -> bool {
        match r {
            Next::Resume { config: c, response: rr, state, state_changed, energy: e } => {
                &&& c == config
                &&& e == energy
                &&& state@ == crate::changeset::effective_state(chain, frames, caller.address)
                &&& state_changed == (crate::changeset::frames_modification_index(frames, caller.address)
                    != caller.mod_idx_before_invoke)
                &&& match response {
                    InvokeResponse::Success { data, .. } => rr == (InvokeResponse::Success {
                        new_balance: effective_contract_balance(chain, frames, caller.address) as u64,
                        data,
                    }),
                    _ => rr == response,
                }
            },
            _ => false,
        }
    }

    /// `r` answers the call that ended with `response`: to the waiting caller
    /// where there is one, else as the end of the transaction.
    pub open spec fn answers(&self, energy: u64, response: InvokeResponse, r: Next<S>) -> bool {
        if self.suspended@.len() == 0 {
            Self::ends_with(self.logs@, response, r)
        } else {
            Self::resumes_with(
                self.chain,
                self.changeset.frames(),
                self.suspended@.last().0,
                self.suspended@.last().1,
                energy,
                response,
                r,
            )
        }
    }

    /// Where a call of `payload` from `sender` fails before the contract runs,
    /// the reason, else `None`. The lookup energy is taken before the
    /// entrypoint is looked up; running out of it is a configuration error,
    /// not a reason.
    pub open spec fn call_failure(&self, sender: Address, payload: UpdateContractPayload) -> Option<InvokeFailure> {
        let fr = self.changeset.frames();
        let a = payload.address;
        if !self.chain.contracts_view().contains_key(a) {
            Some(InvokeFailure::NonExistentContract)
        } else if !self.chain.modules_view().contains_key(module_key(effective_module(self.chain, fr, a))) {
            Some(InvokeFailure::NonExistentContract)
        } else if !self.chain.modules_view()[module_key(effective_module(self.chain, fr, a))].entrypoints.contains(payload.entrypoint@) {
            Some(InvokeFailure::NonExistentEntrypoint)
        } else if !sender_exists(self.chain, sender) {
            Some(missing_sender(sender))
        } else if sender_balance(self.chain, fr, sender) < payload.amount {
            Some(InvokeFailure::AmountTooLarge)
        } else {
            None
        }
    }

    /// The energy that looking up the module of the called contract costs.
    pub open spec fn lookup_energy(&self, payload: UpdateContractPayload) -> u64 {
        self.chain.modules_view()[module_key(effective_module(self.chain, self.changeset.frames(), payload.address))].lookup_energy
    }

    /// Whether the contract's module is found, so that its lookup is charged.
    pub open spec fn module_found(&self, payload: UpdateContractPayload) -> bool {
        &&& self.chain.contracts_view().contains_key(payload.address)
        &&& self.chain.modules_view().contains_key(module_key(effective_module(self.chain, self.changeset.frames(), payload.address)))
    }

    /// What a call of `payload` from `sender` does, from the state before it
    /// to the state after it, where `r` is what comes next.
    pub open spec fn starts_call(before: &Self, after: &Self, sender: Address, payload: UpdateContractPayload, r: Next<S>) -> bool {
        let fr = before.changeset.frames();
        let a = payload.address;
        if before.module_found(payload) && before.lookup_energy(payload) >= before.remaining_energy {
            &&& r == (Next::<S>::Done { result: Err(TestConfigurationError::OutOfEnergy) })
            &&& after.changeset.frames() == fr.take(1)
        } else {
            let energy = if before.module_found(payload) {
                (before.remaining_energy - before.lookup_energy(payload)) as u64
            } else {
                before.remaining_energy
            };
            match before.call_failure(sender, payload) {
                Some(kind) => {
                    &&& after.changeset.frames() == fr
                    &&& before.answers(energy, InvokeResponse::Failure { kind }, r)
                },
                None => if sender != Address::Contract(a)
                    && effective_contract_balance(before.chain, fr, a) + payload.amount > u64::MAX {
                    &&& r == (Next::<S>::Done { result: Err(TestConfigurationError::BalanceOverflow) })
                    &&& after.changeset.frames() == fr.take(1)
                } else {
                    &&& after.suspended == before.suspended
                    &&& after.logs == before.logs
                    &&& {
                        &&& after.changeset.frames().len() == fr.len() + 1
                        &&& after.changeset.frames().drop_last() == fr
                        &&& after.remaining_energy == energy
                        &&& sender_balance(before.chain, after.changeset.frames(), sender) + if sender == Address::Contract(a) { 0 } else { payload.amount as int }
                            == sender_balance(before.chain, fr, sender)
                        &&& sender != Address::Contract(a) ==> effective_contract_balance(before.chain, after.changeset.frames(), a)
                            == effective_contract_balance(before.chain, fr, a) + payload.amount
                        &&& after.current matches Some(d) && d.sender == sender && d.address == a && d.amount == payload.amount
                            && d.entrypoint@ == payload.entrypoint@ && d.parameter@ == payload.message@
                            && d.trace_elements_checkpoint == before.logs@.len()
                        &&& r matches Next::Initial { address, entrypoint, parameter, amount, state, energy: e }
                            && address == a && entrypoint@ == payload.entrypoint@ && parameter@ == payload.message@
                            && amount == payload.amount && e == energy
                            && state@ == effective_state(before.chain, after.changeset.frames(), a)
                    }
                },
            }
        }
    }

    /// The frames after the running call's state write, where it reported one.
    pub open spec fn state_written(fr: Seq<ChangesView>, w: Seq<ChangesView>, a: ContractAddress, state: Option<Vec<u8>>) -> bool {
        if state is Some {
            crate::changeset::contract_written(fr, w, a, crate::changes::state_view(state), None)
        } else {
            w == fr
        }
    }

    /// `r` resumes the running call, which goes on, with `response`, its
    /// state as the frames show it, and the energy left; the log is `logs`.
    pub open spec fn resumes_running(
        before: &Self,
        after: &Self,
        logs: Seq<Vec<u8>>,
        config: S,
        energy: u64,
        response: InvokeResponse,
        r: Next<S>,
    ) -> bool {
        &&& after.current == before.current
        &&& after.suspended == before.suspended
        &&& after.remaining_energy == energy
        &&& after.logs@ == logs
        &&& r matches Next::Resume { .. }
        &&& r->Resume_config == config
        &&& r->Resume_response == response
        &&& r->Resume_energy == energy
        &&& !r->Resume_state_changed
        &&& r->Resume_state@ == effective_state(before.chain, after.changeset.frames(), before.current->Some_0.address)
    }

    /// The log cut back to the running call's checkpoint.
    pub open spec fn logs_at_checkpoint(&self) -> Seq<Vec<u8>> {
        let cp = self.current->Some_0.trace_elements_checkpoint;
        if cp <= self.logs@.len() {
            self.logs@.subrange(0, cp as int)
        } else {
            self.logs@
        }
    }

    /// What handling an engine outcome that ended the running call does,
    /// once its energy was paid: the call's frame is dropped and `response`
    /// answered, to the waiting caller or as the end of the transaction.
    pub open spec fn fails_call(before: &Self, after: &Self, energy: u64, response: InvokeResponse, r: Next<S>) -> bool {
        let fr = crate::changeset::discard_frames(before.changeset.frames());
        &&& after.changeset.frames() == fr
        &&& after.remaining_energy == energy
        &&& after.logs@ == before.logs_at_checkpoint()
        &&& if before.suspended@.len() == 0 {
            Self::ends_with(Seq::empty(), response, r)
        } else {
            Self::resumes_with(before.chain, fr, before.suspended@.last().0, before.suspended@.last().1, energy, response, r)
        }
    }

    /// What answering the running call's interrupt does, from the state after
    /// its state write.
    pub open spec fn interrupt_handled(before: &Self, after: &Self, request: InterruptRequest, config: S, r: Next<S>) -> bool {
        let w = before.changeset.frames();
        let a = before.current->Some_0.address;
        let energy = before.remaining_energy;
        match request {
            InterruptRequest::QueryAccountBalance { account } => {
                &&& after.changeset.frames() == w
                &&& Self::resumes_running(before, after, before.logs@, config, energy,
                    if before.chain.accounts_view().contains_key(account_class(account)) {
                        InvokeResponse::Balance {
                            amount: effective_account_balance(before.chain, w, account_class(account)) as u64,
                        }
                    } else {
                        InvokeResponse::Failure { kind: InvokeFailure::NonExistentAccount }
                    }, r)
            },
            InterruptRequest::QueryContractBalance { contract } => {
                &&& after.changeset.frames() == w
                &&& Self::resumes_running(before, after, before.logs@, config, energy,
                    if before.chain.contracts_view().contains_key(contract) {
                        InvokeResponse::Balance { amount: effective_contract_balance(before.chain, w, contract) as u64 }
                    } else {
                        InvokeResponse::Failure { kind: InvokeFailure::NonExistentContract }
                    }, r)
            },
            InterruptRequest::Transfer { receiver, amount } => {
                let k = account_class(receiver);
                if !before.chain.accounts_view().contains_key(k) {
                    &&& after.changeset.frames() == w
                    &&& Self::resumes_running(before, after, before.logs@, config, energy,
                        InvokeResponse::Failure { kind: InvokeFailure::NonExistentAccount }, r)
                } else if amount > effective_contract_balance(before.chain, w, a) {
                    &&& after.changeset.frames() == w
                    &&& Self::resumes_running(before, after, before.logs@, config, energy,
                        InvokeResponse::Failure { kind: InvokeFailure::AmountTooLarge }, r)
                } else if effective_account_balance(before.chain, w, k) + amount > u64::MAX {
                    &&& r == (Next::<S>::Done { result: Err(TestConfigurationError::BalanceOverflow) })
                    &&& after.changeset.frames() == w.take(1)
                } else {
                    &&& Self::resumes_running(before, after, before.logs@, config, energy,
                        InvokeResponse::Success {
                            new_balance: (effective_contract_balance(before.chain, w, a) - amount) as u64,
                            data: None,
                        }, r)
                    &&& exists|h: Seq<ChangesView>| #[trigger] crate::changeset::contract_balance_moved(w, h, a, -(amount as int))
                        && account_balance_moved(h, after.changeset.frames(), k, amount as int)
                }
            },
            InterruptRequest::Upgrade { module } => {
                if !before.chain.modules_view().contains_key(module_key(module)) {
                    &&& after.changeset.frames() == w
                    &&& Self::resumes_running(before, after, before.logs@, config, energy,
                        InvokeResponse::Failure { kind: InvokeFailure::UpgradeInvalidModuleRef }, r)
                } else if crate::changeset::frames_modification_index(w, a) == u64::MAX {
                    &&& r == (Next::<S>::Done { result: Err(TestConfigurationError::ModificationIndexOverflow) })
                    &&& after.changeset.frames() == w.take(1)
                } else {
                    &&& crate::changeset::contract_written(w, after.changeset.frames(), a, None, Some(module))
                    &&& Self::resumes_running(before, after, before.logs@, config, energy,
                        InvokeResponse::Success { new_balance: effective_contract_balance(before.chain, w, a) as u64, data: None }, r)
                }
            },
            InterruptRequest::Call { contract, entrypoint, parameter, amount } => {
                exists|caller: Self| {
                    &&& #[trigger] caller.changeset.frames() == w
                    &&& caller.chain == before.chain
                    &&& caller.current is None
                    &&& caller.remaining_energy == energy
                    &&& caller.logs@ == before.logs@
                    &&& caller.suspended@.len() == before.suspended@.len() + 1
                    &&& caller.suspended@.drop_last() == before.suspended@
                    &&& caller.suspended@.last().1 == config
                    &&& caller.suspended@.last().0.address == a
                    &&& caller.suspended@.last().0.mod_idx_before_invoke == crate::changeset::frames_modification_index(w, a)
                    &&& Self::starts_call(
                        &caller,
                        after,
                        Address::Contract(a),
                        UpdateContractPayload { amount, address: contract, entrypoint, message: parameter },
                        r,
                    )
                }
            },
        }
    }

    /// What handling the outcome of the running call does, once its energy
    /// was paid.
    pub open spec fn handles(before: &Self, after: &Self, outcome: EngineOutcome<S>, r: Next<S>) -> bool {
        let fr = before.changeset.frames();
        let a = before.current->Some_0.address;
        let energy = (before.remaining_energy - outcome.energy_used()) as u64;
        let index_full = crate::changeset::frames_modification_index(fr, a) == u64::MAX;
        match outcome {
            EngineOutcome::Reject { code, return_value, .. } => Self::fails_call(
                before,
                after,
                energy,
                InvokeResponse::Failure { kind: InvokeFailure::ContractReject { code, data: return_value } },
                r,
            ),
            EngineOutcome::Trap { .. } => Self::fails_call(
                before,
                after,
                energy,
                InvokeResponse::Failure { kind: InvokeFailure::RuntimeError },
                r,
            ),
            EngineOutcome::Success { return_value, state, logs, .. } => if state is Some && index_full {
                &&& r == (Next::<S>::Done { result: Err(TestConfigurationError::ModificationIndexOverflow) })
                &&& after.changeset.frames() == fr.take(1)
            } else {
                exists|w: Seq<ChangesView>| #[trigger] Self::state_written(fr, w, a, state) && {
                    let cf = crate::changeset::commit_frames(w);
                    let response = InvokeResponse::Success {
                        new_balance: effective_contract_balance(before.chain, cf, a) as u64,
                        data: Some(return_value),
                    };
                    &&& after.changeset.frames() == cf
                    &&& after.remaining_energy == energy
                    &&& if before.suspended@.len() == 0 {
                        Self::ends_with(before.logs@ + logs@, response, r)
                    } else {
                        &&& after.logs@ == before.logs@ + logs@
                        &&& Self::resumes_with(before.chain, cf, before.suspended@.last().0, before.suspended@.last().1, energy, response, r)
                    }
                }
            },
            EngineOutcome::Interrupt { request, state, config, logs, .. } => if state is Some && index_full {
                &&& r == (Next::<S>::Done { result: Err(TestConfigurationError::ModificationIndexOverflow) })
                &&& after.changeset.frames() == fr.take(1)
            } else {
                exists|mid: Self| {
                    &&& #[trigger] Self::state_written(fr, mid.changeset.frames(), a, state)
                    &&& mid.chain == before.chain
                    &&& mid.current == before.current
                    &&& mid.suspended == before.suspended
                    &&& mid.remaining_energy == energy
                    &&& mid.logs@ == before.logs@ + logs@
                    &&& Self::interrupt_handled(&mid, after, request, config, r)
                }
            },
        }
    }

    /// A handler for a transaction of `invoker`, which reserves `reserved_amount`
    /// of its balance for energy; `None` where the invoker does not exist or
    /// cannot pay the reservation.
    pub fn new(chain: Ledger, invoker: AccountAddress, reserved_amount: u64, energy: u64) -> (r: Option<Self>)
        ensures
            r is None <==> !chain.accounts_view().contains_key(account_class(invoker)) || chain.accounts_view()[account_class(invoker)] < reserved_amount,
            r is Some ==> {
                let h = r->Some_0;
                &&& h.idle()
                &&& h.chain == chain
                &&& h.invoker == invoker
                &&& h.reserved_amount == reserved_amount
                &&& h.remaining_energy == energy
                &&& h.logs@.len() == 0
                &&& effective_account_balance(chain, h.changeset.frames(), account_class(invoker))
                    == chain.accounts_view()[account_class(invoker)] - reserved_amount
                &&& account_balance_moved(
                    seq![crate::changes::empty_changes()],
                    h.changeset.frames(),
                    account_class(invoker),
                    -(reserved_amount as int),
                )
            },
    {
        let mut changeset = ChangeSet::new(&chain);
        proof {
            let e = seq![crate::changes::empty_changes()];
            assert(e.drop_last() =~= Seq::<crate::changes::ChangesView>::empty());
            assert forall|c: Seq<u8>| #[trigger] crate::changeset::account_delta_sum(e, c) == 0 by {
                assert(crate::changeset::account_delta_sum(e.drop_last(), c) == 0);
            }
        }
        if chain.account_balance(&invoker).is_none() {
            return None;
        }
        match changeset.subtract_account_balance(&chain, &invoker, reserved_amount) {
            Ok(()) => {},
            Err(_) => {
                return None;
            },
        }
        Some(EntrypointInvocationHandler {
            reserved_amount,
            invoker,
            changeset,
            remaining_energy: energy,
            chain,
            logs: Vec::new(),
            current: None,
            suspended: Vec::new(),
        })
    }

    /// Takes energy for a step; fails, leaving none, where it would go to or
    /// below zero.
    fn charge(&mut self, amount: u64) -> (r: bool)
        ensures
            r == (amount < old(self).remaining_energy),
            r ==> final(self).remaining_energy == old(self).remaining_energy - amount,
            !r ==> final(self).remaining_energy == 0,
            final(self).changeset == old(self).changeset,
            final(self).chain == old(self).chain,
            final(self).current == old(self).current,
            final(self).suspended == old(self).suspended,
            final(self).logs == old(self).logs,
    {
        if amount < self.remaining_energy {
            self.remaining_energy = self.remaining_energy - amount;
            true
        } else {
            self.remaining_energy = 0;
            false
        }
    }

    /// Ends the transaction on a configuration error: every frame above the
    /// base one is discarded.
    fn abort(&mut self, e: TestConfigurationError) -> (r: Next<S>)
        requires
            old(self).wf_core(),
        ensures
            final(self).idle(),
            final(self).changeset.frames() == old(self).changeset.frames().take(1),
            final(self).chain == old(self).chain,
            final(self).remaining_energy == old(self).remaining_energy,
            final(self).logs@.len() == 0,
            r == (Next::<S>::Done { result: Err(e) }),
    {
        let ghost fr0 = self.changeset.frames();
        while self.changeset.depth() > 1
            invariant
                self.changeset.wf(self.chain),
                self.changeset.frames() == fr0.take(self.changeset.frames().len() as int),
                self.changeset.frames().len() >= 1,
                self.changeset.frames().len() <= fr0.len(),
                self.chain == old(self).chain,
                self.remaining_energy == old(self).remaining_energy,
            decreases self.changeset.frames().len(),
        {
            let ghost before = self.changeset.frames();
            self.changeset.pop_discard(&self.chain);
            assert(self.changeset.frames() == before.drop_last());
            assert(self.changeset.frames() =~= fr0.take(self.changeset.frames().len() as int));
        }
        self.current = None;
        self.suspended = Vec::new();
        self.logs = Vec::new();
        Next::Done { result: Err(e) }
    }

    /// Hands the answer of a call that ended to the call that made it, or ends
    /// the transaction with it where there is none.
    fn deliver(&mut self, response: InvokeResponse) -> (r: Next<S>)
        requires
            old(self).between(),
        ensures
            final(self).ready_for(&r),
            final(self).chain == old(self).chain,
            final(self).changeset.frames() == old(self).changeset.frames(),
            final(self).remaining_energy == old(self).remaining_energy,
            response is Failure ==> final(self).logs == old(self).logs,
            old(self).suspended@.len() == 0 ==> Self::ends_with(old(self).logs@, response, r),
            old(self).suspended@.len() > 0 ==> {
                let caller = old(self).suspended@.last().0;
                &&& final(self).current == Some(caller)
                &&& final(self).suspended@ == old(self).suspended@.drop_last()
                &&& final(self).logs == old(self).logs
                &&& Self::resumes_with(
                    old(self).chain,
                    old(self).changeset.frames(),
                    caller,
                    old(self).suspended@.last().1,
                    old(self).remaining_energy,
                    response,
                    r,
                )
            },
    {
        match self.suspended.pop() {
            None => {
                let mut logs = Vec::new();
                match &response {
                    InvokeResponse::Failure { .. } => {},
                    _ => {
                        logs.append(&mut self.logs);
                    },
                }
                Next::Done { result: Ok(InvokeEntrypointResponse { invoke_response: response, logs }) }
            },
            Some((data, config)) => {
                let address = data.address;
                let ghost k = self.suspended@.len();
                assert(old(self).suspended@[k as int].0.address == address);
                let mi = self.changeset.modification_index(&address);
                let state_changed = mi != data.mod_idx_before_invoke;
                let response = match response {
                    InvokeResponse::Success { new_balance: _, data: d } => {
                        let b = match self.changeset.contract_balance(&self.chain, &address) {
                            Some(b) => b,
                            None => 0,
                        };
                        InvokeResponse::Success { new_balance: b, data: d }
                    },
                    other => other,
                };
                let state = match self.changeset.contract_state(&self.chain, &address) {
                    Some(st) => st,
                    None => Vec::new(),
                };
                self.current = Some(data);
                Next::Resume { config, response, state, state_changed, energy: self.remaining_energy }
            },
        }
    }

    /// Begins a call: looks up the contract, its module (charging the
    /// module's lookup energy) and the entrypoint, pushes a frame for the call
    /// and moves the amount from the sender to the contract.
    fn start_call(&mut self, sender: Address, payload: UpdateContractPayload) -> (r: Next<S>)
        requires
            old(self).between(),
        ensures
            final(self).ready_for(&r),
            final(self).chain == old(self).chain,
            Self::starts_call(old(self), final(self), sender, payload, r),
            r is Initial ==> final(self).suspended == old(self).suspended,
    {
        let UpdateContractPayload { amount, address, entrypoint, message } = payload;
        let module_ref = match self.changeset.contract_module(&self.chain, &address) {
            Some(m) => m,
            None => {
                return self.deliver(InvokeResponse::Failure { kind: InvokeFailure::NonExistentContract });
            },
        };
        let mi = match self.chain.find_module(&module_ref) {
            Some(mi) => mi,
            None => {
                return self.deliver(InvokeResponse::Failure { kind: InvokeFailure::NonExistentContract });
            },
        };
        let lookup = self.chain.modules[mi].1.lookup_energy;
        if !self.charge(lookup) {
            return self.abort(TestConfigurationError::OutOfEnergy);
        }
        if !self.chain.modules[mi].1.has_entrypoint(&entrypoint) {
            return self.deliver(InvokeResponse::Failure { kind: InvokeFailure::NonExistentEntrypoint });
        }
        let ghost fr0 = self.changeset.frames();
        self.changeset.push_frame(&self.chain);
        proof {
            crate::changeset::lemma_push_empty_same_effect(fr0);
        }
        let ghost fr1 = self.changeset.frames();
        assert(sender_balance(self.chain, fr1, sender) == sender_balance(self.chain, fr0, sender));
        let paid: Result<(), InvokeFailure> = match sender {
            Address::Account(a) => {
                if self.changeset.account_balance(&self.chain, &a).is_none() {
                    Err(InvokeFailure::NonExistentAccount)
                } else {
                    match self.changeset.subtract_account_balance(&self.chain, &a, amount) {
                        Ok(()) => Ok(()),
                        Err(_) => Err(InvokeFailure::AmountTooLarge),
                    }
                }
            },
            Address::Contract(c) => {
                if self.changeset.contract_balance(&self.chain, &c).is_none() {
                    Err(InvokeFailure::NonExistentContract)
                } else {
                    match self.changeset.subtract_contract_balance(&self.chain, &c, amount) {
                        Ok(()) => Ok(()),
                        Err(_) => Err(InvokeFailure::AmountTooLarge),
                    }
                }
            },
        };
        match paid {
            Ok(()) => {},
            Err(kind) => {
                self.changeset.pop_discard(&self.chain);
                assert(self.changeset.frames() == fr0);
                assert(old(self).module_found(payload));
                assert(old(self).call_failure(sender, payload) == Some(kind));
                return self.deliver(InvokeResponse::Failure { kind });
            },
        }
        let ghost fr2 = self.changeset.frames();
        proof {
            assert(fr1.drop_last() == fr0);
            assert(fr2.drop_last() == fr0);
            assert(fr2.take(1) =~= fr0.take(1));
            assert(effective_contract_balance(self.chain, fr1, address) == effective_contract_balance(self.chain, fr0, address));
            if sender != Address::Contract(address) {
                assert(effective_contract_balance(self.chain, fr2, address) == effective_contract_balance(self.chain, fr1, address));
            } else {
                assert(effective_contract_balance(self.chain, fr2, address) == effective_contract_balance(self.chain, fr1, address) - amount);
            }
        }
        match self.changeset.add_contract_balance(&self.chain, &address, amount) {
            Ok(()) => {},
            Err(_) => {
                return self.abort(TestConfigurationError::BalanceOverflow);
            },
        }
        proof {
            let fr3 = self.changeset.frames();
            assert(fr3.drop_last() == fr0);
            assert(sender_balance(self.chain, fr1, sender) == sender_balance(self.chain, fr0, sender));
            assert(effective_contract_balance(self.chain, fr1, address) == effective_contract_balance(self.chain, fr0, address));
            assert(sender_balance(self.chain, fr2, sender) == sender_balance(self.chain, fr1, sender) - amount);
            if sender != Address::Contract(address) {
                assert(effective_contract_balance(self.chain, fr2, address) == effective_contract_balance(self.chain, fr1, address));
                assert(sender_balance(self.chain, fr3, sender) == sender_balance(self.chain, fr2, sender));
            } else {
                assert(sender_balance(self.chain, fr3, sender) == sender_balance(self.chain, fr2, sender) + amount);
            }
        }
        let state = match self.changeset.contract_state(&self.chain, &address) {
            Some(st) => st,
            None => Vec::new(),
        };
        let mod_idx = self.changeset.modification_index(&address);
        let entrypoint_copy = entrypoint.clone();
        let message_copy = message.clone();
        self.current = Some(InvocationData {
            sender,
            address,
            entrypoint: entrypoint_copy,
            amount,
            parameter: message_copy,
            trace_elements_checkpoint: self.logs.len(),
            mod_idx_before_invoke: mod_idx,
        });
        Next::Initial { address, entrypoint, parameter: message, amount, state, energy: self.remaining_energy }
    }

    /// Moves an amount from a contract to an account in the top frame. The
    /// call fails, changing nothing, where the account does not exist or the
    /// contract's balance is smaller than the amount; the transaction fails
    /// where the account's balance would exceed the largest amount.
    pub fn transfer(&mut self, from: &ContractAddress, to: &AccountAddress, amount: u64) -> (r: Result<InvokeResponse, TestConfigurationError>)
        requires
            old(self).changeset.wf(old(self).chain),
            old(self).chain.contracts_view().contains_key(*from),
        ensures
            final(self).changeset.wf(final(self).chain),
            final(self).chain == old(self).chain,
            final(self).current == old(self).current,
            final(self).suspended == old(self).suspended,
            final(self).changeset.frames().len() == old(self).changeset.frames().len(),
            final(self).changeset.frames().drop_last() == old(self).changeset.frames().drop_last(),
            final(self).logs == old(self).logs,
            final(self).remaining_energy == old(self).remaining_energy,
            !old(self).chain.accounts_view().contains_key(account_class(*to)) ==> (r matches Ok(InvokeResponse::Failure { kind: InvokeFailure::NonExistentAccount }))
                && final(self).changeset.frames() == old(self).changeset.frames(),
            old(self).chain.accounts_view().contains_key(account_class(*to))
                && amount > effective_contract_balance(old(self).chain, old(self).changeset.frames(), *from)
                ==> (r matches Ok(InvokeResponse::Failure { kind: InvokeFailure::AmountTooLarge }))
                && final(self).changeset.frames() == old(self).changeset.frames(),
            old(self).chain.accounts_view().contains_key(account_class(*to))
                && amount <= effective_contract_balance(old(self).chain, old(self).changeset.frames(), *from)
                && effective_account_balance(old(self).chain, old(self).changeset.frames(), account_class(*to)) + amount > u64::MAX
                ==> r == Err::<InvokeResponse, TestConfigurationError>(TestConfigurationError::BalanceOverflow),
            r matches Ok(InvokeResponse::Success { new_balance, data }) ==> {
                &&& data is None
                &&& new_balance == effective_contract_balance(old(self).chain, old(self).changeset.frames(), *from) - amount
                &&& exists|h: Seq<crate::changes::ChangesView>| #[trigger] crate::changeset::contract_balance_moved(
                    old(self).changeset.frames(), h, *from, -(amount as int))
                    && account_balance_moved(h, final(self).changeset.frames(), account_class(*to), amount as int)
            },
            r is Ok ==> (r matches Ok(InvokeResponse::Success { .. })) || final(self).changeset.frames() == old(self).changeset.frames(),
            old(self).chain.accounts_view().contains_key(account_class(*to))
                && amount <= effective_contract_balance(old(self).chain, old(self).changeset.frames(), *from)
                && effective_account_balance(old(self).chain, old(self).changeset.frames(), account_class(*to)) + amount <= u64::MAX
                ==> r matches Ok(InvokeResponse::Success { .. }),
    {
        if self.chain.account_balance(to).is_none() {
            return Ok(InvokeResponse::Failure { kind: InvokeFailure::NonExistentAccount });
        }
        let ghost f = self.changeset.frames();
        let before = match self.changeset.contract_balance(&self.chain, from) {
            Some(b) => b,
            None => 0,
        };
        match self.changeset.subtract_contract_balance(&self.chain, from, amount) {
            Ok(()) => {},
            Err(_) => {
                return Ok(InvokeResponse::Failure { kind: InvokeFailure::AmountTooLarge });
            },
        }
        let ghost h = self.changeset.frames();
        proof {
            assert(account_balance_moved(f, f, account_class(*to), 0)) by {
                assert forall|k: Seq<u8>| #[trigger] crate::changeset::account_delta_sum(h, k) == crate::changeset::account_delta_sum(f, k) by {}
            }
        }
        match self.changeset.add_account_balance(&self.chain, to, amount) {
            Ok(()) => {},
            Err(_) => {
                return Err(TestConfigurationError::BalanceOverflow);
            },
        }
        proof {
            assert(crate::changeset::contract_balance_moved(f, h, *from, -(amount as int)));
        }
        Ok(InvokeResponse::Success { new_balance: before - amount, data: None })
    }

    /// Resumes the running call with an answer.
    fn resume(&mut self, config: S, response: InvokeResponse) -> (r: Next<S>)
        requires
            old(self).running(),
        ensures
            final(self).ready_for(&r),
            *final(self) == *old(self),
            r is Resume,
            r->Resume_config == config,
            r->Resume_response == response,
            r->Resume_energy == old(self).remaining_energy,
            !r->Resume_state_changed,
            r->Resume_state@ == effective_state(old(self).chain, old(self).changeset.frames(), old(self).current->Some_0.address),
    {
        let address = match &self.current {
            Some(d) => d.address,
            // Not reached: a call is running.
            None => ContractAddress { index: 0, subindex: 0 },
        };
        let state = match self.changeset.contract_state(&self.chain, &address) {
            Some(st) => st,
            None => Vec::new(),
        };
        Next::Resume { config, response, state, state_changed: false, energy: self.remaining_energy }
    }

    /// Starts a transaction's top-level call of an entrypoint.
    pub fn invoke_entrypoint(&mut self, sender: Address, payload: UpdateContractPayload) -> (r: Next<S>)
        requires
            old(self).idle(),
        ensures
            final(self).ready_for(&r),
            final(self).chain == old(self).chain,
            Self::starts_call(old(self), final(self), sender, payload, r),
    {
        self.start_call(sender, payload)
    }

    /// Writes the state that the running call left, where it changed it.
    fn record_state(&mut self, address: &ContractAddress, state: Option<Vec<u8>>) -> (r: Result<(), TestConfigurationError>)
        requires
            old(self).running(),
            old(self).current->Some_0.address == *address,
        ensures
            final(self).running(),
            final(self).chain == old(self).chain,
            final(self).current == old(self).current,
            final(self).suspended == old(self).suspended,
            final(self).logs == old(self).logs,
            final(self).remaining_energy == old(self).remaining_energy,
            state is None ==> r is Ok && final(self).changeset.frames() == old(self).changeset.frames(),
            r is Err ==> final(self).changeset == old(self).changeset && r == Err::<(), TestConfigurationError>(TestConfigurationError::ModificationIndexOverflow),
            state is Some ==> (r is Ok <==> crate::changeset::frames_modification_index(old(self).changeset.frames(), *address) < u64::MAX),
            state is Some && r is Ok ==> crate::changeset::contract_written(
                old(self).changeset.frames(), final(self).changeset.frames(), *address, crate::changes::state_view(state), None),
    {
        match state {
            None => Ok(()),
            Some(st) => {
                if self.changeset.modification_index(address) == u64::MAX {
                    return Err(TestConfigurationError::ModificationIndexOverflow);
                }
                self.changeset.write_state(&self.chain, address, st);
                Ok(())
            },
        }
    }

    /// Takes what the engine reported for the running call and decides what
    /// comes next: a success commits the call's frame, a reject or a trap
    /// discards it, an interrupt is answered or starts a nested call.
    pub fn handle_outcome(&mut self, outcome: EngineOutcome<S>) -> (r: Next<S>)
        requires
            old(self).running(),
        ensures
            final(self).ready_for(&r),
            final(self).chain == old(self).chain,
            outcome.energy_used() >= old(self).remaining_energy ==> r == (Next::<S>::Done { result: Err(TestConfigurationError::OutOfEnergy) })
                && final(self).changeset.frames() == old(self).changeset.frames().take(1)
                && final(self).remaining_energy == 0,
            outcome.energy_used() < old(self).remaining_energy ==> Self::handles(old(self), final(self), outcome, r),
    {
        let energy_used = match &outcome {
            EngineOutcome::Success { energy_used, .. } => *energy_used,
            EngineOutcome::Reject { energy_used, .. } => *energy_used,
            EngineOutcome::Trap { energy_used } => *energy_used,
            EngineOutcome::Interrupt { energy_used, .. } => *energy_used,
        };
        if !self.charge(energy_used) {
            return self.abort(TestConfigurationError::OutOfEnergy);
        }
        let (address, checkpoint) = match &self.current {
            Some(d) => (d.address, d.trace_elements_checkpoint),
            // Not reached: a call is running.
            None => (ContractAddress { index: 0, subindex: 0 }, 0),
        };
        match outcome {
            EngineOutcome::Success { return_value, state, logs, .. } => {
                let ghost fr0 = self.changeset.frames();
                let ghost st = state;
                match self.record_state(&address, state) {
                    Ok(()) => {},
                    Err(e) => {
                        return self.abort(e);
                    },
                }
                let ghost w = self.changeset.frames();
                assert(Self::state_written(fr0, w, address, st));
                let mut logs = logs;
                self.logs.append(&mut logs);
                self.changeset.pop_commit(&self.chain);
                self.current = None;
                let b = match self.changeset.contract_balance(&self.chain, &address) {
                    Some(b) => b,
                    None => 0,
                };
                self.deliver(InvokeResponse::Success { new_balance: b, data: Some(return_value) })
            },
            EngineOutcome::Reject { code, return_value, .. } => {
                self.changeset.pop_discard(&self.chain);
                self.logs.truncate(checkpoint);
                self.current = None;
                self.deliver(InvokeResponse::Failure { kind: InvokeFailure::ContractReject { code, data: return_value } })
            },
            EngineOutcome::Trap { .. } => {
                self.changeset.pop_discard(&self.chain);
                self.logs.truncate(checkpoint);
                self.current = None;
                self.deliver(InvokeResponse::Failure { kind: InvokeFailure::RuntimeError })
            },
            EngineOutcome::Interrupt { request, state, logs, config, .. } => {
                let ghost fr0 = self.changeset.frames();
                let ghost st = state;
                match self.record_state(&address, state) {
                    Ok(()) => {},
                    Err(e) => {
                        return self.abort(e);
                    },
                }
                let ghost w = self.changeset.frames();
                assert(Self::state_written(fr0, w, address, st));
                let mut logs = logs;
                self.logs.append(&mut logs);
                let ghost mid = *self;
                let r = self.handle_interrupt(request, config);
                assert(Self::state_written(fr0, mid.changeset.frames(), address, st));
                r
            },
        }
    }

    /// Answers the running call's interrupt: a transfer, a query or an
    /// upgrade is resolved at once and the call resumed; a call starts the
    /// nested call, the caller waiting for it.
    fn handle_interrupt(&mut self, request: InterruptRequest, config: S) -> (r: Next<S>)
        requires
            old(self).running(),
        ensures
            final(self).ready_for(&r),
            final(self).chain == old(self).chain,
            Self::interrupt_handled(old(self), final(self), request, config, r),
    {
        let address = match &self.current {
            Some(d) => d.address,
            // Not reached: a call is running.
            None => ContractAddress { index: 0, subindex: 0 },
        };
        match request {
            InterruptRequest::Transfer { receiver, amount } => {
                match self.transfer(&address, &receiver, amount) {
                    Ok(response) => self.resume(config, response),
                    Err(e) => {
                        assert(self.changeset.frames().take(1) =~= old(self).changeset.frames().take(1));
                        self.abort(e)
                    },
                }
            },
            InterruptRequest::Call { contract, entrypoint, parameter, amount } => {
                let mi = self.changeset.modification_index(&address);
                match self.current.take() {
                    Some(data) => {
                        let mut data = data;
                        data.mod_idx_before_invoke = mi;
                        self.suspended.push((data, config));
                        let payload = UpdateContractPayload { amount, address: contract, entrypoint, message: parameter };
                        let ghost caller = *self;
                        assert(caller.suspended@.drop_last() =~= old(self).suspended@);
                        assert(caller.suspended@.last().1 == config);
                        assert(caller.suspended@.last().0.address == address);
                        let r = self.start_call(Address::Contract(address), payload);
                        assert(caller.changeset.frames() == old(self).changeset.frames());
                        r
                    },
                    // Not reached: a call is running.
                    None => self.abort(TestConfigurationError::OutOfEnergy),
                }
            },
            InterruptRequest::Upgrade { module } => {
                if self.chain.find_module(&module).is_none() {
                    return self.resume(config, InvokeResponse::Failure { kind: InvokeFailure::UpgradeInvalidModuleRef });
                }
                if self.changeset.modification_index(&address) == u64::MAX {
                    return self.abort(TestConfigurationError::ModificationIndexOverflow);
                }
                let ghost w = self.changeset.frames();
                self.changeset.write_module(&self.chain, &address, module);
                assert(crate::changeset::contract_delta_sum(self.changeset.frames(), address)
                    == crate::changeset::contract_delta_sum(w, address));
                let b = match self.changeset.contract_balance(&self.chain, &address) {
                    Some(b) => b,
                    None => 0,
                };
                self.resume(config, InvokeResponse::Success { new_balance: b, data: None })
            },
            InterruptRequest::QueryAccountBalance { account } => {
                let response = match self.changeset.account_balance(&self.chain, &account) {
                    Some(b) => InvokeResponse::Balance { amount: b },
                    None => InvokeResponse::Failure { kind: InvokeFailure::NonExistentAccount },
                };
                self.resume(config, response)
            },
            InterruptRequest::QueryContractBalance { contract } => {
                let response = match self.changeset.contract_balance(&self.chain, &contract) {
                    Some(b) => InvokeResponse::Balance { amount: b },
                    None => InvokeResponse::Failure { kind: InvokeFailure::NonExistentContract },
                };
                self.resume(config, response)
            },
        }
    }

    /// After the transaction, gives the invoker back its reservation less the
    /// fee for the energy used (nothing where the fee exceeds the reservation).
    /// Fails where the invoker's balance would exceed the largest amount.
    pub fn settle(&mut self, fee: u64) -> (r: Result<(), TestConfigurationError>)
        requires
            old(self).idle(),
            old(self).chain.accounts_view().contains_key(account_class(old(self).invoker)),
        ensures
            final(self).idle(),
            final(self).chain == old(self).chain,
            ({
                let refund = if fee <= old(self).reserved_amount { old(self).reserved_amount - fee } else { 0 };
                let k = account_class(old(self).invoker);
                &&& r is Ok <==> effective_account_balance(old(self).chain, old(self).changeset.frames(), k) + refund <= u64::MAX
                &&& r is Ok ==> account_balance_moved(old(self).changeset.frames(), final(self).changeset.frames(), k, refund)
                &&& r is Err ==> r == Err::<(), TestConfigurationError>(TestConfigurationError::BalanceOverflow)
            }),
    {
        let refund = if fee <= self.reserved_amount { self.reserved_amount - fee } else { 0 };
        match self.changeset.add_account_balance(&self.chain, &self.invoker, refund) {
            Ok(()) => Ok(()),
            Err(_) => Err(TestConfigurationError::BalanceOverflow),
        }
    }

    /// Ends the transaction's work: the ledger with the remaining frame applied.
    pub fn persist(self) -> (r: Ledger)
        requires
            self.idle(),
        ensures
            r.accounts_view() == Map::new(
                |k: Seq<u8>| self.chain.accounts_view().contains_key(k),
                |k: Seq<u8>| effective_account_balance(self.chain, self.changeset.frames(), k) as u64,
            ),
            r.contracts_view() == Map::new(
                |a: ContractAddress| self.chain.contracts_view().contains_key(a),
                |a: ContractAddress| crate::ledger::ContractInstanceView {
                    module: effective_module(self.chain, self.changeset.frames(), a),
                    balance: effective_contract_balance(self.chain, self.changeset.frames(), a) as u64,
                    state: effective_state(self.chain, self.changeset.frames(), a),
                },
            ),
            r.modules_view() == self.chain.modules_view(),
    {
        self.changeset.persist(self.chain)
    }
}

} // verus!
