use vstd::prelude::*;
use crate::address::{account_class, AccountAddress, ContractAddress};
use crate::amount::{is_delta, AmountDelta, AmountDeltaError};
use crate::entries::{
    entries_map, lemma_entries_map_contains, lemma_entries_map_get, lemma_entries_map_update,
    lemma_unique_keys_push, unique_keys,
};
use crate::ledger::{account_key_fn, contract_key_fn, ModuleReference};

verus! {

/// What one frame holds for an account.
#[derive(Clone, Copy, Debug)]
pub struct AccountChanges {
    /// The persisted balance when the entry was made. Never modified.
    pub original_balance: u64,
    /// How much the balance has changed in this frame.
    pub balance_delta: AmountDelta,
}

pub struct AccountChangesView {
    pub original_balance: u64,
    pub balance_delta: int,
}

impl View for AccountChanges {
    type V = AccountChangesView;

    open spec fn view(&self) -> AccountChangesView {
        AccountChangesView {
            original_balance: self.original_balance,
            balance_delta: self.balance_delta.value(),
        }
    }
}

/// What one frame holds for a contract instance.
#[derive(Debug)]
pub struct ContractChanges {
    /// Grows by one on each write to the instance's own state or module.
    pub modification_index: u64,
    /// How much the instance's balance has changed in this frame.
    pub self_balance_delta: AmountDelta,
    /// The persisted balance when the entry was made. Never modified.
    pub self_balance_original: u64,
    /// The state, where this frame replaced it.
    pub state: Option<Vec<u8>>,
    /// The module, where this frame replaced it.
    pub module: Option<ModuleReference>,
}

pub struct ContractChangesView {
    pub modification_index: u64,
    pub self_balance_delta: int,
    pub self_balance_original: u64,
    pub state: Option<Seq<u8>>,
    pub module: Option<ModuleReference>,
}

pub open spec fn state_view(s: Option<Vec<u8>>) -> Option<Seq<u8>> {
    match s {
        Some(v) => Some(v@),
        None => None,
    }
}

impl View for ContractChanges {
    type V = ContractChangesView;

    open spec fn view(&self) -> ContractChangesView {
        ContractChangesView {
            modification_index: self.modification_index,
            self_balance_delta: self.self_balance_delta.value(),
            self_balance_original: self.self_balance_original,
            state: state_view(self.state),
            module: self.module,
        }
    }
}

/// One nesting level's overlay of changes to contracts and accounts.
#[derive(Debug)]
pub struct Changes {
    pub contracts: Vec<(ContractAddress, ContractChanges)>,
    /// Keyed by account, aliases sharing one entry.
    pub accounts: Vec<(AccountAddress, AccountChanges)>,
}

pub struct ChangesView {
    pub contracts: Map<ContractAddress, ContractChangesView>,
    pub accounts: Map<Seq<u8>, AccountChangesView>,
}

pub open spec fn contract_changes_fn() -> spec_fn(ContractChanges) -> ContractChangesView {
    |c: ContractChanges| c@
}

pub open spec fn account_changes_fn() -> spec_fn(AccountChanges) -> AccountChangesView {
    |c: AccountChanges| c@
}

impl View for Changes {
    type V = ChangesView;

    open spec fn view(&self) -> ChangesView {
        ChangesView {
            contracts: entries_map(self.contracts@, contract_key_fn(), contract_changes_fn()),
            accounts: entries_map(self.accounts@, account_key_fn(), account_changes_fn()),
        }
    }
}

/// The frame with no changes.
pub open spec fn empty_changes() -> ChangesView {
    ChangesView { contracts: Map::empty(), accounts: Map::empty() }
}

/// A contract's entry after a child frame's entry is merged into its parent's.
pub open spec fn merge_contract(p: ContractChangesView, c: ContractChangesView) -> ContractChangesView {
    ContractChangesView {
        modification_index: if p.modification_index >= c.modification_index {
            p.modification_index
        } else {
            c.modification_index
        },
        self_balance_delta: p.self_balance_delta + c.self_balance_delta,
        self_balance_original: p.self_balance_original,
        state: if c.state is Some {
            c.state
        } else {
            p.state
        },
        module: if c.module is Some {
            c.module
        } else {
            p.module
        },
    }
}

/// An account's entry after a child frame's entry is merged into its parent's.
pub open spec fn merge_account(p: AccountChangesView, c: AccountChangesView) -> AccountChangesView {
    AccountChangesView {
        original_balance: p.original_balance,
        balance_delta: p.balance_delta + c.balance_delta,
    }
}

/// The contract entries of a parent frame after a child frame's are merged in,
/// counting only the child's entries outside `rest`.
pub open spec fn partial_merge_contracts(
    p: Map<ContractAddress, ContractChangesView>,
    c: Map<ContractAddress, ContractChangesView>,
    rest: Map<ContractAddress, ContractChangesView>,
) -> Map<ContractAddress, ContractChangesView> {
    Map::new(
        |a: ContractAddress| p.contains_key(a) || (c.contains_key(a) && !rest.contains_key(a)),
        |a: ContractAddress|
            if c.contains_key(a) && !rest.contains_key(a) {
                if p.contains_key(a) {
                    merge_contract(p[a], c[a])
                } else {
                    c[a]
                }
            } else {
                p[a]
            },
    )
}

/// The account entries of a parent frame after a child frame's are merged in,
/// counting only the child's entries outside `rest`.
pub open spec fn partial_merge_accounts(
    p: Map<Seq<u8>, AccountChangesView>,
    c: Map<Seq<u8>, AccountChangesView>,
    rest: Map<Seq<u8>, AccountChangesView>,
) -> Map<Seq<u8>, AccountChangesView> {
    Map::new(
        |k: Seq<u8>| p.contains_key(k) || (c.contains_key(k) && !rest.contains_key(k)),
        |k: Seq<u8>|
            if c.contains_key(k) && !rest.contains_key(k) {
                if p.contains_key(k) {
                    merge_account(p[k], c[k])
                } else {
                    c[k]
                }
            } else {
                p[k]
            },
    )
}

/// The parent frame after the child frame is merged into it.
pub open spec fn merge_changes(p: ChangesView, c: ChangesView) -> ChangesView {
    ChangesView {
        contracts: partial_merge_contracts(p.contracts, c.contracts, Map::empty()),
        accounts: partial_merge_accounts(p.accounts, c.accounts, Map::empty()),
    }
}

pub open spec fn contracts_merge_fit(
    p: Map<ContractAddress, ContractChangesView>,
    c: Map<ContractAddress, ContractChangesView>,
) -> bool {
    forall|a: ContractAddress|
        p.contains_key(a) && c.contains_key(a) ==> is_delta(
            p[a].self_balance_delta + c[a].self_balance_delta,
        )
}

pub open spec fn accounts_merge_fit(
    p: Map<Seq<u8>, AccountChangesView>,
    c: Map<Seq<u8>, AccountChangesView>,
) -> bool {
    forall|k: Seq<u8>|
        p.contains_key(k) && c.contains_key(k) ==> is_delta(p[k].balance_delta + c[k].balance_delta)
}

/// Whether every delta that the merge adds up can still be held as a delta.
pub open spec fn merge_fits(p: ChangesView, c: ChangesView) -> bool {
    &&& contracts_merge_fit(p.contracts, c.contracts)
    &&& accounts_merge_fit(p.accounts, c.accounts)
}

impl Changes {
    /// No two entries stand for the same contract or the same account.
    pub open spec fn wf(&self) -> bool {
        &&& unique_keys(self.contracts@, contract_key_fn())
        &&& unique_keys(self.accounts@, account_key_fn())
    }

    /// A frame with no changes.
    pub fn new() -> (r: Changes)
        ensures
            r.wf(),
            r@ == empty_changes(),
    {
        let r = Changes { contracts: Vec::new(), accounts: Vec::new() };
        assert(r@.contracts =~= Map::<ContractAddress, ContractChangesView>::empty());
        assert(r@.accounts =~= Map::<Seq<u8>, AccountChangesView>::empty());
        r
    }

    /// The index of a contract's entry, if the frame has one.
    pub fn find_contract(&self, address: &ContractAddress) -> (r: Option<usize>)
        requires
            self.wf(),
        ensures
            r is None <==> !self@.contracts.contains_key(*address),
            r is Some ==> r->Some_0 < self.contracts@.len() && self.contracts@[r->Some_0 as int].0
                == *address && self@.contracts[*address] == self.contracts@[r->Some_0 as int].1@,
    {
        let mut i: usize = 0;
        while i < self.contracts.len()
            invariant
                i <= self.contracts@.len(),
                self.wf(),
                forall|j: int| 0 <= j < i ==> self.contracts@[j].0 != *address,
            decreases self.contracts@.len() - i,
        {
            if self.contracts[i].0.equals(address) {
                proof {
                    lemma_entries_map_get(self.contracts@, contract_key_fn(), contract_changes_fn(), i as int);
                }
                return Some(i);
            }
            i = i + 1;
        }
        proof {
            lemma_entries_map_contains(self.contracts@, contract_key_fn(), contract_changes_fn(), *address);
        }
        None
    }

    /// The index of an account's entry, if the frame has one.
    pub fn find_account(&self, address: &AccountAddress) -> (r: Option<usize>)
        requires
            self.wf(),
        ensures
            r is None <==> !self@.accounts.contains_key(account_class(*address)),
            r is Some ==> r->Some_0 < self.accounts@.len() && account_class(
                self.accounts@[r->Some_0 as int].0,
            ) == account_class(*address) && self@.accounts[account_class(*address)]
                == self.accounts@[r->Some_0 as int].1@,
    {
        let mut i: usize = 0;
        while i < self.accounts.len()
            invariant
                i <= self.accounts@.len(),
                self.wf(),
                forall|j: int| 0 <= j < i ==> account_class(self.accounts@[j].0) != account_class(*address),
            decreases self.accounts@.len() - i,
        {
            if self.accounts[i].0.same_account(address) {
                proof {
                    lemma_entries_map_get(self.accounts@, account_key_fn(), account_changes_fn(), i as int);
                }
                return Some(i);
            }
            i = i + 1;
        }
        proof {
            lemma_entries_map_contains(self.accounts@, account_key_fn(), account_changes_fn(), account_class(*address));
        }
        None
    }

    /// Adds an entry for a contract that has none.
    pub fn insert_contract(&mut self, address: ContractAddress, entry: ContractChanges)
        requires
            old(self).wf(),
            !old(self)@.contracts.contains_key(address),
        ensures
            final(self).wf(),
            final(self)@.contracts == old(self)@.contracts.insert(address, entry@),
            final(self)@.accounts == old(self)@.accounts,
            final(self).contracts@.len() == old(self).contracts@.len() + 1,
            final(self).contracts@.last().0 == address,
    {
        let ghost s0 = self.contracts@;
        proof {
            lemma_entries_map_contains(s0, contract_key_fn(), contract_changes_fn(), address);
            lemma_unique_keys_push(s0, contract_key_fn(), (address, entry));
        }
        self.contracts.push((address, entry));
        assert(self.contracts@.drop_last() == s0);
    }

    /// Adds an entry for an account that has none.
    pub fn insert_account(&mut self, address: AccountAddress, entry: AccountChanges)
        requires
            old(self).wf(),
            !old(self)@.accounts.contains_key(account_class(address)),
        ensures
            final(self).wf(),
            final(self)@.accounts == old(self)@.accounts.insert(account_class(address), entry@),
            final(self)@.contracts == old(self)@.contracts,
            final(self).accounts@.len() == old(self).accounts@.len() + 1,
            account_class(final(self).accounts@.last().0) == account_class(address),
    {
        let ghost s0 = self.accounts@;
        proof {
            lemma_entries_map_contains(s0, account_key_fn(), account_changes_fn(), account_class(address));
            lemma_unique_keys_push(s0, account_key_fn(), (address, entry));
        }
        self.accounts.push((address, entry));
        assert(self.accounts@.drop_last() == s0);
    }

    /// Replaces the balance change of the account entry at `i`.
    pub fn set_account_delta(&mut self, i: usize, delta: AmountDelta)
        requires
            old(self).wf(),
            i < old(self).accounts@.len(),
        ensures
            final(self).wf(),
            final(self).accounts@.len() == old(self).accounts@.len(),
            final(self).accounts@[i as int].0 == old(self).accounts@[i as int].0,
            final(self)@.accounts == old(self)@.accounts.insert(
                account_class(old(self).accounts@[i as int].0),
                AccountChangesView { balance_delta: delta.value(), ..old(self)@.accounts[account_class(old(self).accounts@[i as int].0)] },
            ),
            final(self)@.contracts == old(self)@.contracts,
    {
        let ghost s0 = self.accounts@;
        proof {
            lemma_entries_map_get(s0, account_key_fn(), account_changes_fn(), i as int);
        }
        self.accounts[i].1.balance_delta = delta;
        proof {
            assert(self.accounts@ == s0.update(i as int, self.accounts@[i as int]));
            lemma_entries_map_update(s0, account_key_fn(), account_changes_fn(), i as int, self.accounts@[i as int]);
        }
    }

    /// Replaces fields of the contract entry at `i`: its balance change, its
    /// modification index, and, where given, its state and its module.
    pub fn set_contract(
        &mut self,
        i: usize,
        delta: AmountDelta,
        modification_index: u64,
        state: Option<Vec<u8>>,
        module: Option<ModuleReference>,
    )
        requires
            old(self).wf(),
            i < old(self).contracts@.len(),
        ensures
            final(self).wf(),
            final(self).contracts@.len() == old(self).contracts@.len(),
            final(self).contracts@[i as int].0 == old(self).contracts@[i as int].0,
            final(self)@.contracts == old(self)@.contracts.insert(
                old(self).contracts@[i as int].0,
                ContractChangesView {
                    self_balance_delta: delta.value(),
                    modification_index: modification_index,
                    state: if state is Some { state_view(state) } else { old(self)@.contracts[old(self).contracts@[i as int].0].state },
                    module: if module is Some { module } else { old(self)@.contracts[old(self).contracts@[i as int].0].module },
                    ..old(self)@.contracts[old(self).contracts@[i as int].0]
                },
            ),
            final(self)@.accounts == old(self)@.accounts,
    {
        let ghost s0 = self.contracts@;
        proof {
            lemma_entries_map_get(s0, contract_key_fn(), contract_changes_fn(), i as int);
        }
        self.contracts[i].1.self_balance_delta = delta;
        self.contracts[i].1.modification_index = modification_index;
        if state.is_some() {
            self.contracts[i].1.state = state;
        }
        if module.is_some() {
            self.contracts[i].1.module = module;
        }
        proof {
            assert(self.contracts@ == s0.update(i as int, self.contracts@[i as int]));
            lemma_entries_map_update(s0, contract_key_fn(), contract_changes_fn(), i as int, self.contracts@[i as int]);
        }
    }

    /// Merges a child frame into this one: deltas add up, the modification
    /// index is the larger one, and a state or module that the child replaced
    /// replaces the parent's. Fails when a delta would not fit.
    pub fn absorb(&mut self, child: Changes) -> (r: Result<(), AmountDeltaError>)
        requires
            old(self).wf(),
            child.wf(),
        ensures
            r is Ok <==> merge_fits(old(self)@, child@),
            r is Ok ==> final(self).wf() && final(self)@ == merge_changes(old(self)@, child@),
    {
        let Changes { contracts, accounts } = child;
        self.absorb_contracts(contracts)?;
        self.absorb_accounts(accounts)?;
        proof {
            assert(self@.contracts =~= merge_changes(old(self)@, child@).contracts);
            assert(self@.accounts =~= merge_changes(old(self)@, child@).accounts);
        }
        Ok(())
    }

    fn absorb_contracts(&mut self, cs: Vec<(ContractAddress, ContractChanges)>) -> (r: Result<(), AmountDeltaError>)
        requires
            old(self).wf(),
            unique_keys(cs@, contract_key_fn()),
        ensures
            r is Ok <==> contracts_merge_fit(old(self)@.contracts, entries_map(cs@, contract_key_fn(), contract_changes_fn())),
            r is Ok ==> final(self).wf() && final(self)@.contracts == partial_merge_contracts(
                old(self)@.contracts,
                entries_map(cs@, contract_key_fn(), contract_changes_fn()),
                Map::empty(),
            ),
            final(self).accounts@ == old(self).accounts@,
    {
        let ghost p0 = self@.contracts;
        let ghost c0 = entries_map(cs@, contract_key_fn(), contract_changes_fn());
        let mut rest = cs;
        assert(self@.contracts =~= partial_merge_contracts(p0, c0, c0));
        while rest.len() > 0
            invariant
                self.wf(),
                self.accounts@ == old(self).accounts@,
                p0 == old(self)@.contracts,
                c0 == entries_map(cs@, contract_key_fn(), contract_changes_fn()),
                unique_keys(rest@, contract_key_fn()),
                forall|a: ContractAddress| #[trigger] entries_map(rest@, contract_key_fn(), contract_changes_fn()).contains_key(a)
                    ==> c0.contains_key(a) && c0[a] == entries_map(rest@, contract_key_fn(), contract_changes_fn())[a],
                forall|a: ContractAddress| #[trigger] c0.contains_key(a) && !entries_map(rest@, contract_key_fn(), contract_changes_fn()).contains_key(a)
                    && p0.contains_key(a) ==> is_delta(p0[a].self_balance_delta + c0[a].self_balance_delta),
                self@.contracts == partial_merge_contracts(p0, c0, entries_map(rest@, contract_key_fn(), contract_changes_fn())),
            decreases rest@.len(),
        {
            let ghost before = rest@;
            let ghost rest_map = entries_map(before, contract_key_fn(), contract_changes_fn());
            let (a, e) = rest.pop().unwrap();
            proof {
                assert(rest@ == before.drop_last());
                lemma_entries_map_contains(rest@, contract_key_fn(), contract_changes_fn(), a);
                assert(!entries_map(rest@, contract_key_fn(), contract_changes_fn()).contains_key(a)) by {
                    if entries_map(rest@, contract_key_fn(), contract_changes_fn()).contains_key(a) {
                        let j = choose|j: int| 0 <= j < rest@.len() && rest@[j].0 == a;
                        assert(before[j].0 == before[before.len() - 1].0);
                    }
                }
                assert(rest_map == entries_map(rest@, contract_key_fn(), contract_changes_fn()).insert(a, e@));
                assert(rest_map.contains_key(a));
                assert(unique_keys(rest@, contract_key_fn())) by {
                    assert forall|i: int, j: int| 0 <= i < rest@.len() && 0 <= j < rest@.len() && i != j implies rest@[i].0 != rest@[j].0 by {
                        assert(rest@[i] == before[i] && rest@[j] == before[j]);
                    }
                }
            }
            let ghost rest2 = entries_map(rest@, contract_key_fn(), contract_changes_fn());
            proof {
                assert forall|a: ContractAddress| #[trigger] rest2.contains_key(a) implies c0.contains_key(a) && c0[a] == rest2[a] by {
                    assert(rest_map.contains_key(a));
                }
                assert(c0.contains_key(a) && c0[a] == e@);
            }
            match self.find_contract(&a) {
                Some(i) => {
                    let d = self.contracts[i].1.self_balance_delta.add_delta(e.self_balance_delta);
                    match d {
                        Ok(d) => {
                            let ghost s_old = self.contracts@;
                            if self.contracts[i].1.modification_index < e.modification_index {
                                self.contracts[i].1.modification_index = e.modification_index;
                            }
                            self.contracts[i].1.self_balance_delta = d;
                            if e.state.is_some() {
                                self.contracts[i].1.state = e.state;
                            }
                            if e.module.is_some() {
                                self.contracts[i].1.module = e.module;
                            }
                            proof {
                                assert(self.contracts@ == s_old.update(i as int, self.contracts@[i as int]));
                                lemma_entries_map_update(s_old, contract_key_fn(), contract_changes_fn(), i as int, self.contracts@[i as int]);
                                assert(self.contracts@[i as int].1@ == merge_contract(p0[a], c0[a]));
                                assert(self@.contracts =~= partial_merge_contracts(p0, c0, rest2));
                            }
                        },
                        Err(err) => {
                            proof {
                                assert(p0.contains_key(a) && p0[a] == self.contracts@[i as int].1@);
                                assert(!is_delta(p0[a].self_balance_delta + c0[a].self_balance_delta));
                                assert(!contracts_merge_fit(p0, c0));
                            }
                            return Err(err);
                        },
                    }
                },
                None => {
                    let ghost s_old = self.contracts@;
                    proof {
                        lemma_entries_map_contains(s_old, contract_key_fn(), contract_changes_fn(), a);
                        lemma_unique_keys_push(s_old, contract_key_fn(), (a, e));
                    }
                    self.contracts.push((a, e));
                    proof {
                        assert(self.contracts@.drop_last() == s_old);
                        assert(self@.contracts =~= partial_merge_contracts(p0, c0, rest2));
                    }
                },
            }
        }
        proof {
            assert(entries_map(rest@, contract_key_fn(), contract_changes_fn()) =~= Map::<ContractAddress, ContractChangesView>::empty());
        }
        Ok(())
    }
    fn absorb_accounts(&mut self, cs: Vec<(AccountAddress, AccountChanges)>) -> (r: Result<(), AmountDeltaError>)
        requires
            old(self).wf(),
            unique_keys(cs@, account_key_fn()),
        ensures
            r is Ok <==> accounts_merge_fit(old(self)@.accounts, entries_map(cs@, account_key_fn(), account_changes_fn())),
            r is Ok ==> final(self).wf() && final(self)@.accounts == partial_merge_accounts(
                old(self)@.accounts,
                entries_map(cs@, account_key_fn(), account_changes_fn()),
                Map::empty(),
            ),
            final(self).contracts@ == old(self).contracts@,
    {
        let ghost p0 = self@.accounts;
        let ghost c0 = entries_map(cs@, account_key_fn(), account_changes_fn());
        let mut rest = cs;
        assert(self@.accounts =~= partial_merge_accounts(p0, c0, c0));
        while rest.len() > 0
            invariant
                self.wf(),
                self.contracts@ == old(self).contracts@,
                p0 == old(self)@.accounts,
                c0 == entries_map(cs@, account_key_fn(), account_changes_fn()),
                unique_keys(rest@, account_key_fn()),
                forall|k: Seq<u8>| #[trigger] entries_map(rest@, account_key_fn(), account_changes_fn()).contains_key(k)
                    ==> c0.contains_key(k) && c0[k] == entries_map(rest@, account_key_fn(), account_changes_fn())[k],
                forall|k: Seq<u8>| #[trigger] c0.contains_key(k) && !entries_map(rest@, account_key_fn(), account_changes_fn()).contains_key(k)
                    && p0.contains_key(k) ==> is_delta(p0[k].balance_delta + c0[k].balance_delta),
                self@.accounts == partial_merge_accounts(p0, c0, entries_map(rest@, account_key_fn(), account_changes_fn())),
            decreases rest@.len(),
        {
            let ghost before = rest@;
            let ghost rest_map = entries_map(before, account_key_fn(), account_changes_fn());
            let (a, e) = rest.pop().unwrap();
            let ghost k = account_class(a);
            proof {
                assert(rest@ == before.drop_last());
                lemma_entries_map_contains(rest@, account_key_fn(), account_changes_fn(), k);
                assert(!entries_map(rest@, account_key_fn(), account_changes_fn()).contains_key(k)) by {
                    if entries_map(rest@, account_key_fn(), account_changes_fn()).contains_key(k) {
                        let j = choose|j: int| 0 <= j < rest@.len() && account_class(rest@[j].0) == k;
                        assert(account_class(before[j].0) == account_class(before[before.len() - 1].0));
                    }
                }
                assert(rest_map == entries_map(rest@, account_key_fn(), account_changes_fn()).insert(k, e@));
                assert(rest_map.contains_key(k));
                assert(unique_keys(rest@, account_key_fn())) by {
                    assert forall|i: int, j: int| 0 <= i < rest@.len() && 0 <= j < rest@.len() && i != j implies account_class(rest@[i].0) != account_class(rest@[j].0) by {
                        assert(rest@[i] == before[i] && rest@[j] == before[j]);
                    }
                }
            }
            let ghost rest2 = entries_map(rest@, account_key_fn(), account_changes_fn());
            proof {
                assert forall|k: Seq<u8>| #[trigger] rest2.contains_key(k) implies c0.contains_key(k) && c0[k] == rest2[k] by {
                    assert(rest_map.contains_key(k));
                }
                assert(c0.contains_key(k) && c0[k] == e@);
            }
            match self.find_account(&a) {
                Some(i) => {
                    let d = self.accounts[i].1.balance_delta.add_delta(e.balance_delta);
                    match d {
                        Ok(d) => {
                            let ghost s_old = self.accounts@;
                            self.accounts[i].1.balance_delta = d;
                            proof {
                                assert(self.accounts@ == s_old.update(i as int, self.accounts@[i as int]));
                                lemma_entries_map_update(s_old, account_key_fn(), account_changes_fn(), i as int, self.accounts@[i as int]);
                                assert(self.accounts@[i as int].1@ == merge_account(p0[k], c0[k]));
                                assert(self@.accounts =~= partial_merge_accounts(p0, c0, rest2));
                            }
                        },
                        Err(err) => {
                            proof {
                                assert(p0.contains_key(k) && p0[k] == self.accounts@[i as int].1@);
                                assert(!is_delta(p0[k].balance_delta + c0[k].balance_delta));
                                assert(!accounts_merge_fit(p0, c0));
                            }
                            return Err(err);
                        },
                    }
                },
                None => {
                    let ghost s_old = self.accounts@;
                    proof {
                        lemma_entries_map_contains(s_old, account_key_fn(), account_changes_fn(), k);
                        lemma_unique_keys_push(s_old, account_key_fn(), (a, e));
                    }
                    self.accounts.push((a, e));
                    proof {
                        assert(self.accounts@.drop_last() == s_old);
                        assert(self@.accounts =~= partial_merge_accounts(p0, c0, rest2));
                    }
                },
            }
        }
        proof {
            assert(entries_map(rest@, account_key_fn(), account_changes_fn()) =~= Map::<Seq<u8>, AccountChangesView>::empty());
        }
        Ok(())
    }
}

} // verus!
