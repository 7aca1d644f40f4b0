use vstd::prelude::*;
use crate::address::{account_class, AccountAddress, ContractAddress};
use crate::entries::{entries_map, lemma_entries_map_prefix};

verus! {

/// The reference of a deployed module: the hash of its source.
#[derive(Clone, Copy, Debug)]
pub struct ModuleReference(pub [u8; 32]);

impl ModuleReference {
    /// Whether two references are the same.
    pub fn equals(&self, other: &ModuleReference) -> (r: bool)
        ensures
            r == (module_key(*self) == module_key(*other)),
    {
        let mut i: usize = 0;
        while i < 32
            invariant
                i <= 32,
                self.0@.len() == 32,
                other.0@.len() == 32,
                forall|j: int| 0 <= j < i ==> self.0@[j] == other.0@[j],
            decreases 32 - i,
        {
            if self.0[i] != other.0[i] {
                return false;
            }
            i = i + 1;
        }
        assert(self.0@ =~= other.0@);
        true
    }
}

/// Whether two byte strings are equal.
pub fn bytes_equal(a: &Vec<u8>, b: &Vec<u8>) -> (r: bool)
    ensures
        r == (a@ == b@),
{
    if a.len() != b.len() {
        return false;
    }
    let mut i: usize = 0;
    while i < a.len()
        invariant
            i <= a@.len(),
            a@.len() == b@.len(),
            forall|j: int| 0 <= j < i ==> a@[j] == b@[j],
        decreases a@.len() - i,
    {
        if a[i] != b[i] {
            return false;
        }
        i = i + 1;
    }
    assert(a@ =~= b@);
    true
}

/// A deployed module, as the invocation engine needs it.
#[derive(Debug)]
pub struct Module {
    /// The names of the entrypoints that the module exports.
    pub entrypoints: Vec<Vec<u8>>,
    /// The energy that looking the module up costs.
    pub lookup_energy: u64,
}

/// What a module is to specifications.
pub struct ModuleView {
    pub entrypoints: Seq<Seq<u8>>,
    pub lookup_energy: u64,
}

impl View for Module {
    type V = ModuleView;

    open spec fn view(&self) -> ModuleView {
        ModuleView {
            entrypoints: self.entrypoints@.map_values(|e: Vec<u8>| e@),
            lookup_energy: self.lookup_energy,
        }
    }
}

impl Module {
    /// Whether the module exports an entrypoint of this name.
    pub fn has_entrypoint(&self, name: &Vec<u8>) -> (r: bool)
        ensures
            r == self@.entrypoints.contains(name@),
    {
        let mut i: usize = 0;
        while i < self.entrypoints.len()
            invariant
                i <= self.entrypoints@.len(),
                forall|j: int| 0 <= j < i ==> self.entrypoints@[j]@ != name@,
            decreases self.entrypoints@.len() - i,
        {
            if bytes_equal(&self.entrypoints[i], name) {
                assert(self@.entrypoints[i as int] == name@);
                return true;
            }
            i = i + 1;
        }
        assert forall|j: int| 0 <= j < self@.entrypoints.len() implies self@.entrypoints[j] != name@ by {
            assert(self@.entrypoints[j] == self.entrypoints@[j]@);
        }
        false
    }
}

/// A contract instance as it is persisted.
#[derive(Debug)]
pub struct ContractInstance {
    pub module: ModuleReference,
    pub balance: u64,
    pub state: Vec<u8>,
}

/// What a contract instance is to specifications.
pub struct ContractInstanceView {
    pub module: ModuleReference,
    pub balance: u64,
    pub state: Seq<u8>,
}

impl View for ContractInstance {
    type V = ContractInstanceView;

    open spec fn view(&self) -> ContractInstanceView {
        ContractInstanceView { module: self.module, balance: self.balance, state: self.state@ }
    }
}

/// The persisted store: accounts, contract instances and modules. Where two
/// entries have one key, the later one counts.
#[derive(Debug)]
pub struct Ledger {
    pub accounts: Vec<(AccountAddress, u64)>,
    pub contracts: Vec<(ContractAddress, ContractInstance)>,
    pub modules: Vec<(ModuleReference, Module)>,
}

pub open spec fn module_key(m: ModuleReference) -> Seq<u8> {
    m.0@
}

/// Keys of the account entries: equivalence classes.
pub open spec fn account_key_fn() -> spec_fn(AccountAddress) -> Seq<u8> {
    |a: AccountAddress| account_class(a)
}

/// Keys of the contract entries: the addresses themselves.
pub open spec fn contract_key_fn() -> spec_fn(ContractAddress) -> ContractAddress {
    |c: ContractAddress| c
}

pub open spec fn balance_fn() -> spec_fn(u64) -> u64 {
    |b: u64| b
}

pub open spec fn instance_fn() -> spec_fn(ContractInstance) -> ContractInstanceView {
    |i: ContractInstance| i@
}

pub open spec fn module_key_fn() -> spec_fn(ModuleReference) -> Seq<u8> {
    |m: ModuleReference| module_key(m)
}

pub open spec fn module_fn() -> spec_fn(Module) -> ModuleView {
    |m: Module| m@
}

impl Ledger {
    /// Account balances by account equivalence class.
    pub open spec fn accounts_view(&self) -> Map<Seq<u8>, u64> {
        entries_map(self.accounts@, account_key_fn(), balance_fn())
    }

    /// Contract instances by address.
    pub open spec fn contracts_view(&self) -> Map<ContractAddress, ContractInstanceView> {
        entries_map(self.contracts@, contract_key_fn(), instance_fn())
    }

    /// Modules by the bytes of their reference.
    pub open spec fn modules_view(&self) -> Map<Seq<u8>, ModuleView> {
        entries_map(self.modules@, module_key_fn(), module_fn())
    }

    /// An empty store.
    pub fn new() -> (r: Ledger)
        ensures
            r.accounts_view() == Map::<Seq<u8>, u64>::empty(),
            r.contracts_view() == Map::<ContractAddress, ContractInstanceView>::empty(),
            r.modules_view() == Map::<Seq<u8>, ModuleView>::empty(),
    {
        Ledger { accounts: Vec::new(), contracts: Vec::new(), modules: Vec::new() }
    }

    /// Sets the balance of an account, creating it if needed.
    pub fn set_account(&mut self, address: AccountAddress, balance: u64)
        ensures
            final(self).accounts_view() == old(self).accounts_view().insert(
                account_class(address),
                balance,
            ),
            final(self).contracts_view() == old(self).contracts_view(),
            final(self).modules_view() == old(self).modules_view(),
    {
        self.accounts.push((address, balance));
        assert(final(self).accounts@.drop_last() == old(self).accounts@);
    }

    /// Stores a contract instance under an address, replacing any earlier one.
    pub fn set_contract(&mut self, address: ContractAddress, instance: ContractInstance)
        ensures
            final(self).contracts_view() == old(self).contracts_view().insert(address, instance@),
            final(self).accounts_view() == old(self).accounts_view(),
            final(self).modules_view() == old(self).modules_view(),
    {
        self.contracts.push((address, instance));
        assert(final(self).contracts@.drop_last() == old(self).contracts@);
    }

    /// Stores a module under its reference, replacing any earlier one.
    pub fn set_module(&mut self, reference: ModuleReference, module: Module)
        ensures
            final(self).modules_view() == old(self).modules_view().insert(module_key(reference), module@),
            final(self).accounts_view() == old(self).accounts_view(),
            final(self).contracts_view() == old(self).contracts_view(),
    {
        self.modules.push((reference, module));
        assert(final(self).modules@.drop_last() == old(self).modules@);
    }

    /// The persisted balance of an account, if it exists.
    pub fn account_balance(&self, address: &AccountAddress) -> (r: Option<u64>)
        ensures
            r == (if self.accounts_view().contains_key(account_class(*address)) {
                Some(self.accounts_view()[account_class(*address)])
            } else {
                None::<u64>
            }),
    {
        let ghost k = account_class(*address);
        let ghost full = self.accounts_view();
        let mut i = self.accounts.len();
        assert(self.accounts@.subrange(0, i as int) =~= self.accounts@);
        while i > 0
            invariant
                i <= self.accounts@.len(),
                full == self.accounts_view(),
                k == account_class(*address),
                ({
                    let part = entries_map(self.accounts@.subrange(0, i as int), account_key_fn(), balance_fn());
                    &&& full.contains_key(k) == part.contains_key(k)
                    &&& part.contains_key(k) ==> full[k] == part[k]
                }),
            decreases i,
        {
            i = i - 1;
            proof {
                lemma_entries_map_prefix(self.accounts@, account_key_fn(), balance_fn(), i as int);
            }
            if self.accounts[i].0.same_account(address) {
                return Some(self.accounts[i].1);
            }
        }
        None
    }

    /// The index of the entry that holds a module, if it exists.
    pub fn find_module(&self, reference: &ModuleReference) -> (r: Option<usize>)
        ensures
            r is None <==> !self.modules_view().contains_key(module_key(*reference)),
            r is Some ==> r->Some_0 < self.modules@.len() && self.modules_view()[module_key(*reference)]
                == self.modules@[r->Some_0 as int].1@,
    {
        let ghost k = module_key(*reference);
        let ghost full = self.modules_view();
        let mut i = self.modules.len();
        assert(self.modules@.subrange(0, i as int) =~= self.modules@);
        while i > 0
            invariant
                i <= self.modules@.len(),
                full == self.modules_view(),
                k == module_key(*reference),
                ({
                    let part = entries_map(self.modules@.subrange(0, i as int), module_key_fn(), module_fn());
                    &&& full.contains_key(k) == part.contains_key(k)
                    &&& part.contains_key(k) ==> full[k] == part[k]
                }),
            decreases i,
        {
            i = i - 1;
            proof {
                lemma_entries_map_prefix(self.modules@, module_key_fn(), module_fn(), i as int);
            }
            if self.modules[i].0.equals(reference) {
                return Some(i);
            }
        }
        None
    }

    /// The persisted balance of a contract instance, if it exists.
    pub fn contract_balance(&self, address: &ContractAddress) -> (r: Option<u64>)
        ensures
            r == (if self.contracts_view().contains_key(*address) {
                Some(self.contracts_view()[*address].balance)
            } else {
                None::<u64>
            }),
    {
        match self.find_contract(address) {
            Some(i) => Some(self.contracts[i].1.balance),
            None => None,
        }
    }

    /// The index of the entry that holds a contract instance, if it exists.
    pub fn find_contract(&self, address: &ContractAddress) -> (r: Option<usize>)
        ensures
            r is None <==> !self.contracts_view().contains_key(*address),
            r is Some ==> r->Some_0 < self.contracts@.len() && self.contracts@[r->Some_0 as int].0
                == *address && self.contracts_view()[*address] == self.contracts@[r->Some_0 as int].1@,
    {
        let ghost k = *address;
        let ghost full = self.contracts_view();
        let mut i = self.contracts.len();
        assert(self.contracts@.subrange(0, i as int) =~= self.contracts@);
        while i > 0
            invariant
                i <= self.contracts@.len(),
                full == self.contracts_view(),
                k == *address,
                ({
                    let part = entries_map(self.contracts@.subrange(0, i as int), contract_key_fn(), instance_fn());
                    &&& full.contains_key(k) == part.contains_key(k)
                    &&& part.contains_key(k) ==> full[k] == part[k]
                }),
            decreases i,
        {
            i = i - 1;
            proof {
                lemma_entries_map_prefix(self.contracts@, contract_key_fn(), instance_fn(), i as int);
            }
            if self.contracts[i].0.equals(address) {
                return Some(i);
            }
        }
        None
    }
}

} // verus!
