use vstd::prelude::*;
use crate::address::{account_class, AccountAddress, ContractAddress};
use crate::amount::{is_amount, is_delta, AmountDelta, AmountDeltaError};
use crate::changes::{
    accounts_merge_fit, contracts_merge_fit, empty_changes, merge_changes, merge_fits, Changes,
    AccountChanges, ChangesView, ContractChanges, state_view,
};
use crate::entries::{entries_map, lemma_entries_map_contains, lemma_entries_map_get, unique_keys};
use crate::ledger::{
    account_key_fn, contract_key_fn, ContractInstance, ContractInstanceView, Ledger, ModuleReference,
};

verus! {

/// A frame's balance change for a contract; zero where it has no entry.
pub open spec fn contract_delta_in(f: ChangesView, a: ContractAddress) -> int {
    if f.contracts.contains_key(a) {
        f.contracts[a].self_balance_delta
    } else {
        0
    }
}

/// A frame's balance change for an account class; zero where it has no entry.
pub open spec fn account_delta_in(f: ChangesView, k: Seq<u8>) -> int {
    if f.accounts.contains_key(k) {
        f.accounts[k].balance_delta
    } else {
        0
    }
}

/// The sum of a contract's balance changes over all frames.
pub open spec fn contract_delta_sum(fr: Seq<ChangesView>, a: ContractAddress) -> int
    decreases fr.len(),
{
    if fr.len() == 0 {
        0
    } else {
        contract_delta_sum(fr.drop_last(), a) + contract_delta_in(fr.last(), a)
    }
}

/// The sum of an account's balance changes over all frames.
pub open spec fn account_delta_sum(fr: Seq<ChangesView>, k: Seq<u8>) -> int
    decreases fr.len(),
{
    if fr.len() == 0 {
        0
    } else {
        account_delta_sum(fr.drop_last(), k) + account_delta_in(fr.last(), k)
    }
}

/// The state that the top-most frame replacing it gave a contract, if any did.
pub open spec fn frames_state(fr: Seq<ChangesView>, a: ContractAddress) -> Option<Seq<u8>>
    decreases fr.len(),
{
    if fr.len() == 0 {
        None
    } else if fr.last().contracts.contains_key(a) && fr.last().contracts[a].state is Some {
        fr.last().contracts[a].state
    } else {
        frames_state(fr.drop_last(), a)
    }
}

/// The module that the top-most frame replacing it gave a contract, if any did.
pub open spec fn frames_module(fr: Seq<ChangesView>, a: ContractAddress) -> Option<ModuleReference>
    decreases fr.len(),
{
    if fr.len() == 0 {
        None
    } else if fr.last().contracts.contains_key(a) && fr.last().contracts[a].module is Some {
        fr.last().contracts[a].module
    } else {
        frames_module(fr.drop_last(), a)
    }
}

/// A contract's modification index: that of the top-most frame with an entry
/// for it, zero where none has one.
pub open spec fn frames_modification_index(fr: Seq<ChangesView>, a: ContractAddress) -> u64
    decreases fr.len(),
{
    if fr.len() == 0 {
        0
    } else if fr.last().contracts.contains_key(a) {
        fr.last().contracts[a].modification_index
    } else {
        frames_modification_index(fr.drop_last(), a)
    }
}

/// The frames after the top one is merged into the one beneath.
pub open spec fn commit_frames(fr: Seq<ChangesView>) -> Seq<ChangesView> {
    fr.drop_last().drop_last().push(merge_changes(fr[fr.len() - 2], fr.last()))
}

/// The frames after the top one is dropped.
pub open spec fn discard_frames(fr: Seq<ChangesView>) -> Seq<ChangesView> {
    fr.drop_last()
}

/// Whether two stacks of frames show the same balances, states, modules and
/// modification indices.
pub open spec fn same_effect(f: Seq<ChangesView>, g: Seq<ChangesView>) -> bool {
    &&& forall|a: ContractAddress| #[trigger] contract_delta_sum(f, a) == contract_delta_sum(g, a)
    &&& forall|k: Seq<u8>| #[trigger] account_delta_sum(f, k) == account_delta_sum(g, k)
    &&& forall|a: ContractAddress| #[trigger] frames_state(f, a) == frames_state(g, a)
    &&& forall|a: ContractAddress| #[trigger] frames_module(f, a) == frames_module(g, a)
    &&& forall|a: ContractAddress| #[trigger] frames_modification_index(f, a) == frames_modification_index(g, a)
}

/// A contract's balance as the frames show it over the ledger.
pub open spec fn effective_contract_balance(ledger: Ledger, fr: Seq<ChangesView>, a: ContractAddress) -> int {
    ledger.contracts_view()[a].balance + contract_delta_sum(fr, a)
}

/// An account's balance as the frames show it over the ledger.
pub open spec fn effective_account_balance(ledger: Ledger, fr: Seq<ChangesView>, k: Seq<u8>) -> int {
    ledger.accounts_view()[k] + account_delta_sum(fr, k)
}

/// A contract's state as the frames show it over the ledger.
pub open spec fn effective_state(ledger: Ledger, fr: Seq<ChangesView>, a: ContractAddress) -> Seq<u8> {
    match frames_state(fr, a) {
        Some(st) => st,
        None => ledger.contracts_view()[a].state,
    }
}

/// A contract's module as the frames show it over the ledger.
pub open spec fn effective_module(ledger: Ledger, fr: Seq<ChangesView>, a: ContractAddress) -> ModuleReference {
    match frames_module(fr, a) {
        Some(m) => m,
        None => ledger.contracts_view()[a].module,
    }
}

/// `g` is `f` with `d` added to one contract's balance and nothing else changed.
pub open spec fn contract_balance_moved(f: Seq<ChangesView>, g: Seq<ChangesView>, a: ContractAddress, d: int) -> bool {
    &&& g.len() == f.len()
    &&& g.drop_last() == f.drop_last()
    &&& forall|b: ContractAddress| #[trigger] contract_delta_sum(g, b) == contract_delta_sum(f, b) + if b == a { d } else { 0 }
    &&& forall|k: Seq<u8>| #[trigger] account_delta_sum(g, k) == account_delta_sum(f, k)
    &&& forall|b: ContractAddress| #[trigger] frames_state(g, b) == frames_state(f, b)
    &&& forall|b: ContractAddress| #[trigger] frames_module(g, b) == frames_module(f, b)
    &&& forall|b: ContractAddress| #[trigger] frames_modification_index(g, b) == frames_modification_index(f, b)
}

/// `g` is `f` with `d` added to one account's balance and nothing else changed.
pub open spec fn account_balance_moved(f: Seq<ChangesView>, g: Seq<ChangesView>, c: Seq<u8>, d: int) -> bool {
    &&& g.len() == f.len()
    &&& g.drop_last() == f.drop_last()
    &&& forall|b: ContractAddress| #[trigger] contract_delta_sum(g, b) == contract_delta_sum(f, b)
    &&& forall|k: Seq<u8>| #[trigger] account_delta_sum(g, k) == account_delta_sum(f, k) + if k == c { d } else { 0 }
    &&& forall|b: ContractAddress| #[trigger] frames_state(g, b) == frames_state(f, b)
    &&& forall|b: ContractAddress| #[trigger] frames_module(g, b) == frames_module(f, b)
    &&& forall|b: ContractAddress| #[trigger] frames_modification_index(g, b) == frames_modification_index(f, b)
}

/// `g` is `f` with one contract's state, or its module, replaced and its
/// modification index one higher, and nothing else changed.
pub open spec fn contract_written(
    f: Seq<ChangesView>,
    g: Seq<ChangesView>,
    a: ContractAddress,
    state: Option<Seq<u8>>,
    module: Option<ModuleReference>,
) -> bool {
    &&& g.len() == f.len()
    &&& g.drop_last() == f.drop_last()
    &&& forall|b: ContractAddress| #[trigger] contract_delta_sum(g, b) == contract_delta_sum(f, b)
    &&& forall|k: Seq<u8>| #[trigger] account_delta_sum(g, k) == account_delta_sum(f, k)
    &&& forall|b: ContractAddress| #[trigger] frames_state(g, b) == if b == a && state is Some { state } else { frames_state(f, b) }
    &&& forall|b: ContractAddress| #[trigger] frames_module(g, b) == if b == a && module is Some { module } else { frames_module(f, b) }
    &&& forall|b: ContractAddress| #[trigger] frames_modification_index(g, b) == if b == a {
        (frames_modification_index(f, b) + 1) as u64
    } else {
        frames_modification_index(f, b)
    }
}

/// Whether frames over a ledger are consistent: entries only for what the
/// ledger holds, each keeping the persisted balance it was made with, every
/// level's balances representable, and modification indices that never fall
/// below those of the frames beneath.
pub open spec fn frames_wf(fr: Seq<ChangesView>, ledger: Ledger) -> bool {
    &&& forall|k: int, a: ContractAddress|
        0 <= k < fr.len() && #[trigger] fr[k].contracts.contains_key(a) ==> {
            &&& ledger.contracts_view().contains_key(a)
            &&& fr[k].contracts[a].self_balance_original == ledger.contracts_view()[a].balance
            &&& fr[k].contracts[a].modification_index >= frames_modification_index(fr.take(k), a)
            &&& is_delta(fr[k].contracts[a].self_balance_delta)
        }
    &&& forall|k: int, c: Seq<u8>|
        0 <= k < fr.len() && #[trigger] fr[k].accounts.contains_key(c) ==> {
            &&& ledger.accounts_view().contains_key(c)
            &&& fr[k].accounts[c].original_balance == ledger.accounts_view()[c]
            &&& is_delta(fr[k].accounts[c].balance_delta)
        }
    &&& forall|k: int, a: ContractAddress|
        0 <= k <= fr.len() && ledger.contracts_view().contains_key(a) ==> is_amount(
            ledger.contracts_view()[a].balance + #[trigger] contract_delta_sum(fr.take(k), a),
        )
    &&& forall|k: int, c: Seq<u8>|
        0 <= k <= fr.len() && ledger.accounts_view().contains_key(c) ==> is_amount(
            ledger.accounts_view()[c] + #[trigger] account_delta_sum(fr.take(k), c),
        )
}

/// The stack of change frames of one transaction; the last frame belongs to
/// the innermost call.
#[derive(Debug)]
pub struct ChangeSet {
    pub stack: Vec<Changes>,
}

pub open spec fn changes_view_fn() -> spec_fn(Changes) -> ChangesView {
    |c: Changes| c@
}

impl ChangeSet {
    /// The frames, innermost last.
    pub open spec fn frames(&self) -> Seq<ChangesView> {
        self.stack@.map_values(changes_view_fn())
    }

    /// The stack is consistent with the ledger beneath it.
    pub open spec fn wf(&self, ledger: Ledger) -> bool {
        &&& self.stack@.len() >= 1
        &&& forall|k: int| 0 <= k < self.stack@.len() ==> (#[trigger] self.stack@[k]).wf()
        &&& frames_wf(self.frames(), ledger)
    }

    /// A stack that holds one empty frame.
    pub fn new(ledger: &Ledger) -> (r: ChangeSet)
        ensures
            r.wf(*ledger),
            r.frames() == seq![empty_changes()],
    {
        let mut stack = Vec::new();
        stack.push(Changes::new());
        let r = ChangeSet { stack };
        assert(r.frames() =~= seq![empty_changes()]);
        proof {
            let fr = r.frames();
            assert forall|k: int, a: ContractAddress|
                0 <= k <= fr.len() && ledger.contracts_view().contains_key(a) implies is_amount(
                ledger.contracts_view()[a].balance + #[trigger] contract_delta_sum(fr.take(k), a),
            ) by {
                if k == 1 {
                    assert(fr.take(1).drop_last() =~= Seq::<ChangesView>::empty());
                    assert(fr.take(1).last() == empty_changes());
                    assert(contract_delta_sum(fr.take(1).drop_last(), a) == 0);
                } else {
                    assert(fr.take(0) =~= Seq::<ChangesView>::empty());
                }
            }
            assert forall|k: int, c: Seq<u8>|
                0 <= k <= fr.len() && ledger.accounts_view().contains_key(c) implies is_amount(
                ledger.accounts_view()[c] + #[trigger] account_delta_sum(fr.take(k), c),
            ) by {
                if k == 1 {
                    assert(fr.take(1).drop_last() =~= Seq::<ChangesView>::empty());
                    assert(fr.take(1).last() == empty_changes());
                    assert(account_delta_sum(fr.take(1).drop_last(), c) == 0);
                } else {
                    assert(fr.take(0) =~= Seq::<ChangesView>::empty());
                }
            }
        }
        r
    }

    /// Number of frames.
    pub fn depth(&self) -> (r: usize)
        ensures
            r == self.frames().len(),
    {
        self.stack.len()
    }

    /// Adds an empty frame on top, for a call that begins.
    pub fn push_frame(&mut self, ledger: &Ledger)
        requires
            old(self).wf(*ledger),
        ensures
            final(self).wf(*ledger),
            final(self).frames() == old(self).frames().push(empty_changes()),
    {
        let ghost fr0 = self.frames();
        self.stack.push(Changes::new());
        proof {
            let fr = self.frames();
            assert(fr =~= fr0.push(empty_changes()));
            lemma_push_empty_wf(fr0, *ledger);
        }
    }

    /// A contract's balance as the frames show it; `None` where the ledger has
    /// no such contract.
    pub fn contract_balance(&self, ledger: &Ledger, address: &ContractAddress) -> (r: Option<u64>)
        requires
            self.wf(*ledger),
        ensures
            r is None <==> !ledger.contracts_view().contains_key(*address),
            r is Some ==> r->Some_0 == effective_contract_balance(*ledger, self.frames(), *address),
    {
        let base = match ledger.contract_balance(address) {
            Some(b) => b,
            None => return None,
        };
        let ghost fr = self.frames();
        let mut acc: u64 = base;
        let mut k: usize = 0;
        assert(fr.take(0) =~= Seq::<ChangesView>::empty());
        while k < self.stack.len()
            invariant
                k <= self.stack@.len(),
                self.wf(*ledger),
                fr == self.frames(),
                ledger.contracts_view().contains_key(*address),
                base == ledger.contracts_view()[*address].balance,
                acc == base + contract_delta_sum(fr.take(k as int), *address),
            decreases self.stack@.len() - k,
        {
            proof {
                assert(fr.take(k + 1).drop_last() =~= fr.take(k as int));
                assert(fr.take(k + 1).last() == fr[k as int]);
                assert(is_amount(base + contract_delta_sum(fr.take(k + 1), *address)));
            }
            match self.stack[k].find_contract(address) {
                Some(i) => {
                    match self.stack[k].contracts[i].1.self_balance_delta.apply_to_balance(acc) {
                        Ok(b) => {
                            acc = b;
                        },
                        // Not reached: every level's balance is an amount.
                        Err(_) => {
                            return None;
                        },
                    }
                },
                None => {},
            }
            k = k + 1;
        }
        assert(fr.take(k as int) =~= fr);
        Some(acc)
    }

    /// An account's balance as the frames show it; `None` where the ledger has
    /// no such account.
    pub fn account_balance(&self, ledger: &Ledger, address: &AccountAddress) -> (r: Option<u64>)
        requires
            self.wf(*ledger),
        ensures
            r is None <==> !ledger.accounts_view().contains_key(account_class(*address)),
            r is Some ==> r->Some_0 == effective_account_balance(*ledger, self.frames(), account_class(*address)),
    {
        let base = match ledger.account_balance(address) {
            Some(b) => b,
            None => return None,
        };
        let ghost fr = self.frames();
        let ghost c = account_class(*address);
        let mut acc: u64 = base;
        let mut k: usize = 0;
        assert(fr.take(0) =~= Seq::<ChangesView>::empty());
        while k < self.stack.len()
            invariant
                k <= self.stack@.len(),
                self.wf(*ledger),
                fr == self.frames(),
                c == account_class(*address),
                ledger.accounts_view().contains_key(c),
                base == ledger.accounts_view()[c],
                acc == base + account_delta_sum(fr.take(k as int), c),
            decreases self.stack@.len() - k,
        {
            proof {
                assert(fr.take(k + 1).drop_last() =~= fr.take(k as int));
                assert(fr.take(k + 1).last() == fr[k as int]);
                assert(is_amount(base + account_delta_sum(fr.take(k + 1), c)));
            }
            match self.stack[k].find_account(address) {
                Some(i) => {
                    match self.stack[k].accounts[i].1.balance_delta.apply_to_balance(acc) {
                        Ok(b) => {
                            acc = b;
                        },
                        // Not reached: every level's balance is an amount.
                        Err(_) => {
                            return None;
                        },
                    }
                },
                None => {},
            }
            k = k + 1;
        }
        assert(fr.take(k as int) =~= fr);
        Some(acc)
    }

    /// A contract's modification index as the frames show it.
    pub fn modification_index(&self, address: &ContractAddress) -> (r: u64)
        requires
            forall|k: int| 0 <= k < self.stack@.len() ==> (#[trigger] self.stack@[k]).wf(),
        ensures
            r == frames_modification_index(self.frames(), *address),
    {
        let ghost fr = self.frames();
        let mut k = self.stack.len();
        assert(fr.take(k as int) =~= fr);
        while k > 0
            invariant
                k <= self.stack@.len(),
                fr == self.frames(),
                forall|j: int| 0 <= j < self.stack@.len() ==> (#[trigger] self.stack@[j]).wf(),
                frames_modification_index(fr, *address) == frames_modification_index(fr.take(k as int), *address),
            decreases k,
        {
            k = k - 1;
            proof {
                assert(fr.take(k + 1).drop_last() =~= fr.take(k as int));
                assert(fr.take(k + 1).last() == fr[k as int]);
            }
            match self.stack[k].find_contract(address) {
                Some(i) => {
                    return self.stack[k].contracts[i].1.modification_index;
                },
                None => {},
            }
        }
        0
    }

    /// A contract's state as the frames show it; `None` where the ledger has
    /// no such contract.
    pub fn contract_state(&self, ledger: &Ledger, address: &ContractAddress) -> (r: Option<Vec<u8>>)
        requires
            self.wf(*ledger),
        ensures
            r is None <==> !ledger.contracts_view().contains_key(*address),
            r is Some ==> r->Some_0@ == effective_state(*ledger, self.frames(), *address),
    {
        let li = match ledger.find_contract(address) {
            Some(li) => li,
            None => return None,
        };
        let ghost fr = self.frames();
        let mut k = self.stack.len();
        assert(fr.take(k as int) =~= fr);
        while k > 0
            invariant
                k <= self.stack@.len(),
                self.wf(*ledger),
                fr == self.frames(),
                frames_state(fr, *address) == frames_state(fr.take(k as int), *address),
            decreases k,
        {
            k = k - 1;
            proof {
                assert(fr.take(k + 1).drop_last() =~= fr.take(k as int));
                assert(fr.take(k + 1).last() == fr[k as int]);
            }
            match self.stack[k].find_contract(address) {
                Some(i) => match &self.stack[k].contracts[i].1.state {
                    Some(st) => {
                        let copy = st.clone();
                        assert(copy@ =~= st@);
                        return Some(copy);
                    },
                    None => {},
                },
                None => {},
            }
        }
        let copy = ledger.contracts[li].1.state.clone();
        assert(copy@ =~= ledger.contracts@[li as int].1.state@);
        Some(copy)
    }

    /// A contract's module as the frames show it; `None` where the ledger has
    /// no such contract.
    pub fn contract_module(&self, ledger: &Ledger, address: &ContractAddress) -> (r: Option<ModuleReference>)
        requires
            self.wf(*ledger),
        ensures
            r is None <==> !ledger.contracts_view().contains_key(*address),
            r is Some ==> r->Some_0 == effective_module(*ledger, self.frames(), *address),
    {
        let li = match ledger.find_contract(address) {
            Some(li) => li,
            None => return None,
        };
        let ghost fr = self.frames();
        let mut k = self.stack.len();
        assert(fr.take(k as int) =~= fr);
        while k > 0
            invariant
                k <= self.stack@.len(),
                self.wf(*ledger),
                fr == self.frames(),
                frames_module(fr, *address) == frames_module(fr.take(k as int), *address),
            decreases k,
        {
            k = k - 1;
            proof {
                assert(fr.take(k + 1).drop_last() =~= fr.take(k as int));
                assert(fr.take(k + 1).last() == fr[k as int]);
            }
            match self.stack[k].find_contract(address) {
                Some(i) => match self.stack[k].contracts[i].1.module {
                    Some(m) => {
                        return Some(m);
                    },
                    None => {},
                },
                None => {},
            }
        }
        Some(ledger.contracts[li].1.module)
    }

    /// Applies the only frame left, once the transaction is done, to the
    /// ledger: each account and contract gets the balance, state and module
    /// that the frame shows; nothing else changes.
    pub fn persist(self, ledger: Ledger) -> (r: Ledger)
        requires
            self.wf(ledger),
            self.frames().len() == 1,
        ensures
            r.accounts_view() == Map::new(
                |k: Seq<u8>| ledger.accounts_view().contains_key(k),
                |k: Seq<u8>| effective_account_balance(ledger, self.frames(), k) as u64,
            ),
            r.contracts_view() == Map::new(
                |a: ContractAddress| ledger.contracts_view().contains_key(a),
                |a: ContractAddress| ContractInstanceView {
                    module: effective_module(ledger, self.frames(), a),
                    balance: effective_contract_balance(ledger, self.frames(), a) as u64,
                    state: effective_state(ledger, self.frames(), a),
                },
            ),
            r.modules_view() == ledger.modules_view(),
    {
        let ghost fr = self.frames();
        let ghost l0 = ledger;
        let ghost f = fr[0];
        proof {
            lemma_effective_in_range(fr, ledger);
            assert(fr.drop_last() =~= Seq::<ChangesView>::empty());
            assert(fr.last() == f);
            assert(self.stack@[0]@ == f);
        }
        let mut stack = self.stack;
        let frame = stack.pop().unwrap();
        let Changes { contracts, accounts } = frame;
        let mut ledger = ledger;
        let mut i: usize = 0;
        while i < accounts.len()
            invariant
                i <= accounts@.len(),
                unique_keys(accounts@, account_key_fn()),
                f.accounts == entries_map(accounts@, account_key_fn(), crate::changes::account_changes_fn()),
                frames_wf(fr, l0),
                fr == seq![f],
                ledger.contracts_view() == l0.contracts_view(),
                ledger.modules_view() == l0.modules_view(),
                forall|c: Seq<u8>| l0.accounts_view().contains_key(c) ==> is_amount(#[trigger] effective_account_balance(l0, fr, c)),
                ledger.accounts_view() == Map::new(
                    |k: Seq<u8>| l0.accounts_view().contains_key(k),
                    |k: Seq<u8>| if entries_map(accounts@.take(i as int), account_key_fn(), crate::changes::account_changes_fn()).contains_key(k) {
                        effective_account_balance(l0, fr, k) as u64
                    } else {
                        l0.accounts_view()[k]
                    },
                ),
            decreases accounts@.len() - i,
        {
            let ghost k = account_class(accounts@[i as int].0);
            proof {
                lemma_entries_map_get(accounts@, account_key_fn(), crate::changes::account_changes_fn(), i as int);
                assert(fr[0].accounts.contains_key(k));
                assert(accounts@.take(i + 1).drop_last() =~= accounts@.take(i as int));
                assert(account_delta_sum(fr, k) == account_delta_sum(fr.drop_last(), k) + account_delta_in(f, k));
                assert(account_delta_sum(fr.drop_last(), k) == 0);
                lemma_entries_map_contains(accounts@.take(i as int), account_key_fn(), crate::changes::account_changes_fn(), k);
                assert(!entries_map(accounts@.take(i as int), account_key_fn(), crate::changes::account_changes_fn()).contains_key(k)) by {
                    if entries_map(accounts@.take(i as int), account_key_fn(), crate::changes::account_changes_fn()).contains_key(k) {
                        let q = choose|q: int| 0 <= q < i && account_class(accounts@.take(i as int)[q].0) == k;
                        assert(account_class(accounts@[q].0) == account_class(accounts@[i as int].0));
                    }
                }
                assert(l0.accounts_view().contains_key(k));
                assert(ledger.accounts_view()[k] == l0.accounts_view()[k]);
                assert(is_amount(effective_account_balance(l0, fr, k)));
            }
            let address = accounts[i].0;
            let nb = match ledger.account_balance(&address) {
                Some(b) => match accounts[i].1.balance_delta.apply_to_balance(b) {
                    Ok(v) => v,
                    Err(_) => b,
                },
                None => 0,
            };
            ledger.set_account(address, nb);
            proof {
                assert(ledger.accounts_view() =~= Map::new(
                    |q: Seq<u8>| l0.accounts_view().contains_key(q),
                    |q: Seq<u8>| if entries_map(accounts@.take(i + 1), account_key_fn(), crate::changes::account_changes_fn()).contains_key(q) {
                        effective_account_balance(l0, fr, q) as u64
                    } else {
                        l0.accounts_view()[q]
                    },
                ));
            }
            i = i + 1;
        }
        proof {
            assert(accounts@.take(accounts@.len() as int) =~= accounts@);
            assert forall|k: Seq<u8>| l0.accounts_view().contains_key(k) && !f.accounts.contains_key(k) implies
                effective_account_balance(l0, fr, k) as u64 == l0.accounts_view()[k] by {
                assert(account_delta_sum(fr, k) == account_delta_sum(fr.drop_last(), k) + account_delta_in(f, k));
                assert(account_delta_sum(fr.drop_last(), k) == 0);
            }
            assert(ledger.accounts_view() =~= Map::new(
                |k: Seq<u8>| l0.accounts_view().contains_key(k),
                |k: Seq<u8>| effective_account_balance(l0, fr, k) as u64,
            ));
        }
        let ghost accounts_done = ledger.accounts_view();
        let mut contracts = contracts;
        let ghost cs = contracts@;
        while contracts.len() > 0
            invariant
                contracts@ == cs.take(contracts@.len() as int),
                contracts@.len() <= cs.len(),
                unique_keys(cs, contract_key_fn()),
                f.contracts == entries_map(cs, contract_key_fn(), crate::changes::contract_changes_fn()),
                frames_wf(fr, l0),
                fr == seq![f],
                ledger.accounts_view() == accounts_done,
                ledger.modules_view() == l0.modules_view(),
                forall|a: ContractAddress| l0.contracts_view().contains_key(a) ==> is_amount(#[trigger] effective_contract_balance(l0, fr, a)),
                ledger.contracts_view() == Map::new(
                    |a: ContractAddress| l0.contracts_view().contains_key(a),
                    |a: ContractAddress| if f.contracts.contains_key(a)
                        && !entries_map(contracts@, contract_key_fn(), crate::changes::contract_changes_fn()).contains_key(a) {
                        ContractInstanceView {
                            module: effective_module(l0, fr, a),
                            balance: effective_contract_balance(l0, fr, a) as u64,
                            state: effective_state(l0, fr, a),
                        }
                    } else {
                        l0.contracts_view()[a]
                    },
                ),
            decreases contracts@.len(),
        {
            let ghost before = contracts@;
            let (address, entry) = contracts.pop().unwrap();
            let ghost n = before.len() - 1;
            proof {
                assert(contracts@ == before.drop_last());
                assert(before[n] == cs[n]);
                lemma_entries_map_get(cs, contract_key_fn(), crate::changes::contract_changes_fn(), n);
                assert(f.contracts.contains_key(address));
                assert(contract_delta_sum(fr, address) == contract_delta_sum(fr.drop_last(), address) + contract_delta_in(f, address));
                assert(contract_delta_sum(fr.drop_last(), address) == 0);
                assert(frames_state(fr.drop_last(), address) == None::<Seq<u8>>);
                assert(frames_module(fr.drop_last(), address) == None::<ModuleReference>);
                assert(contracts@ =~= cs.take(contracts@.len() as int));
                lemma_entries_map_contains(contracts@, contract_key_fn(), crate::changes::contract_changes_fn(), address);
                assert(!entries_map(contracts@, contract_key_fn(), crate::changes::contract_changes_fn()).contains_key(address)) by {
                    if entries_map(contracts@, contract_key_fn(), crate::changes::contract_changes_fn()).contains_key(address) {
                        let q = choose|q: int| 0 <= q < contracts@.len() && contracts@[q].0 == address;
                        assert(cs[q].0 == cs[n].0);
                    }
                }
                assert(entries_map(before, contract_key_fn(), crate::changes::contract_changes_fn()) ==
                    entries_map(contracts@, contract_key_fn(), crate::changes::contract_changes_fn()).insert(address, entry@));
            }
            let li = match ledger.find_contract(&address) {
                Some(li) => li,
                // Not reached: frames hold only contracts of the ledger.
                None => {
                    continue;
                },
            };
            let old_balance = ledger.contracts[li].1.balance;
            let balance = match entry.self_balance_delta.apply_to_balance(old_balance) {
                Ok(v) => v,
                Err(_) => old_balance,
            };
            let module = match entry.module {
                Some(m) => m,
                None => ledger.contracts[li].1.module,
            };
            let state = match entry.state {
                Some(st) => st,
                None => {
                    let copy = ledger.contracts[li].1.state.clone();
                    assert(copy@ =~= ledger.contracts@[li as int].1.state@);
                    copy
                },
            };
            ledger.set_contract(address, ContractInstance { module, balance, state });
            proof {
                assert(ledger.contracts_view() =~= Map::new(
                    |a: ContractAddress| l0.contracts_view().contains_key(a),
                    |a: ContractAddress| if f.contracts.contains_key(a)
                        && !entries_map(contracts@, contract_key_fn(), crate::changes::contract_changes_fn()).contains_key(a) {
                        ContractInstanceView {
                            module: effective_module(l0, fr, a),
                            balance: effective_contract_balance(l0, fr, a) as u64,
                            state: effective_state(l0, fr, a),
                        }
                    } else {
                        l0.contracts_view()[a]
                    },
                ));
            }
        }
        proof {
            assert(entries_map(contracts@, contract_key_fn(), crate::changes::contract_changes_fn()) =~= Map::<ContractAddress, crate::changes::ContractChangesView>::empty());
            assert forall|a: ContractAddress| l0.contracts_view().contains_key(a) && !f.contracts.contains_key(a) implies
                l0.contracts_view()[a] == (ContractInstanceView {
                    module: effective_module(l0, fr, a),
                    balance: effective_contract_balance(l0, fr, a) as u64,
                    state: effective_state(l0, fr, a),
                }) by {
                assert(contract_delta_sum(fr, a) == contract_delta_sum(fr.drop_last(), a) + contract_delta_in(f, a));
                assert(contract_delta_sum(fr.drop_last(), a) == 0);
                assert(frames_state(fr.drop_last(), a) == None::<Seq<u8>>);
                assert(frames_module(fr.drop_last(), a) == None::<ModuleReference>);
            }
            assert(ledger.contracts_view() =~= Map::new(
                |a: ContractAddress| l0.contracts_view().contains_key(a),
                |a: ContractAddress| ContractInstanceView {
                    module: effective_module(l0, fr, a),
                    balance: effective_contract_balance(l0, fr, a) as u64,
                    state: effective_state(l0, fr, a),
                },
            ));
        }
        ledger
    }

    /// Makes sure that the top frame has an entry for a contract of the ledger,
    /// adding one that changes nothing where it has none; returns its index.
    fn top_contract_index(&mut self, ledger: &Ledger, address: &ContractAddress) -> (i: usize)
        requires
            old(self).wf(*ledger),
            ledger.contracts_view().contains_key(*address),
        ensures
            final(self).wf(*ledger),
            same_effect(final(self).frames(), old(self).frames()),
            final(self).frames().len() == old(self).frames().len(),
            final(self).frames().drop_last() == old(self).frames().drop_last(),
            final(self).frames().last().accounts == old(self).frames().last().accounts,
            forall|b: ContractAddress| b != *address ==> (#[trigger] final(self).frames().last().contracts.contains_key(b)
                <==> old(self).frames().last().contracts.contains_key(b)),
            forall|b: ContractAddress| b != *address && final(self).frames().last().contracts.contains_key(b)
                ==> #[trigger] final(self).frames().last().contracts[b] == old(self).frames().last().contracts[b],
            i < final(self).stack@.last().contracts@.len(),
            final(self).stack@.last().contracts@[i as int].0 == *address,
            final(self).frames().last().contracts.contains_key(*address),
            final(self).frames().last().contracts[*address] == final(self).stack@.last().contracts@[i as int].1@,
    {
        let n = self.stack.len();
        let ghost fr0 = self.frames();
        match self.stack[n - 1].find_contract(address) {
            Some(i) => i,
            None => {
                let original = match ledger.contract_balance(address) {
                    Some(b) => b,
                    None => 0,
                };
                let below = self.modification_index(address);
                let entry = ContractChanges {
                    modification_index: below,
                    self_balance_delta: AmountDelta::new(),
                    self_balance_original: original,
                    state: None,
                    module: None,
                };
                let ghost s1 = self.stack@;
                self.stack[n - 1].insert_contract(*address, entry);
                let i = self.stack[n - 1].contracts.len() - 1;
                proof {
                    assert(self.stack@ == s1.update(n - 1, self.stack@[n - 1 as int]));
                    let fr = self.frames();
                    assert(fr =~= fr0.update(n - 1, fr[n - 1 as int]));
                    assert(fr.drop_last() =~= fr0.drop_last());
                    assert(fr.last().contracts[*address] == entry@);
                    assert forall|k: int| 0 <= k < self.stack@.len() implies (#[trigger] self.stack@[k]).wf() by {
                        if k < n - 1 {
                            assert(self.stack@[k] == s1[k]);
                        }
                    }
                    assert(frames_modification_index(fr0, *address) == frames_modification_index(fr0.drop_last(), *address));
                    assert forall|b: ContractAddress| #[trigger] contract_delta_sum(fr, b) == contract_delta_sum(fr0, b) by {}
                    assert forall|q: Seq<u8>| #[trigger] account_delta_sum(fr, q) == account_delta_sum(fr0, q) by {}
                    assert forall|b: ContractAddress| #[trigger] frames_state(fr, b) == frames_state(fr0, b) by {}
                    assert forall|b: ContractAddress| #[trigger] frames_module(fr, b) == frames_module(fr0, b) by {}
                    assert forall|b: ContractAddress| #[trigger] frames_modification_index(fr, b) == frames_modification_index(fr0, b) by {}
                    assert forall|a: ContractAddress| ledger.contracts_view().contains_key(a) implies is_amount(
                        ledger.contracts_view()[a].balance + #[trigger] contract_delta_sum(fr, a)) by {
                        assert(fr0.take(fr0.len() as int) =~= fr0);
                        assert(is_amount(ledger.contracts_view()[a].balance + contract_delta_sum(fr0.take(fr0.len() as int), a)));
                    }
                    assert forall|q: Seq<u8>| ledger.accounts_view().contains_key(q) implies is_amount(
                        ledger.accounts_view()[q] + #[trigger] account_delta_sum(fr, q)) by {
                        assert(fr0.take(fr0.len() as int) =~= fr0);
                        assert(is_amount(ledger.accounts_view()[q] + account_delta_sum(fr0.take(fr0.len() as int), q)));
                    }
                    assert forall|a: ContractAddress| #[trigger] fr.last().contracts.contains_key(a) implies {
                        &&& ledger.contracts_view().contains_key(a)
                        &&& fr.last().contracts[a].self_balance_original == ledger.contracts_view()[a].balance
                        &&& fr.last().contracts[a].modification_index >= frames_modification_index(fr0.drop_last(), a)
                        &&& is_delta(fr.last().contracts[a].self_balance_delta)
                    } by {
                        if a != *address {
                            assert(fr0[fr0.len() - 1].contracts.contains_key(a));
                            assert(fr0.take(fr0.len() - 1) =~= fr0.drop_last());
                        }
                    }
                    assert forall|q: Seq<u8>| #[trigger] fr.last().accounts.contains_key(q) implies {
                        &&& ledger.accounts_view().contains_key(q)
                        &&& fr.last().accounts[q].original_balance == ledger.accounts_view()[q]
                        &&& is_delta(fr.last().accounts[q].balance_delta)
                    } by {
                        assert(fr0[fr0.len() - 1].accounts.contains_key(q));
                    }
                    lemma_top_update_wf(fr0, fr, *ledger);
                }
                i
            },
        }
    }

    /// Changes a contract's balance in the top frame by `change`; fails, and
    /// changes nothing, where the balance would leave the range of amounts.
    fn apply_contract_delta(&mut self, ledger: &Ledger, address: &ContractAddress, change: AmountDelta) -> (r: Result<(), AmountDeltaError>)
        requires
            old(self).wf(*ledger),
            ledger.contracts_view().contains_key(*address),
        ensures
            final(self).wf(*ledger),
            r is Ok <==> is_amount(effective_contract_balance(*ledger, old(self).frames(), *address) + change.value()),
            r is Ok ==> contract_balance_moved(old(self).frames(), final(self).frames(), *address, change.value()),
            r is Err ==> final(self).frames() == old(self).frames(),
            effective_contract_balance(*ledger, old(self).frames(), *address) + change.value() < 0
                ==> r == Err::<(), AmountDeltaError>(AmountDeltaError::Underflow),
            effective_contract_balance(*ledger, old(self).frames(), *address) + change.value() > u64::MAX
                ==> r == Err::<(), AmountDeltaError>(AmountDeltaError::Overflow),
    {
        let ghost fr0 = self.frames();
        let bal = match self.contract_balance(ledger, address) {
            Some(b) => b,
            None => 0,
        };
        match change.apply_to_balance(bal) {
            Ok(_) => {},
            Err(e) => {
                return Err(e);
            },
        }
        let i = self.top_contract_index(ledger, address);
        let ghost fr1 = self.frames();
        let n = self.stack.len();
        let old_delta = self.stack[n - 1].contracts[i].1.self_balance_delta;
        let mi = self.stack[n - 1].contracts[i].1.modification_index;
        proof {
            let nn = fr1.len() as int;
            assert(fr1.take(nn - 1) =~= fr1.drop_last());
            assert(is_amount(ledger.contracts_view()[*address].balance + contract_delta_sum(fr1.take(nn - 1), *address)));
            assert(fr1.last() == self.stack@[n - 1 as int]@);
            assert(contract_delta_sum(fr1, *address) == contract_delta_sum(fr1.drop_last(), *address) + old_delta.value());
        }
        let d = match old_delta.add_delta(change) {
            Ok(d) => d,
            Err(e) => {
                return Err(e);
            },
        };
        let ghost s1 = self.stack@;
        self.stack[n - 1].set_contract(i, d, mi, None, None);
        proof {
            assert(self.stack@ == s1.update(n - 1, self.stack@[n - 1 as int]));
            let fr = self.frames();
            assert(fr =~= fr1.update(n - 1, fr[n - 1 as int]));
            assert(fr.drop_last() =~= fr1.drop_last());
            assert forall|k: int| 0 <= k < self.stack@.len() implies (#[trigger] self.stack@[k]).wf() by {
                if k < n - 1 {
                    assert(self.stack@[k] == s1[k]);
                }
            }
            assert forall|b: ContractAddress| #[trigger] contract_delta_sum(fr, b) == contract_delta_sum(fr1, b) + if b == *address { change.value() } else { 0 } by {}
            assert forall|q: Seq<u8>| #[trigger] account_delta_sum(fr, q) == account_delta_sum(fr1, q) by {}
            assert forall|b: ContractAddress| #[trigger] frames_state(fr, b) == frames_state(fr1, b) by {}
            assert forall|b: ContractAddress| #[trigger] frames_module(fr, b) == frames_module(fr1, b) by {}
            assert forall|b: ContractAddress| #[trigger] frames_modification_index(fr, b) == frames_modification_index(fr1, b) by {}
            assert forall|a: ContractAddress| ledger.contracts_view().contains_key(a) implies is_amount(
                ledger.contracts_view()[a].balance + #[trigger] contract_delta_sum(fr, a)) by {
                assert(fr1.take(fr1.len() as int) =~= fr1);
                assert(is_amount(ledger.contracts_view()[a].balance + contract_delta_sum(fr1.take(fr1.len() as int), a)));
            }
            assert forall|q: Seq<u8>| ledger.accounts_view().contains_key(q) implies is_amount(
                ledger.accounts_view()[q] + #[trigger] account_delta_sum(fr, q)) by {
                assert(fr1.take(fr1.len() as int) =~= fr1);
                assert(is_amount(ledger.accounts_view()[q] + account_delta_sum(fr1.take(fr1.len() as int), q)));
            }
            assert forall|a: ContractAddress| #[trigger] fr.last().contracts.contains_key(a) implies {
                &&& ledger.contracts_view().contains_key(a)
                &&& fr.last().contracts[a].self_balance_original == ledger.contracts_view()[a].balance
                &&& fr.last().contracts[a].modification_index >= frames_modification_index(fr1.drop_last(), a)
                &&& is_delta(fr.last().contracts[a].self_balance_delta)
            } by {
                assert(fr1[fr1.len() - 1].contracts.contains_key(a));
                assert(fr1.take(fr1.len() - 1) =~= fr1.drop_last());
            }
            assert forall|q: Seq<u8>| #[trigger] fr.last().accounts.contains_key(q) implies {
                &&& ledger.accounts_view().contains_key(q)
                &&& fr.last().accounts[q].original_balance == ledger.accounts_view()[q]
                &&& is_delta(fr.last().accounts[q].balance_delta)
            } by {
                assert(fr1[fr1.len() - 1].accounts.contains_key(q));
            }
            lemma_top_update_wf(fr1, fr, *ledger);
        }
        Ok(())
    }

    /// Adds an amount to a contract's balance in the top frame; fails with
    /// `Overflow`, changing nothing, where the result would exceed the largest amount.
    pub fn add_contract_balance(&mut self, ledger: &Ledger, address: &ContractAddress, amount: u64) -> (r: Result<(), AmountDeltaError>)
        requires
            old(self).wf(*ledger),
            ledger.contracts_view().contains_key(*address),
        ensures
            final(self).wf(*ledger),
            r is Ok <==> effective_contract_balance(*ledger, old(self).frames(), *address) + amount <= u64::MAX,
            r is Ok ==> contract_balance_moved(old(self).frames(), final(self).frames(), *address, amount as int),
            r is Err ==> r == Err::<(), AmountDeltaError>(AmountDeltaError::Overflow) && final(self).frames() == old(self).frames(),
    {
        proof {
            lemma_effective_in_range(self.frames(), *ledger);
        }
        self.apply_contract_delta(ledger, address, AmountDelta::Positive(amount))
    }

    /// Takes an amount from a contract's balance in the top frame; fails with
    /// `Underflow`, changing nothing, where the balance is smaller than the amount.
    pub fn subtract_contract_balance(&mut self, ledger: &Ledger, address: &ContractAddress, amount: u64) -> (r: Result<(), AmountDeltaError>)
        requires
            old(self).wf(*ledger),
            ledger.contracts_view().contains_key(*address),
        ensures
            final(self).wf(*ledger),
            r is Ok <==> amount <= effective_contract_balance(*ledger, old(self).frames(), *address),
            r is Ok ==> contract_balance_moved(old(self).frames(), final(self).frames(), *address, -(amount as int)),
            r is Err ==> r == Err::<(), AmountDeltaError>(AmountDeltaError::Underflow) && final(self).frames() == old(self).frames(),
    {
        proof {
            lemma_effective_in_range(self.frames(), *ledger);
        }
        self.apply_contract_delta(ledger, address, AmountDelta::Negative(amount))
    }

    /// Makes sure that the top frame has an entry for an account of the ledger,
    /// adding one that changes nothing where it has none; returns its index.
    fn top_account_index(&mut self, ledger: &Ledger, address: &AccountAddress) -> (i: usize)
        requires
            old(self).wf(*ledger),
            ledger.accounts_view().contains_key(account_class(*address)),
        ensures
            final(self).wf(*ledger),
            same_effect(final(self).frames(), old(self).frames()),
            final(self).frames().len() == old(self).frames().len(),
            final(self).frames().drop_last() == old(self).frames().drop_last(),
            final(self).frames().last().contracts == old(self).frames().last().contracts,
            forall|q: Seq<u8>| q != account_class(*address) ==> (#[trigger] final(self).frames().last().accounts.contains_key(q)
                <==> old(self).frames().last().accounts.contains_key(q)),
            forall|q: Seq<u8>| q != account_class(*address) && final(self).frames().last().accounts.contains_key(q)
                ==> #[trigger] final(self).frames().last().accounts[q] == old(self).frames().last().accounts[q],
            i < final(self).stack@.last().accounts@.len(),
            account_class(final(self).stack@.last().accounts@[i as int].0) == account_class(*address),
            final(self).frames().last().accounts.contains_key(account_class(*address)),
            final(self).frames().last().accounts[account_class(*address)] == final(self).stack@.last().accounts@[i as int].1@,
    {
        let n = self.stack.len();
        let ghost fr0 = self.frames();
        let ghost c = account_class(*address);
        match self.stack[n - 1].find_account(address) {
            Some(i) => i,
            None => {
                let original = match ledger.account_balance(address) {
                    Some(b) => b,
                    None => 0,
                };
                let entry = AccountChanges { original_balance: original, balance_delta: AmountDelta::new() };
                let ghost s1 = self.stack@;
                self.stack[n - 1].insert_account(*address, entry);
                let i = self.stack[n - 1].accounts.len() - 1;
                proof {
                    assert(self.stack@ == s1.update(n - 1, self.stack@[n - 1 as int]));
                    let fr = self.frames();
                    assert(fr =~= fr0.update(n - 1, fr[n - 1 as int]));
                    assert(fr.drop_last() =~= fr0.drop_last());
                    assert(fr.last().accounts[c] == entry@);
                    assert forall|k: int| 0 <= k < self.stack@.len() implies (#[trigger] self.stack@[k]).wf() by {
                        if k < n - 1 {
                            assert(self.stack@[k] == s1[k]);
                        }
                    }
                    assert forall|b: ContractAddress| #[trigger] contract_delta_sum(fr, b) == contract_delta_sum(fr0, b) by {}
                    assert forall|q: Seq<u8>| #[trigger] account_delta_sum(fr, q) == account_delta_sum(fr0, q) by {}
                    assert forall|b: ContractAddress| #[trigger] frames_state(fr, b) == frames_state(fr0, b) by {}
                    assert forall|b: ContractAddress| #[trigger] frames_module(fr, b) == frames_module(fr0, b) by {}
                    assert forall|b: ContractAddress| #[trigger] frames_modification_index(fr, b) == frames_modification_index(fr0, b) by {}
                    assert forall|a: ContractAddress| ledger.contracts_view().contains_key(a) implies is_amount(
                        ledger.contracts_view()[a].balance + #[trigger] contract_delta_sum(fr, a)) by {
                        assert(fr0.take(fr0.len() as int) =~= fr0);
                        assert(is_amount(ledger.contracts_view()[a].balance + contract_delta_sum(fr0.take(fr0.len() as int), a)));
                    }
                    assert forall|q: Seq<u8>| ledger.accounts_view().contains_key(q) implies is_amount(
                        ledger.accounts_view()[q] + #[trigger] account_delta_sum(fr, q)) by {
                        assert(fr0.take(fr0.len() as int) =~= fr0);
                        assert(is_amount(ledger.accounts_view()[q] + account_delta_sum(fr0.take(fr0.len() as int), q)));
                    }
                    assert forall|a: ContractAddress| #[trigger] fr.last().contracts.contains_key(a) implies {
                        &&& ledger.contracts_view().contains_key(a)
                        &&& fr.last().contracts[a].self_balance_original == ledger.contracts_view()[a].balance
                        &&& fr.last().contracts[a].modification_index >= frames_modification_index(fr0.drop_last(), a)
                        &&& is_delta(fr.last().contracts[a].self_balance_delta)
                    } by {
                        assert(fr0[fr0.len() - 1].contracts.contains_key(a));
                        assert(fr0.take(fr0.len() - 1) =~= fr0.drop_last());
                    }
                    assert forall|q: Seq<u8>| #[trigger] fr.last().accounts.contains_key(q) implies {
                        &&& ledger.accounts_view().contains_key(q)
                        &&& fr.last().accounts[q].original_balance == ledger.accounts_view()[q]
                        &&& is_delta(fr.last().accounts[q].balance_delta)
                    } by {
                        if q != c {
                            assert(fr0[fr0.len() - 1].accounts.contains_key(q));
                        }
                    }
                    lemma_top_update_wf(fr0, fr, *ledger);
                }
                i
            },
        }
    }

    /// Changes an account's balance in the top frame by `change`; fails, and
    /// changes nothing, where the balance would leave the range of amounts.
    fn apply_account_delta(&mut self, ledger: &Ledger, address: &AccountAddress, change: AmountDelta) -> (r: Result<(), AmountDeltaError>)
        requires
            old(self).wf(*ledger),
            ledger.accounts_view().contains_key(account_class(*address)),
        ensures
            final(self).wf(*ledger),
            r is Ok <==> is_amount(effective_account_balance(*ledger, old(self).frames(), account_class(*address)) + change.value()),
            r is Ok ==> account_balance_moved(old(self).frames(), final(self).frames(), account_class(*address), change.value()),
            r is Err ==> final(self).frames() == old(self).frames(),
            effective_account_balance(*ledger, old(self).frames(), account_class(*address)) + change.value() < 0
                ==> r == Err::<(), AmountDeltaError>(AmountDeltaError::Underflow),
            effective_account_balance(*ledger, old(self).frames(), account_class(*address)) + change.value() > u64::MAX
                ==> r == Err::<(), AmountDeltaError>(AmountDeltaError::Overflow),
    {
        let ghost fr0 = self.frames();
        let ghost c = account_class(*address);
        let bal = match self.account_balance(ledger, address) {
            Some(b) => b,
            None => 0,
        };
        match change.apply_to_balance(bal) {
            Ok(_) => {},
            Err(e) => {
                return Err(e);
            },
        }
        let i = self.top_account_index(ledger, address);
        let ghost fr1 = self.frames();
        let n = self.stack.len();
        let old_delta = self.stack[n - 1].accounts[i].1.balance_delta;
        proof {
            let nn = fr1.len() as int;
            assert(fr1.take(nn - 1) =~= fr1.drop_last());
            assert(is_amount(ledger.accounts_view()[c] + account_delta_sum(fr1.take(nn - 1), c)));
            assert(fr1.last() == self.stack@[n - 1 as int]@);
            assert(account_delta_sum(fr1, c) == account_delta_sum(fr1.drop_last(), c) + old_delta.value());
        }
        let d = match old_delta.add_delta(change) {
            Ok(d) => d,
            Err(e) => {
                return Err(e);
            },
        };
        let ghost s1 = self.stack@;
        self.stack[n - 1].set_account_delta(i, d);
        proof {
            assert(self.stack@ == s1.update(n - 1, self.stack@[n - 1 as int]));
            let fr = self.frames();
            assert(fr =~= fr1.update(n - 1, fr[n - 1 as int]));
            assert(fr.drop_last() =~= fr1.drop_last());
            assert forall|k: int| 0 <= k < self.stack@.len() implies (#[trigger] self.stack@[k]).wf() by {
                if k < n - 1 {
                    assert(self.stack@[k] == s1[k]);
                }
            }
            assert forall|b: ContractAddress| #[trigger] contract_delta_sum(fr, b) == contract_delta_sum(fr1, b) by {}
            assert forall|q: Seq<u8>| #[trigger] account_delta_sum(fr, q) == account_delta_sum(fr1, q) + if q == c { change.value() } else { 0 } by {}
            assert forall|b: ContractAddress| #[trigger] frames_state(fr, b) == frames_state(fr1, b) by {}
            assert forall|b: ContractAddress| #[trigger] frames_module(fr, b) == frames_module(fr1, b) by {}
            assert forall|b: ContractAddress| #[trigger] frames_modification_index(fr, b) == frames_modification_index(fr1, b) by {}
            assert forall|a: ContractAddress| ledger.contracts_view().contains_key(a) implies is_amount(
                ledger.contracts_view()[a].balance + #[trigger] contract_delta_sum(fr, a)) by {
                assert(fr1.take(fr1.len() as int) =~= fr1);
                assert(is_amount(ledger.contracts_view()[a].balance + contract_delta_sum(fr1.take(fr1.len() as int), a)));
            }
            assert forall|q: Seq<u8>| ledger.accounts_view().contains_key(q) implies is_amount(
                ledger.accounts_view()[q] + #[trigger] account_delta_sum(fr, q)) by {
                assert(fr1.take(fr1.len() as int) =~= fr1);
                assert(is_amount(ledger.accounts_view()[q] + account_delta_sum(fr1.take(fr1.len() as int), q)));
            }
            assert forall|a: ContractAddress| #[trigger] fr.last().contracts.contains_key(a) implies {
                &&& ledger.contracts_view().contains_key(a)
                &&& fr.last().contracts[a].self_balance_original == ledger.contracts_view()[a].balance
                &&& fr.last().contracts[a].modification_index >= frames_modification_index(fr1.drop_last(), a)
                &&& is_delta(fr.last().contracts[a].self_balance_delta)
            } by {
                assert(fr1[fr1.len() - 1].contracts.contains_key(a));
                assert(fr1.take(fr1.len() - 1) =~= fr1.drop_last());
            }
            assert forall|q: Seq<u8>| #[trigger] fr.last().accounts.contains_key(q) implies {
                &&& ledger.accounts_view().contains_key(q)
                &&& fr.last().accounts[q].original_balance == ledger.accounts_view()[q]
                &&& is_delta(fr.last().accounts[q].balance_delta)
            } by {
                assert(fr1[fr1.len() - 1].accounts.contains_key(q));
            }
            lemma_top_update_wf(fr1, fr, *ledger);
        }
        Ok(())
    }

    /// Adds an amount to an account's balance in the top frame; fails with
    /// `Overflow`, changing nothing, where the result would exceed the largest amount.
    pub fn add_account_balance(&mut self, ledger: &Ledger, address: &AccountAddress, amount: u64) -> (r: Result<(), AmountDeltaError>)
        requires
            old(self).wf(*ledger),
            ledger.accounts_view().contains_key(account_class(*address)),
        ensures
            final(self).wf(*ledger),
            r is Ok <==> effective_account_balance(*ledger, old(self).frames(), account_class(*address)) + amount <= u64::MAX,
            r is Ok ==> account_balance_moved(old(self).frames(), final(self).frames(), account_class(*address), amount as int),
            r is Err ==> r == Err::<(), AmountDeltaError>(AmountDeltaError::Overflow) && final(self).frames() == old(self).frames(),
    {
        proof {
            lemma_effective_in_range(self.frames(), *ledger);
        }
        self.apply_account_delta(ledger, address, AmountDelta::Positive(amount))
    }

    /// Takes an amount from an account's balance in the top frame; fails with
    /// `Underflow`, changing nothing, where the balance is smaller than the amount.
    pub fn subtract_account_balance(&mut self, ledger: &Ledger, address: &AccountAddress, amount: u64) -> (r: Result<(), AmountDeltaError>)
        requires
            old(self).wf(*ledger),
            ledger.accounts_view().contains_key(account_class(*address)),
        ensures
            final(self).wf(*ledger),
            r is Ok <==> amount <= effective_account_balance(*ledger, old(self).frames(), account_class(*address)),
            r is Ok ==> account_balance_moved(old(self).frames(), final(self).frames(), account_class(*address), -(amount as int)),
            r is Err ==> r == Err::<(), AmountDeltaError>(AmountDeltaError::Underflow) && final(self).frames() == old(self).frames(),
    {
        proof {
            lemma_effective_in_range(self.frames(), *ledger);
        }
        self.apply_account_delta(ledger, address, AmountDelta::Negative(amount))
    }

    /// Records in the top frame a write to a contract's state or module, which
    /// raises its modification index by one.
    fn record_write(
        &mut self,
        ledger: &Ledger,
        address: &ContractAddress,
        state: Option<Vec<u8>>,
        module: Option<ModuleReference>,
    )
        requires
            old(self).wf(*ledger),
            ledger.contracts_view().contains_key(*address),
            frames_modification_index(old(self).frames(), *address) < u64::MAX,
        ensures
            final(self).wf(*ledger),
            contract_written(old(self).frames(), final(self).frames(), *address, state_view(state), module),
    {
        let ghost fr0 = self.frames();
        let ghost st = state_view(state);
        let i = self.top_contract_index(ledger, address);
        let ghost fr1 = self.frames();
        let n = self.stack.len();
        let delta = self.stack[n - 1].contracts[i].1.self_balance_delta;
        let mi = self.stack[n - 1].contracts[i].1.modification_index;
        proof {
            assert(fr1.last() == self.stack@[n - 1 as int]@);
            assert(mi == frames_modification_index(fr1, *address));
        }
        let ghost s1 = self.stack@;
        self.stack[n - 1].set_contract(i, delta, mi + 1, state, module);
        proof {
            assert(self.stack@ == s1.update(n - 1, self.stack@[n - 1 as int]));
            let fr = self.frames();
            assert(fr =~= fr1.update(n - 1, fr[n - 1 as int]));
            assert(fr.drop_last() =~= fr1.drop_last());
            assert forall|k: int| 0 <= k < self.stack@.len() implies (#[trigger] self.stack@[k]).wf() by {
                if k < n - 1 {
                    assert(self.stack@[k] == s1[k]);
                }
            }
            assert forall|b: ContractAddress| #[trigger] contract_delta_sum(fr, b) == contract_delta_sum(fr1, b) by {}
            assert forall|q: Seq<u8>| #[trigger] account_delta_sum(fr, q) == account_delta_sum(fr1, q) by {}
            assert forall|b: ContractAddress| #[trigger] frames_state(fr, b) == if b == *address && st is Some { st } else { frames_state(fr1, b) } by {}
            assert forall|b: ContractAddress| #[trigger] frames_module(fr, b) == if b == *address && module is Some { module } else { frames_module(fr1, b) } by {}
            assert forall|b: ContractAddress| #[trigger] frames_modification_index(fr, b) == if b == *address {
                (frames_modification_index(fr1, b) + 1) as u64
            } else {
                frames_modification_index(fr1, b)
            } by {}
            assert forall|a: ContractAddress| ledger.contracts_view().contains_key(a) implies is_amount(
                ledger.contracts_view()[a].balance + #[trigger] contract_delta_sum(fr, a)) by {
                assert(fr1.take(fr1.len() as int) =~= fr1);
                assert(is_amount(ledger.contracts_view()[a].balance + contract_delta_sum(fr1.take(fr1.len() as int), a)));
            }
            assert forall|q: Seq<u8>| ledger.accounts_view().contains_key(q) implies is_amount(
                ledger.accounts_view()[q] + #[trigger] account_delta_sum(fr, q)) by {
                assert(fr1.take(fr1.len() as int) =~= fr1);
                assert(is_amount(ledger.accounts_view()[q] + account_delta_sum(fr1.take(fr1.len() as int), q)));
            }
            assert forall|a: ContractAddress| #[trigger] fr.last().contracts.contains_key(a) implies {
                &&& ledger.contracts_view().contains_key(a)
                &&& fr.last().contracts[a].self_balance_original == ledger.contracts_view()[a].balance
                &&& fr.last().contracts[a].modification_index >= frames_modification_index(fr1.drop_last(), a)
                &&& is_delta(fr.last().contracts[a].self_balance_delta)
            } by {
                assert(fr1[fr1.len() - 1].contracts.contains_key(a));
                assert(fr1.take(fr1.len() - 1) =~= fr1.drop_last());
            }
            assert forall|q: Seq<u8>| #[trigger] fr.last().accounts.contains_key(q) implies {
                &&& ledger.accounts_view().contains_key(q)
                &&& fr.last().accounts[q].original_balance == ledger.accounts_view()[q]
                &&& is_delta(fr.last().accounts[q].balance_delta)
            } by {
                assert(fr1[fr1.len() - 1].accounts.contains_key(q));
            }
            lemma_top_update_wf(fr1, fr, *ledger);
        }
    }

    /// Replaces a contract's state in the top frame; its modification index
    /// grows by one.
    pub fn write_state(&mut self, ledger: &Ledger, address: &ContractAddress, state: Vec<u8>)
        requires
            old(self).wf(*ledger),
            ledger.contracts_view().contains_key(*address),
            frames_modification_index(old(self).frames(), *address) < u64::MAX,
        ensures
            final(self).wf(*ledger),
            contract_written(old(self).frames(), final(self).frames(), *address, Some(state@), None),
            effective_state(*ledger, final(self).frames(), *address) == state@,
    {
        self.record_write(ledger, address, Some(state), None);
    }

    /// Replaces a contract's module in the top frame; its modification index
    /// grows by one.
    pub fn write_module(&mut self, ledger: &Ledger, address: &ContractAddress, module: ModuleReference)
        requires
            old(self).wf(*ledger),
            ledger.contracts_view().contains_key(*address),
            frames_modification_index(old(self).frames(), *address) < u64::MAX,
        ensures
            final(self).wf(*ledger),
            contract_written(old(self).frames(), final(self).frames(), *address, None, Some(module)),
            effective_module(*ledger, final(self).frames(), *address) == module,
    {
        self.record_write(ledger, address, None, Some(module));
    }

    /// Merges the top frame into the one beneath, for a call that succeeded.
    pub fn pop_commit(&mut self, ledger: &Ledger)
        requires
            old(self).wf(*ledger),
            old(self).frames().len() >= 2,
        ensures
            final(self).wf(*ledger),
            final(self).frames() == commit_frames(old(self).frames()),
            same_effect(final(self).frames(), old(self).frames()),
    {
        let ghost fr0 = self.frames();
        proof {
            lemma_commit_fits(fr0, *ledger);
            lemma_commit_same_effect(fr0, *ledger);
            lemma_commit_wf(fr0, *ledger);
        }
        let top = self.stack.pop().unwrap();
        let n = self.stack.len();
        assert(self.stack@[n - 1]@ == fr0[fr0.len() - 2]);
        let ghost s1 = self.stack@;
        let r = self.stack[n - 1].absorb(top);
        proof {
            assert(r is Ok);
            assert(self.stack@ == s1.update(n - 1, self.stack@[n - 1 as int]));
            assert(self.frames() =~= commit_frames(fr0));
            assert forall|k: int| 0 <= k < self.stack@.len() implies (#[trigger] self.stack@[k]).wf() by {
                if k < n - 1 {
                    assert(self.stack@[k] == s1[k]);
                }
            }
        }
    }

    /// Drops the top frame, for a call that failed.
    pub fn pop_discard(&mut self, ledger: &Ledger)
        requires
            old(self).wf(*ledger),
            old(self).frames().len() >= 2,
        ensures
            final(self).wf(*ledger),
            final(self).frames() == discard_frames(old(self).frames()),
    {
        let ghost fr0 = self.frames();
        let _ = self.stack.pop();
        proof {
            assert(self.frames() =~= fr0.drop_last());
            lemma_take_wf(fr0, *ledger, fr0.len() - 1);
        }
    }
}

/// Under consistent frames, the top two frames can always be merged: each sum
/// of deltas is the difference of two representable balances.
pub proof fn lemma_commit_fits(fr: Seq<ChangesView>, ledger: Ledger)
    requires
        frames_wf(fr, ledger),
        fr.len() >= 2,
    ensures
        merge_fits(fr[fr.len() - 2], fr.last()),
{
    let n = fr.len() as int;
    let p = fr[n - 2];
    let c = fr.last();
    assert(fr.take(n) =~= fr);
    assert(fr.take(n).drop_last() =~= fr.take(n - 1));
    assert(fr.take(n - 1).drop_last() =~= fr.take(n - 2));
    assert(fr.take(n - 1).last() == p);
    assert forall|a: ContractAddress| p.contracts.contains_key(a) && c.contracts.contains_key(a) implies is_delta(
        p.contracts[a].self_balance_delta + c.contracts[a].self_balance_delta,
    ) by {
        assert(fr[n - 2].contracts.contains_key(a));
        let b = ledger.contracts_view()[a].balance;
        assert(is_amount(b + contract_delta_sum(fr.take(n), a)));
        assert(is_amount(b + contract_delta_sum(fr.take(n - 2), a)));
        assert(contract_delta_sum(fr.take(n - 1), a) == contract_delta_sum(fr.take(n - 2), a) + p.contracts[a].self_balance_delta);
    }
    assert forall|k: Seq<u8>| p.accounts.contains_key(k) && c.accounts.contains_key(k) implies is_delta(
        p.accounts[k].balance_delta + c.accounts[k].balance_delta,
    ) by {
        assert(fr[n - 2].accounts.contains_key(k));
        let b = ledger.accounts_view()[k];
        assert(is_amount(b + account_delta_sum(fr.take(n), k)));
        assert(is_amount(b + account_delta_sum(fr.take(n - 2), k)));
        assert(account_delta_sum(fr.take(n - 1), k) == account_delta_sum(fr.take(n - 2), k) + p.accounts[k].balance_delta);
    }
    assert(contracts_merge_fit(p.contracts, c.contracts));
    assert(accounts_merge_fit(p.accounts, c.accounts));
}

/// Merging the top frame into the one beneath leaves every balance, state,
/// module and modification index as it was.
pub proof fn lemma_commit_same_effect(fr: Seq<ChangesView>, ledger: Ledger)
    requires
        frames_wf(fr, ledger),
        fr.len() >= 2,
    ensures
        same_effect(commit_frames(fr), fr),
{
    let n = fr.len() as int;
    let p = fr[n - 2];
    let c = fr.last();
    let g = commit_frames(fr);
    let m = merge_changes(p, c);
    assert(g.drop_last() =~= fr.drop_last().drop_last());
    assert(g.last() == m);
    assert(fr.drop_last().last() == p);
    assert forall|a: ContractAddress| #[trigger] contract_delta_sum(g, a) == contract_delta_sum(fr, a) by {
        assert(contract_delta_in(m, a) == contract_delta_in(p, a) + contract_delta_in(c, a));
        assert(contract_delta_sum(fr.drop_last(), a) == contract_delta_sum(fr.drop_last().drop_last(), a)
            + contract_delta_in(p, a));
    }
    assert forall|k: Seq<u8>| #[trigger] account_delta_sum(g, k) == account_delta_sum(fr, k) by {
        assert(account_delta_in(m, k) == account_delta_in(p, k) + account_delta_in(c, k));
        assert(account_delta_sum(fr.drop_last(), k) == account_delta_sum(fr.drop_last().drop_last(), k)
            + account_delta_in(p, k));
    }
    assert forall|a: ContractAddress| #[trigger] frames_state(g, a) == frames_state(fr, a) by {
        assert(frames_state(fr.drop_last(), a) == if p.contracts.contains_key(a) && p.contracts[a].state is Some {
            p.contracts[a].state
        } else {
            frames_state(fr.drop_last().drop_last(), a)
        });
    }
    assert forall|a: ContractAddress| #[trigger] frames_module(g, a) == frames_module(fr, a) by {
        assert(frames_module(fr.drop_last(), a) == if p.contracts.contains_key(a) && p.contracts[a].module is Some {
            p.contracts[a].module
        } else {
            frames_module(fr.drop_last().drop_last(), a)
        });
    }
    assert forall|a: ContractAddress| #[trigger] frames_modification_index(g, a) == frames_modification_index(fr, a) by {
        assert(frames_modification_index(fr.drop_last(), a) == if p.contracts.contains_key(a) {
            p.contracts[a].modification_index
        } else {
            frames_modification_index(fr.drop_last().drop_last(), a)
        });
        if c.contracts.contains_key(a) && p.contracts.contains_key(a) {
            assert(fr.take(n - 1) =~= fr.drop_last());
            assert(fr[n - 1].contracts.contains_key(a));
        }
    }
}

/// Committing keeps frames consistent.
pub proof fn lemma_commit_wf(fr: Seq<ChangesView>, ledger: Ledger)
    requires
        frames_wf(fr, ledger),
        fr.len() >= 2,
    ensures
        frames_wf(commit_frames(fr), ledger),
{
    let n = fr.len() as int;
    let p = fr[n - 2];
    let c = fr.last();
    let g = commit_frames(fr);
    let m = merge_changes(p, c);
    lemma_commit_fits(fr, ledger);
    lemma_commit_same_effect(fr, ledger);
    assert(g.len() == n - 1);
    assert forall|k: int| 0 <= k < n - 2 implies g[k] == fr[k] by {}
    assert forall|k: int| 0 <= k <= n - 2 implies #[trigger] g.take(k) == fr.take(k) by {
        assert(g.take(k) =~= fr.take(k));
    }
    assert(g.take(n - 1) =~= g);
    assert(fr.take(n) =~= fr);
    assert(fr.take(n - 1) =~= fr.drop_last());
    assert(g.take(n - 2) =~= fr.drop_last().drop_last());
    assert(fr.take(n - 2) =~= fr.drop_last().drop_last());
    assert forall|k: int, a: ContractAddress|
        0 <= k < g.len() && #[trigger] g[k].contracts.contains_key(a) implies {
            &&& ledger.contracts_view().contains_key(a)
            &&& g[k].contracts[a].self_balance_original == ledger.contracts_view()[a].balance
            &&& g[k].contracts[a].modification_index >= frames_modification_index(g.take(k), a)
            &&& is_delta(g[k].contracts[a].self_balance_delta)
        } by {
        if k == n - 2 {
            if c.contracts.contains_key(a) && !p.contracts.contains_key(a) {
                assert(fr[n - 1].contracts.contains_key(a));
                assert(frames_modification_index(fr.take(n - 1), a) == frames_modification_index(fr.take(n - 2), a));
            }
            if p.contracts.contains_key(a) {
                assert(fr[n - 2].contracts.contains_key(a));
            }
        } else {
            assert(fr[k].contracts.contains_key(a));
        }
    }
    assert forall|k: int, q: Seq<u8>|
        0 <= k < g.len() && #[trigger] g[k].accounts.contains_key(q) implies {
            &&& ledger.accounts_view().contains_key(q)
            &&& g[k].accounts[q].original_balance == ledger.accounts_view()[q]
            &&& is_delta(g[k].accounts[q].balance_delta)
        } by {
        if k == n - 2 {
            if c.accounts.contains_key(q) {
                assert(fr[n - 1].accounts.contains_key(q));
            }
            if p.accounts.contains_key(q) {
                assert(fr[n - 2].accounts.contains_key(q));
            }
        } else {
            assert(fr[k].accounts.contains_key(q));
        }
    }
    assert forall|k: int, a: ContractAddress|
        0 <= k <= g.len() && ledger.contracts_view().contains_key(a) implies is_amount(
        ledger.contracts_view()[a].balance + #[trigger] contract_delta_sum(g.take(k), a),
    ) by {
        if k == n - 1 {
            assert(contract_delta_sum(g, a) == contract_delta_sum(fr, a));
            assert(is_amount(ledger.contracts_view()[a].balance + contract_delta_sum(fr.take(n), a)));
        } else {
            assert(is_amount(ledger.contracts_view()[a].balance + contract_delta_sum(fr.take(k), a)));
        }
    }
    assert forall|k: int, q: Seq<u8>|
        0 <= k <= g.len() && ledger.accounts_view().contains_key(q) implies is_amount(
        ledger.accounts_view()[q] + #[trigger] account_delta_sum(g.take(k), q),
    ) by {
        if k == n - 1 {
            assert(account_delta_sum(g, q) == account_delta_sum(fr, q));
            assert(is_amount(ledger.accounts_view()[q] + account_delta_sum(fr.take(n), q)));
        } else {
            assert(is_amount(ledger.accounts_view()[q] + account_delta_sum(fr.take(k), q)));
        }
    }
}

/// Replacing the top frame keeps frames consistent, where the new top's entries
/// are consistent and every balance it leaves is representable.
pub proof fn lemma_top_update_wf(fr: Seq<ChangesView>, g: Seq<ChangesView>, ledger: Ledger)
    requires
        frames_wf(fr, ledger),
        fr.len() >= 1,
        g.len() == fr.len(),
        g.drop_last() == fr.drop_last(),
        forall|a: ContractAddress| #[trigger] g.last().contracts.contains_key(a) ==> {
            &&& ledger.contracts_view().contains_key(a)
            &&& g.last().contracts[a].self_balance_original == ledger.contracts_view()[a].balance
            &&& g.last().contracts[a].modification_index >= frames_modification_index(fr.drop_last(), a)
            &&& is_delta(g.last().contracts[a].self_balance_delta)
        },
        forall|c: Seq<u8>| #[trigger] g.last().accounts.contains_key(c) ==> {
            &&& ledger.accounts_view().contains_key(c)
            &&& g.last().accounts[c].original_balance == ledger.accounts_view()[c]
            &&& is_delta(g.last().accounts[c].balance_delta)
        },
        forall|a: ContractAddress| ledger.contracts_view().contains_key(a) ==> is_amount(
            ledger.contracts_view()[a].balance + #[trigger] contract_delta_sum(g, a),
        ),
        forall|c: Seq<u8>| ledger.accounts_view().contains_key(c) ==> is_amount(
            ledger.accounts_view()[c] + #[trigger] account_delta_sum(g, c),
        ),
    ensures
        frames_wf(g, ledger),
{
    let n = fr.len() as int;
    assert forall|k: int| 0 <= k < n - 1 implies #[trigger] g[k] == fr[k] by {
        assert(g[k] == g.drop_last()[k]);
    }
    assert forall|k: int| 0 <= k <= n - 1 implies #[trigger] g.take(k) == fr.take(k) by {
        assert(g.take(k) =~= fr.take(k));
    }
    assert(g.take(n) =~= g);
    assert(fr.take(n - 1) =~= fr.drop_last());
    assert forall|k: int, a: ContractAddress|
        0 <= k < g.len() && #[trigger] g[k].contracts.contains_key(a) implies {
            &&& ledger.contracts_view().contains_key(a)
            &&& g[k].contracts[a].self_balance_original == ledger.contracts_view()[a].balance
            &&& g[k].contracts[a].modification_index >= frames_modification_index(g.take(k), a)
            &&& is_delta(g[k].contracts[a].self_balance_delta)
        } by {
        if k < n - 1 {
            assert(fr[k].contracts.contains_key(a));
        } else {
            assert(g.last().contracts.contains_key(a));
        }
    }
    assert forall|k: int, q: Seq<u8>|
        0 <= k < g.len() && #[trigger] g[k].accounts.contains_key(q) implies {
            &&& ledger.accounts_view().contains_key(q)
            &&& g[k].accounts[q].original_balance == ledger.accounts_view()[q]
            &&& is_delta(g[k].accounts[q].balance_delta)
        } by {
        if k < n - 1 {
            assert(fr[k].accounts.contains_key(q));
        } else {
            assert(g.last().accounts.contains_key(q));
        }
    }
    assert forall|k: int, a: ContractAddress|
        0 <= k <= g.len() && ledger.contracts_view().contains_key(a) implies is_amount(
        ledger.contracts_view()[a].balance + #[trigger] contract_delta_sum(g.take(k), a),
    ) by {
        if k == n {
            assert(is_amount(ledger.contracts_view()[a].balance + contract_delta_sum(g, a)));
        } else {
            assert(is_amount(ledger.contracts_view()[a].balance + contract_delta_sum(fr.take(k), a)));
        }
    }
    assert forall|k: int, q: Seq<u8>|
        0 <= k <= g.len() && ledger.accounts_view().contains_key(q) implies is_amount(
        ledger.accounts_view()[q] + #[trigger] account_delta_sum(g.take(k), q),
    ) by {
        if k == n {
            assert(is_amount(ledger.accounts_view()[q] + account_delta_sum(g, q)));
        } else {
            assert(is_amount(ledger.accounts_view()[q] + account_delta_sum(fr.take(k), q)));
        }
    }
}

/// Under consistent frames every balance that they show is a representable
/// amount: none is negative.
pub proof fn lemma_effective_in_range(fr: Seq<ChangesView>, ledger: Ledger)
    requires
        frames_wf(fr, ledger),
    ensures
        forall|a: ContractAddress| ledger.contracts_view().contains_key(a) ==> is_amount(
            #[trigger] effective_contract_balance(ledger, fr, a),
        ),
        forall|c: Seq<u8>| ledger.accounts_view().contains_key(c) ==> is_amount(
            #[trigger] effective_account_balance(ledger, fr, c),
        ),
{
    assert(fr.take(fr.len() as int) =~= fr);
    assert forall|a: ContractAddress| ledger.contracts_view().contains_key(a) implies is_amount(
        #[trigger] effective_contract_balance(ledger, fr, a),
    ) by {
        assert(is_amount(ledger.contracts_view()[a].balance + contract_delta_sum(fr.take(fr.len() as int), a)));
    }
    assert forall|c: Seq<u8>| ledger.accounts_view().contains_key(c) implies is_amount(
        #[trigger] effective_account_balance(ledger, fr, c),
    ) by {
        assert(is_amount(ledger.accounts_view()[c] + account_delta_sum(fr.take(fr.len() as int), c)));
    }
}

/// An empty frame on top changes no balance, state, module or index.
pub proof fn lemma_push_empty_same_effect(fr: Seq<ChangesView>)
    ensures
        same_effect(fr.push(empty_changes()), fr),
{
    let g = fr.push(empty_changes());
    assert(g.drop_last() == fr);
    assert forall|a: ContractAddress| #[trigger] contract_delta_sum(g, a) == contract_delta_sum(fr, a) by {}
    assert forall|k: Seq<u8>| #[trigger] account_delta_sum(g, k) == account_delta_sum(fr, k) by {}
}

/// A prefix of consistent frames is consistent.
pub proof fn lemma_take_wf(fr: Seq<ChangesView>, ledger: Ledger, n: int)
    requires
        frames_wf(fr, ledger),
        0 <= n <= fr.len(),
    ensures
        frames_wf(fr.take(n), ledger),
{
    let g = fr.take(n);
    assert forall|k: int, a: ContractAddress| 0 <= k < g.len() && #[trigger] g[k].contracts.contains_key(a) implies
        g[k].contracts[a].modification_index >= frames_modification_index(g.take(k), a) by {
        assert(g.take(k) =~= fr.take(k));
        assert(g[k] == fr[k]);
    }
    assert forall|k: int, a: ContractAddress|
        0 <= k <= g.len() && ledger.contracts_view().contains_key(a) implies is_amount(
        ledger.contracts_view()[a].balance + #[trigger] contract_delta_sum(g.take(k), a),
    ) by {
        assert(g.take(k) =~= fr.take(k));
    }
    assert forall|k: int, c: Seq<u8>|
        0 <= k <= g.len() && ledger.accounts_view().contains_key(c) implies is_amount(
        ledger.accounts_view()[c] + #[trigger] account_delta_sum(g.take(k), c),
    ) by {
        assert(g.take(k) =~= fr.take(k));
    }
    assert forall|k: int, c: Seq<u8>| 0 <= k < g.len() && #[trigger] g[k].accounts.contains_key(c) implies
        ledger.accounts_view().contains_key(c) && g[k].accounts[c].original_balance == ledger.accounts_view()[c]
        && is_delta(g[k].accounts[c].balance_delta) by {
        assert(g[k] == fr[k]);
    }
    assert forall|k: int, a: ContractAddress| 0 <= k < g.len() && #[trigger] g[k].contracts.contains_key(a) implies
        ledger.contracts_view().contains_key(a) && g[k].contracts[a].self_balance_original == ledger.contracts_view()[a].balance
        && is_delta(g[k].contracts[a].self_balance_delta) by {
        assert(g[k] == fr[k]);
    }
}

/// Pushing an empty frame keeps frames consistent.
pub proof fn lemma_push_empty_wf(fr: Seq<ChangesView>, ledger: Ledger)
    requires
        frames_wf(fr, ledger),
    ensures
        frames_wf(fr.push(empty_changes()), ledger),
{
    let g = fr.push(empty_changes());
    assert(g.drop_last() == fr);
    assert forall|k: int, a: ContractAddress| 0 <= k < g.len() && #[trigger] g[k].contracts.contains_key(a) implies
        g[k].contracts[a].modification_index >= frames_modification_index(g.take(k), a) by {
        assert(g.take(k) =~= fr.take(k));
        assert(g[k] == fr[k]);
    }
    assert forall|k: int, a: ContractAddress|
        0 <= k <= g.len() && ledger.contracts_view().contains_key(a) implies is_amount(
        ledger.contracts_view()[a].balance + #[trigger] contract_delta_sum(g.take(k), a),
    ) by {
        if k == g.len() {
            assert(g.take(k) =~= g);
            assert(fr.take(fr.len() as int) =~= fr);
            assert(is_amount(ledger.contracts_view()[a].balance + contract_delta_sum(fr.take(fr.len() as int), a)));
        } else {
            assert(g.take(k) =~= fr.take(k));
        }
    }
    assert forall|k: int, c: Seq<u8>|
        0 <= k <= g.len() && ledger.accounts_view().contains_key(c) implies is_amount(
        ledger.accounts_view()[c] + #[trigger] account_delta_sum(g.take(k), c),
    ) by {
        if k == g.len() {
            assert(g.take(k) =~= g);
            assert(fr.take(fr.len() as int) =~= fr);
            assert(is_amount(ledger.accounts_view()[c] + account_delta_sum(fr.take(fr.len() as int), c)));
        } else {
            assert(g.take(k) =~= fr.take(k));
        }
    }
    assert forall|k: int, c: Seq<u8>| 0 <= k < g.len() && #[trigger] g[k].accounts.contains_key(c) implies
        ledger.accounts_view().contains_key(c) && g[k].accounts[c].original_balance == ledger.accounts_view()[c]
        && is_delta(g[k].accounts[c].balance_delta) by {
        assert(g[k] == fr[k]);
    }
    assert forall|k: int, a: ContractAddress| 0 <= k < g.len() && #[trigger] g[k].contracts.contains_key(a) implies
        ledger.contracts_view().contains_key(a) && g[k].contracts[a].self_balance_original == ledger.contracts_view()[a].balance
        && is_delta(g[k].contracts[a].self_balance_delta) by {
        assert(g[k] == fr[k]);
    }
}

} // verus!
