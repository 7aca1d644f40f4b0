use vstd::prelude::*;
use crate::address::ContractAddress;
use crate::amount::is_amount;
use crate::changes::{empty_changes, ChangesView};
use crate::changeset::{
    account_balance_moved, account_delta_sum, commit_frames, contract_balance_moved,
    contract_delta_sum, contract_written, discard_frames, frames_state, effective_account_balance,
    effective_contract_balance, frames_modification_index, frames_wf, lemma_commit_same_effect,
    lemma_commit_wf, lemma_effective_in_range, lemma_push_empty_same_effect, same_effect,
};
use crate::ledger::{Ledger, ModuleReference};

verus! {

/// The frames after every frame above the lowest `n` has been committed,
/// innermost first.
pub open spec fn commit_down_to(fr: Seq<ChangesView>, n: nat) -> Seq<ChangesView>
    decreases fr.len(),
{
    if fr.len() <= n || fr.len() < 2 {
        fr
    } else {
        commit_down_to(commit_frames(fr), n)
    }
}

/// Committing nested calls that all succeeded changes no balance, state,
/// module or modification index: each write made at any depth shows after the
/// commits exactly as it showed where it was made, as if made directly below.
pub proof fn law_commits_preserve_writes(fr: Seq<ChangesView>, ledger: Ledger, n: nat)
    requires
        frames_wf(fr, ledger),
        n >= 1,
    ensures
        same_effect(commit_down_to(fr, n), fr),
        frames_wf(commit_down_to(fr, n), ledger),
    decreases fr.len(),
{
    if fr.len() <= n || fr.len() < 2 {
    } else {
        let g = commit_frames(fr);
        lemma_commit_same_effect(fr, ledger);
        lemma_commit_wf(fr, ledger);
        law_commits_preserve_writes(g, ledger, n);
    }
}

/// Whatever a nested call left in its own frame, discarding that frame gives
/// back its caller's frames exactly: the sibling calls that committed before
/// keep their changes, and nothing of the failed call's sub-tree remains.
pub proof fn law_discard_undoes_nested_call(fr: Seq<ChangesView>, top: ChangesView)
    ensures
        discard_frames(fr.push(top)) == fr,
        same_effect(discard_frames(fr.push(top)), fr),
{
    assert(fr.push(top).drop_last() == fr);
}

/// A transfer from a contract to an account moves the amount: the two balance
/// changes add up to zero, and under consistent frames no balance is negative.
pub proof fn law_transfer_conserves(
    f: Seq<ChangesView>,
    h: Seq<ChangesView>,
    g: Seq<ChangesView>,
    from: ContractAddress,
    to: Seq<u8>,
    amount: u64,
    ledger: Ledger,
)
    requires
        contract_balance_moved(f, h, from, -(amount as int)),
        account_balance_moved(h, g, to, amount as int),
        frames_wf(g, ledger),
    ensures
        (contract_delta_sum(g, from) - contract_delta_sum(f, from)) + (account_delta_sum(g, to)
            - account_delta_sum(f, to)) == 0,
        forall|a: ContractAddress| ledger.contracts_view().contains_key(a) ==> is_amount(
            #[trigger] effective_contract_balance(ledger, g, a),
        ),
        forall|c: Seq<u8>| ledger.accounts_view().contains_key(c) ==> is_amount(
            #[trigger] effective_account_balance(ledger, g, c),
        ),
{
    assert(contract_delta_sum(h, from) == contract_delta_sum(f, from) - amount);
    assert(contract_delta_sum(g, from) == contract_delta_sum(h, from));
    assert(account_delta_sum(h, to) == account_delta_sum(f, to));
    assert(account_delta_sum(g, to) == account_delta_sum(h, to) + amount);
    lemma_effective_in_range(g, ledger);
}

/// Discarding a frame leaves every frame beneath it untouched; discarding a
/// frame that holds no changes gives back exactly the frames that were there
/// before it was pushed. A failed call tried twice, whatever each attempt
/// changed in its own frame, leaves the caller's frames as after the first
/// attempt: exactly as they were.
pub proof fn law_discard_keeps_ancestors(fr: Seq<ChangesView>, first: ChangesView, second: ChangesView)
    requires
        fr.len() >= 1,
    ensures
        forall|k: int| 0 <= k < fr.len() - 1 ==> #[trigger] discard_frames(fr)[k] == fr[k],
        discard_frames(fr.push(empty_changes())) == fr,
        same_effect(fr.push(empty_changes()), fr),
        discard_frames(fr.push(first)) == fr,
        discard_frames(discard_frames(fr.push(first)).push(second)) == discard_frames(fr.push(first)),
{
    assert(fr.push(empty_changes()).drop_last() == fr);
    assert(fr.push(first).drop_last() == fr);
    assert(fr.push(second).drop_last() == fr);
    lemma_push_empty_same_effect(fr);
}

/// Across a nested call, each contract's modification index never falls.
/// Where the call commits, an index grows only for a contract that the call's
/// frame holds, and the others keep theirs; where it fails, every index is as
/// before the call.
pub proof fn law_nested_call_indices(fr: Seq<ChangesView>, callee: ChangesView, ledger: Ledger)
    requires
        frames_wf(fr.push(callee), ledger),
        fr.len() >= 1,
    ensures
        forall|b: ContractAddress| #[trigger] frames_modification_index(commit_frames(fr.push(callee)), b)
            >= frames_modification_index(fr, b),
        forall|b: ContractAddress| !callee.contracts.contains_key(b)
            ==> #[trigger] frames_modification_index(commit_frames(fr.push(callee)), b) == frames_modification_index(fr, b),
        forall|b: ContractAddress| #[trigger] frames_modification_index(discard_frames(fr.push(callee)), b)
            == frames_modification_index(fr, b),
{
    let g = fr.push(callee);
    lemma_commit_same_effect(g, ledger);
    assert(g.drop_last() == fr);
    assert(g.take(fr.len() as int) =~= fr);
    assert forall|b: ContractAddress| #[trigger] frames_modification_index(commit_frames(g), b)
        >= frames_modification_index(fr, b) by {
        assert(frames_modification_index(commit_frames(g), b) == frames_modification_index(g, b));
        if callee.contracts.contains_key(b) {
            assert(g[fr.len() as int].contracts.contains_key(b));
        }
    }
    assert forall|b: ContractAddress| !callee.contracts.contains_key(b)
        implies #[trigger] frames_modification_index(commit_frames(g), b) == frames_modification_index(fr, b) by {
        assert(frames_modification_index(commit_frames(g), b) == frames_modification_index(g, b));
    }
}

/// A contract that wrote its state and then called itself: where the inner
/// call fails, whatever it wrote is gone, the outer write stays, and the
/// index is the one the outer write left.
pub proof fn law_reentrant_reject_keeps_outer_write(
    before: Seq<ChangesView>,
    written: Seq<ChangesView>,
    a: ContractAddress,
    outer: Seq<u8>,
    inner: ChangesView,
)
    requires
        contract_written(before, written, a, Some(outer), None),
        frames_modification_index(before, a) < u64::MAX,
    ensures
        frames_state(discard_frames(written.push(inner)), a) == Some(outer),
        frames_modification_index(discard_frames(written.push(inner)), a)
            == frames_modification_index(before, a) + 1,
{
    assert(written.push(inner).drop_last() == written);
}

/// A write to a contract's state or module raises its modification index, and
/// leaves the index of every other contract as it was.
pub proof fn law_write_raises_index(
    f: Seq<ChangesView>,
    g: Seq<ChangesView>,
    a: ContractAddress,
    state: Option<Seq<u8>>,
    module: Option<ModuleReference>,
)
    requires
        contract_written(f, g, a, state, module),
        frames_modification_index(f, a) < u64::MAX,
    ensures
        frames_modification_index(g, a) > frames_modification_index(f, a),
        forall|b: ContractAddress| b != a ==> #[trigger] frames_modification_index(g, b)
            == frames_modification_index(f, b),
{
    assert(frames_modification_index(g, a) == frames_modification_index(f, a) + 1);
}

/// A balance change leaves every modification index as it was.
pub proof fn law_balance_change_keeps_indices(f: Seq<ChangesView>, g: Seq<ChangesView>, a: ContractAddress, d: int)
    requires
        contract_balance_moved(f, g, a, d),
    ensures
        forall|b: ContractAddress| #[trigger] frames_modification_index(g, b) == frames_modification_index(f, b),
{
}

} // verus!
