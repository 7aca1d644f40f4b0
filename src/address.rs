use vstd::prelude::*;

verus! {

/// Number of leading bytes that two aliases of one account share.
pub const ACCOUNT_ADDRESS_EQ_BYTES: usize = 29;

/// A 32-byte account address. Addresses that agree on their first 29 bytes are
/// aliases of one account.
#[derive(Clone, Copy, Debug)]
pub struct AccountAddress(pub [u8; 32]);

/// The address of a contract instance.
#[derive(Clone, Copy, Debug, PartialEq, Eq, Structural)]
pub struct ContractAddress {
    pub index: u64,
    pub subindex: u64,
}

/// The sender of a call: an account or a contract.
#[derive(Clone, Copy, Debug)]
pub enum Address {
    Account(AccountAddress),
    Contract(ContractAddress),
}

/// The equivalence class of an account address: the bytes that all its aliases share.
pub open spec fn account_class(a: AccountAddress) -> Seq<u8> {
    a.0@.subrange(0, ACCOUNT_ADDRESS_EQ_BYTES as int)
}

impl AccountAddress {
    /// Whether `self` and `other` are aliases of the same account.
    pub fn same_account(&self, other: &AccountAddress) -> (r: bool)
        ensures
            r == (account_class(*self) == account_class(*other)),
    {
        let mut i: usize = 0;
        while i < ACCOUNT_ADDRESS_EQ_BYTES
            invariant
                i <= ACCOUNT_ADDRESS_EQ_BYTES,
                self.0@.len() == 32,
                other.0@.len() == 32,
                forall|j: int| 0 <= j < i ==> self.0@[j] == other.0@[j],
            decreases ACCOUNT_ADDRESS_EQ_BYTES - i,
        {
            if self.0[i] != other.0[i] {
                assert(account_class(*self)[i as int] != account_class(*other)[i as int]);
                return false;
            }
            i = i + 1;
        }
        assert(account_class(*self) =~= account_class(*other));
        true
    }
}

impl ContractAddress {
    pub fn new(index: u64, subindex: u64) -> (r: ContractAddress)
        ensures
            r.index == index,
            r.subindex == subindex,
    {
        ContractAddress { index, subindex }
    }

    /// Whether two contract addresses are the same.
    pub fn equals(&self, other: &ContractAddress) -> (r: bool)
        ensures
            r == (*self == *other),
    {
        self.index == other.index && self.subindex == other.subindex
    }
}

} // verus!
