//! Account identifiers, and the derivation of a pallet's own account.

use vstd::prelude::*;

verus! {

/// The identifier of an account: the thirty-two bytes a runtime addresses it by.
#[derive(Clone, Copy, Debug, Eq, Hash)]
pub struct AccountId(pub [u8; 32]);

impl View for AccountId {
    type V = Seq<u8>;

    open spec fn view(&self) -> Seq<u8> {
        self.0@
    }
}

impl AccountId {
    /// The account whose bytes are `bytes`.
    pub open spec fn from_bytes(bytes: Seq<u8>) -> AccountId {
        choose|account: AccountId| account@ == bytes
    }

    /// An account is known by its bytes: two accounts with the same bytes are one.
    pub proof fn lemma_known_by_bytes(self, other: AccountId)
        requires
            self@ == other@,
        ensures
            self == other,
    {
        assert(self.0@ =~= other.0@);
        assert(self.0 == other.0);
    }

    /// `from_bytes` gives back the account that the bytes were read from.
    pub proof fn lemma_from_bytes(self)
        ensures
            AccountId::from_bytes(self@) == self,
    {
        AccountId::from_bytes(self@).lemma_known_by_bytes(self);
    }
}

impl PartialEq for AccountId {
    fn eq(&self, other: &AccountId) -> (same: bool) {
        let mut i: usize = 0;
        while i < 32
            invariant
                i <= 32,
                forall|j: int| 0 <= j < i ==> self.0@[j] == other.0@[j],
            decreases 32 - i,
        {
            if self.0[i] != other.0[i] {
                return false;
            }
            i = i + 1;
        }
        proof {
            assert(self@ =~= other@);
            self.lemma_known_by_bytes(*other);
        }
        true
    }
}

impl vstd::std_specs::cmp::PartialEqSpecImpl for AccountId {
    open spec fn obeys_eq_spec() -> bool {
        true
    }

    open spec fn eq_spec(&self, other: &AccountId) -> bool {
        *self == *other
    }
}

/// The four bytes `modl` that open every account derived from a pallet identifier.
pub open spec fn pallet_type_id() -> Seq<u8> {
    seq![0x6du8, 0x6fu8, 0x64u8, 0x6cu8]
}

/// The account bytes that belong to a pallet identifier: the type tag, the
/// identifier itself, then zeros up to the width of an account.
pub open spec fn derived_account_bytes(pallet_id: Seq<u8>) -> Seq<u8> {
    pallet_type_id() + pallet_id + Seq::new(20, |i: int| 0u8)
}

/// The account that belongs to a pallet identifier.
pub open spec fn derived_account(pallet_id: Seq<u8>) -> AccountId {
    AccountId::from_bytes(derived_account_bytes(pallet_id))
}

/// Calls `sp_runtime::traits::AccountIdConversion::into_account_truncating` on a
/// `frame_support::PalletId`, asking for an `sp_runtime::AccountId32`.
///
/// Trusted: the conversion encodes the tag `modl` and the eight identifier
/// bytes, and decodes thirty-two bytes from that, reading zeros once the
/// encoding is used up.
#[verifier::external_body]
fn into_account_truncating(pallet_id: &[u8; 8]) -> (account: [u8; 32])
    ensures
        account@ == derived_account_bytes(pallet_id@),
{
    let account: sp_runtime::AccountId32 =
        sp_runtime::traits::AccountIdConversion::into_account_truncating(
            &frame_support::PalletId(*pallet_id),
        );
    account.into()
}

/// Derives the account that belongs to `pallet_id`.
///
/// The result depends on the identifier alone, so every call with the same
/// identifier names the same account.
pub fn derive_account_id(pallet_id: &[u8; 8]) -> (account: AccountId)
    ensures
        account@ == derived_account_bytes(pallet_id@),
        account == derived_account(pallet_id@),
{
    let account = AccountId(into_account_truncating(pallet_id));
    proof {
        account.lemma_from_bytes();
    }
    account
}

/// Two pallet identifiers that derive the same account are the same identifier.
pub proof fn lemma_derivation_is_injective(first: Seq<u8>, second: Seq<u8>)
    requires
        first.len() == 8,
        second.len() == 8,
        derived_account_bytes(first) == derived_account_bytes(second),
    ensures
        first == second,
{
    assert forall|i: int| 0 <= i < 8 implies first[i] == second[i] by {
        assert(derived_account_bytes(first)[i + 4] == first[i]);
        assert(derived_account_bytes(second)[i + 4] == second[i]);
    }
    assert(first =~= second);
}

} // verus!
