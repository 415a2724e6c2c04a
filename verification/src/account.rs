//! The destination account on the successor ledger, named by its
//! bech32-encoded address.  Deriving that address from a mnemonic happens
//! outside the crate; here the textual address is validated and carried.

use vstd::prelude::*;

verus! {

/// Whether a string reads as a bech32-encoded ledger address.  Decoding is a
/// pure function of the characters alone.
pub uninterp spec fn bech32_address_valid(s: Seq<char>) -> bool;

/// Relies on bee_message's `Address::try_from_bech32`: decoding a bech32
/// address string is deterministic in the string and returns `Ok` exactly on
/// well-formed addresses.
#[verifier::external_body]
fn check_bech32(s: &str) -> (r: bool)
    ensures
        r == bech32_address_valid(s@),
{
    bee_message::address::Address::try_from_bech32(s).is_ok()
}

/// The migration destination: an account on the successor ledger, held as
/// its validated bech32 address.
#[derive(Debug, Clone)]
pub struct ChrysalisAccount {
    bech32_address: String,
}

impl View for ChrysalisAccount {
    type V = Seq<char>;

    closed spec fn view(&self) -> Seq<char> {
        self.bech32_address@
    }
}

impl ChrysalisAccount {
    /// Accepts a destination given as a bech32 address string; rejected
    /// exactly when the string does not decode as one.
    pub fn from_bech32_address(address: &str) -> (r: Result<ChrysalisAccount, ()>)
        ensures
            r is Ok <==> bech32_address_valid(address@),
            r matches Ok(a) ==> a@ == address@,
    {
        if check_bech32(address) {
            Ok(ChrysalisAccount { bech32_address: address.to_owned() })
        } else {
            Err(())
        }
    }

    /// The destination address in its bech32 text form.
    pub fn bech32_target_address(&self) -> (r: &str)
        ensures
            r@ == self@,
    {
        self.bech32_address.as_str()
    }
}

} // verus!
