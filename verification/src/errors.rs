//! The errors a state-transition operation can fail with.

use vstd::prelude::*;

verus! {

/// Every operation fails fast with exactly one of these; no operation
/// retries. A failure leaves the store unchanged, with one documented
/// exception: `exchange` consumes the listing it reads even when it fails
/// afterwards.
#[derive(Clone, Copy, PartialEq, Eq, Structural, Debug)]
pub enum Error {
    /// Allocating one more id would overflow the id type.
    KittiesIdOverflow,
    /// The named kitty does not exist under the named owner.
    InvalidKittyId,
    /// Both breeding parents have the same gender.
    SameGender,
    /// No listing is present for the kitty.
    NotForSale,
    /// An exchange names the same account on both sides.
    CannotExchangeWithYourself,
    /// The exchange cannot be paid for.
    NotEnoughBalance,
}

} // verus!
