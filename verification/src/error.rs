//! The reasons for which a request is turned down.

use vstd::prelude::*;

verus! {

/// Why a request was rejected. A rejected request changes nothing.
#[derive(Clone, Copy, PartialEq, Eq, Structural, Debug)]
pub enum Error {
    /// The account already has a balance entry.
    AlreadyRegistered,
    /// The caller has no balance entry.
    SenderNotRegistered,
    /// The receiving account, or the sender, has no balance entry.
    ReceiverNotRegistered,
    /// No owner is recorded for the resource.
    ResourceNotPresent,
    /// The caller is not the recorded owner of the resource.
    SenderDoesNotOwnResource,
    /// The paying account holds less than the amount to move.
    InsufficientFunds,
    /// The resource already has an open auction.
    AuctionAlreadyExists,
    /// The resource has no open auction with the given id.
    AuctionDoesNotExist,
    /// The bidder's new cumulative total does not exceed the current maximum.
    BidRejected,
}

} // verus!
