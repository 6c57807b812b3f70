//! The auction registry as mathematics: what a record and the registry are,
//! when they are valid, and one function per request that gives the next
//! state or the reason for refusal.

use vstd::prelude::*;
use crate::basic_token_and_resource::{AccountId, LedgerView};
use crate::error::Error;

verus! {

/// The id that the first auction gets.
pub const FIRST_AUCTION_ID: u64 = 10;

/// Whether an auction still takes bids.
#[derive(Clone, Copy, PartialEq, Eq, Structural, Debug)]
pub enum AuctionState {
    /// Bids are taken.
    Open,
    /// The auction is settled; it stays so.
    Finished,
}

impl Default for AuctionState {
    /// An auction starts open.
    fn default() -> (state: AuctionState)
        ensures
            state == AuctionState::Open,
    {
        AuctionState::Open
    }
}

/// What one bidder has bid in all, over every bid of theirs that was accepted.
#[derive(Clone, Copy, PartialEq, Eq, Structural, Debug)]
pub struct BidData {
    /// The bidder.
    pub bid_owner: AccountId,
    /// The bidder's cumulative amount.
    pub bid_amount: u64,
}

/// The first position at which the bidder occurs, or the length where the
/// bidder occurs nowhere.
pub open spec fn bid_position(bids: Seq<BidData>, bidder: AccountId) -> int
    decreases bids.len(),
{
    if bids.len() == 0 {
        0
    } else if bids[0].bid_owner == bidder {
        0
    } else {
        1 + bid_position(bids.skip(1), bidder)
    }
}

/// The first position at which the id occurs, or the length where it occurs
/// nowhere.
pub open spec fn id_position(ids: Seq<u64>, id: u64) -> int
    decreases ids.len(),
{
    if ids.len() == 0 {
        0
    } else if ids[0] == id {
        0
    } else {
        1 + id_position(ids.skip(1), id)
    }
}

/// The ids without the first occurrence of the given one.
pub open spec fn without_id(ids: Seq<u64>, id: u64) -> Seq<u64> {
    let at = id_position(ids, id);
    if at < ids.len() {
        ids.remove(at)
    } else {
        ids
    }
}

/// The test that tells the entries of the losing bidders from the winner's.
pub open spec fn is_loser(winner: AccountId) -> spec_fn(BidData) -> bool {
    |bid: BidData| bid.bid_owner != winner
}

/// One auction's record as a mathematical value.
pub struct AuctionView {
    /// The auction's id.
    pub id: u64,
    /// The resource that is sold.
    pub resource: Seq<u8>,
    /// Open or finished.
    pub state: AuctionState,
    /// Who opened the auction and receives the bids.
    pub initial_owner: Option<AccountId>,
    /// Who won, once the auction is finished.
    pub final_owner: Option<AccountId>,
    /// Who holds the highest bid; the opener before any bid.
    pub max_bid_owner: AccountId,
    /// The highest cumulative bid; the floor before any bid.
    pub max_bid: u64,
    /// Each bidder's cumulative amount, in the order of their first bids.
    pub bids: Seq<BidData>,
}

impl AuctionView {
    /// The record of an auction that has just been opened.
    pub open spec fn opened(id: u64, resource: Seq<u8>, caller: AccountId, initial_bid: u64) -> AuctionView {
        AuctionView {
            id,
            resource,
            state: AuctionState::Open,
            initial_owner: Some(caller),
            final_owner: None,
            max_bid_owner: caller,
            max_bid: initial_bid,
            bids: Seq::empty(),
        }
    }

    /// The account that receives the bids.
    pub open spec fn seller(self) -> AccountId {
        match self.initial_owner {
            Some(owner) => owner,
            None => self.max_bid_owner,
        }
    }

    /// What the bidder has bid so far; nothing before their first bid.
    pub open spec fn cumulative(self, bidder: AccountId) -> u64 {
        let at = bid_position(self.bids, bidder);
        if at < self.bids.len() {
            self.bids[at].bid_amount
        } else {
            0
        }
    }

    /// The record after the bidder's cumulative amount has become `total`,
    /// which is now the highest.
    pub open spec fn with_bid(self, bidder: AccountId, total: u64) -> AuctionView {
        let at = bid_position(self.bids, bidder);
        let entry = BidData { bid_owner: bidder, bid_amount: total };
        AuctionView {
            max_bid_owner: bidder,
            max_bid: total,
            bids: if at < self.bids.len() {
                self.bids.update(at, entry)
            } else {
                self.bids.push(entry)
            },
            ..self
        }
    }

    /// The record after the auction has been settled.
    pub open spec fn finished(self) -> AuctionView {
        AuctionView {
            state: AuctionState::Finished,
            final_owner: Some(self.max_bid_owner),
            ..self
        }
    }

    /// The entries of the bidders who do not hold the highest bid, in the
    /// order of the list: what a settlement pays back.
    pub open spec fn refunds_due(self) -> Seq<BidData> {
        self.bids.filter(is_loser(self.max_bid_owner))
    }

    /// No bidder has two entries.
    pub open spec fn distinct_bidders(self) -> bool {
        forall|i: int, j: int|
            0 <= i < j < self.bids.len() ==> self.bids[i].bid_owner != self.bids[j].bid_owner
    }

    /// What holds of every record that the registry keeps.
    pub open spec fn valid(self) -> bool {
        &&& self.initial_owner is Some
        &&& self.state == AuctionState::Open ==> self.final_owner is None
        &&& self.state == AuctionState::Finished ==> self.final_owner == Some(self.max_bid_owner)
        &&& self.distinct_bidders()
        &&& forall|i: int| 0 <= i < self.bids.len() ==> (#[trigger] self.bids[i]).bid_amount <= self.max_bid
        &&& self.bids.len() == 0 ==> self.max_bid_owner == self.seller()
        &&& self.bids.len() > 0 ==> exists|i: int|
            0 <= i < self.bids.len() && #[trigger] self.bids[i] == (BidData {
                bid_owner: self.max_bid_owner,
                bid_amount: self.max_bid,
            })
    }
}

/// The registry as a mathematical value.
pub struct RegistryView {
    /// The id that the next auction gets.
    pub next_auction_id: u64,
    /// The ids of the open auctions, in the order in which they were opened.
    pub open_auctions: Seq<u64>,
    /// For each resource under auction, the id of its open auction.
    pub mapping: Map<Seq<u8>, u64>,
    /// Every auction that was ever opened, by its id.
    pub auctions: Map<u64, AuctionView>,
}

/// Pays each entry its amount out of the seller's balance, in the order of
/// the list. The first payment that the seller cannot make refuses the whole.
pub open spec fn pay_in_order(ledger: LedgerView, payments: Seq<BidData>, seller: AccountId) -> Result<
    LedgerView,
    Error,
>
    decreases payments.len(),
{
    if payments.len() == 0 {
        Ok(ledger)
    } else {
        match ledger.transfer_balance(seller, payments[0].bid_owner, payments[0].bid_amount) {
            Ok(paid) => pay_in_order(paid, payments.skip(1), seller),
            Err(e) => Err(e),
        }
    }
}

impl RegistryView {
    /// The registry before any request.
    pub open spec fn empty() -> RegistryView {
        RegistryView {
            next_auction_id: FIRST_AUCTION_ID,
            open_auctions: Seq::empty(),
            mapping: Map::empty(),
            auctions: Map::empty(),
        }
    }

    /// Whether an auction with this id was ever opened.
    pub open spec fn has_auction(self, id: u64) -> bool {
        FIRST_AUCTION_ID <= id < self.next_auction_id
    }

    /// Whether the auction with this id was for the resource and is settled.
    pub open spec fn is_finished_for(self, auction_id: u64, resource: Seq<u8>) -> bool {
        &&& self.has_auction(auction_id)
        &&& self.auctions[auction_id].state == AuctionState::Finished
        &&& self.auctions[auction_id].resource == resource
    }

    /// Whether the resource has an open auction with this id.
    pub open spec fn is_open_for(self, auction_id: u64, resource: Seq<u8>) -> bool {
        self.mapping.contains_key(resource) && self.mapping[resource] == auction_id
    }

    /// What holds of the registry between requests: ids are handed out in
    /// order, the index from resources and the list of open ids name the open
    /// auctions and no others, and at most one auction is open for a resource.
    pub open spec fn valid(self) -> bool {
        &&& self.next_auction_id >= FIRST_AUCTION_ID
        &&& forall|id: u64| #[trigger] self.auctions.contains_key(id) <==> self.has_auction(id)
        &&& forall|id: u64|
            self.has_auction(id) ==> (#[trigger] self.auctions[id]).id == id
                && self.auctions[id].valid()
        &&& forall|r: Seq<u8>| #[trigger]
            self.mapping.contains_key(r) ==> self.has_auction(self.mapping[r])
                && self.auctions[self.mapping[r]].state == AuctionState::Open
                && self.auctions[self.mapping[r]].resource == r
        &&& forall|id: u64|
            self.has_auction(id) && (#[trigger] self.auctions[id]).state == AuctionState::Open
                ==> self.is_open_for(id, self.auctions[id].resource)
        &&& self.open_auctions.no_duplicates()
        &&& forall|id: u64| #[trigger]
            self.open_auctions.contains(id) <==> self.has_auction(id) && self.auctions[id].state
                == AuctionState::Open
    }

    /// Opening: the owner of a resource that is not under auction gets an
    /// auction with the next id. No money moves.
    pub open spec fn open_auction(
        self,
        ledger: LedgerView,
        caller: AccountId,
        resource: Seq<u8>,
        initial_bid: u64,
    ) -> Result<RegistryView, Error> {
        if !ledger.owners.contains_key(resource) {
            Err(Error::ResourceNotPresent)
        } else if ledger.owners[resource] != caller {
            Err(Error::SenderDoesNotOwnResource)
        } else if self.mapping.contains_key(resource) {
            Err(Error::AuctionAlreadyExists)
        } else {
            let id = self.next_auction_id;
            Ok(
                RegistryView {
                    next_auction_id: (id + 1) as u64,
                    open_auctions: self.open_auctions.push(id),
                    mapping: self.mapping.insert(resource, id),
                    auctions: self.auctions.insert(
                        id,
                        AuctionView::opened(id, resource, caller, initial_bid),
                    ),
                },
            )
        }
    }

    /// Bidding: the caller's cumulative amount grows by the increment. It must
    /// exceed the highest bid, and the increment must be paid to the seller
    /// at once.
    pub open spec fn bid_for_resource(
        self,
        ledger: LedgerView,
        caller: AccountId,
        auction_id: u64,
        resource: Seq<u8>,
        increment: u64,
    ) -> Result<(RegistryView, LedgerView), Error> {
        if !self.is_open_for(auction_id, resource) {
            Err(Error::AuctionDoesNotExist)
        } else {
            let auction = self.auctions[auction_id];
            let total = auction.cumulative(caller) + increment;
            if total <= auction.max_bid {
                Err(Error::BidRejected)
            } else {
                match ledger.transfer_balance(caller, auction.seller(), increment) {
                    Err(e) => Err(e),
                    Ok(paid) => Ok(
                        (
                            RegistryView {
                                auctions: self.auctions.insert(
                                    auction_id,
                                    auction.with_bid(caller, total as u64),
                                ),
                                ..self
                            },
                            paid,
                        ),
                    ),
                }
            }
        }
    }

    /// Finishing: the resource's owner closes its open auction. Every bidder
    /// but the winner is paid back by the seller, and the resource goes to
    /// the winner. An auction is settled once: whoever asks for an auction
    /// of the resource that is settled already is told that no such auction
    /// is open.
    pub open spec fn finish_auction(
        self,
        ledger: LedgerView,
        caller: AccountId,
        auction_id: u64,
        resource: Seq<u8>,
    ) -> Result<(RegistryView, LedgerView), Error> {
        if !ledger.owners.contains_key(resource) {
            Err(Error::ResourceNotPresent)
        } else if self.is_finished_for(auction_id, resource) {
            Err(Error::AuctionDoesNotExist)
        } else if ledger.owners[resource] != caller {
            Err(Error::SenderDoesNotOwnResource)
        } else if !self.is_open_for(auction_id, resource) {
            Err(Error::AuctionDoesNotExist)
        } else {
            let auction = self.auctions[auction_id];
            match pay_in_order(ledger, auction.refunds_due(), auction.seller()) {
                Err(e) => Err(e),
                Ok(refunded) => match refunded.transfer_resource(
                    caller,
                    auction.max_bid_owner,
                    resource,
                ) {
                    Err(e) => Err(e),
                    Ok(settled) => Ok(
                        (
                            RegistryView {
                                next_auction_id: self.next_auction_id,
                                open_auctions: without_id(self.open_auctions, auction_id),
                                mapping: self.mapping.remove(resource),
                                auctions: self.auctions.insert(auction_id, auction.finished()),
                            },
                            settled,
                        ),
                    ),
                },
            }
        }
    }
}

} // verus!
