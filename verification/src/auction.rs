//! The auction registry as data, and the three requests that change it.
//!
//! Each request is proved to do what the function of the same name on
//! [`RegistryView`] says, and to leave the registry and the ledger untouched
//! where that function refuses.
//!
//! Four decisions shape the settlement. Every bidder but the winner is paid
//! back, not only the first one in the list. The refunds come out of the
//! balance of the account that opened the auction, which received the bids.
//! A bid whose increment cannot be paid, and a settlement in which a refund
//! or the handing over of the resource fails, are refused as a whole. And an
//! auction is settled once: a request to settle an auction of the resource
//! that is settled already is answered with `AuctionDoesNotExist`, whoever
//! makes it.

use vstd::prelude::*;
pub use crate::auction_model::{AuctionState, BidData};
use crate::auction_model::{AuctionView, RegistryView, bid_position, is_loser, pay_in_order,
    FIRST_AUCTION_ID};
use crate::basic_token_and_resource::{AccountId, LedgerView};
use crate::bytes::{bytes_copy, bytes_eq, copy_of};
use crate::error::Error;
use crate::laws::{lemma_bid_position_is, lemma_id_position_is, law_open_keeps_valid,
    law_bid_keeps_valid, law_finish_keeps_valid};
use crate::resource_map::ResourceMap;

verus! {

/// One auction's record.
#[derive(Debug)]
pub struct AuctionData {
    /// The auction's id.
    pub id: u64,
    /// The resource that is sold.
    pub resource_hash: Vec<u8>,
    /// Open or finished.
    pub state: AuctionState,
    /// Who opened the auction and receives the bids.
    pub initial_owner: Option<AccountId>,
    /// Who won, once the auction is finished.
    pub final_owner: Option<AccountId>,
    /// Who holds the highest bid; the opener before any bid.
    pub max_bid_owner: AccountId,
    /// The highest cumulative bid; the floor before any bid.
    pub max_bid: u64,
    /// Each bidder's cumulative amount, in the order of their first bids.
    pub bid_list: Vec<BidData>,
}

impl View for AuctionData {
    type V = AuctionView;

    open spec fn view(&self) -> AuctionView {
        AuctionView {
            id: self.id,
            resource: self.resource_hash@,
            state: self.state,
            initial_owner: self.initial_owner,
            final_owner: self.final_owner,
            max_bid_owner: self.max_bid_owner,
            max_bid: self.max_bid,
            bids: self.bid_list@,
        }
    }
}

impl AuctionData {
    /// A copy of the record.
    pub fn duplicate(&self) -> (copy: AuctionData)
        ensures
            copy@ == self@,
    {
        let bid_list = copy_of(&self.bid_list);
        AuctionData {
            id: self.id,
            resource_hash: bytes_copy(&self.resource_hash),
            state: self.state,
            initial_owner: self.initial_owner,
            final_owner: self.final_owner,
            max_bid_owner: self.max_bid_owner,
            max_bid: self.max_bid,
            bid_list,
        }
    }

    /// The account that receives the bids.
    pub fn seller(&self) -> (account: AccountId)
        ensures
            account == self@.seller(),
    {
        match self.initial_owner {
            Some(owner) => owner,
            None => self.max_bid_owner,
        }
    }

    /// The position of the bidder's entry, or the length of the list where
    /// the bidder has none.
    pub fn bid_index(&self, bidder: AccountId) -> (at: usize)
        ensures
            at == bid_position(self@.bids, bidder),
    {
        let mut i: usize = 0;
        while i < self.bid_list.len()
            invariant
                i <= self.bid_list@.len(),
                forall|j: int| 0 <= j < i ==> self.bid_list@[j].bid_owner != bidder,
            decreases self.bid_list.len() - i,
        {
            if self.bid_list[i].bid_owner == bidder {
                proof {
                    lemma_bid_position_is(self@.bids, bidder, i as int);
                }
                return i;
            }
            i += 1;
        }
        proof {
            lemma_bid_position_is(self@.bids, bidder, i as int);
        }
        i
    }

    /// What the bidder has bid so far; nothing before their first bid.
    pub fn cumulative_bid(&self, bidder: AccountId) -> (amount: u64)
        ensures
            amount == self@.cumulative(bidder),
    {
        let at = self.bid_index(bidder);
        if at < self.bid_list.len() {
            self.bid_list[at].bid_amount
        } else {
            0
        }
    }

    /// The entries of the bidders who do not hold the highest bid, in the
    /// order of the list: the payments that a settlement of this auction
    /// makes, each from the seller to the entry's bidder.
    pub fn refunds_due(&self) -> (due: Vec<BidData>)
        ensures
            due@ == self@.refunds_due(),
    {
        let ghost loser = is_loser(self.max_bid_owner);
        let mut due: Vec<BidData> = Vec::new();
        let mut i: usize = 0;
        proof {
            reveal(Seq::filter);
            assert(self.bid_list@.take(0).filter(loser) =~= Seq::empty());
        }
        while i < self.bid_list.len()
            invariant
                i <= self.bid_list@.len(),
                loser == is_loser(self.max_bid_owner),
                due@ == self.bid_list@.take(i as int).filter(loser),
            decreases self.bid_list.len() - i,
        {
            let bid = self.bid_list[i];
            proof {
                reveal(Seq::filter);
                let seen = self.bid_list@.take(i + 1);
                assert(seen.drop_last() =~= self.bid_list@.take(i as int));
                assert(seen.last() == bid);
            }
            if bid.bid_owner != self.max_bid_owner {
                due.push(bid);
            }
            i += 1;
        }
        assert(self.bid_list@.take(self.bid_list@.len() as int) =~= self.bid_list@);
        due
    }

    /// Records that the bidder's cumulative amount is now `total`, the highest.
    fn place_bid(&mut self, bidder: AccountId, total: u64)
        ensures
            final(self)@ == old(self)@.with_bid(bidder, total),
    {
        let at = self.bid_index(bidder);
        let entry = BidData { bid_owner: bidder, bid_amount: total };
        self.max_bid_owner = bidder;
        self.max_bid = total;
        if at < self.bid_list.len() {
            self.bid_list[at] = entry;
        } else {
            self.bid_list.push(entry);
        }
    }
}

impl Default for AuctionData {
    /// An open record without resource, owners or bids.
    fn default() -> (record: AuctionData)
        ensures
            record@ == (AuctionView {
                id: 0,
                resource: Seq::empty(),
                state: AuctionState::Open,
                initial_owner: None,
                final_owner: None,
                max_bid_owner: 0,
                max_bid: 0,
                bids: Seq::empty(),
            }),
    {
        AuctionData {
            id: 0,
            resource_hash: Vec::new(),
            state: AuctionState::Open,
            initial_owner: None,
            final_owner: None,
            max_bid_owner: 0,
            max_bid: 0,
            bid_list: Vec::new(),
        }
    }
}

/// A request to the registry was answered as the model says: on success the
/// registry and the ledger are the next ones, on refusal the error is the
/// model's and both are unchanged.
pub open spec fn settled(
    expected: Result<(RegistryView, LedgerView), Error>,
    registry_before: RegistryView,
    ledger_before: LedgerView,
    registry_after: RegistryView,
    ledger_after: LedgerView,
    res: Result<(), Error>,
) -> bool {
    match expected {
        Ok(next) => res is Ok && registry_after == next.0 && ledger_after == next.1,
        Err(e) => res == Err::<(), Error>(e) && registry_after == registry_before && ledger_after
            == ledger_before,
    }
}

/// Makes the payments in the order of the list, each from the seller to the
/// entry's bidder, until one fails. On failure the ledger handed in is left
/// part-way: it is the caller's working copy.
fn pay(
    work: &mut crate::basic_token_and_resource::Module,
    payments: &Vec<BidData>,
    seller: AccountId,
) -> (res: Result<(), Error>)
    requires
        old(work).inv(),
    ensures
        final(work).inv(),
        match pay_in_order(old(work)@, payments@, seller) {
            Ok(next) => res is Ok && final(work)@ == next,
            Err(e) => res == Err::<(), Error>(e),
        },
{
    let mut i: usize = 0;
    assert(payments@.skip(0) =~= payments@);
    while i < payments.len()
        invariant
            work.inv(),
            i <= payments@.len(),
            pay_in_order(work@, payments@.skip(i as int), seller) == pay_in_order(
                old(work)@,
                payments@,
                seller,
            ),
        decreases payments.len() - i,
    {
        let payment = payments[i];
        proof {
            assert(payments@.skip(i as int).skip(1) =~= payments@.skip(i + 1));
            assert(payments@.skip(i as int)[0] == payment);
        }
        match work.transfer_balance(seller, payment.bid_owner, payment.bid_amount) {
            Err(e) => {
                return Err(e);
            },
            Ok(()) => {},
        }
        i += 1;
    }
    Ok(())
}

/// The auction registry.
pub struct Module {
    open_auctions: Vec<u64>,
    mapping: ResourceMap,
    auctions: Vec<AuctionData>,
    next_auction_id: u64,
}

impl View for Module {
    type V = RegistryView;

    closed spec fn view(&self) -> RegistryView {
        RegistryView {
            next_auction_id: self.next_auction_id,
            open_auctions: self.open_auctions@,
            mapping: self.mapping@,
            auctions: Map::new(
                |id: u64| FIRST_AUCTION_ID <= id < FIRST_AUCTION_ID + self.auctions@.len(),
                |id: u64| self.auctions@[id - FIRST_AUCTION_ID]@,
            ),
        }
    }
}

impl Module {
    /// The records are kept in the order of their ids, and the index has one
    /// entry per resource.
    closed spec fn well_kept(&self) -> bool {
        &&& self.mapping.inv()
        &&& self.next_auction_id == FIRST_AUCTION_ID + self.auctions@.len()
    }

    /// The registry's invariant: it is kept in order, and its view is valid.
    pub closed spec fn inv(&self) -> bool {
        &&& self.well_kept()
        &&& self@.valid()
    }

    /// The invariant gives the validity of the view.
    pub proof fn lemma_inv_valid(&self)
        requires
            self.inv(),
        ensures
            self@.valid(),
    {
    }

    /// An empty registry.
    pub fn new() -> (registry: Module)
        ensures
            registry.inv(),
            registry@ == RegistryView::empty(),
    {
        let registry = Module {
            open_auctions: Vec::new(),
            mapping: ResourceMap::new(),
            auctions: Vec::new(),
            next_auction_id: FIRST_AUCTION_ID,
        };
        assert(registry@.auctions =~= Map::empty());
        registry
    }

    /// Where the record with this id is kept.
    fn slot(&self, auction_id: u64) -> (at: usize)
        requires
            self.well_kept(),
            self@.has_auction(auction_id),
        ensures
            at == auction_id - FIRST_AUCTION_ID,
            at < self.auctions@.len(),
            self@.auctions[auction_id] == self.auctions@[at as int]@,
    {
        let count = self.auctions.len();
        assert(auction_id - FIRST_AUCTION_ID < count);
        (auction_id - FIRST_AUCTION_ID) as usize
    }

    /// The id that the next auction gets.
    pub fn next_auction_id(&self) -> (id: u64)
        ensures
            id == self@.next_auction_id,
    {
        self.next_auction_id
    }

    /// The ids of the open auctions, in the order in which they were opened.
    pub fn get_open_auctions(&self) -> (ids: Vec<u64>)
        ensures
            ids@ == self@.open_auctions,
    {
        copy_of(&self.open_auctions)
    }

    /// The id of the resource's open auction, if it has one.
    pub fn get_mapping(&self, resource_hash: &Vec<u8>) -> (id: Option<u64>)
        requires
            self.inv(),
        ensures
            id == (if self@.mapping.contains_key(resource_hash@) {
                Some(self@.mapping[resource_hash@])
            } else {
                None
            }),
    {
        self.mapping.get(resource_hash)
    }

    /// A copy of the record with this id, if an auction with it was opened.
    pub fn get_auction_data(&self, auction_id: u64) -> (record: Option<AuctionData>)
        requires
            self.inv(),
        ensures
            match record {
                Some(data) => self@.has_auction(auction_id) && data@ == self@.auctions[auction_id],
                None => !self@.has_auction(auction_id),
            },
    {
        if auction_id < FIRST_AUCTION_ID || auction_id >= self.next_auction_id {
            return None;
        }
        let at = self.slot(auction_id);
        Some(self.auctions[at].duplicate())
    }

    /// What the bidder has bid so far in the auction with this id; nothing
    /// where there is no such auction.
    pub fn cumulative_bid(&self, auction_id: u64, bidder: AccountId) -> (amount: u64)
        requires
            self.inv(),
        ensures
            amount == (if self@.has_auction(auction_id) {
                self@.auctions[auction_id].cumulative(bidder)
            } else {
                0
            }),
    {
        if auction_id < FIRST_AUCTION_ID || auction_id >= self.next_auction_id {
            return 0;
        }
        let at = self.slot(auction_id);
        self.auctions[at].cumulative_bid(bidder)
    }

    /// Whether the auction with this id was for the resource and is settled.
    pub fn settled_already(&self, auction_id: u64, resource_hash: &Vec<u8>) -> (settled: bool)
        requires
            self.inv(),
        ensures
            settled == self@.is_finished_for(auction_id, resource_hash@),
    {
        if auction_id < FIRST_AUCTION_ID || auction_id >= self.next_auction_id {
            return false;
        }
        let at = self.slot(auction_id);
        match self.auctions[at].state {
            AuctionState::Open => false,
            AuctionState::Finished => bytes_eq(&self.auctions[at].resource_hash, resource_hash),
        }
    }

    /// Opens an auction for a resource of the caller's that has none open,
    /// and returns its id. No money moves: the initial bid is a floor.
    pub fn open_auction(
        &mut self,
        ledger: &crate::basic_token_and_resource::Module,
        caller: AccountId,
        resource_hash: Vec<u8>,
        initial_bid: u64,
    ) -> (res: Result<u64, Error>)
        requires
            old(self).inv(),
            ledger.inv(),
            old(self)@.next_auction_id < u64::MAX,
        ensures
            final(self).inv(),
            match old(self)@.open_auction(ledger@, caller, resource_hash@, initial_bid) {
                Ok(next) => res == Ok::<u64, Error>(old(self)@.next_auction_id) && final(self)@
                    == next,
                Err(e) => res == Err::<u64, Error>(e) && final(self)@ == old(self)@,
            },
    {
        match ledger.get_resource_ownership(&resource_hash) {
            None => {
                return Err(Error::ResourceNotPresent);
            },
            Some(owner) => {
                if owner != caller {
                    return Err(Error::SenderDoesNotOwnResource);
                }
            },
        }
        if self.mapping.contains_key(&resource_hash) {
            return Err(Error::AuctionAlreadyExists);
        }
        let auction_id = self.next_auction_id;
        proof {
            law_open_keeps_valid(self@, ledger@, caller, resource_hash@, initial_bid);
        }
        self.mapping.insert(bytes_copy(&resource_hash), auction_id);
        self.open_auctions.push(auction_id);
        self.next_auction_id = auction_id + 1;
        self.auctions.push(
            AuctionData {
                id: auction_id,
                resource_hash,
                state: AuctionState::Open,
                initial_owner: Some(caller),
                final_owner: None,
                max_bid_owner: caller,
                max_bid: initial_bid,
                bid_list: Vec::new(),
            },
        );
        proof {
            let expected = old(self)@.open_auction(ledger@, caller, resource_hash@, initial_bid)->Ok_0;
            assert(self@.auctions =~= expected.auctions);
        }
        Ok(auction_id)
    }

    /// Adds the increment to what the caller has bid in the resource's open
    /// auction. The new total must exceed the highest bid, and the increment
    /// is paid to the seller at once.
    pub fn bid_for_resource(
        &mut self,
        ledger: &mut crate::basic_token_and_resource::Module,
        caller: AccountId,
        auction_id: u64,
        resource_hash: Vec<u8>,
        bid: u64,
    ) -> (res: Result<(), Error>)
        requires
            old(self).inv(),
            old(ledger).inv(),
            old(self)@.is_open_for(auction_id, resource_hash@) ==> old(
                self,
            )@.auctions[auction_id].cumulative(caller) + bid <= u64::MAX,
        ensures
            final(self).inv(),
            final(ledger).inv(),
            settled(
                old(self)@.bid_for_resource(old(ledger)@, caller, auction_id, resource_hash@, bid),
                old(self)@,
                old(ledger)@,
                final(self)@,
                final(ledger)@,
                res,
            ),
    {
        match self.mapping.get(&resource_hash) {
            None => {
                return Err(Error::AuctionDoesNotExist);
            },
            Some(stored) => {
                if stored != auction_id {
                    return Err(Error::AuctionDoesNotExist);
                }
            },
        }
        assert(self@.mapping.contains_key(resource_hash@));
        assert(self@.has_auction(auction_id));
        let at = self.slot(auction_id);
        let previous = self.auctions[at].cumulative_bid(caller);
        let total = previous + bid;
        if total <= self.auctions[at].max_bid {
            return Err(Error::BidRejected);
        }
        let seller = self.auctions[at].seller();
        proof {
            ledger.lemma_inv_valid();
            if old(self)@.bid_for_resource(old(ledger)@, caller, auction_id, resource_hash@, bid) is Ok {
                law_bid_keeps_valid(self@, ledger@, caller, auction_id, resource_hash@, bid);
            }
        }
        match ledger.transfer_balance(caller, seller, bid) {
            Err(e) => {
                return Err(e);
            },
            Ok(()) => {},
        }
        self.auctions[at].place_bid(caller, total);
        proof {
            let expected = old(self)@.bid_for_resource(
                old(ledger)@,
                caller,
                auction_id,
                resource_hash@,
                bid,
            )->Ok_0;
            assert(self@.auctions =~= expected.0.auctions);
        }
        Ok(())
    }

    /// Closes the resource's open auction at its owner's request: every
    /// bidder but the winner is paid back by the seller, and the resource
    /// goes to the winner. Where a payment or the handing over fails, nothing
    /// is changed. Whoever asks for an auction of the resource that is
    /// settled already is told that no such auction is open.
    pub fn finish_auction(
        &mut self,
        ledger: &mut crate::basic_token_and_resource::Module,
        caller: AccountId,
        auction_id: u64,
        resource_hash: Vec<u8>,
    ) -> (res: Result<(), Error>)
        requires
            old(self).inv(),
            old(ledger).inv(),
        ensures
            final(self).inv(),
            final(ledger).inv(),
            settled(
                old(self)@.finish_auction(old(ledger)@, caller, auction_id, resource_hash@),
                old(self)@,
                old(ledger)@,
                final(self)@,
                final(ledger)@,
                res,
            ),
    {
        let owner = match ledger.get_resource_ownership(&resource_hash) {
            None => {
                return Err(Error::ResourceNotPresent);
            },
            Some(owner) => owner,
        };
        if self.settled_already(auction_id, &resource_hash) {
            return Err(Error::AuctionDoesNotExist);
        }
        if owner != caller {
            return Err(Error::SenderDoesNotOwnResource);
        }
        match self.mapping.get(&resource_hash) {
            None => {
                return Err(Error::AuctionDoesNotExist);
            },
            Some(stored) => {
                if stored != auction_id {
                    return Err(Error::AuctionDoesNotExist);
                }
            },
        }
        assert(self@.mapping.contains_key(resource_hash@));
        assert(self@.has_auction(auction_id));
        let at = self.slot(auction_id);
        let winner = self.auctions[at].max_bid_owner;
        let seller = self.auctions[at].seller();
        let due = self.auctions[at].refunds_due();
        let mut work = ledger.duplicate();
        match pay(&mut work, &due, seller) {
            Err(e) => {
                return Err(e);
            },
            Ok(()) => {},
        }
        match work.transfer_resource(caller, winner, bytes_copy(&resource_hash)) {
            Err(e) => {
                return Err(e);
            },
            Ok(()) => {},
        }
        proof {
            ledger.lemma_inv_valid();
            law_finish_keeps_valid(self@, ledger@, caller, auction_id, resource_hash@);
        }
        *ledger = work;
        self.auctions[at].state = AuctionState::Finished;
        self.auctions[at].final_owner = Some(winner);
        self.mapping.remove(&resource_hash);
        let mut i: usize = 0;
        while i < self.open_auctions.len() && self.open_auctions[i] != auction_id
            invariant
                i <= self.open_auctions@.len(),
                forall|j: int| 0 <= j < i ==> self.open_auctions@[j] != auction_id,
            decreases self.open_auctions.len() - i,
        {
            i += 1;
        }
        proof {
            lemma_id_position_is(self.open_auctions@, auction_id, i as int);
        }
        if i < self.open_auctions.len() {
            let _gone = self.open_auctions.remove(i);
        }
        proof {
            let expected = old(self)@.finish_auction(
                old(ledger)@,
                caller,
                auction_id,
                resource_hash@,
            )->Ok_0;
            assert(self@.auctions =~= expected.0.auctions);
        }
        Ok(())
    }
}

} // verus!
