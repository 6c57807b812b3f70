//! What holds of the requests whatever the state: the transitions keep the
//! states valid, money is neither made nor lost after registration, and the
//! refusals that follow from an earlier request.

use vstd::prelude::*;
use crate::auction_model::{AuctionState, AuctionView, BidData, RegistryView, bid_position,
    id_position, pay_in_order, without_id, FIRST_AUCTION_ID};
use crate::basic_token_and_resource::{AccountId, LedgerView, TOTAL_SUPPLY, MAX_REGISTRATIONS};
use crate::error::Error;
use crate::supply::{balance_of, total_held, lemma_total_insert, lemma_total_bounds,
    lemma_total_empty};

verus! {

/// The empty ledger is valid.
pub proof fn law_empty_ledger_valid()
    ensures
        LedgerView::empty().valid(),
{
    lemma_total_empty();
}

/// A registration that succeeds adds exactly one credit to the sum of all
/// balances, and the ledger stays valid while registrations are left.
pub proof fn law_register_adds_one_credit(ledger: LedgerView, caller: AccountId)
    requires
        ledger.valid(),
        ledger.register_account(caller) is Ok,
    ensures
        ({
            let next = ledger.register_account(caller)->Ok_0;
            &&& total_held(next.balances) == total_held(ledger.balances) + TOTAL_SUPPLY
            &&& next.registered == ledger.registered + 1
            &&& ledger.registered < MAX_REGISTRATIONS ==> next.valid()
        }),
{
    lemma_total_insert(ledger.balances, caller, TOTAL_SUPPLY);
}

/// Whatever the first registration of an account did, a second one is refused
/// as already registered. Where the first succeeded, the account holds
/// exactly one credit after both.
pub proof fn law_register_twice(ledger: LedgerView, caller: AccountId)
    ensures
        ({
            let first = ledger.register_account(caller);
            let between = if first is Ok {
                first->Ok_0
            } else {
                ledger
            };
            &&& between.register_account(caller) == Err::<LedgerView, Error>(
                Error::AlreadyRegistered,
            )
            &&& first is Ok ==> between.balance(caller) == TOTAL_SUPPLY
        }),
{
}

/// A transfer that succeeds leaves the sum of all balances as it was, and
/// keeps the ledger valid.
pub proof fn law_transfer_conserves(ledger: LedgerView, from: AccountId, to: AccountId, amount: u64)
    requires
        ledger.valid(),
        ledger.transfer_balance(from, to, amount) is Ok,
    ensures
        ({
            let next = ledger.transfer_balance(from, to, amount)->Ok_0;
            &&& total_held(next.balances) == total_held(ledger.balances)
            &&& next.registered == ledger.registered
            &&& next.owners == ledger.owners
            &&& next.valid()
        }),
{
    let debited = ledger.balances.insert(from, (ledger.balance(from) - amount) as u64);
    lemma_total_insert(ledger.balances, from, (ledger.balance(from) - amount) as u64);
    lemma_total_bounds(debited, to);
    lemma_total_insert(debited, to, (balance_of(debited, to) + amount) as u64);
}

/// A transfer between two different accounts takes the amount from the one
/// and gives it to the other; a transfer to oneself changes no balance. No
/// third account's balance changes.
pub proof fn law_transfer_moves_amount(
    ledger: LedgerView,
    from: AccountId,
    to: AccountId,
    amount: u64,
)
    requires
        ledger.valid(),
        ledger.transfer_balance(from, to, amount) is Ok,
    ensures
        ({
            let next = ledger.transfer_balance(from, to, amount)->Ok_0;
            &&& from != to ==> next.balance(from) == ledger.balance(from) - amount
            &&& from != to ==> next.balance(to) == ledger.balance(to) + amount
            &&& from == to ==> next.balance(from) == ledger.balance(from)
            &&& forall|other: AccountId|
                other != from && other != to ==> next.balance(other) == ledger.balance(other)
        }),
{
    let debited = ledger.balances.insert(from, (ledger.balance(from) - amount) as u64);
    lemma_total_insert(ledger.balances, from, (ledger.balance(from) - amount) as u64);
    lemma_total_bounds(debited, to);
}

/// Registering or handing over a resource moves no money.
pub proof fn law_resources_move_no_money(
    ledger: LedgerView,
    caller: AccountId,
    to: AccountId,
    resource: Seq<u8>,
)
    ensures
        ledger.register_resource(caller, resource) is Ok ==> ledger.register_resource(
            caller,
            resource,
        )->Ok_0.balances == ledger.balances,
        ledger.transfer_resource(caller, to, resource) is Ok ==> ledger.transfer_resource(
            caller,
            to,
            resource,
        )->Ok_0.balances == ledger.balances,
{
}

/// Paying a list of entries moves money between accounts only: where it
/// succeeds, the sum of all balances, the registrations and the owners are
/// as before, and the ledger stays valid.
pub proof fn law_refund_conserves(ledger: LedgerView, payments: Seq<BidData>, seller: AccountId)
    requires
        ledger.valid(),
        pay_in_order(ledger, payments, seller) is Ok,
    ensures
        ({
            let next = pay_in_order(ledger, payments, seller)->Ok_0;
            &&& total_held(next.balances) == total_held(ledger.balances)
            &&& next.registered == ledger.registered
            &&& next.owners == ledger.owners
            &&& next.valid()
        }),
    decreases payments.len(),
{
    if payments.len() > 0 {
        law_transfer_conserves(ledger, seller, payments[0].bid_owner, payments[0].bid_amount);
        let paid = ledger.transfer_balance(
            seller,
            payments[0].bid_owner,
            payments[0].bid_amount,
        )->Ok_0;
        law_refund_conserves(paid, payments.skip(1), seller);
    }
}

/// The position that `bid_position` gives lies within the list or at its
/// end, holds the bidder where it lies within, and no earlier position does.
pub proof fn lemma_bid_position(bids: Seq<BidData>, bidder: AccountId)
    ensures
        0 <= bid_position(bids, bidder) <= bids.len(),
        bid_position(bids, bidder) < bids.len() ==> bids[bid_position(bids, bidder)].bid_owner
            == bidder,
        forall|j: int| 0 <= j < bid_position(bids, bidder) ==> bids[j].bid_owner != bidder,
    decreases bids.len(),
{
    if bids.len() > 0 && bids[0].bid_owner != bidder {
        let rest = bids.skip(1);
        lemma_bid_position(rest, bidder);
        assert forall|j: int| 0 <= j < bid_position(bids, bidder) implies bids[j].bid_owner
            != bidder by {
            if j > 0 {
                assert(rest[j - 1].bid_owner != bidder);
            }
        }
    }
}

/// A position that holds the bidder, or the end, with no earlier position
/// that holds the bidder, is the one that `bid_position` gives.
pub proof fn lemma_bid_position_is(bids: Seq<BidData>, bidder: AccountId, at: int)
    requires
        0 <= at <= bids.len(),
        at < bids.len() ==> bids[at].bid_owner == bidder,
        forall|j: int| 0 <= j < at ==> bids[j].bid_owner != bidder,
    ensures
        bid_position(bids, bidder) == at,
{
    lemma_bid_position(bids, bidder);
    let p = bid_position(bids, bidder);
    if p < at {
        assert(bids[p].bid_owner != bidder);
    }
}

/// As `lemma_bid_position`, for ids.
pub proof fn lemma_id_position(ids: Seq<u64>, id: u64)
    ensures
        0 <= id_position(ids, id) <= ids.len(),
        id_position(ids, id) < ids.len() ==> ids[id_position(ids, id)] == id,
        forall|j: int| 0 <= j < id_position(ids, id) ==> ids[j] != id,
    decreases ids.len(),
{
    if ids.len() > 0 && ids[0] != id {
        let rest = ids.skip(1);
        lemma_id_position(rest, id);
        assert forall|j: int| 0 <= j < id_position(ids, id) implies ids[j] != id by {
            if j > 0 {
                assert(rest[j - 1] != id);
            }
        }
    }
}

/// As `lemma_bid_position_is`, for ids.
pub proof fn lemma_id_position_is(ids: Seq<u64>, id: u64, at: int)
    requires
        0 <= at <= ids.len(),
        at < ids.len() ==> ids[at] == id,
        forall|j: int| 0 <= j < at ==> ids[j] != id,
    ensures
        id_position(ids, id) == at,
{
    lemma_id_position(ids, id);
    let p = id_position(ids, id);
    if p < at {
        assert(ids[p] != id);
    }
}

/// Taking an id out of a list without duplicates leaves a list without
/// duplicates that holds the other ids and no more.
pub proof fn lemma_without_id(ids: Seq<u64>, id: u64)
    requires
        ids.no_duplicates(),
    ensures
        without_id(ids, id).no_duplicates(),
        forall|other: u64| #[trigger]
            without_id(ids, id).contains(other) <==> ids.contains(other) && other != id,
{
    lemma_id_position(ids, id);
    let at = id_position(ids, id);
    let rest = without_id(ids, id);
    if at < ids.len() {
        assert forall|i: int, j: int|
            0 <= i < rest.len() && 0 <= j < rest.len() && i != j implies rest[i] != rest[j] by {
            let i0 = if i < at { i } else { i + 1 };
            let j0 = if j < at { j } else { j + 1 };
            assert(ids[i0] != ids[j0]);
        }
        assert forall|other: u64| #[trigger]
            rest.contains(other) <==> ids.contains(other) && other != id by {
            if rest.contains(other) {
                let i = choose|i: int| 0 <= i < rest.len() && rest[i] == other;
                let i0 = if i < at { i } else { i + 1 };
                assert(ids[i0] == other);
                assert(ids[i0] != ids[at]);
            }
            if ids.contains(other) && other != id {
                let i = choose|i: int| 0 <= i < ids.len() && ids[i] == other;
                let i1 = if i < at { i } else { i - 1 };
                assert(rest[i1] == other);
            }
        }
    } else {
        assert forall|other: u64| #[trigger]
            rest.contains(other) <==> ids.contains(other) && other != id by {
            if ids.contains(other) {
                let i = choose|i: int| 0 <= i < ids.len() && ids[i] == other;
                assert(ids[i] != id);
            }
        }
    }
}

/// A bid above the highest keeps the record of an open auction valid.
pub proof fn law_bid_keeps_record_valid(auction: AuctionView, bidder: AccountId, total: u64)
    requires
        auction.valid(),
        auction.state == AuctionState::Open,
        total > auction.max_bid,
    ensures
        auction.with_bid(bidder, total).valid(),
        auction.with_bid(bidder, total).cumulative(bidder) == total,
        auction.with_bid(bidder, total).max_bid == total,
        auction.with_bid(bidder, total).max_bid_owner == bidder,
{
    lemma_bid_position(auction.bids, bidder);
    let at = bid_position(auction.bids, bidder);
    let next = auction.with_bid(bidder, total);
    let entry = BidData { bid_owner: bidder, bid_amount: total };
    assert(next.bids[at] == entry);
    assert(next.distinct_bidders()) by {
        assert forall|i: int, j: int| 0 <= i < j < next.bids.len() implies next.bids[i].bid_owner
            != next.bids[j].bid_owner by {
            if at < auction.bids.len() {
                assert(auction.bids[i].bid_owner != auction.bids[j].bid_owner);
            } else if j < auction.bids.len() {
                assert(auction.bids[i].bid_owner != auction.bids[j].bid_owner);
            } else {
                assert(auction.bids[i].bid_owner != bidder);
            }
        }
    }
    assert forall|i: int| 0 <= i < next.bids.len() implies (#[trigger] next.bids[i]).bid_amount
        <= next.max_bid by {
        if i != at {
            assert(auction.bids[i].bid_amount <= auction.max_bid);
        }
    }
    lemma_bid_position_is(next.bids, bidder, at);
}

/// The empty registry is valid, and its first auction will get the first id.
pub proof fn law_empty_registry_valid()
    ensures
        RegistryView::empty().valid(),
        RegistryView::empty().next_auction_id == FIRST_AUCTION_ID,
{
}

/// Opening keeps the registry valid: the new auction gets the next id, the
/// counter moves on by one, the resource's index entry and the list of open
/// ids name the new auction, and every older record is as it was.
pub proof fn law_open_keeps_valid(
    reg: RegistryView,
    ledger: LedgerView,
    caller: AccountId,
    resource: Seq<u8>,
    initial_bid: u64,
)
    requires
        reg.valid(),
        reg.next_auction_id < u64::MAX,
        reg.open_auction(ledger, caller, resource, initial_bid) is Ok,
    ensures
        ({
            let next = reg.open_auction(ledger, caller, resource, initial_bid)->Ok_0;
            &&& next.valid()
            &&& next.next_auction_id == reg.next_auction_id + 1
            &&& next.is_open_for(reg.next_auction_id, resource)
            &&& next.auctions[reg.next_auction_id] == AuctionView::opened(
                reg.next_auction_id,
                resource,
                caller,
                initial_bid,
            )
            &&& forall|id: u64| reg.has_auction(id) ==> next.auctions[id] == reg.auctions[id]
        }),
{
    let next = reg.open_auction(ledger, caller, resource, initial_bid)->Ok_0;
    let id = reg.next_auction_id;
    assert(!reg.auctions.contains_key(id));
    assert forall|other: u64| next.has_auction(other) implies (#[trigger] next.auctions[other]).id
        == other && next.auctions[other].valid() by {
        if other != id {
            assert(reg.has_auction(other));
            assert(reg.auctions[other].valid());
        }
    }
    assert forall|r: Seq<u8>| #[trigger] next.mapping.contains_key(r) implies next.has_auction(
        next.mapping[r],
    ) && next.auctions[next.mapping[r]].state == AuctionState::Open
        && next.auctions[next.mapping[r]].resource == r by {
        if r != resource {
            assert(reg.mapping.contains_key(r));
        }
    }
    assert forall|other: u64|
        next.has_auction(other) && (#[trigger] next.auctions[other]).state
            == AuctionState::Open implies next.is_open_for(other, next.auctions[other].resource) by {
        if other != id {
            assert(reg.has_auction(other));
            assert(reg.auctions[other].state == AuctionState::Open);
            assert(reg.is_open_for(other, reg.auctions[other].resource));
        }
    }
    assert(!reg.open_auctions.contains(id));
    assert(next.open_auctions.no_duplicates()) by {
        assert forall|i: int, j: int|
            0 <= i < next.open_auctions.len() && 0 <= j < next.open_auctions.len() && i
                != j implies next.open_auctions[i] != next.open_auctions[j] by {
            if i < reg.open_auctions.len() && j < reg.open_auctions.len() {
                assert(reg.open_auctions[i] != reg.open_auctions[j]);
            } else if i < reg.open_auctions.len() {
                assert(reg.open_auctions.contains(reg.open_auctions[i]));
            } else {
                assert(reg.open_auctions.contains(reg.open_auctions[j]));
            }
        }
    }
    assert forall|other: u64| #[trigger]
        next.open_auctions.contains(other) <==> next.has_auction(other)
            && next.auctions[other].state == AuctionState::Open by {
        if next.open_auctions.contains(other) {
            let i = choose|i: int| 0 <= i < next.open_auctions.len() && next.open_auctions[i] == other;
            if i < reg.open_auctions.len() {
                assert(reg.open_auctions.contains(other));
            }
        }
        if next.has_auction(other) && next.auctions[other].state == AuctionState::Open {
            if other == id {
                assert(next.open_auctions[reg.open_auctions.len() as int] == other);
            } else {
                assert(reg.open_auctions.contains(other));
                let i = choose|i: int| 0 <= i < reg.open_auctions.len() && reg.open_auctions[i] == other;
                assert(next.open_auctions[i] == other);
            }
        }
    }
}

/// While a resource's auction is open, its owner cannot open a second one.
pub proof fn law_second_open_refused(
    reg: RegistryView,
    ledger: LedgerView,
    caller: AccountId,
    resource: Seq<u8>,
    first_bid: u64,
    second_bid: u64,
)
    requires
        reg.open_auction(ledger, caller, resource, first_bid) is Ok,
    ensures
        reg.open_auction(ledger, caller, resource, first_bid)->Ok_0.open_auction(
            ledger,
            caller,
            resource,
            second_bid,
        ) == Err::<RegistryView, Error>(Error::AuctionAlreadyExists),
{
}

/// Ids come in order and without gaps: of two auctions opened one after the
/// other, the second has the id that follows the first's.
pub proof fn law_ids_consecutive(
    reg: RegistryView,
    ledger: LedgerView,
    caller: AccountId,
    resource: Seq<u8>,
    initial_bid: u64,
    later_ledger: LedgerView,
    later_caller: AccountId,
    later_resource: Seq<u8>,
    later_bid: u64,
)
    requires
        reg.next_auction_id < u64::MAX,
        reg.open_auction(ledger, caller, resource, initial_bid) is Ok,
        reg.open_auction(ledger, caller, resource, initial_bid)->Ok_0.open_auction(
            later_ledger,
            later_caller,
            later_resource,
            later_bid,
        ) is Ok,
    ensures
        ({
            let first = reg.open_auction(ledger, caller, resource, initial_bid)->Ok_0;
            let second = first.open_auction(
                later_ledger,
                later_caller,
                later_resource,
                later_bid,
            )->Ok_0;
            &&& first.auctions[reg.next_auction_id].id == reg.next_auction_id
            &&& second.auctions[first.next_auction_id].id == reg.next_auction_id + 1
        }),
{
}

/// Bids and settlements hand out no id.
pub proof fn law_only_opening_takes_an_id(
    reg: RegistryView,
    ledger: LedgerView,
    caller: AccountId,
    auction_id: u64,
    resource: Seq<u8>,
    increment: u64,
)
    ensures
        reg.bid_for_resource(ledger, caller, auction_id, resource, increment) is Ok
            ==> reg.bid_for_resource(
            ledger,
            caller,
            auction_id,
            resource,
            increment,
        )->Ok_0.0.next_auction_id == reg.next_auction_id,
        reg.finish_auction(ledger, caller, auction_id, resource) is Ok ==> reg.finish_auction(
            ledger,
            caller,
            auction_id,
            resource,
        )->Ok_0.0.next_auction_id == reg.next_auction_id,
{
}

/// A bid that only reaches the highest bid is rejected.
pub proof fn law_tie_rejected(
    reg: RegistryView,
    ledger: LedgerView,
    caller: AccountId,
    auction_id: u64,
    resource: Seq<u8>,
    increment: u64,
)
    requires
        reg.is_open_for(auction_id, resource),
        reg.auctions[auction_id].cumulative(caller) + increment == reg.auctions[auction_id].max_bid,
    ensures
        reg.bid_for_resource(ledger, caller, auction_id, resource, increment) == Err::<
            (RegistryView, LedgerView),
            Error,
        >(Error::BidRejected),
{
}

/// A bid that exceeds the highest bid by one is accepted where the bidder
/// can pay the increment, and is then the highest bid.
pub proof fn law_one_more_accepted(
    reg: RegistryView,
    ledger: LedgerView,
    caller: AccountId,
    auction_id: u64,
    resource: Seq<u8>,
    increment: u64,
)
    requires
        reg.is_open_for(auction_id, resource),
        reg.auctions[auction_id].cumulative(caller) + increment == reg.auctions[auction_id].max_bid
            + 1,
        reg.auctions[auction_id].max_bid < u64::MAX,
        ledger.balance(caller) >= increment,
    ensures
        ({
            let res = reg.bid_for_resource(ledger, caller, auction_id, resource, increment);
            &&& res is Ok
            &&& res->Ok_0.0.auctions[auction_id].max_bid == reg.auctions[auction_id].max_bid + 1
            &&& res->Ok_0.0.auctions[auction_id].max_bid_owner == caller
        }),
{
}

/// A bid that is accepted keeps the registry and the ledger valid and moves
/// money only from the bidder to the seller.
pub proof fn law_bid_keeps_valid(
    reg: RegistryView,
    ledger: LedgerView,
    caller: AccountId,
    auction_id: u64,
    resource: Seq<u8>,
    increment: u64,
)
    requires
        reg.valid(),
        ledger.valid(),
        reg.is_open_for(auction_id, resource) ==> reg.auctions[auction_id].cumulative(caller)
            + increment <= u64::MAX,
        reg.bid_for_resource(ledger, caller, auction_id, resource, increment) is Ok,
    ensures
        ({
            let next = reg.bid_for_resource(ledger, caller, auction_id, resource, increment)->Ok_0;
            &&& next.0.valid()
            &&& next.1.valid()
            &&& total_held(next.1.balances) == total_held(ledger.balances)
            &&& next.1.registered == ledger.registered
            &&& next.1.owners == ledger.owners
        }),
{
    let next = reg.bid_for_resource(ledger, caller, auction_id, resource, increment)->Ok_0.0;
    let auction = reg.auctions[auction_id];
    let total = (auction.cumulative(caller) + increment) as u64;
    assert(reg.mapping.contains_key(resource));
    assert(reg.has_auction(auction_id));
    assert(auction.valid());
    law_bid_keeps_record_valid(auction, caller, total);
    law_transfer_conserves(ledger, caller, auction.seller(), increment);
    assert forall|other: u64| next.has_auction(other) implies (#[trigger] next.auctions[other]).id
        == other && next.auctions[other].valid() by {
        assert(reg.has_auction(other));
        assert(reg.auctions[other].valid());
    }
    assert forall|r: Seq<u8>| #[trigger] next.mapping.contains_key(r) implies next.has_auction(
        next.mapping[r],
    ) && next.auctions[next.mapping[r]].state == AuctionState::Open
        && next.auctions[next.mapping[r]].resource == r by {
        assert(reg.mapping.contains_key(r));
    }
    assert forall|other: u64|
        next.has_auction(other) && (#[trigger] next.auctions[other]).state
            == AuctionState::Open implies next.is_open_for(other, next.auctions[other].resource) by {
        assert(reg.auctions[other].state == AuctionState::Open);
        assert(reg.is_open_for(other, reg.auctions[other].resource));
    }
    assert forall|other: u64| #[trigger]
        next.open_auctions.contains(other) <==> next.has_auction(other)
            && next.auctions[other].state == AuctionState::Open by {
        assert(reg.open_auctions.contains(other) <==> reg.has_auction(other)
            && reg.auctions[other].state == AuctionState::Open);
    }
}

/// A settlement that succeeds keeps the registry and the ledger valid,
/// leaves the sum of all balances as it was, closes the auction in favour of
/// the highest bidder and makes that bidder the resource's owner.
pub proof fn law_finish_keeps_valid(
    reg: RegistryView,
    ledger: LedgerView,
    caller: AccountId,
    auction_id: u64,
    resource: Seq<u8>,
)
    requires
        reg.valid(),
        ledger.valid(),
        reg.finish_auction(ledger, caller, auction_id, resource) is Ok,
    ensures
        ({
            let next = reg.finish_auction(ledger, caller, auction_id, resource)->Ok_0;
            let winner = reg.auctions[auction_id].max_bid_owner;
            &&& next.0.valid()
            &&& next.1.valid()
            &&& total_held(next.1.balances) == total_held(ledger.balances)
            &&& next.1.registered == ledger.registered
            &&& next.1.owners == ledger.owners.insert(resource, winner)
            &&& next.0.auctions[auction_id].state == AuctionState::Finished
            &&& next.0.auctions[auction_id].final_owner == Some(winner)
            &&& !next.0.mapping.contains_key(resource)
            &&& !next.0.open_auctions.contains(auction_id)
        }),
{
    let next = reg.finish_auction(ledger, caller, auction_id, resource)->Ok_0.0;
    let auction = reg.auctions[auction_id];
    assert(reg.mapping.contains_key(resource));
    assert(reg.has_auction(auction_id));
    assert(auction.valid());
    law_refund_conserves(ledger, auction.refunds_due(), auction.seller());
    lemma_without_id(reg.open_auctions, auction_id);
    assert forall|other: u64| next.has_auction(other) implies (#[trigger] next.auctions[other]).id
        == other && next.auctions[other].valid() by {
        assert(reg.has_auction(other));
        assert(reg.auctions[other].valid());
    }
    assert forall|r: Seq<u8>| #[trigger] next.mapping.contains_key(r) implies next.has_auction(
        next.mapping[r],
    ) && next.auctions[next.mapping[r]].state == AuctionState::Open
        && next.auctions[next.mapping[r]].resource == r by {
        assert(reg.mapping.contains_key(r));
    }
    assert forall|other: u64|
        next.has_auction(other) && (#[trigger] next.auctions[other]).state
            == AuctionState::Open implies next.is_open_for(other, next.auctions[other].resource) by {
        assert(other != auction_id);
        assert(reg.auctions[other].state == AuctionState::Open);
        assert(reg.is_open_for(other, reg.auctions[other].resource));
    }
    assert forall|other: u64| #[trigger]
        next.open_auctions.contains(other) <==> next.has_auction(other)
            && next.auctions[other].state == AuctionState::Open by {
        assert(reg.open_auctions.contains(other) <==> reg.has_auction(other)
            && reg.auctions[other].state == AuctionState::Open);
    }
}

/// An auction is settled once. After a settlement, a second one for the same
/// id and resource is refused, whoever asks, because no such auction is open.
pub proof fn law_second_finish_refused(
    reg: RegistryView,
    ledger: LedgerView,
    caller: AccountId,
    auction_id: u64,
    resource: Seq<u8>,
    later_caller: AccountId,
)
    requires
        reg.valid(),
        reg.finish_auction(ledger, caller, auction_id, resource) is Ok,
    ensures
        ({
            let first = reg.finish_auction(ledger, caller, auction_id, resource)->Ok_0;
            &&& first.1.owners.contains_key(resource)
            &&& first.0.finish_auction(first.1, later_caller, auction_id, resource) == Err::<
                (RegistryView, LedgerView),
                Error,
            >(Error::AuctionDoesNotExist)
        }),
{
    assert(reg.mapping.contains_key(resource));
    assert(reg.has_auction(auction_id));
}

/// Once an auction of a resource is settled, no bid for it is taken and no
/// settlement of it succeeds, whatever has happened since.
pub proof fn law_finished_stays_finished(
    reg: RegistryView,
    ledger: LedgerView,
    caller: AccountId,
    auction_id: u64,
    resource: Seq<u8>,
    increment: u64,
)
    requires
        reg.valid(),
        reg.is_finished_for(auction_id, resource),
    ensures
        reg.finish_auction(ledger, caller, auction_id, resource) is Err,
        reg.bid_for_resource(ledger, caller, auction_id, resource, increment) == Err::<
            (RegistryView, LedgerView),
            Error,
        >(Error::AuctionDoesNotExist),
        ledger.owners.contains_key(resource) ==> reg.finish_auction(
            ledger,
            caller,
            auction_id,
            resource,
        ) == Err::<(RegistryView, LedgerView), Error>(Error::AuctionDoesNotExist),
{
    if reg.mapping.contains_key(resource) {
        assert(reg.auctions[reg.mapping[resource]].state == AuctionState::Open);
    }
}

} // verus!
