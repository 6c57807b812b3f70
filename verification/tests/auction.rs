use resource_auction::auction::{AuctionData, AuctionState, BidData, Module};
use resource_auction::basic_token_and_resource::Module as Ledger;
use resource_auction::error::Error;

const ALICE: u64 = 1;
const BOB: u64 = 2;
const CAROL: u64 = 3;
const DAVE: u64 = 4;

fn house() -> Vec<u8> {
    vec![0xde, 0xad, 0xbe, 0xef]
}

fn ledger_with(accounts: &[u64]) -> Ledger {
    let mut ledger = Ledger::new();
    for account in accounts {
        assert_eq!(ledger.register_account(*account), Ok(()));
    }
    ledger
}

fn open_house(ledger: &mut Ledger, registry: &mut Module, floor: u64) -> u64 {
    assert_eq!(ledger.register_resource(ALICE, house()), Ok(()));
    let id = registry.open_auction(ledger, ALICE, house(), floor);
    assert!(matches!(id, Ok(_)));
    id.unwrap_or(0)
}

#[test]
fn auction_state_starts_open() {
    assert_eq!(AuctionState::default(), AuctionState::Open);
    assert_ne!(AuctionState::Open, AuctionState::Finished);
}

#[test]
fn default_record_is_empty_and_open() {
    let record = AuctionData::default();
    assert_eq!(record.id, 0);
    assert!(record.resource_hash.is_empty());
    assert_eq!(record.state, AuctionState::Open);
    assert_eq!(record.initial_owner, None);
    assert_eq!(record.final_owner, None);
    assert_eq!(record.max_bid_owner, 0);
    assert_eq!(record.max_bid, 0);
    assert!(record.bid_list.is_empty());
    assert_eq!(record.seller(), 0);
    assert_eq!(record.cumulative_bid(5), 0);
    assert_eq!(record.bid_index(5), 0);
}

#[test]
fn new_registry_is_empty() {
    let registry = Module::new();
    assert_eq!(registry.next_auction_id(), 10);
    assert!(registry.get_open_auctions().is_empty());
    assert_eq!(registry.get_mapping(&house()), None);
    assert!(registry.get_auction_data(10).is_none());
    assert!(registry.get_auction_data(0).is_none());
    assert_eq!(registry.cumulative_bid(10, BOB), 0);
}

#[test]
fn open_auction_creates_the_record() {
    let mut ledger = ledger_with(&[ALICE]);
    let mut registry = Module::new();
    assert_eq!(ledger.register_resource(ALICE, house()), Ok(()));
    assert_eq!(registry.open_auction(&ledger, ALICE, house(), 100), Ok(10));
    assert_eq!(registry.next_auction_id(), 11);
    assert_eq!(registry.get_open_auctions(), vec![10]);
    assert_eq!(registry.get_mapping(&house()), Some(10));
    let record = registry.get_auction_data(10);
    assert!(record.is_some());
    if let Some(record) = record {
        assert_eq!(record.id, 10);
        assert_eq!(record.resource_hash, house());
        assert_eq!(record.state, AuctionState::Open);
        assert_eq!(record.initial_owner, Some(ALICE));
        assert_eq!(record.final_owner, None);
        assert_eq!(record.max_bid_owner, ALICE);
        assert_eq!(record.max_bid, 100);
        assert!(record.bid_list.is_empty());
        assert_eq!(record.seller(), ALICE);
    }
    assert_eq!(ledger.get_balance(ALICE), 21_000_000);
}

#[test]
fn open_auction_refusals_in_order() {
    let mut ledger = ledger_with(&[ALICE, BOB]);
    let mut registry = Module::new();
    assert_eq!(
        registry.open_auction(&ledger, ALICE, house(), 100),
        Err(Error::ResourceNotPresent)
    );
    assert_eq!(ledger.register_resource(ALICE, house()), Ok(()));
    assert_eq!(
        registry.open_auction(&ledger, BOB, house(), 100),
        Err(Error::SenderDoesNotOwnResource)
    );
    assert_eq!(registry.next_auction_id(), 10);
    assert!(registry.get_open_auctions().is_empty());
    assert_eq!(registry.get_mapping(&house()), None);
}

#[test]
fn second_open_for_the_same_resource_is_refused() {
    let mut ledger = ledger_with(&[ALICE]);
    let mut registry = Module::new();
    let id = open_house(&mut ledger, &mut registry, 100);
    assert_eq!(
        registry.open_auction(&ledger, ALICE, house(), 5),
        Err(Error::AuctionAlreadyExists)
    );
    assert_eq!(registry.next_auction_id(), 11);
    assert_eq!(registry.get_open_auctions(), vec![id]);
    let record = registry.get_auction_data(id);
    assert!(record.is_some());
    if let Some(record) = record {
        assert_eq!(record.max_bid, 100);
        assert_eq!(record.max_bid_owner, ALICE);
        assert_eq!(record.state, AuctionState::Open);
        assert!(record.bid_list.is_empty());
    }
}

#[test]
fn auction_ids_start_at_ten_and_follow_each_other() {
    let mut ledger = ledger_with(&[ALICE, BOB]);
    let mut registry = Module::new();
    for n in 0..6u8 {
        let owner = if n % 2 == 0 { ALICE } else { BOB };
        assert_eq!(ledger.register_resource(owner, vec![n]), Ok(()));
        assert_eq!(registry.open_auction(&ledger, owner, vec![n], 1), Ok(10 + n as u64));
    }
    assert_eq!(registry.next_auction_id(), 16);
    assert_eq!(registry.get_open_auctions(), vec![10, 11, 12, 13, 14, 15]);
    assert_eq!(registry.get_mapping(&vec![3]), Some(13));
}

#[test]
fn refused_requests_take_no_id() {
    let mut ledger = ledger_with(&[ALICE, BOB]);
    let mut registry = Module::new();
    let first = open_house(&mut ledger, &mut registry, 100);
    assert_eq!(first, 10);
    assert_eq!(
        registry.open_auction(&ledger, ALICE, house(), 1),
        Err(Error::AuctionAlreadyExists)
    );
    assert_eq!(registry.bid_for_resource(&mut ledger, BOB, first, house(), 500), Ok(()));
    assert_eq!(ledger.register_resource(BOB, vec![1]), Ok(()));
    assert_eq!(registry.open_auction(&ledger, BOB, vec![1], 1), Ok(11));
}

#[test]
fn bid_out_of_nowhere_is_refused() {
    let mut ledger = ledger_with(&[ALICE, BOB]);
    let mut registry = Module::new();
    assert_eq!(
        registry.bid_for_resource(&mut ledger, BOB, 10, house(), 500),
        Err(Error::AuctionDoesNotExist)
    );
    let id = open_house(&mut ledger, &mut registry, 100);
    assert_eq!(
        registry.bid_for_resource(&mut ledger, BOB, id + 1, house(), 500),
        Err(Error::AuctionDoesNotExist)
    );
    assert_eq!(
        registry.bid_for_resource(&mut ledger, BOB, id, vec![1], 500),
        Err(Error::AuctionDoesNotExist)
    );
    assert_eq!(ledger.get_balance(BOB), 21_000_000);
    assert_eq!(registry.cumulative_bid(id, BOB), 0);
}

#[test]
fn bid_equal_to_the_highest_is_rejected() {
    let mut ledger = ledger_with(&[ALICE, BOB]);
    let mut registry = Module::new();
    let id = open_house(&mut ledger, &mut registry, 100);
    assert_eq!(
        registry.bid_for_resource(&mut ledger, BOB, id, house(), 100),
        Err(Error::BidRejected)
    );
    assert_eq!(
        registry.bid_for_resource(&mut ledger, BOB, id, house(), 99),
        Err(Error::BidRejected)
    );
    assert_eq!(
        registry.bid_for_resource(&mut ledger, BOB, id, house(), 0),
        Err(Error::BidRejected)
    );
    assert_eq!(ledger.get_balance(BOB), 21_000_000);
    assert_eq!(ledger.get_balance(ALICE), 21_000_000);
    let record = registry.get_auction_data(id);
    assert!(record.is_some());
    if let Some(record) = record {
        assert_eq!(record.max_bid, 100);
        assert_eq!(record.max_bid_owner, ALICE);
        assert!(record.bid_list.is_empty());
    }
}

#[test]
fn bid_one_above_the_highest_is_accepted() {
    let mut ledger = ledger_with(&[ALICE, BOB]);
    let mut registry = Module::new();
    let id = open_house(&mut ledger, &mut registry, 100);
    assert_eq!(registry.bid_for_resource(&mut ledger, BOB, id, house(), 101), Ok(()));
    let record = registry.get_auction_data(id);
    assert!(record.is_some());
    if let Some(record) = record {
        assert_eq!(record.max_bid, 101);
        assert_eq!(record.max_bid_owner, BOB);
        assert_eq!(record.bid_list, vec![BidData { bid_owner: BOB, bid_amount: 101 }]);
        assert_eq!(record.state, AuctionState::Open);
        assert_eq!(record.final_owner, None);
    }
    assert_eq!(ledger.get_balance(BOB), 20_999_899);
    assert_eq!(ledger.get_balance(ALICE), 21_000_101);
}

#[test]
fn bids_of_one_bidder_add_up() {
    let mut ledger = ledger_with(&[ALICE, BOB, CAROL]);
    let mut registry = Module::new();
    let id = open_house(&mut ledger, &mut registry, 100);
    assert_eq!(registry.bid_for_resource(&mut ledger, BOB, id, house(), 150), Ok(()));
    assert_eq!(registry.bid_for_resource(&mut ledger, CAROL, id, house(), 200), Ok(()));
    // 150 + 50 only ties with the highest bid
    assert_eq!(
        registry.bid_for_resource(&mut ledger, BOB, id, house(), 50),
        Err(Error::BidRejected)
    );
    assert_eq!(registry.bid_for_resource(&mut ledger, BOB, id, house(), 51), Ok(()));
    assert_eq!(registry.cumulative_bid(id, BOB), 201);
    assert_eq!(registry.cumulative_bid(id, CAROL), 200);
    assert_eq!(registry.cumulative_bid(id, DAVE), 0);
    let record = registry.get_auction_data(id);
    assert!(record.is_some());
    if let Some(record) = record {
        assert_eq!(record.max_bid, 201);
        assert_eq!(record.max_bid_owner, BOB);
        assert_eq!(
            record.bid_list,
            vec![
                BidData { bid_owner: BOB, bid_amount: 201 },
                BidData { bid_owner: CAROL, bid_amount: 200 },
            ]
        );
        assert_eq!(record.bid_index(BOB), 0);
        assert_eq!(record.bid_index(CAROL), 1);
        assert_eq!(record.bid_index(DAVE), 2);
    }
    assert_eq!(ledger.get_balance(BOB), 21_000_000 - 201);
    assert_eq!(ledger.get_balance(CAROL), 21_000_000 - 200);
    assert_eq!(ledger.get_balance(ALICE), 21_000_000 + 401);
    assert_eq!(ledger.total_balance(), 63_000_000);
}

#[test]
fn bid_that_cannot_be_paid_changes_nothing() {
    let mut ledger = ledger_with(&[ALICE, BOB]);
    let mut registry = Module::new();
    let id = open_house(&mut ledger, &mut registry, 100);
    assert_eq!(
        registry.bid_for_resource(&mut ledger, BOB, id, house(), 21_000_001),
        Err(Error::InsufficientFunds)
    );
    assert_eq!(
        registry.bid_for_resource(&mut ledger, DAVE, id, house(), 101),
        Err(Error::InsufficientFunds)
    );
    assert!(!ledger.is_registered(DAVE));
    assert_eq!(ledger.get_balance(BOB), 21_000_000);
    assert_eq!(ledger.get_balance(ALICE), 21_000_000);
    let record = registry.get_auction_data(id);
    assert!(record.is_some());
    if let Some(record) = record {
        assert_eq!(record.max_bid, 100);
        assert_eq!(record.max_bid_owner, ALICE);
        assert!(record.bid_list.is_empty());
    }
}

#[test]
fn seller_bidding_on_own_auction_pays_nobody() {
    let mut ledger = ledger_with(&[ALICE]);
    let mut registry = Module::new();
    let id = open_house(&mut ledger, &mut registry, 100);
    assert_eq!(registry.bid_for_resource(&mut ledger, ALICE, id, house(), 300), Ok(()));
    assert_eq!(ledger.get_balance(ALICE), 21_000_000);
    assert_eq!(registry.cumulative_bid(id, ALICE), 300);
}

#[test]
fn finish_refusals_in_order() {
    let mut ledger = ledger_with(&[ALICE, BOB]);
    let mut registry = Module::new();
    assert_eq!(
        registry.finish_auction(&mut ledger, ALICE, 10, house()),
        Err(Error::ResourceNotPresent)
    );
    assert_eq!(ledger.register_resource(ALICE, house()), Ok(()));
    assert_eq!(
        registry.finish_auction(&mut ledger, BOB, 10, house()),
        Err(Error::SenderDoesNotOwnResource)
    );
    assert_eq!(
        registry.finish_auction(&mut ledger, ALICE, 10, house()),
        Err(Error::AuctionDoesNotExist)
    );
    assert_eq!(registry.open_auction(&ledger, ALICE, house(), 100), Ok(10));
    assert_eq!(
        registry.finish_auction(&mut ledger, ALICE, 11, house()),
        Err(Error::AuctionDoesNotExist)
    );
    assert_eq!(registry.get_open_auctions(), vec![10]);
    assert_eq!(registry.get_mapping(&house()), Some(10));
}

#[test]
fn finish_without_bids_leaves_the_resource_with_the_seller() {
    let mut ledger = ledger_with(&[ALICE]);
    let mut registry = Module::new();
    let id = open_house(&mut ledger, &mut registry, 100);
    assert_eq!(registry.finish_auction(&mut ledger, ALICE, id, house()), Ok(()));
    assert_eq!(ledger.get_resource_ownership(&house()), Some(ALICE));
    assert_eq!(ledger.get_balance(ALICE), 21_000_000);
    let record = registry.get_auction_data(id);
    assert!(record.is_some());
    if let Some(record) = record {
        assert_eq!(record.state, AuctionState::Finished);
        assert_eq!(record.final_owner, Some(ALICE));
    }
    assert!(registry.get_open_auctions().is_empty());
    assert_eq!(registry.get_mapping(&house()), None);
}

#[test]
fn finish_refunds_every_loser() {
    let mut ledger = ledger_with(&[ALICE, BOB, CAROL, DAVE]);
    let mut registry = Module::new();
    let id = open_house(&mut ledger, &mut registry, 100);
    assert_eq!(registry.bid_for_resource(&mut ledger, BOB, id, house(), 150), Ok(()));
    assert_eq!(registry.bid_for_resource(&mut ledger, CAROL, id, house(), 200), Ok(()));
    assert_eq!(registry.bid_for_resource(&mut ledger, DAVE, id, house(), 250), Ok(()));
    assert_eq!(registry.bid_for_resource(&mut ledger, CAROL, id, house(), 100), Ok(()));
    assert_eq!(ledger.get_balance(ALICE), 21_000_700);
    assert_eq!(registry.finish_auction(&mut ledger, ALICE, id, house()), Ok(()));
    assert_eq!(ledger.get_balance(BOB), 21_000_000);
    assert_eq!(ledger.get_balance(DAVE), 21_000_000);
    assert_eq!(ledger.get_balance(CAROL), 21_000_000 - 300);
    assert_eq!(ledger.get_balance(ALICE), 21_000_000 + 300);
    assert_eq!(ledger.get_resource_ownership(&house()), Some(CAROL));
    assert_eq!(ledger.total_balance(), 84_000_000);
    let record = registry.get_auction_data(id);
    assert!(record.is_some());
    if let Some(record) = record {
        assert_eq!(record.state, AuctionState::Finished);
        assert_eq!(record.final_owner, Some(CAROL));
        assert_eq!(record.initial_owner, Some(ALICE));
        assert_eq!(record.max_bid, 300);
        assert_eq!(record.bid_list.len(), 3);
    }
}

#[test]
fn finish_that_cannot_refund_changes_nothing() {
    let mut ledger = ledger_with(&[ALICE, BOB, CAROL]);
    let mut registry = Module::new();
    let id = open_house(&mut ledger, &mut registry, 100);
    assert_eq!(registry.bid_for_resource(&mut ledger, BOB, id, house(), 150), Ok(()));
    assert_eq!(registry.bid_for_resource(&mut ledger, CAROL, id, house(), 200), Ok(()));
    // the seller spends everything, so Bob cannot be paid back
    assert_eq!(ledger.transfer_balance(ALICE, DAVE, 21_000_350), Ok(()));
    assert_eq!(
        registry.finish_auction(&mut ledger, ALICE, id, house()),
        Err(Error::InsufficientFunds)
    );
    assert_eq!(ledger.get_balance(ALICE), 0);
    assert_eq!(ledger.get_balance(BOB), 21_000_000 - 150);
    assert_eq!(ledger.get_resource_ownership(&house()), Some(ALICE));
    assert_eq!(registry.get_open_auctions(), vec![id]);
    assert_eq!(registry.get_mapping(&house()), Some(id));
    let record = registry.get_auction_data(id);
    assert!(record.is_some());
    if let Some(record) = record {
        assert_eq!(record.state, AuctionState::Open);
        assert_eq!(record.final_owner, None);
    }
    // once the seller has the money again, the auction can be settled
    assert_eq!(ledger.transfer_balance(DAVE, ALICE, 150), Ok(()));
    assert_eq!(registry.finish_auction(&mut ledger, ALICE, id, house()), Ok(()));
    assert_eq!(ledger.get_balance(BOB), 21_000_000);
    assert_eq!(ledger.get_balance(ALICE), 0);
    assert_eq!(ledger.get_resource_ownership(&house()), Some(CAROL));
}

#[test]
fn finish_fails_as_a_whole_when_a_later_refund_fails() {
    let mut ledger = ledger_with(&[ALICE, BOB, CAROL, DAVE]);
    let mut registry = Module::new();
    let id = open_house(&mut ledger, &mut registry, 0);
    assert_eq!(registry.bid_for_resource(&mut ledger, BOB, id, house(), 10), Ok(()));
    assert_eq!(registry.bid_for_resource(&mut ledger, CAROL, id, house(), 20), Ok(()));
    assert_eq!(registry.bid_for_resource(&mut ledger, DAVE, id, house(), 30), Ok(()));
    // the seller keeps enough for Bob's refund, not for Carol's
    assert_eq!(ledger.transfer_balance(ALICE, 9, 21_000_045), Ok(()));
    assert_eq!(ledger.get_balance(ALICE), 15);
    assert_eq!(
        registry.finish_auction(&mut ledger, ALICE, id, house()),
        Err(Error::InsufficientFunds)
    );
    assert_eq!(ledger.get_balance(ALICE), 15);
    assert_eq!(ledger.get_balance(BOB), 21_000_000 - 10);
    assert_eq!(ledger.get_balance(CAROL), 21_000_000 - 20);
    assert_eq!(ledger.get_resource_ownership(&house()), Some(ALICE));
    assert_eq!(registry.get_mapping(&house()), Some(id));
}

#[test]
fn finish_by_the_new_owner_after_a_handover() {
    let mut ledger = ledger_with(&[ALICE, BOB, CAROL]);
    let mut registry = Module::new();
    let id = open_house(&mut ledger, &mut registry, 100);
    assert_eq!(registry.bid_for_resource(&mut ledger, BOB, id, house(), 150), Ok(()));
    assert_eq!(registry.bid_for_resource(&mut ledger, CAROL, id, house(), 160), Ok(()));
    assert_eq!(ledger.transfer_resource(ALICE, BOB, house()), Ok(()));
    assert_eq!(
        registry.finish_auction(&mut ledger, ALICE, id, house()),
        Err(Error::SenderDoesNotOwnResource)
    );
    assert_eq!(registry.finish_auction(&mut ledger, BOB, id, house()), Ok(()));
    // the refund comes from the account that received the bids
    assert_eq!(ledger.get_balance(ALICE), 21_000_000 + 160);
    assert_eq!(ledger.get_balance(BOB), 21_000_000);
    assert_eq!(ledger.get_balance(CAROL), 21_000_000 - 160);
    assert_eq!(ledger.get_resource_ownership(&house()), Some(CAROL));
}

#[test]
fn second_finish_is_refused() {
    let mut ledger = ledger_with(&[ALICE, BOB]);
    let mut registry = Module::new();
    let id = open_house(&mut ledger, &mut registry, 100);
    assert_eq!(registry.bid_for_resource(&mut ledger, BOB, id, house(), 150), Ok(()));
    assert_eq!(registry.finish_auction(&mut ledger, ALICE, id, house()), Ok(()));
    assert_eq!(
        registry.finish_auction(&mut ledger, BOB, id, house()),
        Err(Error::AuctionDoesNotExist)
    );
    assert_eq!(
        registry.finish_auction(&mut ledger, ALICE, id, house()),
        Err(Error::AuctionDoesNotExist)
    );
    assert_eq!(
        registry.finish_auction(&mut ledger, CAROL, id, house()),
        Err(Error::AuctionDoesNotExist)
    );
    assert!(ledger.resource_exist(&house()));
    assert_eq!(registry.get_mapping(&house()), None);
    assert_eq!(ledger.get_resource_ownership(&house()), Some(BOB));
    assert_eq!(ledger.get_balance(ALICE), 21_000_150);
    assert_eq!(ledger.get_balance(BOB), 20_999_850);
    let record = registry.get_auction_data(id);
    assert!(record.is_some());
    if let Some(record) = record {
        assert_eq!(record.state, AuctionState::Finished);
        assert_eq!(record.final_owner, Some(BOB));
    }
    assert!(registry.get_open_auctions().is_empty());
}

#[test]
fn second_finish_by_a_seller_who_won_finds_no_auction() {
    let mut ledger = ledger_with(&[ALICE]);
    let mut registry = Module::new();
    let id = open_house(&mut ledger, &mut registry, 100);
    assert_eq!(registry.finish_auction(&mut ledger, ALICE, id, house()), Ok(()));
    assert_eq!(
        registry.finish_auction(&mut ledger, ALICE, id, house()),
        Err(Error::AuctionDoesNotExist)
    );
}

#[test]
fn bid_on_a_finished_auction_is_refused() {
    let mut ledger = ledger_with(&[ALICE, BOB]);
    let mut registry = Module::new();
    let id = open_house(&mut ledger, &mut registry, 100);
    assert_eq!(registry.finish_auction(&mut ledger, ALICE, id, house()), Ok(()));
    assert_eq!(
        registry.bid_for_resource(&mut ledger, BOB, id, house(), 500),
        Err(Error::AuctionDoesNotExist)
    );
    assert_eq!(ledger.get_balance(BOB), 21_000_000);
}

#[test]
fn winner_can_sell_the_resource_again() {
    let mut ledger = ledger_with(&[ALICE, BOB]);
    let mut registry = Module::new();
    let id = open_house(&mut ledger, &mut registry, 100);
    assert_eq!(registry.bid_for_resource(&mut ledger, BOB, id, house(), 150), Ok(()));
    assert_eq!(registry.finish_auction(&mut ledger, ALICE, id, house()), Ok(()));
    assert_eq!(
        registry.open_auction(&ledger, ALICE, house(), 1),
        Err(Error::SenderDoesNotOwnResource)
    );
    assert_eq!(registry.open_auction(&ledger, BOB, house(), 1), Ok(11));
    assert_eq!(registry.get_open_auctions(), vec![11]);
    assert_eq!(registry.get_mapping(&house()), Some(11));
    let old = registry.get_auction_data(10);
    assert!(old.is_some());
    if let Some(old) = old {
        assert_eq!(old.state, AuctionState::Finished);
        assert_eq!(old.final_owner, Some(BOB));
    }
}

#[test]
fn finishing_one_auction_keeps_the_others_open() {
    let mut ledger = ledger_with(&[ALICE]);
    let mut registry = Module::new();
    for n in 0..4u8 {
        assert_eq!(ledger.register_resource(ALICE, vec![n]), Ok(()));
        assert_eq!(registry.open_auction(&ledger, ALICE, vec![n], 1), Ok(10 + n as u64));
    }
    assert_eq!(registry.finish_auction(&mut ledger, ALICE, 11, vec![1]), Ok(()));
    assert_eq!(registry.get_open_auctions(), vec![10, 12, 13]);
    assert_eq!(registry.get_mapping(&vec![1]), None);
    assert_eq!(registry.get_mapping(&vec![2]), Some(12));
    assert_eq!(registry.finish_auction(&mut ledger, ALICE, 10, vec![0]), Ok(()));
    assert_eq!(registry.finish_auction(&mut ledger, ALICE, 13, vec![3]), Ok(()));
    assert_eq!(registry.get_open_auctions(), vec![12]);
    assert_eq!(registry.next_auction_id(), 14);
}

#[test]
fn record_copy_holds_the_same_values() {
    let mut ledger = ledger_with(&[ALICE, BOB]);
    let mut registry = Module::new();
    let id = open_house(&mut ledger, &mut registry, 100);
    assert_eq!(registry.bid_for_resource(&mut ledger, BOB, id, house(), 150), Ok(()));
    let record = registry.get_auction_data(id);
    assert!(record.is_some());
    if let Some(record) = record {
        let copy = record.duplicate();
        assert_eq!(copy.id, record.id);
        assert_eq!(copy.resource_hash, record.resource_hash);
        assert_eq!(copy.state, record.state);
        assert_eq!(copy.initial_owner, record.initial_owner);
        assert_eq!(copy.final_owner, record.final_owner);
        assert_eq!(copy.max_bid_owner, record.max_bid_owner);
        assert_eq!(copy.max_bid, record.max_bid);
        assert_eq!(copy.bid_list, record.bid_list);
    }
}

#[test]
fn settled_auction_stays_settled_after_a_new_one_is_opened() {
    let mut ledger = ledger_with(&[ALICE, BOB, CAROL]);
    let mut registry = Module::new();
    let id = open_house(&mut ledger, &mut registry, 100);
    assert!(!registry.settled_already(id, &house()));
    assert_eq!(registry.bid_for_resource(&mut ledger, BOB, id, house(), 150), Ok(()));
    assert_eq!(registry.finish_auction(&mut ledger, ALICE, id, house()), Ok(()));
    assert!(registry.settled_already(id, &house()));
    assert!(!registry.settled_already(id, &vec![1]));
    assert!(!registry.settled_already(id + 1, &house()));
    assert!(!registry.settled_already(0, &house()));
    assert_eq!(registry.open_auction(&ledger, BOB, house(), 1), Ok(11));
    for caller in [ALICE, BOB, CAROL] {
        assert_eq!(
            registry.finish_auction(&mut ledger, caller, id, house()),
            Err(Error::AuctionDoesNotExist)
        );
        assert_eq!(
            registry.bid_for_resource(&mut ledger, caller, id, house(), 500),
            Err(Error::AuctionDoesNotExist)
        );
    }
    assert_eq!(
        registry.finish_auction(&mut ledger, ALICE, 11, house()),
        Err(Error::SenderDoesNotOwnResource)
    );
    assert_eq!(registry.get_open_auctions(), vec![11]);
    assert_eq!(registry.finish_auction(&mut ledger, BOB, 11, house()), Ok(()));
    assert!(registry.settled_already(11, &house()));
}

#[test]
fn settled_id_of_another_resource_is_no_excuse() {
    let mut ledger = ledger_with(&[ALICE, BOB]);
    let mut registry = Module::new();
    let id = open_house(&mut ledger, &mut registry, 100);
    assert_eq!(registry.finish_auction(&mut ledger, ALICE, id, house()), Ok(()));
    assert_eq!(ledger.register_resource(ALICE, vec![1]), Ok(()));
    assert_eq!(
        registry.finish_auction(&mut ledger, BOB, id, vec![1]),
        Err(Error::SenderDoesNotOwnResource)
    );
    assert_eq!(
        registry.finish_auction(&mut ledger, ALICE, id, vec![1]),
        Err(Error::AuctionDoesNotExist)
    );
    assert_eq!(
        registry.finish_auction(&mut ledger, BOB, id, vec![2]),
        Err(Error::ResourceNotPresent)
    );
}

#[test]
fn refunds_due_are_the_entries_of_the_losers() {
    let mut ledger = ledger_with(&[ALICE, BOB, CAROL, DAVE]);
    let mut registry = Module::new();
    let id = open_house(&mut ledger, &mut registry, 100);
    let empty = registry.get_auction_data(id);
    assert!(empty.is_some());
    if let Some(empty) = empty {
        assert!(empty.refunds_due().is_empty());
    }
    assert_eq!(registry.bid_for_resource(&mut ledger, BOB, id, house(), 150), Ok(()));
    let single = registry.get_auction_data(id);
    assert!(single.is_some());
    if let Some(single) = single {
        assert!(single.refunds_due().is_empty());
    }
    assert_eq!(registry.bid_for_resource(&mut ledger, CAROL, id, house(), 200), Ok(()));
    assert_eq!(registry.bid_for_resource(&mut ledger, DAVE, id, house(), 250), Ok(()));
    assert_eq!(registry.bid_for_resource(&mut ledger, CAROL, id, house(), 100), Ok(()));
    let record = registry.get_auction_data(id);
    assert!(record.is_some());
    if let Some(record) = record {
        assert_eq!(
            record.refunds_due(),
            vec![
                BidData { bid_owner: BOB, bid_amount: 150 },
                BidData { bid_owner: DAVE, bid_amount: 250 },
            ]
        );
    }
}
