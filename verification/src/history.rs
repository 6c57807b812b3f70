//! Runs of requests: the ledger and the registry as one state, a request as
//! a value, and what holds after any run in which every request succeeded.

use vstd::prelude::*;
use crate::auction_model::RegistryView;
use crate::basic_token_and_resource::{AccountId, LedgerView, TOTAL_SUPPLY, MAX_REGISTRATIONS};
use crate::error::Error;
use crate::laws::{law_register_adds_one_credit, law_transfer_conserves, law_refund_conserves,
    law_open_keeps_valid, law_bid_keeps_valid, law_finish_keeps_valid};
use crate::supply::total_held;

verus! {

/// The ledger and the registry together.
pub struct SystemView {
    /// Balances and owners.
    pub ledger: LedgerView,
    /// Auctions.
    pub registry: RegistryView,
}

/// One request, with the caller's identity already established.
pub enum Request {
    /// An account asks for its balance entry.
    RegisterAccount { caller: AccountId },
    /// An account claims a resource.
    RegisterResource { caller: AccountId, resource: Seq<u8> },
    /// Money moves from one account to another.
    TransferBalance { from: AccountId, to: AccountId, amount: u64 },
    /// An owner hands a resource over.
    TransferResource { caller: AccountId, to: AccountId, resource: Seq<u8> },
    /// An owner puts a resource up for auction.
    OpenAuction { caller: AccountId, resource: Seq<u8>, initial_bid: u64 },
    /// A bidder raises their cumulative bid.
    Bid { caller: AccountId, auction_id: u64, resource: Seq<u8>, increment: u64 },
    /// An owner settles the auction of a resource.
    FinishAuction { caller: AccountId, auction_id: u64, resource: Seq<u8> },
}

impl SystemView {
    /// The state before any request.
    pub open spec fn empty() -> SystemView {
        SystemView { ledger: LedgerView::empty(), registry: RegistryView::empty() }
    }

    /// The state after one request, or the reason for which it is refused.
    pub open spec fn step(self, request: Request) -> Result<SystemView, Error> {
        match request {
            Request::RegisterAccount { caller } => match self.ledger.register_account(caller) {
                Ok(ledger) => Ok(SystemView { ledger, ..self }),
                Err(e) => Err(e),
            },
            Request::RegisterResource { caller, resource } => match self.ledger.register_resource(
                caller,
                resource,
            ) {
                Ok(ledger) => Ok(SystemView { ledger, ..self }),
                Err(e) => Err(e),
            },
            Request::TransferBalance { from, to, amount } => match self.ledger.transfer_balance(
                from,
                to,
                amount,
            ) {
                Ok(ledger) => Ok(SystemView { ledger, ..self }),
                Err(e) => Err(e),
            },
            Request::TransferResource { caller, to, resource } => match self.ledger.transfer_resource(
                caller,
                to,
                resource,
            ) {
                Ok(ledger) => Ok(SystemView { ledger, ..self }),
                Err(e) => Err(e),
            },
            Request::OpenAuction { caller, resource, initial_bid } => match self.registry.open_auction(
                self.ledger,
                caller,
                resource,
                initial_bid,
            ) {
                Ok(registry) => Ok(SystemView { registry, ..self }),
                Err(e) => Err(e),
            },
            Request::Bid { caller, auction_id, resource, increment } => match self.registry.bid_for_resource(
                self.ledger,
                caller,
                auction_id,
                resource,
                increment,
            ) {
                Ok(next) => Ok(SystemView { registry: next.0, ledger: next.1 }),
                Err(e) => Err(e),
            },
            Request::FinishAuction { caller, auction_id, resource } => match self.registry.finish_auction(
                self.ledger,
                caller,
                auction_id,
                resource,
            ) {
                Ok(next) => Ok(SystemView { registry: next.0, ledger: next.1 }),
                Err(e) => Err(e),
            },
        }
    }

    /// Both parts are valid.
    pub open spec fn valid(self) -> bool {
        self.ledger.valid() && self.registry.valid()
    }

    /// The request stays within what 64 bits can hold: a registration is
    /// left, an auction id is left, and a bidder's new total fits.
    pub open spec fn fits(self, request: Request) -> bool {
        match request {
            Request::RegisterAccount { caller } => self.ledger.registered < MAX_REGISTRATIONS,
            Request::OpenAuction { caller, resource, initial_bid } => self.registry.next_auction_id
                < u64::MAX,
            Request::Bid { caller, auction_id, resource, increment } => self.registry.is_open_for(
                auction_id,
                resource,
            ) ==> self.registry.auctions[auction_id].cumulative(caller) + increment <= u64::MAX,
            _ => true,
        }
    }

    /// Every request of the run fits in the state in which it arrives.
    pub open spec fn run_fits(self, requests: Seq<Request>) -> bool
        decreases requests.len(),
    {
        if requests.len() == 0 {
            true
        } else {
            self.run_fits(requests.drop_last()) && match self.run(requests.drop_last()) {
                Ok(before_last) => before_last.fits(requests.last()),
                Err(_) => true,
            }
        }
    }

    /// The state after a run of requests that all succeed, or the error of
    /// the first one that is refused.
    pub open spec fn run(self, requests: Seq<Request>) -> Result<SystemView, Error>
        decreases requests.len(),
    {
        if requests.len() == 0 {
            Ok(self)
        } else {
            match self.run(requests.drop_last()) {
                Ok(before_last) => before_last.step(requests.last()),
                Err(e) => Err(e),
            }
        }
    }
}

/// How many of the requests ask for a registration.
pub open spec fn registrations(requests: Seq<Request>) -> nat
    decreases requests.len(),
{
    if requests.len() == 0 {
        0
    } else {
        registrations(requests.drop_last()) + (if requests.last() is RegisterAccount {
            1nat
        } else {
            0nat
        })
    }
}

/// How many of the requests ask for an auction to be opened.
pub open spec fn openings(requests: Seq<Request>) -> nat
    decreases requests.len(),
{
    if requests.len() == 0 {
        0
    } else {
        openings(requests.drop_last()) + (if requests.last() is OpenAuction {
            1nat
        } else {
            0nat
        })
    }
}

/// One request that succeeds adds one credit to the sum of all balances if
/// it is a registration, and leaves the sum as it was if it is anything else.
pub proof fn law_step_conserves(state: SystemView, request: Request)
    requires
        state.ledger.valid(),
        request is RegisterAccount ==> state.ledger.registered < MAX_REGISTRATIONS,
        state.step(request) is Ok,
    ensures
        ({
            let next = state.step(request)->Ok_0;
            let credit = if request is RegisterAccount {
                TOTAL_SUPPLY as int
            } else {
                0
            };
            &&& next.ledger.valid()
            &&& total_held(next.ledger.balances) == total_held(state.ledger.balances) + credit
            &&& next.ledger.registered == state.ledger.registered + (if request
                is RegisterAccount {
                1nat
            } else {
                0nat
            })
        }),
{
    match request {
        Request::RegisterAccount { caller } => {
            law_register_adds_one_credit(state.ledger, caller);
        },
        Request::RegisterResource { caller, resource } => {},
        Request::TransferBalance { from, to, amount } => {
            law_transfer_conserves(state.ledger, from, to, amount);
        },
        Request::TransferResource { caller, to, resource } => {},
        Request::OpenAuction { caller, resource, initial_bid } => {},
        Request::Bid { caller, auction_id, resource, increment } => {
            let auction = state.registry.auctions[auction_id];
            law_transfer_conserves(state.ledger, caller, auction.seller(), increment);
        },
        Request::FinishAuction { caller, auction_id, resource } => {
            let auction = state.registry.auctions[auction_id];
            law_refund_conserves(state.ledger, auction.refunds_due(), auction.seller());
        },
    }
}

/// Conservation: after any run of requests that all succeed, the sum of all
/// balances is what it was plus one credit for each registration in the run.
/// Started from a valid ledger, and from the empty one in particular, the sum
/// is the number of registrations times the credit.
pub proof fn law_run_conserves(state: SystemView, requests: Seq<Request>)
    requires
        state.ledger.valid(),
        state.ledger.registered + registrations(requests) <= MAX_REGISTRATIONS,
        state.run(requests) is Ok,
    ensures
        ({
            let last = state.run(requests)->Ok_0;
            &&& last.ledger.valid()
            &&& last.ledger.registered == state.ledger.registered + registrations(requests)
            &&& total_held(last.ledger.balances) == total_held(state.ledger.balances)
                + registrations(requests) * TOTAL_SUPPLY
            &&& total_held(last.ledger.balances) == last.ledger.registered * TOTAL_SUPPLY
        }),
    decreases requests.len(),
{
    if requests.len() > 0 {
        law_run_conserves(state, requests.drop_last());
        let before_last = state.run(requests.drop_last())->Ok_0;
        law_step_conserves(before_last, requests.last());
    }
}

/// Ids are handed out in order and without gaps: after any run of requests
/// that all succeed, the next id is what it was plus the number of auctions
/// opened in the run, and the auction opened last has the id just below it.
/// From the empty state the ids are therefore 10, 11, 12 and so on.
pub proof fn law_run_counts_ids(state: SystemView, requests: Seq<Request>)
    requires
        state.registry.next_auction_id + openings(requests) <= u64::MAX,
        state.run(requests) is Ok,
    ensures
        ({
            let last = state.run(requests)->Ok_0;
            &&& last.registry.next_auction_id == state.registry.next_auction_id + openings(
                requests,
            )
            &&& requests.len() > 0 && requests.last() is OpenAuction
                ==> last.registry.auctions.contains_key(
                (last.registry.next_auction_id - 1) as u64,
            ) && last.registry.auctions[(last.registry.next_auction_id - 1) as u64].id
                == last.registry.next_auction_id - 1
        }),
    decreases requests.len(),
{
    if requests.len() > 0 {
        law_run_counts_ids(state, requests.drop_last());
    }
}

/// One request that fits and succeeds keeps the state valid.
pub proof fn law_step_keeps_valid(state: SystemView, request: Request)
    requires
        state.valid(),
        state.fits(request),
        state.step(request) is Ok,
    ensures
        state.step(request)->Ok_0.valid(),
{
    law_step_conserves(state, request);
    match request {
        Request::OpenAuction { caller, resource, initial_bid } => {
            law_open_keeps_valid(state.registry, state.ledger, caller, resource, initial_bid);
        },
        Request::Bid { caller, auction_id, resource, increment } => {
            law_bid_keeps_valid(
                state.registry,
                state.ledger,
                caller,
                auction_id,
                resource,
                increment,
            );
        },
        Request::FinishAuction { caller, auction_id, resource } => {
            law_finish_keeps_valid(state.registry, state.ledger, caller, auction_id, resource);
        },
        _ => {},
    }
}

/// The invariants hold after any run of fitting requests that all succeed:
/// at most one auction is open for a resource, the index and the list of
/// open ids name the open auctions and no others, every record is valid, and
/// the balances sum to one credit per registration.
pub proof fn law_run_keeps_valid(state: SystemView, requests: Seq<Request>)
    requires
        state.valid(),
        state.run_fits(requests),
        state.run(requests) is Ok,
    ensures
        state.run(requests)->Ok_0.valid(),
    decreases requests.len(),
{
    if requests.len() > 0 {
        law_run_keeps_valid(state, requests.drop_last());
        law_step_keeps_valid(state.run(requests.drop_last())->Ok_0, requests.last());
    }
}

/// The empty state is valid.
pub proof fn law_empty_state_valid()
    ensures
        SystemView::empty().valid(),
{
    crate::laws::law_empty_ledger_valid();
    crate::laws::law_empty_registry_valid();
}

} // verus!
