//! The sum of all balances of a ledger, and how one write changes it.

use vstd::prelude::*;

verus! {

/// What an account holds: its entry, or nothing where it has none.
pub open spec fn balance_of(balances: Map<u64, u64>, account: u64) -> u64 {
    if balances.contains_key(account) {
        balances[account]
    } else {
        0
    }
}

/// The sum of what the accounts below `bound` hold.
pub open spec fn held_below(balances: Map<u64, u64>, bound: nat) -> nat
    decreases bound,
{
    if bound == 0 {
        0
    } else if bound - 1 <= u64::MAX {
        (held_below(balances, (bound - 1) as nat) + balance_of(balances, (bound - 1) as u64)) as nat
    } else {
        held_below(balances, (bound - 1) as nat)
    }
}

/// The sum of all balances.
pub open spec fn total_held(balances: Map<u64, u64>) -> nat {
    held_below(balances, u64::MAX as nat + 1)
}

/// Writing one balance changes the sum below a bound by the difference, where
/// the account lies below the bound, and not at all where it does not.
pub proof fn lemma_held_below_insert(
    balances: Map<u64, u64>,
    account: u64,
    amount: u64,
    bound: nat,
)
    requires
        bound <= u64::MAX + 1,
    ensures
        held_below(balances.insert(account, amount), bound) == held_below(balances, bound) + (if account
            < bound {
            amount - balance_of(balances, account)
        } else {
            0
        }),
    decreases bound,
{
    if bound > 0 {
        lemma_held_below_insert(balances, account, amount, (bound - 1) as nat);
    }
}

/// No account below the bound holds more than the sum below the bound.
pub proof fn lemma_held_below_bounds(balances: Map<u64, u64>, account: u64, bound: nat)
    requires
        account < bound <= u64::MAX + 1,
    ensures
        balance_of(balances, account) <= held_below(balances, bound),
    decreases bound,
{
    if account < bound - 1 {
        lemma_held_below_bounds(balances, account, (bound - 1) as nat);
    }
}

/// An empty ledger holds nothing.
pub proof fn lemma_held_below_empty(bound: nat)
    requires
        bound <= u64::MAX + 1,
    ensures
        held_below(Map::<u64, u64>::empty(), bound) == 0,
    decreases bound,
{
    if bound > 0 {
        lemma_held_below_empty((bound - 1) as nat);
    }
}

/// Writing one balance changes the total by the difference.
pub proof fn lemma_total_insert(balances: Map<u64, u64>, account: u64, amount: u64)
    ensures
        total_held(balances.insert(account, amount)) == total_held(balances) + amount - balance_of(
            balances,
            account,
        ),
{
    lemma_held_below_insert(balances, account, amount, u64::MAX as nat + 1);
}

/// No account holds more than the total.
pub proof fn lemma_total_bounds(balances: Map<u64, u64>, account: u64)
    ensures
        balance_of(balances, account) <= total_held(balances),
{
    lemma_held_below_bounds(balances, account, u64::MAX as nat + 1);
}

/// An empty ledger's total is zero.
pub proof fn lemma_total_empty()
    ensures
        total_held(Map::<u64, u64>::empty()) == 0,
{
    lemma_held_below_empty(u64::MAX as nat + 1);
}

} // verus!
