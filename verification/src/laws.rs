//! What holds of the factory whatever calls are made.

use vstd::prelude::*;
use crate::account::AccountId;
use crate::error::LedgerError;
use crate::event::Event;
use crate::factory::{Call, FactoryView, TokenFactory};
use crate::model::{Balance, HoldingKey, LedgerView, TokenId};

verus! {

/// Every call, accepted or refused, keeps a valid factory valid.
pub proof fn law_call_keeps_valid(state: FactoryView, call: Call)
    requires
        state.valid(),
    ensures
        state.after_call(call).valid(),
{
    match call {
        Call::CreateToken { creator, token_id, initial_supply } => {
            state.lemma_create_valid(creator, token_id, initial_supply);
        },
        Call::Mint { caller, token_id, to, amount } => {
            state.lemma_mint_valid(caller, token_id, to, amount);
        },
        Call::Burn { caller, token_id, from, amount } => {
            state.lemma_burn_valid(caller, token_id, from, amount);
        },
        Call::Transfer { caller, token_id, to, amount } => {
            state.lemma_transfer_valid(caller, token_id, to, amount);
        },
    }
}

/// After any sequence of calls on a new factory, the balances that all
/// accounts hold of a token add up to the token's declared supply.
pub proof fn law_supply_is_sum_of_balances(calls: Seq<Call>, token_id: TokenId)
    ensures
        FactoryView::empty().after_calls(calls).valid(),
        FactoryView::empty().after_calls(calls).ledger.circulating(token_id)
            == FactoryView::empty().after_calls(calls).ledger.total_supply(token_id),
    decreases calls.len(),
{
    let start = FactoryView::empty();
    if calls.len() == 0 {
        assert forall|t: TokenId| #[trigger]
            start.ledger.circulating(t) == start.ledger.total_supply(t) by {
            start.ledger.lemma_unknown_token_is_empty(t);
        }
    } else {
        law_supply_is_sum_of_balances(calls.drop_last(), token_id);
        law_call_keeps_valid(start.after_calls(calls.drop_last()), calls.last());
    }
}

/// What the listed accounts hold of the token, added up.
pub open spec fn held_by(ledger: LedgerView, token_id: TokenId, accounts: Seq<AccountId>) -> nat
    decreases accounts.len(),
{
    if accounts.len() == 0 {
        0
    } else {
        (held_by(ledger, token_id, accounts.drop_last()) + ledger.balance(
            token_id,
            accounts.last(),
        )) as nat
    }
}

proof fn lemma_held_by_agrees(
    one: LedgerView,
    two: LedgerView,
    token_id: TokenId,
    accounts: Seq<AccountId>,
)
    requires
        forall|i: int|
            0 <= i < accounts.len() ==> one.balance(token_id, #[trigger] accounts[i])
                == two.balance(token_id, accounts[i]),
    ensures
        held_by(one, token_id, accounts) == held_by(two, token_id, accounts),
    decreases accounts.len(),
{
    if accounts.len() > 0 {
        lemma_held_by_agrees(one, two, token_id, accounts.drop_last());
    }
}

/// What circulates of a token is the sum of the balances of any list of
/// accounts that names each holder of the token once.
pub proof fn law_circulating_is_sum_over_accounts(
    ledger: LedgerView,
    token_id: TokenId,
    accounts: Seq<AccountId>,
)
    requires
        ledger.well_formed(),
        accounts.no_duplicates(),
        forall|a: AccountId| ledger.balance(token_id, a) > 0 ==> accounts.contains(a),
    ensures
        ledger.circulating(token_id) == held_by(ledger, token_id, accounts),
    decreases accounts.len(),
{
    if accounts.len() == 0 {
        assert forall|k: HoldingKey| !ledger.holdings(token_id).contains_key(k) by {
            if ledger.holdings(token_id).contains_key(k) {
                assert(ledger.balances.contains_key(k));
                assert(ledger.balance(token_id, k.1) > 0);
                assert(accounts.contains(k.1));
            }
        }
        assert(ledger.holdings(token_id) =~= Map::<HoldingKey, Balance>::empty());
    } else {
        let last = accounts.last();
        let rest = accounts.drop_last();
        let without = ledger.with_balance(token_id, last, 0);
        ledger.lemma_with_balance_circulating(token_id, last, 0, token_id);
        assert forall|a: AccountId| without.balance(token_id, a) > 0 implies rest.contains(a) by {
            assert(ledger.balance(token_id, a) > 0);
            assert(accounts.contains(a));
            let i = choose|i: int| 0 <= i < accounts.len() && accounts[i] == a;
            assert(rest[i] == a);
        }
        law_circulating_is_sum_over_accounts(without, token_id, rest);
        assert forall|i: int| 0 <= i < rest.len() implies without.balance(
            token_id,
            #[trigger] rest[i],
        ) == ledger.balance(token_id, rest[i]) by {
            assert(accounts[i] != accounts[accounts.len() - 1]);
        }
        lemma_held_by_agrees(without, ledger, token_id, rest);
    }
}

/// In a consistent factory, the balances of any list of accounts that names
/// each holder of a token once add up to the token's declared supply.
pub proof fn law_factory_conserves(
    factory: TokenFactory,
    token_id: TokenId,
    accounts: Seq<AccountId>,
)
    requires
        factory.wf(),
        accounts.no_duplicates(),
        forall|a: AccountId| factory@.ledger.balance(token_id, a) > 0 ==> accounts.contains(a),
    ensures
        factory@.ledger.circulating(token_id) == factory@.ledger.total_supply(token_id),
        held_by(factory@.ledger, token_id, accounts) == factory@.ledger.total_supply(token_id),
{
    factory.lemma_view_valid();
    law_circulating_is_sum_over_accounts(factory@.ledger, token_id, accounts);
}

/// A refused call changes no balance, no token record and no event.
pub proof fn law_refused_call_leaves_no_trace(state: FactoryView, call: Call)
    requires
        state.call_result(call) is Err,
    ensures
        state.after_call(call) == state,
{
}

/// An accepted call is recorded as exactly one event behind the earlier ones.
pub proof fn law_accepted_call_is_recorded(state: FactoryView, call: Call)
    requires
        state.call_result(call) is Ok,
    ensures
        state.after_call(call).events.len() == state.events.len() + 1,
        state.after_call(call).events.drop_last() == state.events,
        state.after_call(call).events.last() == match call {
            Call::CreateToken { creator, token_id, initial_supply } => Event::Created {
                token_id,
                creator,
                supply: initial_supply,
            },
            Call::Mint { token_id, to, amount, .. } => Event::Minted { token_id, to, amount },
            Call::Burn { token_id, from, amount, .. } => Event::Burned { token_id, from, amount },
            Call::Transfer { caller, token_id, to, amount } => Event::Transferred {
                token_id,
                from: caller,
                to,
                amount,
            },
        },
{
    assert(state.after_call(call).events.drop_last() =~= state.events);
}

/// A transfer to the caller's own account leaves every balance and every
/// token record as it was. Where the caller can afford it, it is still
/// recorded; where it is refused, it is not.
pub proof fn law_self_transfer_changes_no_balance(
    state: FactoryView,
    caller: AccountId,
    token_id: TokenId,
    amount: Balance,
)
    requires
        state.ledger.well_formed(),
    ensures
        state.after_transfer(caller, token_id, caller, amount).ledger == state.ledger,
        state.after_transfer(caller, token_id, caller, amount).events == if state.transfer_result(
            caller,
            token_id,
            amount,
        ) is Ok {
            state.events.push(Event::Transferred { token_id, from: caller, to: caller, amount })
        } else {
            state.events
        },
{
    let next = state.after_transfer(caller, token_id, caller, amount).ledger;
    assert(next.balances =~= state.ledger.balances);
}

/// A transfer of more than the caller holds of an existing token is refused
/// for insufficient balance, and nothing changes.
pub proof fn law_overdrawn_transfer_is_refused(
    state: FactoryView,
    caller: AccountId,
    token_id: TokenId,
    to: AccountId,
    amount: Balance,
)
    requires
        state.ledger.has_token(token_id),
        amount > state.ledger.balance(token_id, caller),
    ensures
        state.transfer_result(caller, token_id, amount) == Err::<(), LedgerError>(
            LedgerError::InsufficientBalance,
        ),
        state.after_transfer(caller, token_id, to, amount) == state,
{
}

/// Minting an existing token on behalf of anyone but its owner is refused as
/// not authorized, and nothing changes.
pub proof fn law_mint_is_reserved_to_owner(
    state: FactoryView,
    caller: AccountId,
    token_id: TokenId,
    to: AccountId,
    amount: Balance,
)
    requires
        state.ledger.has_token(token_id),
        caller != state.ledger.metas[token_id].owner,
    ensures
        state.mint_result(caller, token_id, amount) == Err::<(), LedgerError>(
            LedgerError::NotAuthorized,
        ),
        state.after_mint(caller, token_id, to, amount) == state,
{
}

/// Creating a token under an identifier that is taken is refused, and the
/// record of the token that has it stays as it was.
pub proof fn law_token_is_created_once(
    state: FactoryView,
    creator: AccountId,
    token_id: TokenId,
    initial_supply: Balance,
)
    requires
        state.ledger.has_token(token_id),
    ensures
        state.create_result(token_id) == Err::<(), LedgerError>(LedgerError::AlreadyExists),
        state.after_create(creator, token_id, initial_supply) == state,
        state.after_create(creator, token_id, initial_supply).ledger.metas[token_id]
            == state.ledger.metas[token_id],
{
}

/// No call changes the owner of a token that exists.
pub proof fn law_owner_never_changes(state: FactoryView, call: Call, token_id: TokenId)
    requires
        state.ledger.has_token(token_id),
    ensures
        state.after_call(call).ledger.has_token(token_id),
        state.after_call(call).ledger.metas[token_id].owner == state.ledger.metas[token_id].owner,
{
}

/// A transfer changes the declared supply of no token.
pub proof fn law_transfer_keeps_supply(
    state: FactoryView,
    caller: AccountId,
    token_id: TokenId,
    to: AccountId,
    amount: Balance,
    other: TokenId,
)
    ensures
        state.after_transfer(caller, token_id, to, amount).ledger.metas == state.ledger.metas,
        state.after_transfer(caller, token_id, to, amount).ledger.total_supply(other)
            == state.ledger.total_supply(other),
{
}

} // verus!
