//! The token factory: the calls that create tokens, change their supply and
//! move them between accounts, each recorded in the event log.

use vstd::prelude::*;
use crate::account::AccountId;
use crate::error::LedgerError;
use crate::event::{Event, EventLog};
use crate::ledger::Ledger;
use crate::model::{Balance, LedgerView, TokenId, TokenMeta};

verus! {

/// One inbound call, with the account on whose behalf it is made.
#[derive(Clone, Copy, Debug, PartialEq, Eq)]
pub enum Call {
    CreateToken { creator: AccountId, token_id: TokenId, initial_supply: Balance },
    Mint { caller: AccountId, token_id: TokenId, to: AccountId, amount: Balance },
    Burn { caller: AccountId, token_id: TokenId, from: AccountId, amount: Balance },
    Transfer { caller: AccountId, token_id: TokenId, to: AccountId, amount: Balance },
}

/// The state of the factory: the ledger and the events recorded so far.
#[verifier::ext_equal]
pub struct FactoryView {
    pub ledger: LedgerView,
    pub events: Seq<Event>,
}

impl FactoryView {
    /// The factory before any call.
    pub open spec fn empty() -> FactoryView {
        FactoryView { ledger: LedgerView::empty(), events: Seq::empty() }
    }

    /// The ledger is well formed and the balances of every token add up to
    /// its declared supply.
    pub open spec fn valid(self) -> bool {
        self.ledger.well_formed() && self.ledger.conserved()
    }

    /// Whether the caller may raise the supply of the token: only its owner.
    pub open spec fn may_mint(self, caller: AccountId, token_id: TokenId) -> bool {
        self.ledger.is_owner(token_id, caller)
    }

    /// Whether the caller may destroy tokens of the account: the account
    /// itself and the token's owner.
    pub open spec fn may_burn(self, caller: AccountId, token_id: TokenId, from: AccountId) -> bool {
        caller == from || self.ledger.is_owner(token_id, caller)
    }

    /// How a call to create the token ends.
    pub open spec fn create_result(self, token_id: TokenId) -> Result<(), LedgerError> {
        self.ledger.create_result(token_id)
    }

    /// The factory after a call to create the token.
    pub open spec fn after_create(
        self,
        creator: AccountId,
        token_id: TokenId,
        initial_supply: Balance,
    ) -> FactoryView {
        if self.create_result(token_id) is Ok {
            FactoryView {
                ledger: self.ledger.after_create(creator, token_id, initial_supply),
                events: self.events.push(
                    Event::Created { token_id, creator, supply: initial_supply },
                ),
            }
        } else {
            self
        }
    }

    /// How a call to mint ends.
    pub open spec fn mint_result(
        self,
        caller: AccountId,
        token_id: TokenId,
        amount: Balance,
    ) -> Result<(), LedgerError> {
        if !self.ledger.has_token(token_id) {
            Err(LedgerError::UnknownToken)
        } else if !self.may_mint(caller, token_id) {
            Err(LedgerError::NotAuthorized)
        } else if self.ledger.total_supply(token_id) + amount > Balance::MAX {
            Err(LedgerError::Overflow)
        } else {
            Ok(())
        }
    }

    /// The factory after a call to mint: the receiver holds `amount` more and
    /// the supply is `amount` higher, or nothing differs where the call is
    /// refused.
    pub open spec fn after_mint(
        self,
        caller: AccountId,
        token_id: TokenId,
        to: AccountId,
        amount: Balance,
    ) -> FactoryView {
        if self.mint_result(caller, token_id, amount) is Ok {
            FactoryView {
                ledger: self.ledger.with_balance(
                    token_id,
                    to,
                    (self.ledger.balance(token_id, to) + amount) as Balance,
                ).with_supply(
                    token_id,
                    (self.ledger.total_supply(token_id) + amount) as Balance,
                ),
                events: self.events.push(Event::Minted { token_id, to, amount }),
            }
        } else {
            self
        }
    }

    /// How a call to burn ends.
    pub open spec fn burn_result(
        self,
        caller: AccountId,
        token_id: TokenId,
        from: AccountId,
        amount: Balance,
    ) -> Result<(), LedgerError> {
        if !self.ledger.has_token(token_id) {
            Err(LedgerError::UnknownToken)
        } else if !self.may_burn(caller, token_id, from) {
            Err(LedgerError::NotAuthorized)
        } else if amount > self.ledger.balance(token_id, from) {
            Err(LedgerError::InsufficientBalance)
        } else {
            Ok(())
        }
    }

    /// The factory after a call to burn: the account holds `amount` less and
    /// the supply is `amount` lower, or nothing differs where the call is
    /// refused.
    pub open spec fn after_burn(
        self,
        caller: AccountId,
        token_id: TokenId,
        from: AccountId,
        amount: Balance,
    ) -> FactoryView {
        if self.burn_result(caller, token_id, from, amount) is Ok {
            FactoryView {
                ledger: self.ledger.with_balance(
                    token_id,
                    from,
                    (self.ledger.balance(token_id, from) - amount) as Balance,
                ).with_supply(
                    token_id,
                    (self.ledger.total_supply(token_id) - amount) as Balance,
                ),
                events: self.events.push(Event::Burned { token_id, from, amount }),
            }
        } else {
            self
        }
    }

    /// How a call to transfer ends.
    pub open spec fn transfer_result(
        self,
        caller: AccountId,
        token_id: TokenId,
        amount: Balance,
    ) -> Result<(), LedgerError> {
        self.ledger.debit_result(token_id, caller, amount)
    }

    /// The ledger in which the sender's balance is lowered by `amount` and
    /// then the receiver's is raised by `amount`.
    pub open spec fn moved(
        self,
        token_id: TokenId,
        from: AccountId,
        to: AccountId,
        amount: Balance,
    ) -> LedgerView {
        let debited = self.ledger.with_balance(
            token_id,
            from,
            (self.ledger.balance(token_id, from) - amount) as Balance,
        );
        debited.with_balance(token_id, to, (debited.balance(token_id, to) + amount) as Balance)
    }

    /// The factory after a call to transfer: the amount has moved from the
    /// caller to the receiver, or nothing differs where the call is refused.
    pub open spec fn after_transfer(
        self,
        caller: AccountId,
        token_id: TokenId,
        to: AccountId,
        amount: Balance,
    ) -> FactoryView {
        if self.transfer_result(caller, token_id, amount) is Ok {
            FactoryView {
                ledger: self.moved(token_id, caller, to, amount),
                events: self.events.push(
                    Event::Transferred { token_id, from: caller, to, amount },
                ),
            }
        } else {
            self
        }
    }

    /// How the call ends.
    pub open spec fn call_result(self, call: Call) -> Result<(), LedgerError> {
        match call {
            Call::CreateToken { token_id, .. } => self.create_result(token_id),
            Call::Mint { caller, token_id, amount, .. } => self.mint_result(
                caller,
                token_id,
                amount,
            ),
            Call::Burn { caller, token_id, from, amount } => self.burn_result(
                caller,
                token_id,
                from,
                amount,
            ),
            Call::Transfer { caller, token_id, amount, .. } => self.transfer_result(
                caller,
                token_id,
                amount,
            ),
        }
    }

    /// The factory after the call.
    pub open spec fn after_call(self, call: Call) -> FactoryView {
        match call {
            Call::CreateToken { creator, token_id, initial_supply } => self.after_create(
                creator,
                token_id,
                initial_supply,
            ),
            Call::Mint { caller, token_id, to, amount } => self.after_mint(
                caller,
                token_id,
                to,
                amount,
            ),
            Call::Burn { caller, token_id, from, amount } => self.after_burn(
                caller,
                token_id,
                from,
                amount,
            ),
            Call::Transfer { caller, token_id, to, amount } => self.after_transfer(
                caller,
                token_id,
                to,
                amount,
            ),
        }
    }

    /// The factory after the calls, made one after the other in their order.
    pub open spec fn after_calls(self, calls: Seq<Call>) -> FactoryView
        decreases calls.len(),
    {
        if calls.len() == 0 {
            self
        } else {
            self.after_calls(calls.drop_last()).after_call(calls.last())
        }
    }

    /// Creating a token keeps the factory valid.
    pub proof fn lemma_create_valid(
        self,
        creator: AccountId,
        token_id: TokenId,
        initial_supply: Balance,
    )
        requires
            self.valid(),
        ensures
            self.after_create(creator, token_id, initial_supply).valid(),
    {
        if self.create_result(token_id) is Ok {
            let recorded = LedgerView {
                metas: self.ledger.metas.insert(
                    token_id,
                    TokenMeta { owner: creator, total_supply: initial_supply, exists: true },
                ),
                balances: self.ledger.balances,
            };
            let next = self.ledger.after_create(creator, token_id, initial_supply);
            assert(next == recorded.with_balance(token_id, creator, initial_supply));
            self.ledger.lemma_unknown_token_is_empty(token_id);
            assert(!self.ledger.balances.contains_key((token_id, creator)));
            assert forall|t: TokenId| #[trigger] next.circulating(t) == next.total_supply(t) by {
                recorded.lemma_with_balance_circulating(token_id, creator, initial_supply, t);
                assert(recorded.holdings(t) == self.ledger.holdings(t));
                assert(self.ledger.circulating(t) == self.ledger.total_supply(t));
            }
        }
    }

    /// Minting keeps the factory valid, and the receiver's balance in range.
    pub proof fn lemma_mint_valid(
        self,
        caller: AccountId,
        token_id: TokenId,
        to: AccountId,
        amount: Balance,
    )
        requires
            self.valid(),
        ensures
            self.after_mint(caller, token_id, to, amount).valid(),
            self.mint_result(caller, token_id, amount) is Ok ==> self.ledger.credit_result(
                token_id,
                to,
                amount,
            ) is Ok,
    {
        if self.mint_result(caller, token_id, amount) is Ok {
            let held = self.ledger.balance(token_id, to);
            let supply = self.ledger.total_supply(token_id);
            self.ledger.lemma_balance_within_circulating(token_id, to);
            assert(self.ledger.circulating(token_id) == supply);
            let credited = self.ledger.with_balance(token_id, to, (held + amount) as Balance);
            let next = credited.with_supply(token_id, (supply + amount) as Balance);
            assert forall|t: TokenId| #[trigger] next.circulating(t) == next.total_supply(t) by {
                self.ledger.lemma_with_balance_circulating(
                    token_id,
                    to,
                    (held + amount) as Balance,
                    t,
                );
                assert(next.holdings(t) == credited.holdings(t));
                assert(self.ledger.circulating(t) == self.ledger.total_supply(t));
            }
        }
    }

    /// Burning keeps the factory valid, and the supply in range.
    pub proof fn lemma_burn_valid(
        self,
        caller: AccountId,
        token_id: TokenId,
        from: AccountId,
        amount: Balance,
    )
        requires
            self.valid(),
        ensures
            self.after_burn(caller, token_id, from, amount).valid(),
            self.burn_result(caller, token_id, from, amount) is Ok ==> amount
                <= self.ledger.total_supply(token_id),
    {
        if self.burn_result(caller, token_id, from, amount) is Ok {
            let held = self.ledger.balance(token_id, from);
            let supply = self.ledger.total_supply(token_id);
            self.ledger.lemma_balance_within_circulating(token_id, from);
            assert(self.ledger.circulating(token_id) == supply);
            let debited = self.ledger.with_balance(token_id, from, (held - amount) as Balance);
            let next = debited.with_supply(token_id, (supply - amount) as Balance);
            assert forall|t: TokenId| #[trigger] next.circulating(t) == next.total_supply(t) by {
                self.ledger.lemma_with_balance_circulating(
                    token_id,
                    from,
                    (held - amount) as Balance,
                    t,
                );
                assert(next.holdings(t) == debited.holdings(t));
                assert(self.ledger.circulating(t) == self.ledger.total_supply(t));
            }
        }
    }

    /// Transferring keeps the factory valid, and the receiver's balance in
    /// range: once the sender is debited, crediting the receiver cannot fail.
    pub proof fn lemma_transfer_valid(
        self,
        caller: AccountId,
        token_id: TokenId,
        to: AccountId,
        amount: Balance,
    )
        requires
            self.valid(),
        ensures
            self.after_transfer(caller, token_id, to, amount).valid(),
            self.transfer_result(caller, token_id, amount) is Ok ==> self.ledger.after_debit(
                token_id,
                caller,
                amount,
            ).credit_result(token_id, to, amount) is Ok,
            self.transfer_result(caller, token_id, amount) is Ok ==> self.moved(
                token_id,
                caller,
                to,
                amount,
            ) == self.ledger.after_debit(token_id, caller, amount).after_credit(
                token_id,
                to,
                amount,
            ),
    {
        if self.transfer_result(caller, token_id, amount) is Ok {
            let held = self.ledger.balance(token_id, caller);
            let debited = self.ledger.with_balance(token_id, caller, (held - amount) as Balance);
            let gets = debited.balance(token_id, to);
            self.ledger.lemma_with_balance_circulating(
                token_id,
                caller,
                (held - amount) as Balance,
                token_id,
            );
            debited.lemma_balance_within_circulating(token_id, to);
            assert(self.ledger.circulating(token_id) == self.ledger.total_supply(token_id));
            let next = debited.with_balance(token_id, to, (gets + amount) as Balance);
            assert forall|t: TokenId| #[trigger] next.circulating(t) == next.total_supply(t) by {
                self.ledger.lemma_with_balance_circulating(
                    token_id,
                    caller,
                    (held - amount) as Balance,
                    t,
                );
                debited.lemma_with_balance_circulating(token_id, to, (gets + amount) as Balance, t);
                assert(self.ledger.circulating(t) == self.ledger.total_supply(t));
            }
        }
    }
}

/// The ledger together with the log of its changes. Every call either takes
/// full effect and is recorded, or is refused and leaves no trace.
pub struct TokenFactory {
    ledger: Ledger,
    events: EventLog,
}

impl View for TokenFactory {
    type V = FactoryView;

    closed spec fn view(&self) -> FactoryView {
        FactoryView { ledger: self.ledger@, events: self.events@ }
    }
}

impl TokenFactory {
    /// The store is consistent and the balances of every token add up to its
    /// declared supply.
    pub closed spec fn wf(&self) -> bool {
        self.ledger.wf() && self.ledger@.conserved()
    }

    /// A consistent factory shows a valid state.
    pub proof fn lemma_view_valid(&self)
        requires
            self.wf(),
        ensures
            self@.valid(),
    {
        self.ledger.lemma_view_well_formed();
    }

    /// A factory without tokens or events.
    pub fn new() -> (factory: TokenFactory)
        ensures
            factory.wf(),
            factory@ == FactoryView::empty(),
    {
        let factory = TokenFactory { ledger: Ledger::new(), events: EventLog::new() };
        proof {
            assert forall|t: TokenId| #[trigger]
                factory.ledger@.circulating(t) == factory.ledger@.total_supply(t) by {
                factory.ledger.lemma_view_well_formed();
                factory.ledger@.lemma_unknown_token_is_empty(t);
            }
        }
        factory
    }

    /// The factory after the calls, made one after the other on a new
    /// factory. Calls that are refused on the way leave no trace.
    pub fn replay(calls: &Vec<Call>) -> (factory: TokenFactory)
        ensures
            factory.wf(),
            factory@ == FactoryView::empty().after_calls(calls@),
    {
        let mut factory = TokenFactory::new();
        let mut done: usize = 0;
        proof {
            assert(calls@.take(0) =~= Seq::<Call>::empty());
        }
        while done < calls.len()
            invariant
                done <= calls@.len(),
                factory.wf(),
                factory@ == FactoryView::empty().after_calls(calls@.take(done as int)),
            decreases calls@.len() - done,
        {
            let _ = factory.dispatch(calls[done]);
            proof {
                let next = calls@.take(done + 1);
                assert(next.drop_last() =~= calls@.take(done as int));
                assert(next.last() == calls@[done as int]);
            }
            done += 1;
        }
        proof {
            assert(calls@.take(done as int) =~= calls@);
        }
        factory
    }

    /// The events recorded so far, oldest first.
    pub fn events(&self) -> (log: &EventLog)
        ensures
            log@ == self@.events,
    {
        &self.events
    }

    /// The record of the token, if it was created.
    pub fn token_meta(&self, token_id: TokenId) -> (meta: Option<TokenMeta>)
        requires
            self.wf(),
        ensures
            meta == if self@.ledger.has_token(token_id) {
                Some(self@.ledger.metas[token_id])
            } else {
                None
            },
    {
        self.ledger.token_meta(token_id)
    }

    /// The declared supply of the token, zero where there is no such token.
    pub fn total_supply(&self, token_id: TokenId) -> (supply: Balance)
        requires
            self.wf(),
        ensures
            supply == self@.ledger.total_supply(token_id),
            supply == self@.ledger.circulating(token_id),
    {
        self.ledger.total_supply(token_id)
    }

    /// What the account holds of the token, zero where nothing is recorded.
    pub fn balance_of(&self, token_id: TokenId, account: AccountId) -> (amount: Balance)
        requires
            self.wf(),
        ensures
            amount == self@.ledger.balance(token_id, account),
    {
        self.ledger.balance_of(token_id, account)
    }

    /// Whether the caller may raise the supply of the token.
    pub fn may_mint(&self, caller: AccountId, token_id: TokenId) -> (allowed: bool)
        requires
            self.wf(),
        ensures
            allowed == self@.may_mint(caller, token_id),
    {
        match self.ledger.token_meta(token_id) {
            Some(meta) => meta.owner == caller,
            None => false,
        }
    }

    /// Whether the caller may destroy tokens that the account holds.
    pub fn may_burn(&self, caller: AccountId, token_id: TokenId, from: AccountId) -> (allowed: bool)
        requires
            self.wf(),
        ensures
            allowed == self@.may_burn(caller, token_id, from),
    {
        caller == from || self.may_mint(caller, token_id)
    }

    /// Creates the token, hands the initial supply to the creator and records
    /// the creation. Refused where the identifier is taken.
    pub fn create_token(
        &mut self,
        creator: AccountId,
        token_id: TokenId,
        initial_supply: Balance,
    ) -> (result: Result<(), LedgerError>)
        requires
            old(self).wf(),
        ensures
            final(self).wf(),
            result == old(self)@.create_result(token_id),
            final(self)@ == old(self)@.after_create(creator, token_id, initial_supply),
    {
        proof {
            self.lemma_view_valid();
            self@.lemma_create_valid(creator, token_id, initial_supply);
        }
        match self.ledger.create_token(creator, token_id, initial_supply) {
            Ok(()) => {
                self.events.append(Event::Created { token_id, creator, supply: initial_supply });
                Ok(())
            },
            Err(e) => Err(e),
        }
    }

    /// Raises the supply of the token by the amount and credits it to the
    /// receiver. Only the token's owner may do so.
    pub fn mint(
        &mut self,
        caller: AccountId,
        token_id: TokenId,
        to: AccountId,
        amount: Balance,
    ) -> (result: Result<(), LedgerError>)
        requires
            old(self).wf(),
        ensures
            final(self).wf(),
            result == old(self)@.mint_result(caller, token_id, amount),
            final(self)@ == old(self)@.after_mint(caller, token_id, to, amount),
    {
        proof {
            self.lemma_view_valid();
            self@.lemma_mint_valid(caller, token_id, to, amount);
        }
        let meta = match self.ledger.token_meta(token_id) {
            Some(meta) => meta,
            None => {
                return Err(LedgerError::UnknownToken);
            },
        };
        if !self.may_mint(caller, token_id) {
            return Err(LedgerError::NotAuthorized);
        }
        if amount > Balance::MAX - meta.total_supply {
            return Err(LedgerError::Overflow);
        }
        let credited = self.ledger.credit(token_id, to, amount);
        assert(credited is Ok);
        self.ledger.set_total_supply(token_id, meta.total_supply + amount);
        self.events.append(Event::Minted { token_id, to, amount });
        Ok(())
    }

    /// Takes the amount from the account and lowers the supply of the token
    /// by it. The account itself and the token's owner may do so.
    pub fn burn(
        &mut self,
        caller: AccountId,
        token_id: TokenId,
        from: AccountId,
        amount: Balance,
    ) -> (result: Result<(), LedgerError>)
        requires
            old(self).wf(),
        ensures
            final(self).wf(),
            result == old(self)@.burn_result(caller, token_id, from, amount),
            final(self)@ == old(self)@.after_burn(caller, token_id, from, amount),
    {
        proof {
            self.lemma_view_valid();
            self@.lemma_burn_valid(caller, token_id, from, amount);
        }
        let meta = match self.ledger.token_meta(token_id) {
            Some(meta) => meta,
            None => {
                return Err(LedgerError::UnknownToken);
            },
        };
        if !self.may_burn(caller, token_id, from) {
            return Err(LedgerError::NotAuthorized);
        }
        if amount > self.ledger.balance_of(token_id, from) {
            return Err(LedgerError::InsufficientBalance);
        }
        let debited = self.ledger.debit(token_id, from, amount);
        assert(debited is Ok);
        self.ledger.set_total_supply(token_id, meta.total_supply - amount);
        self.events.append(Event::Burned { token_id, from, amount });
        Ok(())
    }

    /// Moves the amount of the token from the caller to the receiver. Refused
    /// where the token does not exist or the caller holds less.
    pub fn transfer(
        &mut self,
        caller: AccountId,
        token_id: TokenId,
        to: AccountId,
        amount: Balance,
    ) -> (result: Result<(), LedgerError>)
        requires
            old(self).wf(),
        ensures
            final(self).wf(),
            result == old(self)@.transfer_result(caller, token_id, amount),
            final(self)@ == old(self)@.after_transfer(caller, token_id, to, amount),
    {
        proof {
            self.lemma_view_valid();
            self@.lemma_transfer_valid(caller, token_id, to, amount);
        }
        match self.ledger.debit(token_id, caller, amount) {
            Ok(()) => {},
            Err(e) => {
                return Err(e);
            },
        }
        let credited = self.ledger.credit(token_id, to, amount);
        assert(credited is Ok);
        self.events.append(Event::Transferred { token_id, from: caller, to, amount });
        Ok(())
    }

    /// Carries out one inbound call.
    pub fn dispatch(&mut self, call: Call) -> (result: Result<(), LedgerError>)
        requires
            old(self).wf(),
        ensures
            final(self).wf(),
            result == old(self)@.call_result(call),
            final(self)@ == old(self)@.after_call(call),
    {
        match call {
            Call::CreateToken { creator, token_id, initial_supply } => self.create_token(
                creator,
                token_id,
                initial_supply,
            ),
            Call::Mint { caller, token_id, to, amount } => self.mint(caller, token_id, to, amount),
            Call::Burn { caller, token_id, from, amount } => self.burn(
                caller,
                token_id,
                from,
                amount,
            ),
            Call::Transfer { caller, token_id, to, amount } => self.transfer(
                caller,
                token_id,
                to,
                amount,
            ),
        }
    }
}

} // verus!
