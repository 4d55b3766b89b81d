//! The mathematical model of the ledger: which tokens exist, who holds how
//! much of each, and what the store's operations make of such a state.

use vstd::prelude::*;
use crate::account::AccountId;
use crate::error::LedgerError;

verus! {

/// Names one fungible token kind.
pub type TokenId = u8;

/// An amount of a token.
pub type Balance = u64;

/// Names one balance: the token and the account that holds it.
pub type HoldingKey = (TokenId, AccountId);

/// What the ledger records of one token.
#[derive(Clone, Copy, Debug, PartialEq, Eq)]
pub struct TokenMeta {
    /// The account that created the token and may change its supply.
    pub owner: AccountId,
    /// How much of the token is in circulation.
    pub total_supply: Balance,
    /// Whether the token was created.
    pub exists: bool,
}

/// The sum of the values of a finite map.
pub open spec fn map_sum<K>(m: Map<K, Balance>) -> nat
    decreases m.dom().len(),
    when m.dom().finite()
{
    if m.dom().is_empty() {
        0
    } else {
        let k = m.dom().choose();
        (m[k] + map_sum(m.remove(k))) as nat
    }
}

/// The sum of a map is the value at any one key plus the sum of the rest.
pub proof fn lemma_sum_remove<K>(m: Map<K, Balance>, k: K)
    requires
        m.dom().finite(),
        m.contains_key(k),
    ensures
        map_sum(m) == m[k] + map_sum(m.remove(k)),
    decreases m.dom().len(),
{
    let c = m.dom().choose();
    if c != k {
        lemma_sum_remove(m.remove(c), k);
        lemma_sum_remove(m.remove(k), c);
        assert(m.remove(c).remove(k) =~= m.remove(k).remove(c));
    }
}

/// Writing a value at a key changes the sum by the difference to what stood
/// there before, where a missing key counts as zero.
pub proof fn lemma_sum_insert<K>(m: Map<K, Balance>, k: K, v: Balance)
    requires
        m.dom().finite(),
    ensures
        map_sum(m.insert(k, v)) + (if m.contains_key(k) { m[k] } else { 0 }) == map_sum(m) + v,
{
    let n = m.insert(k, v);
    lemma_sum_remove(n, k);
    if m.contains_key(k) {
        lemma_sum_remove(m, k);
        assert(n.remove(k) =~= m.remove(k));
    } else {
        assert(n.remove(k) =~= m);
    }
}

/// Taking a key away lowers the sum by what stood there, where a missing key
/// counts as zero.
pub proof fn lemma_sum_without<K>(m: Map<K, Balance>, k: K)
    requires
        m.dom().finite(),
    ensures
        map_sum(m.remove(k)) + (if m.contains_key(k) { m[k] } else { 0 }) == map_sum(m),
{
    if m.contains_key(k) {
        lemma_sum_remove(m, k);
    } else {
        assert(m.remove(k) =~= m);
    }
}

/// The balances and token records of a ledger.
#[verifier::ext_equal]
pub struct LedgerView {
    /// The record of each token that was created.
    pub metas: Map<TokenId, TokenMeta>,
    /// The balances that are not zero.
    pub balances: Map<HoldingKey, Balance>,
}

impl LedgerView {
    /// The ledger without any token.
    pub open spec fn empty() -> LedgerView {
        LedgerView { metas: Map::empty(), balances: Map::empty() }
    }

    /// Whether the token was created.
    pub open spec fn has_token(self, token_id: TokenId) -> bool {
        self.metas.contains_key(token_id)
    }

    /// Whether the account is the recorded owner of the token.
    pub open spec fn is_owner(self, token_id: TokenId, account: AccountId) -> bool {
        self.has_token(token_id) && self.metas[token_id].owner == account
    }

    /// The declared supply of the token, zero where there is no such token.
    pub open spec fn total_supply(self, token_id: TokenId) -> Balance {
        if self.has_token(token_id) {
            self.metas[token_id].total_supply
        } else {
            0
        }
    }

    /// What the account holds of the token, zero where nothing is recorded.
    pub open spec fn balance(self, token_id: TokenId, account: AccountId) -> Balance {
        if self.balances.contains_key((token_id, account)) {
            self.balances[(token_id, account)]
        } else {
            0
        }
    }

    /// The recorded balances of one token.
    pub open spec fn holdings(self, token_id: TokenId) -> Map<HoldingKey, Balance> {
        self.balances.restrict(Set::new(|k: HoldingKey| k.0 == token_id))
    }

    /// The sum of what all accounts hold of the token. Accounts without a
    /// recorded balance hold zero and add nothing.
    pub open spec fn circulating(self, token_id: TokenId) -> nat {
        map_sum(self.holdings(token_id))
    }

    /// Finitely many balances are recorded, none of them zero, and each for
    /// a token that exists; every token record is flagged as existing.
    pub open spec fn well_formed(self) -> bool {
        &&& self.balances.dom().finite()
        &&& forall|k: HoldingKey| #[trigger]
            self.balances.contains_key(k) ==> self.balances[k] > 0 && self.metas.contains_key(k.0)
        &&& forall|t: TokenId| #[trigger] self.metas.contains_key(t) ==> self.metas[t].exists
    }

    /// For every token, the balances of all accounts add up to its declared
    /// supply.
    pub open spec fn conserved(self) -> bool {
        forall|t: TokenId| #[trigger] self.circulating(t) == self.total_supply(t)
    }

    /// The ledger in which the account holds exactly `amount` of the token
    /// and nothing else differs.
    pub open spec fn with_balance(
        self,
        token_id: TokenId,
        account: AccountId,
        amount: Balance,
    ) -> LedgerView {
        LedgerView {
            metas: self.metas,
            balances: if amount == 0 {
                self.balances.remove((token_id, account))
            } else {
                self.balances.insert((token_id, account), amount)
            },
        }
    }

    /// The ledger in which the declared supply of the token is `supply` and
    /// nothing else differs.
    pub open spec fn with_supply(self, token_id: TokenId, supply: Balance) -> LedgerView {
        LedgerView {
            metas: self.metas.insert(
                token_id,
                TokenMeta { total_supply: supply, ..self.metas[token_id] },
            ),
            balances: self.balances,
        }
    }

    /// How creating the token ends.
    pub open spec fn create_result(self, token_id: TokenId) -> Result<(), LedgerError> {
        if self.has_token(token_id) {
            Err(LedgerError::AlreadyExists)
        } else {
            Ok(())
        }
    }

    /// The ledger after an attempt to create the token: with the new record
    /// and the whole supply in the creator's hands, or as before where the
    /// identifier is taken.
    pub open spec fn after_create(
        self,
        creator: AccountId,
        token_id: TokenId,
        initial_supply: Balance,
    ) -> LedgerView {
        if self.create_result(token_id) is Ok {
            LedgerView {
                metas: self.metas.insert(
                    token_id,
                    TokenMeta { owner: creator, total_supply: initial_supply, exists: true },
                ),
                balances: self.balances,
            }.with_balance(token_id, creator, initial_supply)
        } else {
            self
        }
    }

    /// How crediting the account ends.
    pub open spec fn credit_result(
        self,
        token_id: TokenId,
        account: AccountId,
        amount: Balance,
    ) -> Result<(), LedgerError> {
        if !self.has_token(token_id) {
            Err(LedgerError::UnknownToken)
        } else if self.balance(token_id, account) + amount > Balance::MAX {
            Err(LedgerError::Overflow)
        } else {
            Ok(())
        }
    }

    /// The ledger after an attempt to credit the account.
    pub open spec fn after_credit(
        self,
        token_id: TokenId,
        account: AccountId,
        amount: Balance,
    ) -> LedgerView {
        if self.credit_result(token_id, account, amount) is Ok {
            self.with_balance(
                token_id,
                account,
                (self.balance(token_id, account) + amount) as Balance,
            )
        } else {
            self
        }
    }

    /// How debiting the account ends.
    pub open spec fn debit_result(
        self,
        token_id: TokenId,
        account: AccountId,
        amount: Balance,
    ) -> Result<(), LedgerError> {
        if !self.has_token(token_id) {
            Err(LedgerError::UnknownToken)
        } else if amount > self.balance(token_id, account) {
            Err(LedgerError::InsufficientBalance)
        } else {
            Ok(())
        }
    }

    /// The ledger after an attempt to debit the account.
    pub open spec fn after_debit(
        self,
        token_id: TokenId,
        account: AccountId,
        amount: Balance,
    ) -> LedgerView {
        if self.debit_result(token_id, account, amount) is Ok {
            self.with_balance(
                token_id,
                account,
                (self.balance(token_id, account) - amount) as Balance,
            )
        } else {
            self
        }
    }

    /// Finitely many balances of each token are recorded.
    pub proof fn lemma_holdings_finite(self, token_id: TokenId)
        requires
            self.balances.dom().finite(),
        ensures
            self.holdings(token_id).dom().finite(),
    {
        let of_token = Set::new(|k: HoldingKey| k.0 == token_id);
        assert(self.holdings(token_id).dom() =~= self.balances.dom().intersect(of_token));
    }

    /// Setting one balance moves the circulating amount of its token by the
    /// difference to the old balance and leaves every other token alone.
    pub proof fn lemma_with_balance_circulating(
        self,
        token_id: TokenId,
        account: AccountId,
        amount: Balance,
        other: TokenId,
    )
        requires
            self.balances.dom().finite(),
        ensures
            other != token_id ==> self.with_balance(token_id, account, amount).circulating(other)
                == self.circulating(other),
            self.with_balance(token_id, account, amount).circulating(token_id) + self.balance(
                token_id,
                account,
            ) == self.circulating(token_id) + amount,
    {
        let next = self.with_balance(token_id, account, amount);
        let key = (token_id, account);
        if other != token_id {
            assert(next.holdings(other) =~= self.holdings(other));
        }
        let held = self.holdings(token_id);
        self.lemma_holdings_finite(token_id);
        if amount == 0 {
            assert(next.holdings(token_id) =~= held.remove(key));
            lemma_sum_without(held, key);
        } else {
            assert(next.holdings(token_id) =~= held.insert(key, amount));
            lemma_sum_insert(held, key, amount);
        }
    }

    /// No account holds more of a token than circulates of it.
    pub proof fn lemma_balance_within_circulating(self, token_id: TokenId, account: AccountId)
        requires
            self.balances.dom().finite(),
        ensures
            self.balance(token_id, account) <= self.circulating(token_id),
    {
        let key = (token_id, account);
        if self.balances.contains_key(key) {
            self.lemma_holdings_finite(token_id);
            lemma_sum_remove(self.holdings(token_id), key);
        }
    }

    /// Of a token that does not exist nothing circulates.
    pub proof fn lemma_unknown_token_is_empty(self, token_id: TokenId)
        requires
            self.well_formed(),
            !self.has_token(token_id),
        ensures
            self.circulating(token_id) == 0,
    {
        assert(self.holdings(token_id) =~= Map::<HoldingKey, Balance>::empty());
    }
}

} // verus!
