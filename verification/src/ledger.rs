//! The store of token records and balances, with the operations that read and
//! change single balances.

use vstd::prelude::*;
use crate::account::AccountId;
use crate::error::LedgerError;
use crate::model::{Balance, HoldingKey, LedgerView, TokenId, TokenMeta};

verus! {

/// How many token identifiers there are.
pub const TOKEN_SLOTS: usize = 256;

/// One recorded balance.
struct Holding {
    token_id: TokenId,
    account: AccountId,
    amount: Balance,
}

/// The token and account of the entry at a position.
spec fn key_at(s: Seq<Holding>, i: int) -> HoldingKey {
    (s[i].token_id, s[i].account)
}

/// Whether some entry is for the token and account.
spec fn has_key(s: Seq<Holding>, k: HoldingKey) -> bool {
    exists|i: int| 0 <= i < s.len() && #[trigger] key_at(s, i) == k
}

/// A position at which the entry for the token and account stands.
spec fn slot_of(s: Seq<Holding>, k: HoldingKey) -> int {
    choose|i: int| 0 <= i < s.len() && #[trigger] key_at(s, i) == k
}

/// No two entries are for the same token and account.
spec fn distinct_keys(s: Seq<Holding>) -> bool {
    forall|i: int, j: int|
        #![trigger key_at(s, i), key_at(s, j)]
        0 <= i < j < s.len() ==> key_at(s, i) != key_at(s, j)
}

/// The balances that the entries record.
spec fn balances_of(s: Seq<Holding>) -> Map<HoldingKey, Balance> {
    Map::new(|k: HoldingKey| has_key(s, k), |k: HoldingKey| s[slot_of(s, k)].amount)
}

/// The records of the tokens whose slot is flagged as existing.
spec fn metas_of(m: Seq<TokenMeta>) -> Map<TokenId, TokenMeta> {
    Map::new(|t: TokenId| m[t as int].exists, |t: TokenId| m[t as int])
}

/// Among distinct entries, each is found at its own position and records
/// its own amount.
proof fn lemma_lookup(s: Seq<Holding>, i: int)
    requires
        distinct_keys(s),
        0 <= i < s.len(),
    ensures
        has_key(s, key_at(s, i)),
        slot_of(s, key_at(s, i)) == i,
        balances_of(s).contains_key(key_at(s, i)),
        balances_of(s)[key_at(s, i)] == s[i].amount,
{
    let k = key_at(s, i);
    let j = slot_of(s, k);
    assert(key_at(s, j) == key_at(s, i));
}

/// Finitely many entries record finitely many balances.
proof fn lemma_finite(s: Seq<Holding>)
    ensures
        balances_of(s).dom().finite(),
    decreases s.len(),
{
    if s.len() == 0 {
        assert(balances_of(s).dom() =~= Set::<HoldingKey>::empty());
    } else {
        let front = s.drop_last();
        let last = key_at(s, s.len() - 1);
        lemma_finite(front);
        assert forall|k: HoldingKey| has_key(s, k) <==> (has_key(front, k) || k == last) by {
            if has_key(s, k) {
                let i = slot_of(s, k);
                if i < s.len() - 1 {
                    assert(key_at(front, i) == k);
                }
            }
            if has_key(front, k) {
                let i = slot_of(front, k);
                assert(key_at(s, i) == k);
            }
        }
        assert(balances_of(s).dom() =~= balances_of(front).dom().insert(last));
    }
}

/// Changing the amount of one entry writes that amount at its key.
proof fn lemma_update(s: Seq<Holding>, i: int, amount: Balance)
    requires
        distinct_keys(s),
        0 <= i < s.len(),
    ensures
        distinct_keys(s.update(i, Holding { amount, ..s[i] })),
        balances_of(s.update(i, Holding { amount, ..s[i] })) == balances_of(s).insert(
            key_at(s, i),
            amount,
        ),
{
    let t = s.update(i, Holding { amount, ..s[i] });
    assert forall|j: int| 0 <= j < s.len() implies #[trigger] key_at(t, j) == key_at(s, j) by {}
    assert(distinct_keys(t)) by {
        assert forall|a: int, b: int| 0 <= a < b < t.len() implies #[trigger] key_at(t, a)
            != #[trigger] key_at(t, b) by {
            assert(key_at(s, a) != key_at(s, b));
        }
    }
    lemma_lookup(s, i);
    assert forall|k: HoldingKey| has_key(t, k) <==> has_key(s, k) by {
        if has_key(t, k) {
            assert(key_at(s, slot_of(t, k)) == k);
        }
        if has_key(s, k) {
            assert(key_at(t, slot_of(s, k)) == k);
        }
    }
    assert forall|k: HoldingKey| has_key(t, k) implies #[trigger] balances_of(t)[k] == balances_of(
        s,
    ).insert(key_at(s, i), amount)[k] by {
        let j = slot_of(t, k);
        lemma_lookup(t, j);
        lemma_lookup(s, j);
        if j != i {
            if j < i {
                assert(key_at(s, j) != key_at(s, i));
            } else {
                assert(key_at(s, i) != key_at(s, j));
            }
        }
    }
    assert(balances_of(t) =~= balances_of(s).insert(key_at(s, i), amount));
}

/// Adding an entry for a key that has none writes its amount at that key.
proof fn lemma_push(s: Seq<Holding>, h: Holding)
    requires
        distinct_keys(s),
        !has_key(s, (h.token_id, h.account)),
    ensures
        distinct_keys(s.push(h)),
        balances_of(s.push(h)) == balances_of(s).insert((h.token_id, h.account), h.amount),
{
    let t = s.push(h);
    let new_key = (h.token_id, h.account);
    let last = s.len() as int;
    assert forall|j: int| 0 <= j < s.len() implies #[trigger] key_at(t, j) == key_at(s, j) by {}
    assert(key_at(t, last) == new_key);
    assert(distinct_keys(t)) by {
        assert forall|a: int, b: int| 0 <= a < b < t.len() implies #[trigger] key_at(t, a)
            != #[trigger] key_at(t, b) by {
            if b < last {
                assert(key_at(s, a) != key_at(s, b));
            } else {
                assert(key_at(s, a) == key_at(t, a));
            }
        }
    }
    assert forall|k: HoldingKey| has_key(t, k) <==> (has_key(s, k) || k == new_key) by {
        if has_key(t, k) {
            let j = slot_of(t, k);
            if j < last {
                assert(key_at(s, j) == k);
            }
        }
        if has_key(s, k) {
            assert(key_at(t, slot_of(s, k)) == k);
        }
    }
    assert forall|k: HoldingKey| has_key(t, k) implies #[trigger] balances_of(t)[k] == balances_of(
        s,
    ).insert(new_key, h.amount)[k] by {
        let j = slot_of(t, k);
        lemma_lookup(t, j);
        if j < last {
            lemma_lookup(s, j);
        }
    }
    assert(balances_of(t) =~= balances_of(s).insert(new_key, h.amount));
}

/// Taking an entry out takes its key out of the balances.
proof fn lemma_remove(s: Seq<Holding>, i: int)
    requires
        distinct_keys(s),
        0 <= i < s.len(),
    ensures
        distinct_keys(s.remove(i)),
        balances_of(s.remove(i)) == balances_of(s).remove(key_at(s, i)),
{
    let t = s.remove(i);
    let gone = key_at(s, i);
    assert forall|j: int| 0 <= j < t.len() implies #[trigger] key_at(t, j) == key_at(
        s,
        if j < i {
            j
        } else {
            j + 1
        },
    ) by {}
    assert(distinct_keys(t)) by {
        assert forall|a: int, b: int| 0 <= a < b < t.len() implies #[trigger] key_at(t, a)
            != #[trigger] key_at(t, b) by {
            let a2 = if a < i { a } else { a + 1 };
            let b2 = if b < i { b } else { b + 1 };
            assert(key_at(s, a2) != key_at(s, b2));
        }
    }
    assert forall|k: HoldingKey| has_key(t, k) <==> (has_key(s, k) && k != gone) by {
        if has_key(t, k) {
            let j = slot_of(t, k);
            let j2 = if j < i { j } else { j + 1 };
            assert(key_at(s, j2) == k);
            if j2 < i {
                assert(key_at(s, j2) != key_at(s, i));
            } else {
                assert(key_at(s, i) != key_at(s, j2));
            }
        }
        if has_key(s, k) && k != gone {
            let j = slot_of(s, k);
            let j2 = if j < i { j } else { j - 1 };
            assert(key_at(t, j2) == k);
        }
    }
    assert forall|k: HoldingKey| has_key(t, k) implies #[trigger] balances_of(t)[k] == balances_of(
        s,
    ).remove(gone)[k] by {
        let j = slot_of(t, k);
        let j2 = if j < i { j } else { j + 1 };
        lemma_lookup(t, j);
        lemma_lookup(s, j2);
    }
    assert(balances_of(t) =~= balances_of(s).remove(gone));
}

/// The token records and the balances of all accounts.
pub struct Ledger {
    metas: Vec<TokenMeta>,
    holdings: Vec<Holding>,
}

impl View for Ledger {
    type V = LedgerView;

    closed spec fn view(&self) -> LedgerView {
        LedgerView { metas: metas_of(self.metas@), balances: balances_of(self.holdings@) }
    }
}

impl Ledger {
    /// The store's own consistency: one slot per token identifier, at most
    /// one entry per token and account, no entry of zero, and no entry for a
    /// token that does not exist.
    pub closed spec fn wf(&self) -> bool {
        &&& self.metas@.len() == TOKEN_SLOTS
        &&& distinct_keys(self.holdings@)
        &&& forall|i: int|
            0 <= i < self.holdings@.len() ==> (#[trigger] self.holdings@[i]).amount > 0
                && self.metas@[self.holdings@[i].token_id as int].exists
    }

    /// A consistent store shows a well-formed ledger.
    pub proof fn lemma_view_well_formed(&self)
        requires
            self.wf(),
        ensures
            self@.well_formed(),
    {
        let s = self.holdings@;
        lemma_finite(s);
        assert forall|k: HoldingKey| #[trigger] self@.balances.contains_key(k) implies self@.balances[k]
            > 0 && self@.metas.contains_key(k.0) by {
            let j = slot_of(s, k);
            assert(key_at(s, j) == k);
            assert(s[j].amount > 0);
        }
    }

    /// A store without any token.
    pub fn new() -> (ledger: Ledger)
        ensures
            ledger.wf(),
            ledger@ == LedgerView::empty(),
    {
        let blank = TokenMeta { owner: AccountId::zero(), total_supply: 0, exists: false };
        let mut metas: Vec<TokenMeta> = Vec::new();
        let mut i: usize = 0;
        while i < TOKEN_SLOTS
            invariant
                i <= TOKEN_SLOTS,
                metas@.len() == i,
                !blank.exists,
                forall|j: int| 0 <= j < i ==> !metas@[j].exists,
            decreases TOKEN_SLOTS - i,
        {
            metas.push(blank);
            i += 1;
        }
        let ledger = Ledger { metas, holdings: Vec::new() };
        proof {
            assert(ledger@.metas =~= Map::<TokenId, TokenMeta>::empty());
            assert(ledger@.balances =~= Map::<HoldingKey, Balance>::empty());
        }
        ledger
    }

    /// The position of the entry for the token and account, if there is one.
    fn find(&self, token_id: TokenId, account: &AccountId) -> (slot: Option<usize>)
        ensures
            match slot {
                Some(i) => i < self.holdings@.len() && key_at(self.holdings@, i as int) == (
                    token_id,
                    *account,
                ),
                None => !has_key(self.holdings@, (token_id, *account)),
            },
    {
        let mut i: usize = 0;
        while i < self.holdings.len()
            invariant
                i <= self.holdings@.len(),
                forall|j: int| 0 <= j < i ==> key_at(self.holdings@, j) != (token_id, *account),
            decreases self.holdings@.len() - i,
        {
            if self.holdings[i].token_id == token_id && self.holdings[i].account == *account {
                return Some(i);
            }
            i += 1;
        }
        None
    }

    /// Whether the token was created.
    pub fn token_exists(&self, token_id: TokenId) -> (known: bool)
        requires
            self.wf(),
        ensures
            known == self@.has_token(token_id),
    {
        self.metas[token_id as usize].exists
    }

    /// The record of the token, if it was created.
    pub fn token_meta(&self, token_id: TokenId) -> (meta: Option<TokenMeta>)
        requires
            self.wf(),
        ensures
            meta == if self@.has_token(token_id) {
                Some(self@.metas[token_id])
            } else {
                None
            },
    {
        let meta = self.metas[token_id as usize];
        if meta.exists {
            Some(meta)
        } else {
            None
        }
    }

    /// The declared supply of the token, zero where there is no such token.
    pub fn total_supply(&self, token_id: TokenId) -> (supply: Balance)
        requires
            self.wf(),
        ensures
            supply == self@.total_supply(token_id),
    {
        let meta = self.metas[token_id as usize];
        if meta.exists {
            meta.total_supply
        } else {
            0
        }
    }

    /// What the account holds of the token. An account or a token of which
    /// nothing is recorded holds zero.
    pub fn balance_of(&self, token_id: TokenId, account: AccountId) -> (amount: Balance)
        requires
            self.wf(),
        ensures
            amount == self@.balance(token_id, account),
    {
        match self.find(token_id, &account) {
            Some(i) => {
                proof {
                    lemma_lookup(self.holdings@, i as int);
                }
                self.holdings[i].amount
            },
            None => 0,
        }
    }

    /// Creates the token with the creator as its owner and the whole initial
    /// supply in the creator's hands. Refused where the identifier is taken.
    pub fn create_token(
        &mut self,
        creator: AccountId,
        token_id: TokenId,
        initial_supply: Balance,
    ) -> (result: Result<(), LedgerError>)
        requires
            old(self).wf(),
        ensures
            final(self).wf(),
            result == old(self)@.create_result(token_id),
            final(self)@ == old(self)@.after_create(creator, token_id, initial_supply),
    {
        if self.metas[token_id as usize].exists {
            return Err(LedgerError::AlreadyExists);
        }
        let ghost before = self@;
        proof {
            assert(!has_key(self.holdings@, (token_id, creator))) by {
                if has_key(self.holdings@, (token_id, creator)) {
                    let j = slot_of(self.holdings@, (token_id, creator));
                    assert(key_at(self.holdings@, j) == (token_id, creator));
                    assert(self.holdings@[j].amount > 0);
                }
            }
        }
        let meta = TokenMeta { owner: creator, total_supply: initial_supply, exists: true };
        self.metas.set(token_id as usize, meta);
        proof {
            assert(self@.metas =~= before.metas.insert(token_id, meta));
            assert(before.balances.remove((token_id, creator)) =~= before.balances);
        }
        if initial_supply > 0 {
            let entry = Holding { token_id, account: creator, amount: initial_supply };
            proof {
                lemma_push(self.holdings@, entry);
            }
            self.holdings.push(entry);
        }
        Ok(())
    }

    /// Adds the amount to what the account holds of the token. The declared
    /// supply stays as it is. Refused where the token does not exist or the
    /// balance would leave its range.
    pub fn credit(
        &mut self,
        token_id: TokenId,
        account: AccountId,
        amount: Balance,
    ) -> (result: Result<(), LedgerError>)
        requires
            old(self).wf(),
        ensures
            final(self).wf(),
            result == old(self)@.credit_result(token_id, account, amount),
            final(self)@ == old(self)@.after_credit(token_id, account, amount),
    {
        if !self.metas[token_id as usize].exists {
            return Err(LedgerError::UnknownToken);
        }
        let ghost before = self@;
        match self.find(token_id, &account) {
            Some(i) => {
                let held = self.holdings[i].amount;
                proof {
                    lemma_lookup(self.holdings@, i as int);
                }
                if amount > Balance::MAX - held {
                    return Err(LedgerError::Overflow);
                }
                let entry = Holding { token_id, account, amount: held + amount };
                proof {
                    lemma_update(self.holdings@, i as int, entry.amount);
                    assert(entry == Holding { amount: entry.amount, ..self.holdings@[i as int] });
                }
                self.holdings.set(i, entry);
            },
            None => {
                if amount > 0 {
                    let entry = Holding { token_id, account, amount };
                    proof {
                        lemma_push(self.holdings@, entry);
                    }
                    self.holdings.push(entry);
                } else {
                    proof {
                        assert(before.balances.remove((token_id, account)) =~= before.balances);
                    }
                }
            },
        }
        Ok(())
    }

    /// Takes the amount from what the account holds of the token. The
    /// declared supply stays as it is. Refused where the token does not exist
    /// or the account holds less.
    pub fn debit(
        &mut self,
        token_id: TokenId,
        account: AccountId,
        amount: Balance,
    ) -> (result: Result<(), LedgerError>)
        requires
            old(self).wf(),
        ensures
            final(self).wf(),
            result == old(self)@.debit_result(token_id, account, amount),
            final(self)@ == old(self)@.after_debit(token_id, account, amount),
    {
        if !self.metas[token_id as usize].exists {
            return Err(LedgerError::UnknownToken);
        }
        let ghost before = self@;
        match self.find(token_id, &account) {
            Some(i) => {
                let held = self.holdings[i].amount;
                proof {
                    lemma_lookup(self.holdings@, i as int);
                }
                if amount > held {
                    return Err(LedgerError::InsufficientBalance);
                }
                if amount == held {
                    proof {
                        lemma_remove(self.holdings@, i as int);
                    }
                    self.holdings.remove(i);
                } else {
                    let entry = Holding { token_id, account, amount: held - amount };
                    proof {
                        lemma_update(self.holdings@, i as int, entry.amount);
                        assert(entry == Holding {
                            amount: entry.amount,
                            ..self.holdings@[i as int]
                        });
                    }
                    self.holdings.set(i, entry);
                }
            },
            None => {
                if amount > 0 {
                    return Err(LedgerError::InsufficientBalance);
                }
                proof {
                    assert(before.balances.remove((token_id, account)) =~= before.balances);
                }
            },
        }
        Ok(())
    }

    /// Declares a new supply for a token that exists. The balances stay as
    /// they are.
    pub(crate) fn set_total_supply(&mut self, token_id: TokenId, supply: Balance)
        requires
            old(self).wf(),
            old(self)@.has_token(token_id),
        ensures
            final(self).wf(),
            final(self)@ == old(self)@.with_supply(token_id, supply),
    {
        let ghost before = self@;
        let meta = self.metas[token_id as usize];
        let next = TokenMeta { owner: meta.owner, total_supply: supply, exists: true };
        self.metas.set(token_id as usize, next);
        proof {
            assert(self@.metas =~= before.metas.insert(token_id, next));
        }
    }
}

} // verus!
