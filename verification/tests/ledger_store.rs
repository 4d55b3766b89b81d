use token_factory::{AccountId, EventLog, Event, Ledger, LedgerError, TokenMeta};

fn holder(last: u8) -> AccountId {
    let mut bytes = [0u8; 20];
    bytes[19] = last;
    AccountId::from_bytes(bytes)
}

#[test]
fn balance_of_unknown_pair_is_zero() {
    let ledger = Ledger::new();
    assert_eq!(ledger.balance_of(0, holder(1)), 0);
    assert_eq!(ledger.balance_of(200, AccountId::zero()), 0);
    assert!(!ledger.token_exists(0));
    assert_eq!(ledger.token_meta(0), None);
    assert_eq!(ledger.total_supply(0), 0);
}

#[test]
fn store_create_token_credits_the_creator() {
    let mut ledger = Ledger::new();
    assert_eq!(ledger.create_token(holder(1), 5, 77), Ok(()));
    assert!(ledger.token_exists(5));
    assert!(!ledger.token_exists(4));
    assert_eq!(ledger.balance_of(5, holder(1)), 77);
    assert_eq!(ledger.balance_of(5, holder(2)), 0);
    assert_eq!(ledger.balance_of(4, holder(1)), 0);
    assert_eq!(ledger.total_supply(5), 77);
    assert_eq!(
        ledger.token_meta(5),
        Some(TokenMeta { owner: holder(1), total_supply: 77, exists: true })
    );
    assert_eq!(ledger.create_token(holder(2), 5, 1), Err(LedgerError::AlreadyExists));
    assert_eq!(ledger.total_supply(5), 77);
}

#[test]
fn credit_adds_to_the_balance_only() {
    let mut ledger = Ledger::new();
    assert_eq!(ledger.create_token(holder(1), 1, 10), Ok(()));
    assert_eq!(ledger.credit(1, holder(2), 5), Ok(()));
    assert_eq!(ledger.credit(1, holder(2), 6), Ok(()));
    assert_eq!(ledger.credit(1, holder(1), 1), Ok(()));
    assert_eq!(ledger.credit(1, holder(3), 0), Ok(()));
    assert_eq!(ledger.balance_of(1, holder(1)), 11);
    assert_eq!(ledger.balance_of(1, holder(2)), 11);
    assert_eq!(ledger.balance_of(1, holder(3)), 0);
    assert_eq!(ledger.total_supply(1), 10);
}

#[test]
fn credit_refuses_unknown_token_and_overflow() {
    let mut ledger = Ledger::new();
    assert_eq!(ledger.credit(1, holder(1), 5), Err(LedgerError::UnknownToken));
    assert_eq!(ledger.create_token(holder(1), 1, u64::MAX - 1), Ok(()));
    assert_eq!(ledger.credit(1, holder(1), 2), Err(LedgerError::Overflow));
    assert_eq!(ledger.balance_of(1, holder(1)), u64::MAX - 1);
    assert_eq!(ledger.credit(1, holder(1), 1), Ok(()));
    assert_eq!(ledger.balance_of(1, holder(1)), u64::MAX);
    assert_eq!(ledger.credit(1, holder(1), 1), Err(LedgerError::Overflow));
    assert_eq!(ledger.credit(1, holder(1), 0), Ok(()));
    assert_eq!(ledger.credit(1, holder(2), u64::MAX), Ok(()));
    assert_eq!(ledger.balance_of(1, holder(2)), u64::MAX);
}

#[test]
fn debit_takes_from_the_balance_only() {
    let mut ledger = Ledger::new();
    assert_eq!(ledger.create_token(holder(1), 1, 10), Ok(()));
    assert_eq!(ledger.debit(1, holder(1), 4), Ok(()));
    assert_eq!(ledger.balance_of(1, holder(1)), 6);
    assert_eq!(ledger.total_supply(1), 10);
    assert_eq!(ledger.debit(1, holder(1), 6), Ok(()));
    assert_eq!(ledger.balance_of(1, holder(1)), 0);
    assert_eq!(ledger.debit(1, holder(1), 0), Ok(()));
    assert_eq!(ledger.debit(1, holder(2), 0), Ok(()));
    assert_eq!(ledger.credit(1, holder(1), 3), Ok(()));
    assert_eq!(ledger.balance_of(1, holder(1)), 3);
}

#[test]
fn debit_refuses_unknown_token_and_short_balance() {
    let mut ledger = Ledger::new();
    assert_eq!(ledger.debit(1, holder(1), 0), Err(LedgerError::UnknownToken));
    assert_eq!(ledger.create_token(holder(1), 1, 10), Ok(()));
    assert_eq!(ledger.debit(1, holder(1), 11), Err(LedgerError::InsufficientBalance));
    assert_eq!(ledger.debit(1, holder(2), 1), Err(LedgerError::InsufficientBalance));
    assert_eq!(ledger.debit(2, holder(1), 1), Err(LedgerError::UnknownToken));
    assert_eq!(ledger.balance_of(1, holder(1)), 10);
}

#[test]
fn many_holders_of_many_tokens() {
    let mut ledger = Ledger::new();
    let mut token: u8 = 0;
    while token < 20 {
        assert_eq!(ledger.create_token(holder(token), token, 1000), Ok(()));
        token += 1;
    }
    let mut token: u8 = 0;
    while token < 20 {
        let mut who: u8 = 100;
        while who < 130 {
            assert_eq!(ledger.debit(token, holder(token), 10), Ok(()));
            assert_eq!(ledger.credit(token, holder(who), 10), Ok(()));
            who += 1;
        }
        token += 1;
    }
    let mut token: u8 = 0;
    while token < 20 {
        assert_eq!(ledger.balance_of(token, holder(token)), 700);
        let mut sum: u64 = ledger.balance_of(token, holder(token));
        let mut who: u8 = 100;
        while who < 130 {
            assert_eq!(ledger.balance_of(token, holder(who)), 10);
            sum += ledger.balance_of(token, holder(who));
            who += 1;
        }
        assert_eq!(sum, ledger.total_supply(token));
        token += 1;
    }
}

#[test]
fn event_log_keeps_the_order() {
    let mut log = EventLog::new();
    assert_eq!(log.len(), 0);
    assert_eq!(log.last(), None);
    assert_eq!(log.get(0), None);
    let first = Event::Created { token_id: 1, creator: holder(1), supply: 2 };
    let second = Event::Minted { token_id: 1, to: holder(2), amount: 3 };
    log.append(first);
    log.append(second);
    assert_eq!(log.len(), 2);
    assert_eq!(log.get(0), Some(first));
    assert_eq!(log.get(1), Some(second));
    assert_eq!(log.get(2), None);
    assert_eq!(log.last(), Some(second));
    assert_eq!(token_factory::last_event(&log), second);
}

#[test]
fn account_equality_is_by_bytes() {
    let a = holder(1);
    let mut bytes = [0u8; 20];
    bytes[19] = 1;
    assert_eq!(a, AccountId { bytes });
    assert_eq!(a.to_bytes(), bytes);
    bytes[0] = 1;
    assert_ne!(a, AccountId { bytes });
    assert_eq!(AccountId::zero().to_bytes(), [0u8; 20]);
    assert_ne!(a, AccountId::zero());
}
