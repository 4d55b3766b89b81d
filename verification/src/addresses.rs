//! Accounts written as hexadecimal text, and the well-known accounts of the
//! development chain.

use vstd::prelude::*;
use std::str::FromStr;
use crate::account::AccountId;

verus! {

/// What `H160::from_str` of sp_core reads from a text: the twenty bytes, or
/// nothing where it refuses the text.
pub uninterp spec fn h160_from_str(text: Seq<char>) -> Option<[u8; 20]>;

/// `H160::from_str` of sp_core, which reads forty hexadecimal digits as
/// twenty bytes and allows `0x` in front and blanks in between. All that is
/// claimed of it here is that the outcome depends on the text alone.
#[verifier::external_body]
fn parse_h160(text: &str) -> (bytes: Option<[u8; 20]>)
    ensures
        bytes == h160_from_str(text@),
{
    match sp_core::H160::from_str(text) {
        Ok(hash) => Some(hash.0),
        Err(_) => None,
    }
}

/// The account that a text names, if it names one.
pub open spec fn account_of_text(text: Seq<char>) -> Option<AccountId> {
    match h160_from_str(text) {
        Some(bytes) => Some(AccountId { bytes }),
        None => None,
    }
}

/// Reads an account from hexadecimal text, or nothing where the text does not
/// name one.
pub fn account_from_hex(text: &str) -> (account: Option<AccountId>)
    ensures
        account == account_of_text(text@),
{
    match parse_h160(text) {
        Some(bytes) => Some(AccountId::from_bytes(bytes)),
        None => None,
    }
}

/// The account that holds the administrative key, or nothing where its text
/// cannot be read.
pub fn root_address() -> (account: Option<AccountId>)
    ensures
        account == account_of_text("6Be02d1d3665660d22FF9624b7BE0551ee1Ac91b"@),
{
    account_from_hex("6Be02d1d3665660d22FF9624b7BE0551ee1Ac91b")
}

/// The first of three accounts for trying things out, or nothing where its text
/// cannot be read.
pub fn alice() -> (account: Option<AccountId>)
    ensures
        account == account_of_text("1000000000000000000000000000000000000001"@),
{
    account_from_hex("1000000000000000000000000000000000000001")
}

/// The second of three accounts for trying things out, or nothing where its text
/// cannot be read.
pub fn bob() -> (account: Option<AccountId>)
    ensures
        account == account_of_text("1000000000000000000000000000000000000002"@),
{
    account_from_hex("1000000000000000000000000000000000000002")
}

/// The third of three accounts for trying things out, or nothing where its text
/// cannot be read.
pub fn charlie() -> (account: Option<AccountId>)
    ensures
        account == account_of_text("1000000000000000000000000000000000000003"@),
{
    account_from_hex("1000000000000000000000000000000000000003")
}

/// How many contract addresses the deployments of the development chain use.
pub const DEPLOY_ADDRESSES: usize = 10;

/// The text of the contract address at the given position.
pub open spec fn deploy_text(index: int) -> Seq<char> {
    if index == 0 {
        "c2bf5f29a4384b1ab0c063e1c666f02121b6084a"@
    } else if index == 1 {
        "5c4242beb94de30b922f57241f1d02f36e906915"@
    } else if index == 2 {
        "42e2ee7ba8975c473157634ac2af4098190fc741"@
    } else if index == 3 {
        "f8cef78e923919054037a1d03662bbd884ff4edf"@
    } else if index == 4 {
        "e573bca813c741229ffb2488f7856c6caa841041"@
    } else if index == 5 {
        "bb0cc0fb3e0c06725c67167501f850b4900d6db5"@
    } else if index == 6 {
        "fe5d3c52f7ee9aa32a69b96bfbb088ba0bcd8efc"@
    } else if index == 7 {
        "92496871560a01551e1b4fd04540d7a519d5c19e"@
    } else if index == 8 {
        "63a1519ee99d1121780fffa1726ed2ecc6d1611b"@
    } else {
        "dc552396caec809752fed0c5e23fd3983766e758"@
    }
}

/// The text of the contract address at the given position.
fn deploy_text_at(index: usize) -> (text: &'static str)
    requires
        index < DEPLOY_ADDRESSES,
    ensures
        text@ == deploy_text(index as int),
{
    if index == 0 {
        "c2bf5f29a4384b1ab0c063e1c666f02121b6084a"
    } else if index == 1 {
        "5c4242beb94de30b922f57241f1d02f36e906915"
    } else if index == 2 {
        "42e2ee7ba8975c473157634ac2af4098190fc741"
    } else if index == 3 {
        "f8cef78e923919054037a1d03662bbd884ff4edf"
    } else if index == 4 {
        "e573bca813c741229ffb2488f7856c6caa841041"
    } else if index == 5 {
        "bb0cc0fb3e0c06725c67167501f850b4900d6db5"
    } else if index == 6 {
        "fe5d3c52f7ee9aa32a69b96bfbb088ba0bcd8efc"
    } else if index == 7 {
        "92496871560a01551e1b4fd04540d7a519d5c19e"
    } else if index == 8 {
        "63a1519ee99d1121780fffa1726ed2ecc6d1611b"
    } else {
        "dc552396caec809752fed0c5e23fd3983766e758"
    }
}

/// The contract addresses of the development chain's deployments, in the
/// order in which they are deployed; nothing where one of them cannot be
/// read.
pub fn deploy_addresses() -> (list: Option<Vec<AccountId>>)
    ensures
        match list {
            Some(accounts) => accounts@.len() == DEPLOY_ADDRESSES && forall|i: int|
                0 <= i < DEPLOY_ADDRESSES ==> account_of_text(deploy_text(i)) == Some(
                    #[trigger] accounts@[i],
                ),
            None => exists|i: int|
                0 <= i < DEPLOY_ADDRESSES && account_of_text(#[trigger] deploy_text(i)) is None,
        },
{
    let mut accounts: Vec<AccountId> = Vec::new();
    let mut index: usize = 0;
    while index < DEPLOY_ADDRESSES
        invariant
            index <= DEPLOY_ADDRESSES,
            accounts@.len() == index,
            forall|i: int|
                0 <= i < index ==> account_of_text(deploy_text(i)) == Some(#[trigger] accounts@[i]),
        decreases DEPLOY_ADDRESSES - index,
    {
        match account_from_hex(deploy_text_at(index)) {
            Some(account) => {
                accounts.push(account);
            },
            None => {
                return None;
            },
        }
        index += 1;
    }
    Some(accounts)
}

} // verus!
