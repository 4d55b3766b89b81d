use std::str::FromStr;
use token_factory::runtime::{
    BLOCK_HASH_COUNT, CHAIN_ID, EVM_MODULE_ID, EXISTENTIAL_DEPOSIT, MAX_LOCKS, MINIMUM_PERIOD,
    TRANSACTION_BYTE_FEE,
};
use token_factory::{
    account_from_hex, alice, bob, charlie, deploy_addresses, root_address, AccountId,
    AccountToH160, BlockEverything, FixedGasPrice,
};

#[test]
fn hex_text_is_read_as_twenty_bytes() {
    let account = account_from_hex("000102030405060708090a0b0c0d0e0f10111213");
    assert_eq!(
        account,
        Some(AccountId {
            bytes: [0, 1, 2, 3, 4, 5, 6, 7, 8, 9, 10, 11, 12, 13, 14, 15, 16, 17, 18, 19]
        })
    );
    assert_eq!(
        account_from_hex("0xFFfe0000000000000000000000000000000000Ab"),
        Some(AccountId {
            bytes: [255, 254, 0, 0, 0, 0, 0, 0, 0, 0, 0, 0, 0, 0, 0, 0, 0, 0, 0, 0xab]
        })
    );
}

#[test]
fn hex_text_of_wrong_shape_is_refused() {
    assert_eq!(account_from_hex(""), None);
    assert_eq!(account_from_hex("10000000000000000000000000000000000000"), None);
    assert_eq!(account_from_hex("100000000000000000000000000000000000000100"), None);
    assert_eq!(account_from_hex("g000000000000000000000000000000000000001"), None);
    assert_eq!(account_from_hex("100000000000000000000000000000000000001"), None);
}

#[test]
fn hex_text_agrees_with_the_hash_type() {
    let text = "6Be02d1d3665660d22FF9624b7BE0551ee1Ac91b";
    let hash = sp_core::H160::from_str(text).unwrap();
    assert_eq!(account_from_hex(text), Some(AccountId::from_bytes(hash.0)));
}

#[test]
fn well_known_accounts() {
    let mut bytes = [0u8; 20];
    bytes[0] = 0x10;
    bytes[19] = 1;
    assert_eq!(alice(), Some(AccountId { bytes }));
    bytes[19] = 2;
    assert_eq!(bob(), Some(AccountId { bytes }));
    bytes[19] = 3;
    assert_eq!(charlie(), Some(AccountId { bytes }));
    assert_eq!(
        root_address(),
        Some(AccountId {
            bytes: [
                0x6b, 0xe0, 0x2d, 0x1d, 0x36, 0x65, 0x66, 0x0d, 0x22, 0xff, 0x96, 0x24, 0xb7, 0xbe,
                0x05, 0x51, 0xee, 0x1a, 0xc9, 0x1b
            ]
        })
    );
}

#[test]
fn deploy_addresses_are_ten_in_order() {
    let list = deploy_addresses().unwrap();
    assert_eq!(list.len(), 10);
    assert_eq!(
        list[0].to_bytes(),
        [
            0xc2, 0xbf, 0x5f, 0x29, 0xa4, 0x38, 0x4b, 0x1a, 0xb0, 0xc0, 0x63, 0xe1, 0xc6, 0x66,
            0xf0, 0x21, 0x21, 0xb6, 0x08, 0x4a
        ]
    );
    assert_eq!(
        list[9].to_bytes(),
        [
            0xdc, 0x55, 0x23, 0x96, 0xca, 0xec, 0x80, 0x97, 0x52, 0xfe, 0xd0, 0xc5, 0xe2, 0x3f,
            0xd3, 0x98, 0x37, 0x66, 0xe7, 0x58
        ]
    );
    let texts = [
        "c2bf5f29a4384b1ab0c063e1c666f02121b6084a",
        "5c4242beb94de30b922f57241f1d02f36e906915",
        "42e2ee7ba8975c473157634ac2af4098190fc741",
        "f8cef78e923919054037a1d03662bbd884ff4edf",
        "e573bca813c741229ffb2488f7856c6caa841041",
        "bb0cc0fb3e0c06725c67167501f850b4900d6db5",
        "fe5d3c52f7ee9aa32a69b96bfbb088ba0bcd8efc",
        "92496871560a01551e1b4fd04540d7a519d5c19e",
        "63a1519ee99d1121780fffa1726ed2ecc6d1611b",
        "dc552396caec809752fed0c5e23fd3983766e758",
    ];
    let mut i = 0;
    while i < 10 {
        assert_eq!(list[i].to_bytes(), sp_core::H160::from_str(texts[i]).unwrap().0);
        i += 1;
    }
}

#[test]
fn bridge_hands_the_address_on() {
    let a = alice().unwrap();
    assert_eq!(AccountToH160::convert(a), a);
    assert_eq!(AccountToH160::convert(AccountId::zero()), AccountId::zero());
    assert_ne!(AccountToH160::convert(a), AccountToH160::convert(bob().unwrap()));
}

#[test]
fn filter_blocks_everything() {
    assert!(!BlockEverything::filter(&0u8));
    assert!(!BlockEverything::filter(&"transfer"));
    assert!(!BlockEverything::filter(&alice()));
}

#[test]
fn gas_price_is_one() {
    let price = FixedGasPrice::min_gas_price();
    assert_eq!(price.words, [1, 0, 0, 0]);
    assert_eq!(sp_core::U256(price.words), sp_core::U256::one());
}

#[test]
fn runtime_parameters() {
    assert_eq!(MINIMUM_PERIOD, 3000);
    assert_eq!(TRANSACTION_BYTE_FEE, 1);
    assert_eq!(CHAIN_ID, 42);
    assert_eq!(&EVM_MODULE_ID, b"py/evmpa");
    assert_eq!(BLOCK_HASH_COUNT, 250);
    assert_eq!(MAX_LOCKS, 50);
    assert_eq!(EXISTENTIAL_DEPOSIT, 500);
}
