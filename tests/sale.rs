use landboard_ico::conversion::{locked_token_amount, token_amount};
use landboard_ico::ico::{Address, IcoError, LandboardIco, Purchase, Sale};
use landboard_ico::token_id::{validate_token_identifier, TokenId};

const ONE: u128 = 1_000_000_000_000_000_000;

fn tid(s: &str) -> TokenId {
    TokenId { bytes: s.as_bytes().to_vec() }
}

fn addr(b: u8) -> Address {
    Address { bytes: [b; 32] }
}

fn sale(price: u128, min: u128, max: u128) -> Sale {
    Sale::init(tid("LAND-1a2b3c"), tid("LKLAND-9f8e7d"), price, min, max).unwrap()
}

fn open_sale(price: u128, min: u128, max: u128) -> Sale {
    let mut s = sale(price, min, max);
    s.start_sale(true).unwrap();
    s
}

#[test]
fn init_sets_configuration_and_flags() {
    let s = sale(2, 1, 100);
    assert_eq!(s.token_id(), &tid("LAND-1a2b3c"));
    assert_eq!(s.locked_token_id(), &tid("LKLAND-9f8e7d"));
    assert_eq!(s.token_price(), 2);
    assert_eq!(s.min_buy_limit(), 1);
    assert_eq!(s.max_buy_limit(), 100);
    assert!(!s.sale_started());
    assert!(!s.is_allowlist_enabled());
    assert_eq!(s.bought_amount(&addr(1)), 0);
}

#[test]
fn init_rejects_malformed_identifiers() {
    let bad = ["", "LA-abcdef", "land-abcdef", "LAND_abcdef", "LAND-ABCDEF", "LAND-abcde", "ABCDEFGHIJK-abcdef"];
    for b in bad.iter() {
        let r = Sale::init(tid(b), tid("LKLAND-9f8e7d"), 2, 1, 100);
        assert_eq!(r.err(), Some(IcoError::InvalidConfiguration));
        let r = Sale::init(tid("LAND-1a2b3c"), tid(b), 2, 1, 100);
        assert_eq!(r.err(), Some(IcoError::InvalidConfiguration));
    }
}

#[test]
fn init_rejects_equal_identifiers_and_zero_price() {
    let r = Sale::init(tid("LAND-1a2b3c"), tid("LAND-1a2b3c"), 2, 1, 100);
    assert_eq!(r.err(), Some(IcoError::InvalidConfiguration));
    let r = Sale::init(tid("LAND-1a2b3c"), tid("LKLAND-9f8e7d"), 0, 1, 100);
    assert_eq!(r.err(), Some(IcoError::InvalidConfiguration));
}

#[test]
fn identifier_rule() {
    assert!(validate_token_identifier(b"ABC-123abc"));
    assert!(validate_token_identifier(b"ABCDEFGHIJ-000000"));
    assert!(!validate_token_identifier(b"AB-123abc"));
    assert!(!validate_token_identifier(b"ABC-123abC"));
    assert!(!validate_token_identifier(b"ABC+123abc"));
    assert!(!validate_token_identifier(b"ABCDEFGHIJK-000000"));
    assert!(tid("EGLDX-0a0b0c").is_valid_esdt_identifier());
}

#[test]
fn conversion_example_price_two_payment_ten() {
    assert_eq!(token_amount(10, 2), Some(ONE));
    assert_eq!(locked_token_amount(10, 2), Some(4 * ONE));
}

#[test]
fn conversion_truncates_each_share_on_its_own() {
    // base units: 10^18 * 1 / 3 = 333333333333333333
    assert_eq!(token_amount(1, 3), Some(66_666_666_666_666_666));
    assert_eq!(locked_token_amount(1, 3), Some(266_666_666_666_666_666));
    // base units 7: 7 * 20 / 100 = 1, 7 * 80 / 100 = 5, sum 6 < 7
    assert_eq!(token_amount(7, ONE), Some(1));
    assert_eq!(locked_token_amount(7, ONE), Some(5));
}

#[test]
fn conversion_with_large_payment_and_price() {
    let paid: u128 = 1_000_000 * ONE;
    let price: u128 = 3 * ONE;
    // base units 10^18 * 10^24 / (3 * 10^18) = 333333333333333333333333
    assert_eq!(token_amount(paid, price), Some(66_666_666_666_666_666_666_666));
    assert_eq!(locked_token_amount(paid, price), Some(266_666_666_666_666_666_666_666));
    let big = u128::MAX - 1;
    // SCALE * (2^128 - 2) / (2^128 - 1) = 10^18 - 1 (truncated)
    assert_eq!(token_amount(big, u128::MAX), Some((ONE - 1) / 5));
    assert_eq!(locked_token_amount(big, u128::MAX), Some(4 * (ONE - 1) / 5));
}

#[test]
fn conversion_beyond_u128_is_absent() {
    assert_eq!(token_amount(u128::MAX, 1), None);
    assert_eq!(locked_token_amount(u128::MAX, 1), None);
}

#[test]
fn buy_example_sends_both_shares() {
    let mut s = open_sale(2, 1, 100);
    let r = s.buy(addr(1), 10, ONE, 4 * ONE);
    assert_eq!(r, Ok(Purchase { token_amount: ONE, locked_token_amount: 4 * ONE }));
    assert_eq!(s.bought_amount(&addr(1)), 10);
    assert_eq!(s.bought_amount(&addr(2)), 0);
}

#[test]
fn buy_while_stopped_is_refused() {
    let mut s = sale(2, 1, 100);
    assert_eq!(s.buy(addr(1), 10, ONE, 4 * ONE), Err(IcoError::SaleNotActive));
    assert_eq!(s.bought_amount(&addr(1)), 0);
    assert_eq!(s.require_activation(), Err(IcoError::SaleNotActive));
    s.start_sale(true).unwrap();
    assert_eq!(s.require_activation(), Ok(()));
    s.stop_sale(true).unwrap();
    assert_eq!(s.buy(addr(1), 10, ONE, 4 * ONE), Err(IcoError::SaleNotActive));
}

#[test]
fn buy_outside_limits_is_refused() {
    let mut s = open_sale(2, 5, 20);
    assert_eq!(s.buy(addr(1), 4, 100 * ONE, 100 * ONE), Err(IcoError::BelowMinBuy));
    assert_eq!(s.buy(addr(1), 21, 100 * ONE, 100 * ONE), Err(IcoError::AboveMaxBuy));
    assert_eq!(s.bought_amount(&addr(1)), 0);
    assert!(s.buy(addr(1), 5, 100 * ONE, 100 * ONE).is_ok());
    assert!(s.buy(addr(2), 20, 100 * ONE, 100 * ONE).is_ok());
}

#[test]
fn two_purchases_within_maximum_add_up() {
    let mut s = open_sale(2, 1, 20);
    assert!(s.buy(addr(1), 8, 100 * ONE, 100 * ONE).is_ok());
    assert!(s.buy(addr(1), 12, 100 * ONE, 100 * ONE).is_ok());
    assert_eq!(s.bought_amount(&addr(1)), 20);
}

#[test]
fn second_purchase_over_cumulative_maximum_is_refused() {
    let mut s = open_sale(2, 1, 20);
    assert!(s.buy(addr(1), 8, 100 * ONE, 100 * ONE).is_ok());
    assert_eq!(s.buy(addr(1), 13, 100 * ONE, 100 * ONE), Err(IcoError::AboveCumulativeMaxBuy));
    assert_eq!(s.bought_amount(&addr(1)), 8);
    assert!(s.buy(addr(2), 13, 100 * ONE, 100 * ONE).is_ok());
}

#[test]
fn cumulative_maximum_at_u128_edge() {
    let mut s = open_sale(ONE, 1, u128::MAX);
    assert!(s.buy(addr(1), u128::MAX - 1, u128::MAX, u128::MAX).is_ok());
    assert!(s.buy(addr(1), 1, u128::MAX, u128::MAX).is_ok());
    assert_eq!(s.buy(addr(1), 1, u128::MAX, u128::MAX), Err(IcoError::AboveCumulativeMaxBuy));
    assert_eq!(s.bought_amount(&addr(1)), u128::MAX);
}

#[test]
fn short_sale_asset_is_refused_first() {
    let mut s = open_sale(2, 1, 100);
    assert_eq!(s.buy(addr(1), 10, ONE - 1, 0), Err(IcoError::InsufficientSaleAsset));
    assert_eq!(s.bought_amount(&addr(1)), 0);
}

#[test]
fn short_locked_asset_is_refused() {
    let mut s = open_sale(2, 1, 100);
    assert_eq!(s.buy(addr(1), 10, ONE, 4 * ONE - 1), Err(IcoError::InsufficientLockedAsset));
    assert_eq!(s.bought_amount(&addr(1)), 0);
}

#[test]
fn shares_beyond_u128_are_refused_as_short() {
    let mut s = open_sale(1, 1, u128::MAX);
    assert_eq!(s.buy(addr(1), u128::MAX, u128::MAX, u128::MAX), Err(IcoError::InsufficientSaleAsset));
}

#[test]
fn allowlist_gates_purchases() {
    let mut s = open_sale(2, 5, 100);
    s.enable_allowlist(true).unwrap();
    assert!(s.is_allowlist_enabled());
    assert_eq!(s.buy(addr(1), 10, ONE, 4 * ONE), Err(IcoError::NotEligible));
    assert_eq!(s.buy(addr(1), 1, ONE, 4 * ONE), Err(IcoError::NotEligible));
    s.populate_allowlist(true, &vec![addr(1)]).unwrap();
    assert!(s.is_in_allowlist(&addr(1)));
    assert_eq!(s.buy(addr(1), 10, ONE, 4 * ONE), Ok(Purchase { token_amount: ONE, locked_token_amount: 4 * ONE }));
    assert_eq!(s.buy(addr(2), 10, ONE, 4 * ONE), Err(IcoError::NotEligible));
    s.disable_allowlist(true).unwrap();
    assert!(s.buy(addr(2), 10, ONE, 4 * ONE).is_ok());
}

#[test]
fn populate_allowlist_twice_is_union() {
    let mut s = sale(2, 1, 100);
    s.populate_allowlist(true, &vec![addr(1), addr(2), addr(1)]).unwrap();
    s.populate_allowlist(true, &vec![addr(2), addr(3)]).unwrap();
    s.populate_allowlist(true, &vec![addr(2), addr(3)]).unwrap();
    for b in 1..=3u8 {
        assert!(s.is_in_allowlist(&addr(b)));
    }
    assert!(!s.is_in_allowlist(&addr(4)));
}

#[test]
fn owner_operations_refuse_others() {
    let mut s = sale(2, 1, 100);
    assert_eq!(s.start_sale(false), Err(IcoError::Unauthorized));
    assert!(!s.sale_started());
    assert_eq!(s.stop_sale(false), Err(IcoError::Unauthorized));
    assert_eq!(s.update_token_price(false, 9), Err(IcoError::Unauthorized));
    assert_eq!(s.update_min_buy_limit(false, 9), Err(IcoError::Unauthorized));
    assert_eq!(s.update_max_buy_limit(false, 9), Err(IcoError::Unauthorized));
    assert_eq!(s.enable_allowlist(false), Err(IcoError::Unauthorized));
    assert_eq!(s.disable_allowlist(false), Err(IcoError::Unauthorized));
    assert_eq!(s.populate_allowlist(false, &vec![addr(1)]), Err(IcoError::Unauthorized));
    assert!(!s.is_in_allowlist(&addr(1)));
    assert_eq!(s.withdraw_egld(false, 5), Err(IcoError::Unauthorized));
    assert_eq!(s.withdraw_esdt(false, 1, 5), Err(IcoError::Unauthorized));
    assert_eq!(s.token_price(), 2);
    assert_eq!(s.min_buy_limit(), 1);
    assert!(!s.is_allowlist_enabled());
}

#[test]
fn price_and_limit_updates() {
    let mut s = sale(2, 1, 100);
    s.update_token_price(true, 7).unwrap();
    assert_eq!(s.token_price(), 7);
    assert_eq!(s.update_token_price(true, 0), Err(IcoError::InvalidConfiguration));
    assert_eq!(s.token_price(), 7);
    s.update_min_buy_limit(true, 3).unwrap();
    assert_eq!(s.min_buy_limit(), 3);
}

#[test]
fn update_max_buy_limit_sets_the_minimum() {
    let mut s = sale(2, 1, 100);
    s.update_max_buy_limit(true, 50).unwrap();
    assert_eq!(s.min_buy_limit(), 50);
    assert_eq!(s.max_buy_limit(), 100);
}

#[test]
fn withdraw_egld_takes_whole_balance() {
    let s = sale(2, 1, 100);
    assert_eq!(s.withdraw_egld(true, 0), Err(IcoError::InsufficientFunds));
    let balance: u128 = 123_456;
    let sent = s.withdraw_egld(true, balance).unwrap();
    assert_eq!(sent, balance);
    assert_eq!(balance - sent, 0);
}

#[test]
fn withdraw_esdt_up_to_balance() {
    let s = sale(2, 1, 100);
    assert_eq!(s.withdraw_esdt(true, 6, 5), Err(IcoError::InsufficientFunds));
    assert_eq!(s.withdraw_esdt(true, 5, 5), Ok(5));
    assert_eq!(s.withdraw_esdt(true, 0, 0), Ok(0));
}
