use ocp_mock::cli::CoinSpec;
use ocp_mock::method::Method;
use ocp_mock::payment_uri::{build_uri, scale_decimal};

#[test]
fn scale_decimal_scales_exactly() {
    assert_eq!(scale_decimal("0.0001", 8).unwrap(), "10000");
    assert_eq!(scale_decimal("1", 18).unwrap(), "1000000000000000000");
    assert_eq!(scale_decimal("1.5", 6).unwrap(), "1500000");
    assert_eq!(scale_decimal("0", 8).unwrap(), "0");
    assert!(scale_decimal("0.123456789", 8).is_err());
    assert!(scale_decimal("1,5", 8).is_err());
    assert!(scale_decimal(".", 8).is_err());
}

#[test]
fn scale_decimal_error_messages() {
    assert_eq!(scale_decimal(".", 8).unwrap_err(), "invalid amount '.'");
    assert_eq!(scale_decimal("", 8).unwrap_err(), "invalid amount ''");
    assert_eq!(
        scale_decimal("1,5", 8).unwrap_err(),
        "invalid amount '1,5': expected a plain decimal"
    );
    assert_eq!(
        scale_decimal("1.2.3", 8).unwrap_err(),
        "invalid amount '1.2.3': expected a plain decimal"
    );
    assert_eq!(
        scale_decimal("0.123456789", 8).unwrap_err(),
        "amount '0.123456789' has more than 8 decimal places"
    );
}

#[test]
fn scale_decimal_edge_cases() {
    assert_eq!(scale_decimal(".5", 1).unwrap(), "5");
    assert_eq!(scale_decimal("5.", 2).unwrap(), "500");
    assert_eq!(scale_decimal("007.50", 2).unwrap(), "750");
    assert_eq!(scale_decimal("0.000", 3).unwrap(), "0");
    assert_eq!(scale_decimal("12", 0).unwrap(), "12");
}

#[test]
fn evm_native_uses_wei_value() {
    let spec = CoinSpec::for_tests(
        Method::Ethereum,
        "ETH",
        "0x1111111111111111111111111111111111111111",
        "0.0004",
    );
    assert_eq!(
        build_uri(&spec).unwrap(),
        "ethereum:0x1111111111111111111111111111111111111111@1?value=400000000000000"
    );
}

#[test]
fn erc20_uses_eip681_transfer_form() {
    let mut spec = CoinSpec::for_tests(
        Method::Ethereum,
        "USDC",
        "0x1111111111111111111111111111111111111111",
        "1.25",
    );
    spec.token_contract = Some("0xA0b86991c6218b36c1d19D4a2e9Eb0cE3606eB48".into());
    spec.token_decimals = Some(6);
    assert_eq!(
        build_uri(&spec).unwrap(),
        "ethereum:0xA0b86991c6218b36c1d19D4a2e9Eb0cE3606eB48@1/transfer\
         ?address=0x1111111111111111111111111111111111111111&uint256=1250000"
    );
}

#[test]
fn monero_uses_tx_amount() {
    let spec = CoinSpec::for_tests(Method::Monero, "XMR", "4AdUmoney", "0.005");
    assert_eq!(build_uri(&spec).unwrap(), "monero:4AdUmoney?tx_amount=0.005");
}

#[test]
fn namecoin_uses_bip21_style_uri() {
    let spec = CoinSpec::for_tests(
        Method::Namecoin,
        "NMC",
        "N2pGWAh65TWpWmEFrFssRQkQubbczJSKi9",
        "0.5",
    );
    assert_eq!(
        build_uri(&spec).unwrap(),
        "namecoin:N2pGWAh65TWpWmEFrFssRQkQubbczJSKi9?amount=0.5"
    );
}

#[test]
fn token_contract_rejected_outside_evm() {
    let mut spec = CoinSpec::for_tests(Method::Bitcoin, "BTC", "bc1qtest", "0.0001");
    spec.token_contract = Some("0xdead".into());
    spec.token_decimals = Some(6);
    assert!(build_uri(&spec).is_err());
}

#[test]
fn uri_errors_and_overrides() {
    let mut spec = CoinSpec::for_tests(Method::Bitcoin, "BTC", "bc1qtest", "0.0001");
    spec.token_contract = Some("0xdead".into());
    assert_eq!(
        build_uri(&spec).unwrap_err(),
        "contract= is only supported for EVM methods"
    );

    let mut spec = CoinSpec::for_tests(Method::Polygon, "USDC", "0x11", "1");
    spec.token_contract = Some("0xc0".into());
    assert_eq!(build_uri(&spec).unwrap_err(), "contract= requires decimals=");
    spec.token_decimals = Some(2);
    spec.chain_id = Some(80002);
    assert_eq!(
        build_uri(&spec).unwrap(),
        "ethereum:0xc0@80002/transfer?address=0x11&uint256=100"
    );

    let spec = CoinSpec::for_tests(Method::Base, "ETH", "0x22", "0.0000000000000000001");
    assert_eq!(
        build_uri(&spec).unwrap_err(),
        "amount '0.0000000000000000001' has more than 18 decimal places"
    );

    let mut spec = CoinSpec::for_tests(Method::Solana, "SOL", "sol1", "0.02");
    assert_eq!(build_uri(&spec).unwrap(), "solana:sol1?amount=0.02");
    spec.uri_override = Some("solana:custom".into());
    assert_eq!(build_uri(&spec).unwrap(), "solana:custom");

    let spec = CoinSpec::for_tests(Method::BinanceSmartChain, "BNB", "0x33", "2");
    assert_eq!(
        build_uri(&spec).unwrap(),
        "ethereum:0x33@56?value=2000000000000000000"
    );
}
