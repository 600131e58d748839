use ocp_mock::cli::{parse_coin_spec, method_names, CoinSpec, Config};
use ocp_mock::method::Method;

#[test]
fn parses_a_minimal_coin_spec() {
    let spec =
        parse_coin_spec("method=Monero,asset=XMR,address=4AdUmoney,amount=0.005").unwrap();
    assert_eq!(spec.method, Method::Monero);
    assert_eq!(spec.asset, "XMR");
    assert_eq!(spec.address, "4AdUmoney");
    assert_eq!(spec.amount, "0.005");
    assert_eq!(spec.min_fee.parse::<f64>().unwrap(), 0.0);
}

#[test]
fn parses_erc20_options() {
    let spec = parse_coin_spec(
        "method=Ethereum,asset=USDC,address=0x11,amount=1.25,\
         contract=0xA0b8,decimals=6,chain-id=1,min-fee=1000000000",
    )
    .unwrap();
    assert_eq!(spec.token_contract.as_deref(), Some("0xA0b8"));
    assert_eq!(spec.token_decimals, Some(6));
    assert_eq!(spec.chain_id, Some(1));
    assert_eq!(spec.min_fee.parse::<f64>().unwrap(), 1_000_000_000.0);
}

#[test]
fn rejects_bad_coin_specs() {
    // Missing required keys.
    assert!(parse_coin_spec("method=Monero,asset=XMR").is_err());
    // Malformed amount.
    assert!(parse_coin_spec("method=Monero,asset=XMR,address=a,amount=1,5").is_err());
    // Unknown method with a helpful message.
    let err = parse_coin_spec("method=Dogecoin,asset=DOGE,address=a,amount=1").unwrap_err();
    assert!(err.contains("unknown method 'Dogecoin'"));
    assert!(err.contains("Namecoin"));
    // Unknown key.
    assert!(parse_coin_spec("method=Monero,asset=XMR,address=a,amount=1,foo=bar").is_err());
    // contract= without decimals=.
    assert!(
        parse_coin_spec("method=Ethereum,asset=USDC,address=a,amount=1,contract=0x1").is_err()
    );
}

#[test]
fn coin_spec_error_messages() {
    assert_eq!(
        parse_coin_spec("method=Monero,asset=XMR").unwrap_err(),
        "coin spec needs method=, asset=, address= and amount="
    );
    assert_eq!(
        parse_coin_spec("method=Monero,asset=XMR,address=a,amount=1,5").unwrap_err(),
        "invalid coin spec part '5': expected key=value"
    );
    assert_eq!(
        parse_coin_spec("method=Dogecoin,asset=DOGE,address=a,amount=1").unwrap_err(),
        "unknown method 'Dogecoin' (expected one of Ethereum, Polygon, Arbitrum, Optimism, \
         Base, BinanceSmartChain, Bitcoin, Firo, Namecoin, Monero, Zano, Solana, Tron, Cardano)"
    );
    assert_eq!(
        parse_coin_spec("method=Monero,asset=XMR,address=a,amount=1,foo=bar").unwrap_err(),
        "unknown key 'foo' in coin spec"
    );
    assert_eq!(
        parse_coin_spec("method=Ethereum,asset=USDC,address=a,amount=1,contract=0x1").unwrap_err(),
        "contract= requires decimals="
    );
    assert_eq!(
        parse_coin_spec("method=Monero,asset=XMR,address=a,amount=x").unwrap_err(),
        "invalid amount 'x': expected a plain decimal"
    );
    assert_eq!(
        parse_coin_spec("method=Ethereum,chain-id=-1").unwrap_err(),
        "invalid chain-id '-1'"
    );
    assert_eq!(
        parse_coin_spec("decimals=4294967296,method=Ethereum").unwrap_err(),
        "invalid decimals '4294967296'"
    );
}

#[test]
fn coin_spec_trims_skips_blanks_and_keeps_last_value() {
    let spec = parse_coin_spec(
        " method = Monero ,, asset=XMR,address=a=b,amount=1,amount=2, uri=monero:x ,chain-id=+7,decimals=4294967295",
    );
    // "method " is not a known key once trimmed? The part is trimmed as a
    // whole, so the key keeps its inner space.
    assert_eq!(spec.unwrap_err(), "unknown key 'method ' in coin spec");
    let spec = parse_coin_spec(
        " method=Monero ,, asset=XMR,address=a=b,amount=1,amount=2, uri=monero:x ,chain-id=+7,decimals=4294967295",
    )
    .unwrap();
    assert_eq!(spec.method, Method::Monero);
    assert_eq!(spec.address, "a=b");
    assert_eq!(spec.amount, "2");
    assert_eq!(spec.uri_override.as_deref(), Some("monero:x"));
    assert_eq!(spec.chain_id, Some(7));
    assert_eq!(spec.token_decimals, Some(u32::MAX));
    assert_eq!(spec.min_fee, "0");
}

#[test]
fn method_names_lists_every_method() {
    let names = method_names();
    assert_eq!(names.len(), 14);
    assert_eq!(names[0], "Ethereum");
    assert_eq!(names[13], "Cardano");
}

#[test]
fn config_urls() {
    let cfg = Config::for_tests(vec![CoinSpec::for_tests(Method::Monero, "XMR", "a", "1")]);
    assert_eq!(cfg.api_url(), "http://127.0.0.1:8080/v1/lnurlp/pl_mock01");
    assert_eq!(cfg.callback_url(), "http://127.0.0.1:8080/v1/lnurlp/cb/pl_mock01");
    assert_eq!(
        cfg.proof_url("plp_mock0000beef"),
        "http://127.0.0.1:8080/v1/lnurlp/tx/plp_mock0000beef"
    );
}

#[test]
fn min_fee_must_be_a_float() {
    let base = "method=Bitcoin,asset=BTC,address=bc1,amount=0.1";
    for ok in ["1e9", "inf", "-Infinity", "NaN", ".5", "5.", "+3.25E-2", "0"] {
        let spec = parse_coin_spec(&format!("{base},min-fee={ok}")).unwrap();
        assert_eq!(spec.min_fee, ok);
        assert!(spec.min_fee.parse::<f64>().is_ok());
    }
    for bad in ["abc", "1e", ".", "", " 5", "1.2.3", "e5", "1e+", "0x10", "in"] {
        assert!(bad.parse::<f64>().is_err(), "{bad}");
        assert_eq!(
            parse_coin_spec(&format!("{base},min-fee={bad}")).unwrap_err(),
            format!("invalid min-fee '{bad}'")
        );
    }
}

#[test]
fn amounts_must_scale_and_are_kept_as_written() {
    assert!(parse_coin_spec("method=Monero,asset=XMR,address=a,amount=1e5").is_err());
    assert!(parse_coin_spec("method=Monero,asset=XMR,address=a,amount=-1").is_err());
    assert!(parse_coin_spec("method=Monero,asset=XMR,address=a,amount=1,amount=x").is_err());
    let spec = parse_coin_spec("method=Monero,asset=XMR,address=a,amount=00.50").unwrap();
    assert_eq!(spec.amount, "00.50");
}
