use ocp_mock::method::Method;

#[test]
fn namecoin_is_hex_family() {
    assert!(Method::Namecoin.is_hex());
    assert!(!Method::Namecoin.is_evm());
    assert_eq!(Method::Namecoin.proof_param(), "hex");
}

#[test]
fn hash_family_uses_tx_param() {
    for m in [
        Method::Monero,
        Method::Zano,
        Method::Solana,
        Method::Tron,
        Method::Cardano,
    ] {
        assert!(!m.is_hex());
        assert_eq!(m.proof_param(), "tx");
    }
}

#[test]
fn spec_names_are_pascal_case_cli_values() {
    assert_eq!(
        Method::from_str("BinanceSmartChain", false).unwrap(),
        Method::BinanceSmartChain
    );
    assert_eq!(Method::from_str("Namecoin", false).unwrap(), Method::Namecoin);
}

#[test]
fn evm_methods_and_their_chain_ids() {
    let expected = [
        (Method::Ethereum, Some(1)),
        (Method::Polygon, Some(137)),
        (Method::Arbitrum, Some(42161)),
        (Method::Optimism, Some(10)),
        (Method::Base, Some(8453)),
        (Method::BinanceSmartChain, Some(56)),
    ];
    for (m, id) in expected {
        assert!(m.is_evm());
        assert!(m.is_hex());
        assert_eq!(m.default_chain_id(), id);
        assert_eq!(m.proof_param(), "hex");
    }
    for m in [Method::Bitcoin, Method::Firo, Method::Namecoin, Method::Monero, Method::Cardano] {
        assert!(!m.is_evm());
        assert_eq!(m.default_chain_id(), None);
    }
}

#[test]
fn every_name_parses_back_to_its_method() {
    let all = Method::value_variants();
    assert_eq!(all.len(), 14);
    for m in all {
        assert_eq!(Method::from_str(m.spec_name(), false).unwrap(), m);
        assert_eq!(m.to_string(), m.spec_name());
    }
}

#[test]
fn method_parsing_respects_case_flag() {
    assert!(Method::from_str("monero", false).is_err());
    assert_eq!(Method::from_str("monero", true).unwrap(), Method::Monero);
    assert_eq!(Method::from_str("BINANCESMARTCHAIN", true).unwrap(), Method::BinanceSmartChain);
    assert_eq!(
        Method::from_str("Dogecoin", false).unwrap_err(),
        "invalid variant: Dogecoin"
    );
}
