use ocp_mock::cli::{CoinSpec, Config};
use ocp_mock::method::Method;
use ocp_mock::state::{rfc3339, AppState};

#[test]
fn rejects_duplicate_method_asset_pairs() {
    let cfg = Config::for_tests(vec![
        CoinSpec::for_tests(Method::Monero, "XMR", "addr1", "0.005"),
        CoinSpec::for_tests(Method::Monero, "XMR", "addr2", "0.006"),
    ]);
    let err = AppState::new(cfg).map(|_| ()).unwrap_err();
    assert!(err.contains("duplicate coin Monero/XMR"));
}

#[test]
fn same_method_different_assets_is_allowed() {
    let cfg = Config::for_tests(vec![
        CoinSpec::for_tests(Method::Ethereum, "ETH", "0x11", "0.0004"),
        CoinSpec::for_tests(Method::Solana, "SOL", "sol1", "0.02"),
    ]);
    let state = AppState::new(cfg).unwrap();
    assert_eq!(state.coins.len(), 2);
    assert_eq!(state.supported_pairs(), "Ethereum/ETH, Solana/SOL");
    assert!(state.find_coin("Solana", "SOL").is_some());
    assert!(state.find_coin("Solana", "USDC").is_none());
    assert_eq!(state.find_method("Ethereum"), Some(Method::Ethereum));
    assert_eq!(state.find_method("Bitcoin"), None);
}

#[test]
fn uri_errors_name_the_coin() {
    let mut bad = CoinSpec::for_tests(Method::Bitcoin, "BTC", "bc1", "1");
    bad.token_contract = Some("0x1".into());
    let cfg = Config::for_tests(vec![
        CoinSpec::for_tests(Method::Monero, "XMR", "a", "1"),
        bad,
    ]);
    assert_eq!(
        AppState::new(cfg).map(|_| ()).unwrap_err(),
        "coin Bitcoin/BTC: contract= is only supported for EVM methods"
    );
}

#[test]
fn quote_ids_and_expiry_follow_the_issue_time() {
    let cfg = Config::for_tests(vec![CoinSpec::for_tests(Method::Monero, "XMR", "a", "1")]);
    let now: i128 = 0x1234_5678 * 1_000_000_000 + 5;
    let mut state = AppState::new_at(cfg, now).unwrap();
    assert_eq!(state.quote.quote_id, "plq_mock12345678");
    assert_eq!(state.quote.payment_id, "plp_mock12345678");
    assert_eq!(state.quote.expiration, now + 600 * 1_000_000_000);
    assert!(!state.quote.is_expired_at(now));
    assert!(state.quote.is_expired_at(now + 600 * 1_000_000_000));
    state.refresh_quote_at(now + 10).unwrap();
    assert_eq!(state.quote.expiration, now + 10 + 600 * 1_000_000_000);
    assert_eq!(state.coins[0].uri, "monero:a?tx_amount=1");

    let cfg = Config::for_tests(vec![CoinSpec::for_tests(Method::Monero, "XMR", "a", "1")]);
    let state = AppState::new_at(cfg, 15 * 1_000_000_000).unwrap();
    assert_eq!(state.quote.quote_id, "plq_mock0000000f");
}

#[test]
fn rfc3339_formats_whole_seconds_in_utc() {
    assert_eq!(rfc3339(0), "1970-01-01T00:00:00Z");
    assert_eq!(rfc3339(1_700_000_000 * 1_000_000_000 + 999_999_999), "2023-11-14T22:13:20Z");
}

#[test]
fn absurd_quote_ttl_is_refused() {
    let mut cfg = Config::for_tests(vec![CoinSpec::for_tests(Method::Monero, "XMR", "a", "1")]);
    cfg.quote_ttl = u64::MAX;
    assert_eq!(
        AppState::new(cfg).map(|_| ()).unwrap_err(),
        "quote TTL runs past the system clock's range"
    );
    assert!(!ocp_mock::state::ttl_fits_exec(0, u64::MAX));
    assert!(ocp_mock::state::ttl_fits_exec(0, 600));
    assert!(ocp_mock::state::is_rfc3339_representable(253402300799 * 1_000_000_000));
    assert!(!ocp_mock::state::is_rfc3339_representable(253402300800 * 1_000_000_000));
    assert_eq!(rfc3339(253402300799 * 1_000_000_000), "9999-12-31T23:59:59Z");
}

#[test]
fn clock_expiry_and_refresh() {
    let cfg = Config::for_tests(vec![CoinSpec::for_tests(Method::Monero, "XMR", "a", "1")]);
    let mut state = AppState::new_at(cfg, 0).unwrap();
    // Issued at the epoch: long expired by the system clock.
    assert!(state.quote.is_expired());
    let id = state.quote.quote_id.clone();
    state.refresh_quote().unwrap();
    assert!(!state.quote.is_expired());
    assert!(state.quote.expiration > 600 * 1_000_000_000);
    assert_eq!(state.quote.quote_id, id);
    state.quote.expiration = i128::MAX;
    assert!(!state.quote.is_expired());
}

#[test]
fn refresh_refuses_a_ttl_past_the_clock_range() {
    let cfg = Config::for_tests(vec![CoinSpec::for_tests(Method::Monero, "XMR", "a", "1")]);
    let mut state = AppState::new_at(cfg, 0).unwrap();
    let before = state.quote.expiration;
    state.cfg.quote_ttl = u64::MAX;
    assert_eq!(
        state.refresh_quote().unwrap_err(),
        "quote TTL runs past the system clock's range"
    );
    assert_eq!(state.quote.expiration, before);
}

#[test]
fn times_before_the_epoch() {
    assert_eq!(rfc3339(-1), "1969-12-31T23:59:59Z");
    assert_eq!(rfc3339(-1_000_000_000), "1969-12-31T23:59:59Z");
    assert_eq!(rfc3339(-1_000_000_001), "1969-12-31T23:59:58Z");
    assert_eq!(rfc3339(-62167219200 * 1_000_000_000), "0000-01-01T00:00:00Z");
    assert!(!ocp_mock::state::is_rfc3339_representable(-62167219200 * 1_000_000_000 - 1));
    let cfg = Config::for_tests(vec![CoinSpec::for_tests(Method::Monero, "XMR", "a", "1")]);
    assert_eq!(
        AppState::new_at(cfg, -5).map(|_| ()).unwrap_err(),
        "system clock is set before the Unix epoch"
    );
    // Coin errors come first.
    let cfg = Config::for_tests(vec![
        CoinSpec::for_tests(Method::Monero, "XMR", "a", "1"),
        CoinSpec::for_tests(Method::Monero, "XMR", "b", "1"),
    ]);
    assert_eq!(
        AppState::new_at(cfg, -5).map(|_| ()).unwrap_err(),
        "duplicate coin Monero/XMR"
    );
    // A refresh before the epoch keeps the time.
    let cfg = Config::for_tests(vec![CoinSpec::for_tests(Method::Monero, "XMR", "a", "1")]);
    let mut state = AppState::new_at(cfg, 0).unwrap();
    state.refresh_quote_at(-700 * 1_000_000_000).unwrap();
    assert_eq!(state.quote.expiration, -100 * 1_000_000_000);
    assert_eq!(rfc3339(state.quote.expiration), "1969-12-31T23:58:20Z");
}

#[test]
fn quote_ttl_past_the_clock_at_a_given_time() {
    let cfg = Config::for_tests(vec![CoinSpec::for_tests(Method::Monero, "XMR", "a", "1")]);
    let late: i128 = (i64::MAX as i128 - 599) * 1_000_000_000;
    assert_eq!(
        AppState::new_at(cfg, late).map(|_| ()).unwrap_err(),
        "quote TTL runs past the system clock's range"
    );
    let cfg = Config::for_tests(vec![CoinSpec::for_tests(Method::Monero, "XMR", "a", "1")]);
    let mut state = AppState::new_at(cfg, 0).unwrap();
    assert_eq!(
        state.refresh_quote_at(late).unwrap_err(),
        "quote TTL runs past the system clock's range"
    );
    assert_eq!(state.quote.expiration, 600 * 1_000_000_000);
    assert!(state.refresh_quote_at(late - 1_000_000_000).is_ok());
}
