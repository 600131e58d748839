use ocp_mock::banner::{coin_line, hex_method_names, payment_link, render_qr};
use ocp_mock::cli::{CoinSpec, Config};
use ocp_mock::lnurl::lnurl_encode;
use ocp_mock::method::Method;
use ocp_mock::state::AppState;

#[test]
fn payment_link_carries_the_lnurl_of_the_api_url() {
    let cfg = Config::for_tests(vec![CoinSpec::for_tests(Method::Monero, "XMR", "a", "1")]);
    let link = payment_link(&cfg);
    assert_eq!(
        link,
        format!(
            "https://127.0.0.1:8080/pl/?lightning={}",
            lnurl_encode("http://127.0.0.1:8080/v1/lnurlp/pl_mock01")
        )
    );
    let qr = render_qr(&link).unwrap();
    assert!(qr.contains('█') || qr.contains('▀') || qr.contains('▄'));
    assert!(render_qr(&"x".repeat(5000)).is_err());
}

#[test]
fn banner_lines_per_coin() {
    let cfg = Config::for_tests(vec![
        CoinSpec::for_tests(Method::Monero, "XMR", "4Ad", "0.005"),
        CoinSpec::for_tests(Method::Ethereum, "ETH", "0x11", "0.0004"),
        CoinSpec::for_tests(Method::Bitcoin, "BTC", "bc1", "0.1"),
    ]);
    let state = AppState::new(cfg).unwrap();
    assert_eq!(
        coin_line(&state.coins[0]),
        "  - Monero / XMR : 0.005 -> 4Ad (tx hash, wallet broadcasts)"
    );
    assert_eq!(
        coin_line(&state.coins[1]),
        "  - Ethereum / ETH : 0.0004 -> 0x11 (signed HEX, wallet must NOT broadcast)"
    );
    assert_eq!(hex_method_names(&state.coins), vec!["Ethereum", "Bitcoin"]);
}
