use ocp_mock::cli::{CoinSpec, Config};
use ocp_mock::handlers::{
    can_answer_callback, can_answer_payment_details, not_found, payment_details, payment_link_page, transaction_details_cb, transaction_proof,
    Body, Query, Response,
};
use ocp_mock::method::Method;
use ocp_mock::state::{clock_now, AppState};

fn multi_coin_state() -> AppState {
    let cfg = Config::for_tests(vec![
        CoinSpec::for_tests(Method::Monero, "XMR", "4AdUmoney", "0.005"),
        CoinSpec::for_tests(
            Method::Namecoin,
            "NMC",
            "N2pGWAh65TWpWmEFrFssRQkQubbczJSKi9",
            "0.5",
        ),
        CoinSpec::for_tests(Method::Ethereum, "ETH", "0x11", "0.0004"),
        {
            let mut usdc = CoinSpec::for_tests(Method::Ethereum, "USDC", "0x11", "1.25");
            usdc.token_contract = Some("0xA0b8".into());
            usdc.token_decimals = Some(6);
            usdc
        },
    ]);
    AppState::new(cfg).unwrap()
}

fn quote_id(state: &AppState) -> String {
    state.quote.quote_id.clone()
}

fn query(pairs: &[(&str, &str)]) -> Query {
    let get = |k: &str| {
        pairs
            .iter()
            .rev()
            .find(|(key, _)| *key == k)
            .map(|(_, v)| v.to_string())
    };
    Query {
        method: get("method"),
        asset: get("asset"),
        quote: get("quote"),
        hex: get("hex"),
        tx: get("tx"),
        sender: get("sender"),
    }
}

fn message(r: &Response) -> String {
    match &r.body {
        Body::Error(e) => e.message.clone(),
        _ => panic!("not an error body"),
    }
}

#[test]
fn payment_details_lists_all_methods_grouped_by_method() {
    let mut state = multi_coin_state();
    let r = payment_details(&mut state, "pl_mock01", &query(&[]), clock_now());
    assert_eq!(r.status, 200);
    let Body::PaymentDetails(body) = r.body else {
        panic!("payment details expected")
    };
    assert_eq!(body.quote.id, quote_id(&state));

    let transfers = &body.transfer_amounts;
    // Ethereum ETH + USDC collapse into one method entry.
    assert_eq!(transfers.len(), 3);
    assert_eq!(transfers[0].method, Method::Monero);
    assert_eq!(transfers[1].method, Method::Namecoin);
    assert_eq!(transfers[2].method, Method::Ethereum);
    let eth_assets = &transfers[2].assets;
    assert_eq!(eth_assets.len(), 2);
    assert_eq!(eth_assets[0].asset, "ETH");
    assert_eq!(eth_assets[1].asset, "USDC");
    assert_eq!(eth_assets[1].amount, "1.25");
}

#[test]
fn each_coin_gets_its_own_transaction_details() {
    let state = multi_coin_state();
    let quote = quote_id(&state);

    let r = transaction_details_cb(
        &state,
        "pl_mock01",
        &query(&[("quote", &quote), ("method", "Monero"), ("asset", "XMR")]),
        clock_now(),
    );
    assert_eq!(r.status, 200);
    let Body::TransactionDetails(body) = r.body else {
        panic!("transaction details expected")
    };
    assert_eq!(body.uri, "monero:4AdUmoney?tx_amount=0.005");
    assert!(!body.hint.contains("as HEX"));

    let r = transaction_details_cb(
        &state,
        "pl_mock01",
        &query(&[("quote", &quote), ("method", "Ethereum"), ("asset", "USDC")]),
        clock_now(),
    );
    assert_eq!(r.status, 200);
    let Body::TransactionDetails(body) = r.body else {
        panic!("transaction details expected")
    };
    assert_eq!(body.uri, "ethereum:0xA0b8@1/transfer?address=0x11&uint256=1250000");
    assert!(body.hint.contains("as HEX"));
}

#[test]
fn unknown_pair_lists_supported_coins() {
    let state = multi_coin_state();
    let quote = quote_id(&state);

    let r = transaction_details_cb(
        &state,
        "pl_mock01",
        &query(&[("quote", &quote), ("method", "Bitcoin"), ("asset", "BTC")]),
        clock_now(),
    );
    assert_eq!(r.status, 400);
    let message = message(&r);
    assert!(message.contains("Bitcoin/BTC not available"));
    assert!(message.contains("Monero/XMR, Namecoin/NMC, Ethereum/ETH, Ethereum/USDC"));
}

#[test]
fn simplified_flow_returns_transaction_details() {
    let mut state = multi_coin_state();
    let quote = quote_id(&state);

    let r = payment_details(
        &mut state,
        "pl_mock01",
        &query(&[("quote", &quote), ("method", "Monero"), ("asset", "XMR")]),
        clock_now(),
    );
    assert_eq!(r.status, 200);
    let Body::TransactionDetails(body) = r.body else {
        panic!("transaction details expected")
    };
    assert_eq!(body.blockchain, "Monero");
    assert_eq!(body.uri, "monero:4AdUmoney?tx_amount=0.005");
}

#[test]
fn callback_rejects_proof_parameters() {
    let state = multi_coin_state();
    let quote = quote_id(&state);

    let r = transaction_details_cb(
        &state,
        "pl_mock01",
        &query(&[("quote", &quote), ("method", "Monero"), ("tx", "abc")]),
        clock_now(),
    );
    assert_eq!(r.status, 400);
    assert!(message(&r).contains("/tx/ endpoint"));
}

#[test]
fn proof_param_follows_the_submitted_method() {
    let state = multi_coin_state();
    let quote = quote_id(&state);

    // Monero (hash family): `tx` accepted.
    let (r, _) = transaction_proof(
        &state,
        "pl_mock01",
        &query(&[("quote", &quote), ("method", "Monero"), ("tx", "hash1")]),
        clock_now(),
    );
    assert_eq!(r.status, 200);

    // Namecoin (hex family): `tx` rejected, `hex` accepted.
    let (r, _) = transaction_proof(
        &state,
        "pl_mock01",
        &query(&[("quote", &quote), ("method", "Namecoin"), ("tx", "abc")]),
        clock_now(),
    );
    assert_eq!(r.status, 400);
    assert!(message(&r).contains("'hex'"));

    let (r, receipt) = transaction_proof(
        &state,
        "pl_mock01",
        &query(&[("quote", &quote), ("method", "Namecoin"), ("hex", "beef")]),
        clock_now(),
    );
    assert_eq!(r.status, 200);
    let Body::Status(status) = r.body else {
        panic!("status expected")
    };
    assert_eq!(status, "Complete");
    let receipt = receipt.unwrap();
    assert_eq!(receipt.method, Method::Namecoin);
    assert_eq!(receipt.proof, "beef");

    // A method that is not configured at all.
    let (r, _) = transaction_proof(
        &state,
        "pl_mock01",
        &query(&[("quote", &quote), ("method", "Bitcoin"), ("hex", "beef")]),
        clock_now(),
    );
    assert_eq!(r.status, 400);
    assert!(message(&r).contains("Wrong method"));
}

#[test]
fn proof_accepted_on_both_tx_path_ids() {
    let state = multi_coin_state();
    let quote = quote_id(&state);
    let payment_id = state.quote.payment_id.clone();

    // Spec construction rule: callback URL with /cb replaced by /tx (pl_ id).
    let (r, _) = transaction_proof(
        &state,
        "pl_mock01",
        &query(&[("quote", &quote), ("method", "Monero"), ("tx", "hash1")]),
        clock_now(),
    );
    assert_eq!(r.status, 200);

    // Hint form: the payment id (plp_...).
    let (r, _) = transaction_proof(
        &state,
        &payment_id,
        &query(&[("quote", &quote), ("method", "Monero"), ("tx", "hash2")]),
        clock_now(),
    );
    assert_eq!(r.status, 200);
}

#[test]
fn proof_rejects_unknown_quote() {
    let state = multi_coin_state();
    let (r, receipt) = transaction_proof(
        &state,
        "pl_mock01",
        &query(&[("quote", "plq_bogus"), ("method", "Monero"), ("tx", "abc")]),
        clock_now(),
    );
    assert_eq!(r.status, 400);
    assert!(receipt.is_none());
}

#[test]
fn no_pending_serves_spec_404_shape() {
    let mut cfg = Config::for_tests(vec![CoinSpec::for_tests(
        Method::Monero,
        "XMR",
        "4AdUmoney",
        "0.005",
    )]);
    cfg.no_pending = true;
    let mut state = AppState::new(cfg).unwrap();

    let r = payment_details(&mut state, "pl_mock01", &query(&[]), clock_now());
    assert_eq!(r.status, 404);
    let Body::NoPending(body) = r.body else {
        panic!("no-pending body expected")
    };
    assert_eq!(body.message, "No pending payment found");
    assert_eq!(body.status_code, 404);
    assert_eq!(body.id, "pl_mock01");
    assert_eq!(body.name, "OCP Mock Shop");
}

#[test]
fn error_answers_of_the_api() {
    let mut state = multi_coin_state();
    let quote = quote_id(&state);
    let now = clock_now();

    let r = payment_details(&mut state, "pl_other", &query(&[]), now);
    assert_eq!(r.status, 404);
    assert_eq!(message(&r), "Unknown payment link");

    let r = transaction_details_cb(&state, "pl_mock01", &query(&[("method", "Monero"), ("asset", "XMR")]), now);
    assert_eq!(r.status, 400);
    assert_eq!(message(&r), "Missing 'quote' parameter");

    let r = transaction_details_cb(
        &state,
        "pl_mock01",
        &query(&[("quote", &quote), ("method", "Monero"), ("asset", "XMR")]),
        state.quote.expiration,
    );
    assert_eq!(message(&r), "Quote is expired");

    let (r, _) = transaction_proof(&state, "plp_nope", &query(&[]), now);
    assert_eq!(r.status, 404);
    assert_eq!(
        message(&r),
        format!("Unknown payment 'plp_nope' (expected '{}' or 'pl_mock01')", state.quote.payment_id)
    );

    let (r, _) = transaction_proof(
        &state,
        "pl_mock01",
        &query(&[("quote", &quote), ("method", "Monero"), ("hex", "ab")]),
        now,
    );
    assert_eq!(message(&r), "Method Monero expects the 'tx' parameter, got 'hex'");

    let (r, _) = transaction_proof(
        &state,
        "pl_mock01",
        &query(&[("quote", &quote), ("method", "Monero"), ("tx", "")]),
        now,
    );
    assert_eq!(message(&r), "Missing 'tx' parameter for method Monero");

    let r = payment_link_page();
    assert_eq!(r.status, 200);
    let r = not_found();
    assert_eq!(r.status, 404);
    assert_eq!(message(&r), "Unknown path");
}

#[test]
fn serving_payment_details_refreshes_the_quote() {
    let cfg = Config::for_tests(vec![CoinSpec::for_tests(Method::Monero, "XMR", "a", "1")]);
    let mut state = AppState::new_at(cfg, 1_000_000_000_000).unwrap();
    let later: i128 = 5_000_000_000_000;
    let r = payment_details(&mut state, "pl_mock01", &query(&[]), later);
    assert_eq!(r.status, 200);
    assert_eq!(state.quote.expiration, later + 600 * 1_000_000_000);
    let Body::PaymentDetails(body) = r.body else {
        panic!("payment details expected")
    };
    assert_eq!(body.quote.expiration, "1970-01-01T01:33:20Z");
    assert_eq!(body.callback, "http://127.0.0.1:8080/v1/lnurlp/cb/pl_mock01");
    assert_eq!(body.transfer_amounts[0].min_fee, "0");
}

#[test]
fn clock_limits_bind_only_where_a_timestamp_is_shown() {
    let cfg = Config::for_tests(vec![CoinSpec::for_tests(Method::Monero, "XMR", "a", "1")]);
    let mut state = AppState::new_at(cfg, 0).unwrap();
    let q = state.quote.quote_id.clone();
    // A time whose TTL does not fit: the unknown link is still answered.
    let late: i128 = i64::MAX as i128 * 1_000_000_000;
    assert!(can_answer_payment_details(&state, "pl_other", &query(&[]), late));
    let r = payment_details(&mut state, "pl_other", &query(&[]), late);
    assert_eq!(r.status, 404);
    assert!(!can_answer_payment_details(&state, "pl_mock01", &query(&[]), late));
    // An expiry past year 9999 blocks only answers that show it.
    state.quote.expiration = 253402300800 * 1_000_000_000;
    let coin = [("quote", q.as_str()), ("method", "Monero"), ("asset", "XMR")];
    let other = [("quote", q.as_str()), ("method", "Bitcoin"), ("asset", "BTC")];
    assert!(!can_answer_callback(&state, "pl_mock01", &query(&coin), 0));
    assert!(can_answer_callback(&state, "pl_mock01", &query(&other), 0));
    let r = transaction_details_cb(&state, "pl_mock01", &query(&other), 0);
    assert_eq!(r.status, 400);
    assert!(!can_answer_payment_details(&state, "pl_mock01", &query(&coin), 0));
    assert!(can_answer_payment_details(&state, "pl_mock01", &query(&other), 0));
    assert!(can_answer_payment_details(&state, "pl_mock01", &query(&[]), 0));
}
