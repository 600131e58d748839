//! The decisions of the OpenCryptoPay provider API: for each request (its
//! path parameter, its query and the time it arrives) the response to send
//! and how the shared state changes.

use vstd::prelude::*;
use crate::method::{Method, hex_proof, method_name, proof_param_of};
use crate::payloads::{
    ErrorBody, NoPending, PaymentDetails, TransactionDetails, error, is_payment_details,
    is_transaction_details, no_pending,
};
use crate::state::{
    AppState, Quote, add_ttl, coin_index, expired_at, expiry_after, is_rfc3339_representable, method_index, pairs_text,
    rfc3339_representable, ttl_fits, ttl_fits_exec,
};
use crate::text::{chars_eq, chars_of, push_str, string_of};

verus! {

/// The query parameters the provider reads.
pub struct Query {
    pub method: Option<String>,
    pub asset: Option<String>,
    pub quote: Option<String>,
    pub hex: Option<String>,
    pub tx: Option<String>,
    pub sender: Option<String>,
}

/// A response body.
pub enum Body {
    Error(ErrorBody),
    NoPending(NoPending),
    PaymentDetails(PaymentDetails),
    TransactionDetails(TransactionDetails),
    /// `{"status": ...}`
    Status(String),
    /// `{"message": ...}`
    Message(String),
}

/// An HTTP status code and a body.
pub struct Response {
    pub status: u16,
    pub body: Body,
}

/// A transaction proof accepted on the `/tx/` endpoint.
pub struct ProofReceipt {
    pub method: Method,
    /// The signed transaction (hex methods) or the transaction hash.
    pub proof: String,
}

/// The value of an optional query parameter, empty when absent.
pub open spec fn param(o: Option<String>) -> Seq<char> {
    match o {
        Some(s) => s@,
        None => Seq::<char>::empty(),
    }
}

/// `r` is the error answer with status `code`, `message` and `reason`.
pub open spec fn is_error(r: Response, code: u16, message: Seq<char>, reason: Seq<char>) -> bool {
    &&& r.status == code
    &&& r.body matches Body::Error(e)
    &&& e.status_code == code
    &&& e.message@ == message
    &&& e.error@ == reason
}

fn error_response(code: u16, message: &str, reason: &str) -> (r: Response)
    ensures
        is_error(r, code, message@, reason@),
{
    Response { status: code, body: Body::Error(error(code, message, reason)) }
}

fn error_response_owned(code: u16, message: Vec<char>, reason: &str) -> (r: Response)
    ensures
        is_error(r, code, message@, reason@),
{
    let m = string_of(message.as_slice());
    error_response(code, m.as_str(), reason)
}

/// What is wrong with the `quote` parameter of a request at time `now`, if
/// anything: a different quote id, a missing one where it is required, or
/// an expired quote.
pub open spec fn quote_problem(quote: Quote, q: Option<String>, required: bool, now: i128) -> Option<Seq<char>> {
    match q {
        Some(v) => if v@ != quote.quote_id@ {
            Some("Unknown quote '"@ + v@ + "' (expected '"@ + quote.quote_id@ + "')"@)
        } else if expired_at(quote.expiration, now) {
            Some("Quote is expired"@)
        } else {
            None
        },
        None => if required {
            Some("Missing 'quote' parameter"@)
        } else if expired_at(quote.expiration, now) {
            Some("Quote is expired"@)
        } else {
            None
        },
    }
}

/// Check the request's `quote` parameter against the active quote.
pub fn check_quote(quote: &Quote, query: &Query, required: bool, now: i128) -> (r: Result<(), Response>)
    ensures
        quote_problem(*quote, query.quote, required, now) matches Some(m) ==> (r matches Err(resp) && is_error(resp, 400, m, "Bad Request"@)),
        quote_problem(*quote, query.quote, required, now) is None ==> r is Ok,
{
    match &query.quote {
        Some(q) => {
            if !(*q == quote.quote_id) {
                let mut msg: Vec<char> = Vec::new();
                push_str(&mut msg, "Unknown quote '");
                push_str(&mut msg, q.as_str());
                push_str(&mut msg, "' (expected '");
                push_str(&mut msg, quote.quote_id.as_str());
                push_str(&mut msg, "')");
                return Err(error_response_owned(400, msg, "Bad Request"));
            }
        },
        None => {
            if required {
                return Err(error_response(400, "Missing 'quote' parameter", "Bad Request"));
            }
        },
    }
    if quote.is_expired_at(now) {
        Err(error_response(400, "Quote is expired", "Bad Request"))
    } else {
        Ok(())
    }
}

/// The transaction details for the request's `method` & `asset`, after
/// checking its quote.
pub open spec fn transaction_details_answer(state: AppState, query: Query, quote_required: bool, now: i128, r: Response) -> bool {
    match quote_problem(state.quote, query.quote, quote_required, now) {
        Some(m) => is_error(r, 400, m, "Bad Request"@),
        None => match coin_index(state.coins@, param(query.method), param(query.asset), 0) {
            None => is_error(
                r,
                400,
                "Method/asset "@ + param(query.method) + "/"@ + param(query.asset) + " not available (supported: "@
                    + pairs_text(state.coins@) + ")"@,
                "Bad Request"@,
            ),
            Some(k) => r.status == 200 && (r.body matches Body::TransactionDetails(t)
                && is_transaction_details(t, state.cfg, state.quote, state.coins@[k])),
        },
    }
}

/// Whether the transaction details answer at time `now` shows the quote's
/// expiry: the quote passes the check and the query names a configured coin.
pub open spec fn details_shown(state: AppState, query: Query, quote_required: bool, now: i128) -> bool {
    quote_problem(state.quote, query.quote, quote_required, now) is None && coin_index(
        state.coins@,
        param(query.method),
        param(query.asset),
        0,
    ) is Some
}

/// Whether the transaction details answer at time `now` shows the quote's
/// expiry.
pub fn shows_details(state: &AppState, query: &Query, quote_required: bool, now: i128) -> (r: bool)
    ensures
        r == details_shown(*state, *query, quote_required, now),
{
    match check_quote(&state.quote, query, quote_required, now) {
        Err(_) => false,
        Ok(()) => {
            let method = param_str(&query.method);
            let asset = param_str(&query.asset);
            state.find_coin(method, asset).is_some()
        },
    }
}

fn param_str(o: &Option<String>) -> (r: &str)
    ensures
        r@ == param(*o),
{
    match o {
        Some(s) => s.as_str(),
        None => {
            let e = "";
            proof {
                reveal_strlit("");
            }
            e
        },
    }
}

/// Transaction details for the coin the query names (the callback of step 3
/// and the simplified flow).
pub fn transaction_details_response(state: &AppState, query: &Query, quote_required: bool, now: i128) -> (r: Response)
    requires
        details_shown(*state, *query, quote_required, now) ==> rfc3339_representable(state.quote.expiration),
    ensures
        transaction_details_answer(*state, *query, quote_required, now, r),
        !quote_required && query.quote is None && now < state.quote.expiration && coin_index(
            state.coins@,
            param(query.method),
            param(query.asset),
            0,
        ) is Some ==> coin_details_served(*state, *query, r),
{
    match check_quote(&state.quote, query, quote_required, now) {
        Err(resp) => {
            return resp;
        },
        Ok(()) => {},
    }
    let method = param_str(&query.method);
    let asset = param_str(&query.asset);
    match state.find_coin(method, asset) {
        Some(coin) => Response {
            status: 200,
            body: Body::TransactionDetails(crate::payloads::transaction_details(&state.cfg, &state.quote, coin)),
        },
        None => {
            let mut msg: Vec<char> = Vec::new();
            push_str(&mut msg, "Method/asset ");
            push_str(&mut msg, method);
            push_str(&mut msg, "/");
            push_str(&mut msg, asset);
            push_str(&mut msg, " not available (supported: ");
            let pairs = state.supported_pairs();
            push_str(&mut msg, pairs.as_str());
            push_str(&mut msg, ")");
            error_response_owned(400, msg, "Bad Request")
        },
    }
}

/// Whether the string `a` equals `b`.
fn str_is(a: &str, b: &String) -> (r: bool)
    ensures
        r == (a@ == b@),
{
    let x = chars_of(a);
    let y = chars_of(b.as_str());
    chars_eq(&x, &y)
}

/// Whether the request carries both `method` and `asset`.
pub open spec fn names_coin(query: Query) -> bool {
    query.method is Some && query.asset is Some
}

/// What answering payment details at time `now` needs of the clock: where
/// the answer is the transaction details and shows the quote's expiry, that
/// expiry is an RFC 3339 time; where it is the payment details, the quote
/// validity fits after `now` and the new expiry is an RFC 3339 time.
pub open spec fn payment_details_ready(state: AppState, id: Seq<char>, query: Query, now: i128) -> bool {
    id == state.cfg.id@ && !state.cfg.no_pending ==> if names_coin(query) {
        details_shown(state, query, false, now) ==> rfc3339_representable(state.quote.expiration)
    } else {
        ttl_fits(now, state.cfg.quote_ttl) && rfc3339_representable(expiry_after(now, state.cfg.quote_ttl))
    }
}

/// Whether payment details can be answered at time `now`.
pub fn can_answer_payment_details(state: &AppState, id: &str, query: &Query, now: i128) -> (r: bool)
    ensures
        r == payment_details_ready(*state, id@, *query, now),
{
    if !str_is(id, &state.cfg.id) || state.cfg.no_pending {
        return true;
    }
    if query.method.is_some() && query.asset.is_some() {
        !shows_details(state, query, false, now) || is_rfc3339_representable(state.quote.expiration)
    } else {
        if ttl_fits_exec(now, state.cfg.quote_ttl) {
            is_rfc3339_representable(add_ttl(now, state.cfg.quote_ttl))
        } else {
            false
        }
    }
}

/// Payment details (step 2), or transaction details when `method` & `asset`
/// are passed (the simplified flow of the OpenCryptoPay standard). Serving the payment details
/// refreshes the quote to expire the configured TTL after `now`.
pub fn payment_details(state: &mut AppState, id: &str, query: &Query, now: i128) -> (r: Response)
    requires
        payment_details_ready(*old(state), id@, *query, now),
    ensures
        id@ != old(state).cfg.id@ ==> is_error(r, 404, "Unknown payment link"@, "Not Found"@)
            && *final(state) == *old(state),
        id@ == old(state).cfg.id@ && old(state).cfg.no_pending ==> r.status == 404 && (r.body matches Body::NoPending(n)
            && n.id@ == old(state).cfg.id@ && n.name@ == old(state).cfg.name@ && n.status_code == 404
            && n.message@ == "No pending payment found"@ && n.error@ == "Not Found"@) && *final(state) == *old(state),
        id@ == old(state).cfg.id@ && !old(state).cfg.no_pending && names_coin(*query)
            ==> transaction_details_answer(*old(state), *query, false, now, r) && *final(state) == *old(state),
        id@ == old(state).cfg.id@ && !old(state).cfg.no_pending && !names_coin(*query) ==> {
            &&& final(state).cfg == old(state).cfg
            &&& final(state).coins == old(state).coins
            &&& final(state).quote.quote_id == old(state).quote.quote_id
            &&& final(state).quote.payment_id == old(state).quote.payment_id
            &&& final(state).quote.expiration == expiry_after(now, old(state).cfg.quote_ttl)
            &&& final(state).quote.expiration == now + old(state).cfg.quote_ttl * 1_000_000_000
            &&& r.status == 200
            &&& r.body matches Body::PaymentDetails(p)
            &&& is_payment_details(p, final(state).cfg, final(state).quote, final(state).coins@)
        },
        id@ == old(state).cfg.id@ && !old(state).cfg.no_pending && names_coin(*query) && query.quote is None && now
            < old(state).quote.expiration && coin_index(old(state).coins@, param(query.method), param(query.asset), 0)
            is Some ==> coin_details_served(*old(state), *query, r),
{
    if !str_is(id, &state.cfg.id) {
        return error_response(404, "Unknown payment link", "Not Found");
    }
    if state.cfg.no_pending {
        return Response { status: 404, body: Body::NoPending(no_pending(&state.cfg)) };
    }
    if query.method.is_some() && query.asset.is_some() {
        return transaction_details_response(state, query, false, now);
    }
    let _ = state.refresh_quote_at(now);
    let details = crate::payloads::payment_details(&state.cfg, &state.quote, &state.coins);
    Response { status: 200, body: Body::PaymentDetails(details) }
}

/// Whether the request carries a transaction proof parameter.
pub open spec fn carries_proof(query: Query) -> bool {
    query.hex is Some || query.tx is Some || query.sender is Some
}

/// What answering the callback at time `now` needs of the clock: where the
/// answer is the transaction details and shows the quote's expiry, that
/// expiry is an RFC 3339 time.
pub open spec fn callback_ready(state: AppState, id: Seq<char>, query: Query, now: i128) -> bool {
    id == state.cfg.id@ && !state.cfg.no_pending && !carries_proof(query) && details_shown(state, query, true, now)
        ==> rfc3339_representable(state.quote.expiration)
}

/// Whether the callback can be answered at time `now`.
pub fn can_answer_callback(state: &AppState, id: &str, query: &Query, now: i128) -> (r: bool)
    ensures
        r == callback_ready(*state, id@, *query, now),
{
    if !str_is(id, &state.cfg.id) || state.cfg.no_pending || query.hex.is_some() || query.tx.is_some()
        || query.sender.is_some() {
        return true;
    }
    !shows_details(state, query, true, now) || is_rfc3339_representable(state.quote.expiration)
}

/// Transaction details via the callback URL (step 3).
pub fn transaction_details_cb(state: &AppState, id: &str, query: &Query, now: i128) -> (r: Response)
    requires
        callback_ready(*state, id@, *query, now),
    ensures
        id@ != state.cfg.id@ ==> is_error(r, 404, "Unknown payment link"@, "Not Found"@),
        id@ == state.cfg.id@ && state.cfg.no_pending ==> r.status == 404 && (r.body matches Body::NoPending(n)
            && n.id@ == state.cfg.id@ && n.name@ == state.cfg.name@ && n.status_code == 404
            && n.message@ == "No pending payment found"@ && n.error@ == "Not Found"@),
        id@ == state.cfg.id@ && !state.cfg.no_pending && carries_proof(*query) ==> is_error(
            r,
            400,
            "Transaction proofs go to the /tx/ endpoint, not the /cb/ callback (construct it by replacing /cb with /tx, see the hint)"@,
            "Bad Request"@,
        ),
        id@ == state.cfg.id@ && !state.cfg.no_pending && !carries_proof(*query)
            ==> transaction_details_answer(*state, *query, true, now, r),
{
    if !str_is(id, &state.cfg.id) {
        return error_response(404, "Unknown payment link", "Not Found");
    }
    if state.cfg.no_pending {
        return Response { status: 404, body: Body::NoPending(no_pending(&state.cfg)) };
    }
    if query.hex.is_some() || query.tx.is_some() || query.sender.is_some() {
        return error_response(
            400,
            "Transaction proofs go to the /tx/ endpoint, not the /cb/ callback (construct it by replacing /cb with /tx, see the hint)",
            "Bad Request",
        );
    }
    transaction_details_response(state, query, true, now)
}

/// The proof parameter the method does not use.
pub open spec fn other_param_of(m: Method) -> Seq<char> {
    if hex_proof(m) {
        "tx"@
    } else {
        "hex"@
    }
}

/// The proof parameter of the request for method `m`.
pub open spec fn proof_value(query: Query, m: Method) -> Option<String> {
    if hex_proof(m) {
        query.hex
    } else {
        query.tx
    }
}

/// The proof parameter the request must not carry for method `m`.
pub open spec fn other_value(query: Query, m: Method) -> Option<String> {
    if hex_proof(m) {
        query.tx
    } else {
        query.hex
    }
}

/// The answer to a proof submission on `/tx/<payment>`: the payment must
/// be the quote's payment id or the payment link id, the quote must be
/// valid, the method configured, and the proof carried in the parameter of
/// the method's family (and not in the other one).
pub open spec fn proof_answer(state: AppState, payment: Seq<char>, query: Query, now: i128, r: (Response, Option<ProofReceipt>)) -> bool {
    if payment != state.quote.payment_id@ && payment != state.cfg.id@ {
        is_error(
            r.0,
            404,
            "Unknown payment '"@ + payment + "' (expected '"@ + state.quote.payment_id@ + "' or '"@ + state.cfg.id@ + "')"@,
            "Not Found"@,
        ) && r.1 is None
    } else {
        match quote_problem(state.quote, query.quote, true, now) {
            Some(m) => is_error(r.0, 400, m, "Bad Request"@) && r.1 is None,
            None => match method_index(state.coins@, param(query.method), 0) {
                None => is_error(
                    r.0,
                    400,
                    "Wrong method '"@ + param(query.method) + "' (supported: "@ + pairs_text(state.coins@) + ")"@,
                    "Bad Request"@,
                ) && r.1 is None,
                Some(k) => {
                    let m = state.coins@[k].spec.method;
                    if other_value(query, m) is Some {
                        is_error(
                            r.0,
                            400,
                            "Method "@ + method_name(m) + " expects the '"@ + proof_param_of(m) + "' parameter, got '"@
                                + other_param_of(m) + "'"@,
                            "Bad Request"@,
                        ) && r.1 is None
                    } else if proof_value(query, m) is None || proof_value(query, m)->0@.len() == 0 {
                        is_error(
                            r.0,
                            400,
                            "Missing '"@ + proof_param_of(m) + "' parameter for method "@ + method_name(m),
                            "Bad Request"@,
                        ) && r.1 is None
                    } else {
                        &&& r.0.status == 200
                        &&& r.0.body matches Body::Status(st)
                        &&& st@ == "Complete"@
                        &&& r.1 matches Some(rc)
                        &&& rc.method == m
                        &&& rc.proof@ == proof_value(query, m)->0@
                    }
                },
            },
        }
    }
}

/// Transaction proof submission (step 4, `/tx/` endpoint). The standard
/// advertises the payment id (plp_...) in the hint, but its construction
/// rule (replace /cb with /tx in the callback URL) yields the payment link
/// id (pl_...): both are accepted.
pub fn transaction_proof(state: &AppState, payment: &str, query: &Query, now: i128) -> (r: (Response, Option<ProofReceipt>))
    ensures
        proof_answer(*state, payment@, *query, now, r),
        state.quote.expiration <= now ==> r.1 is None && (r.0.status == 400 || r.0.status == 404),
{
    if !str_is(payment, &state.quote.payment_id) && !str_is(payment, &state.cfg.id) {
        let mut msg: Vec<char> = Vec::new();
        push_str(&mut msg, "Unknown payment '");
        push_str(&mut msg, payment);
        push_str(&mut msg, "' (expected '");
        push_str(&mut msg, state.quote.payment_id.as_str());
        push_str(&mut msg, "' or '");
        push_str(&mut msg, state.cfg.id.as_str());
        push_str(&mut msg, "')");
        return (error_response_owned(404, msg, "Not Found"), None);
    }
    match check_quote(&state.quote, query, true, now) {
        Err(resp) => {
            return (resp, None);
        },
        Ok(()) => {},
    }
    let method_param = param_str(&query.method);
    let method = match state.find_method(method_param) {
        Some(m) => m,
        None => {
            let mut msg: Vec<char> = Vec::new();
            push_str(&mut msg, "Wrong method '");
            push_str(&mut msg, method_param);
            push_str(&mut msg, "' (supported: ");
            let pairs = state.supported_pairs();
            push_str(&mut msg, pairs.as_str());
            push_str(&mut msg, ")");
            return (error_response_owned(400, msg, "Bad Request"), None);
        },
    };
    let expected = method.proof_param();
    let hex = method.is_hex();
    let other = if hex {
        "tx"
    } else {
        "hex"
    };
    let other_present = if hex {
        query.tx.is_some()
    } else {
        query.hex.is_some()
    };
    if other_present {
        let mut msg: Vec<char> = Vec::new();
        push_str(&mut msg, "Method ");
        push_str(&mut msg, method.spec_name());
        push_str(&mut msg, " expects the '");
        push_str(&mut msg, expected);
        push_str(&mut msg, "' parameter, got '");
        push_str(&mut msg, other);
        push_str(&mut msg, "'");
        return (error_response_owned(400, msg, "Bad Request"), None);
    }
    let value = if hex {
        &query.hex
    } else {
        &query.tx
    };
    let submitted = match value {
        Some(p) => {
            if p.as_str().is_empty() {
                None
            } else {
                Some(p.clone())
            }
        },
        None => None,
    };
    match submitted {
        Some(p) => {
            let resp = Response { status: 200, body: Body::Status(String::from_str("Complete")) };
            (resp, Some(ProofReceipt { method, proof: p }))
        },
        None => {
            let mut msg: Vec<char> = Vec::new();
            push_str(&mut msg, "Missing '");
            push_str(&mut msg, expected);
            push_str(&mut msg, "' parameter for method ");
            push_str(&mut msg, method.spec_name());
            (error_response_owned(400, msg, "Bad Request"), None)
        },
    }
}

/// The informative page the QR link points at when opened in a browser.
pub fn payment_link_page() -> (r: Response)
    ensures
        r.status == 200,
        (r.body matches Body::Message(m) && m@ == "Mock OpenCryptoPay payment link. Scan with an OpenCryptoPay-enabled wallet."@),
{
    Response {
        status: 200,
        body: Body::Message(String::from_str("Mock OpenCryptoPay payment link. Scan with an OpenCryptoPay-enabled wallet.")),
    }
}

/// The answer to any other path.
pub fn not_found() -> (r: Response)
    ensures
        is_error(r, 404, "Unknown path"@, "Not Found"@),
{
    error_response(404, "Unknown path", "Not Found")
}

// ---------------------------------------------------------------------------
// Laws of the answers

/// `r` is the 200 answer with the transaction details of the coin the
/// query names: its method's name as the blockchain and its payment URI.
pub open spec fn coin_details_served(state: AppState, query: Query, r: Response) -> bool {
    match coin_index(state.coins@, param(query.method), param(query.asset), 0) {
        Some(k) => r.status == 200 && (r.body matches Body::TransactionDetails(t) && t.blockchain@ == method_name(
            state.coins@[k].spec.method,
        ) && t.uri@ == state.coins@[k].uri@),
        None => false,
    }
}

/// Where the quote is optional (the simplified flow), a request without a
/// quote gets the same answer as one that carries the active quote id.
pub proof fn lemma_quote_optional(state: AppState, without: Query, with: Query, active: String, now: i128, r: Response)
    requires
        without.quote is None,
        with.quote == Some(active),
        active@ == state.quote.quote_id@,
        with.method == without.method,
        with.asset == without.asset,
    ensures
        transaction_details_answer(state, without, false, now, r) == transaction_details_answer(state, with, false, now, r),
{
}

/// Where the quote is optional, a request without a quote, before the
/// quote expires, naming a configured method and asset, gets that coin's
/// transaction details with status 200.
pub proof fn lemma_quote_optional_served(state: AppState, query: Query, now: i128, r: Response)
    requires
        query.quote is None,
        now < state.quote.expiration,
        transaction_details_answer(state, query, false, now, r),
        coin_index(state.coins@, param(query.method), param(query.asset), 0) is Some,
    ensures
        coin_details_served(state, query, r),
{
}

/// A proof submitted once the quote has expired is refused, whatever its
/// method and proof parameters: no receipt, a 404 for an unknown payment
/// and otherwise a 400; for a known payment carrying the active quote id
/// the message is "Quote is expired".
pub proof fn lemma_expired_quote_refused(
    state: AppState,
    payment: Seq<char>,
    query: Query,
    now: i128,
    r: (Response, Option<ProofReceipt>),
)
    requires
        proof_answer(state, payment, query, now, r),
        state.quote.expiration <= now,
    ensures
        r.1 is None,
        r.0.status == 400 || r.0.status == 404,
        (payment == state.quote.payment_id@ || payment == state.cfg.id@) && query.quote is Some
            && query.quote->0@ == state.quote.quote_id@ ==> is_error(r.0, 400, "Quote is expired"@, "Bad Request"@),
{
}

} // verus!
