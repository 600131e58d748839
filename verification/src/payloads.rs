//! The provider's response payloads, structured after the example responses
//! in the OpenCryptoPay documentation. They hold the values that vary; the
//! fixed fields of each response are added when they are rendered as JSON.

use vstd::prelude::*;
use crate::cli::{Config, lnurlp_url};
use crate::method::{Method, hex_proof, method_name};
use crate::state::{CoinEntry, Quote, rfc3339, rfc3339_representable, rfc3339_text, second_of};
use crate::text::{push_str, string_of};

verus! {

/// One asset offered for a method, with the amount to pay.
pub struct AssetAmount {
    pub asset: String,
    pub amount: String,
}

/// One `transferAmounts` entry: a method, its advertised minimum fee and
/// the assets it can be paid in.
pub struct TransferAmount {
    pub method: Method,
    pub min_fee: String,
    pub assets: Vec<AssetAmount>,
}

/// The quote as shown in the payment details.
pub struct QuoteInfo {
    pub id: String,
    pub expiration: String,
    pub payment: String,
}

/// Payment details (step 2 of the OpenCryptoPay flow).
pub struct PaymentDetails {
    pub id: String,
    pub callback: String,
    pub name: String,
    pub quote: QuoteInfo,
    /// The requested fiat asset.
    pub fiat: String,
    pub transfer_amounts: Vec<TransferAmount>,
}

/// Transaction details (step 3, or the simplified flow).
pub struct TransactionDetails {
    pub expiry_date: String,
    pub blockchain: String,
    pub uri: String,
    pub hint: String,
}

/// The "No pending payment found" answer.
pub struct NoPending {
    pub id: String,
    pub name: String,
    pub status_code: u16,
    pub message: String,
    pub error: String,
}

/// An error answer.
pub struct ErrorBody {
    pub status_code: u16,
    pub message: String,
    pub error: String,
}

// ---------------------------------------------------------------------------
// Grouping coins by method

/// The methods of the coins, each once, in order of first appearance.
pub open spec fn distinct_methods(coins: Seq<CoinEntry>) -> Seq<Method>
    decreases coins.len(),
{
    if coins.len() == 0 {
        Seq::<Method>::empty()
    } else {
        let d = distinct_methods(coins.drop_last());
        if d.contains(coins.last().spec.method) {
            d
        } else {
            d.push(coins.last().spec.method)
        }
    }
}

/// The (asset, amount) pairs of the coins paying with method `m`, in order.
pub open spec fn assets_of(coins: Seq<CoinEntry>, m: Method) -> Seq<(Seq<char>, Seq<char>)>
    decreases coins.len(),
{
    if coins.len() == 0 {
        Seq::empty()
    } else {
        let a = assets_of(coins.drop_last(), m);
        if coins.last().spec.method == m {
            a.push((coins.last().spec.asset@, coins.last().spec.amount@))
        } else {
            a
        }
    }
}

/// The first coin from position `i` on that pays with method `m`.
pub open spec fn first_with_method(coins: Seq<CoinEntry>, m: Method, i: int) -> Option<int>
    decreases coins.len() - i,
{
    if i < 0 || i >= coins.len() {
        None
    } else if coins[i].spec.method == m {
        Some(i)
    } else {
        first_with_method(coins, m, i + 1)
    }
}

/// The minimum fee advertised for method `m`: that of its first coin.
pub open spec fn min_fee_of(coins: Seq<CoinEntry>, m: Method) -> Seq<char> {
    match first_with_method(coins, m, 0) {
        Some(k) => coins[k].spec.min_fee@,
        None => Seq::<char>::empty(),
    }
}

/// The (asset, amount) pairs of `v`, as text.
pub open spec fn asset_views(v: Seq<AssetAmount>) -> Seq<(Seq<char>, Seq<char>)> {
    v.map_values(|a: AssetAmount| (a.asset@, a.amount@))
}

/// `ts` offers each method of the coins once, in order of first
/// appearance, with the minimum fee of its first coin and the assets of all
/// its coins in order.
pub open spec fn transfers_for(ts: Seq<TransferAmount>, coins: Seq<CoinEntry>) -> bool {
    let ms = distinct_methods(coins);
    &&& ts.len() == ms.len()
    &&& forall|j: int| 0 <= j < ts.len() ==> {
        &&& (#[trigger] ts[j]).method == ms[j]
        &&& ts[j].min_fee@ == min_fee_of(coins, ms[j])
        &&& asset_views(ts[j].assets@) == assets_of(coins, ms[j])
    }
}

fn contains_method(ms: &Vec<Method>, m: Method) -> (r: bool)
    ensures
        r == ms@.contains(m),
{
    let mut i: usize = 0;
    while i < ms.len()
        invariant
            0 <= i <= ms.len(),
            forall|k: int| 0 <= k < i ==> ms@[k] != m,
        decreases ms.len() - i,
    {
        if ms[i] == m {
            assert(ms@[i as int] == m);
            return true;
        }
        i = i + 1;
    }
    false
}

proof fn lemma_first_with_method_from(coins: Seq<CoinEntry>, m: Method, i: int, k: int)
    requires
        0 <= i <= k <= coins.len(),
        forall|j: int| i <= j < k ==> coins[j].spec.method != m,
    ensures
        first_with_method(coins, m, i) == first_with_method(coins, m, k),
    decreases k - i,
{
    if i < k {
        lemma_first_with_method_from(coins, m, i + 1, k);
    }
}

/// The coins of one method: its minimum fee and its assets.
fn transfer_for(coins: &Vec<CoinEntry>, m: Method) -> (r: TransferAmount)
    ensures
        r.method == m,
        r.min_fee@ == min_fee_of(coins@, m),
        asset_views(r.assets@) == assets_of(coins@, m),
{
    let mut assets: Vec<AssetAmount> = Vec::new();
    let mut fee: Option<String> = None;
    let ghost cs = coins@;
    assert(cs.take(0) =~= Seq::<CoinEntry>::empty());
    assert(asset_views(assets@) =~= Seq::<(Seq<char>, Seq<char>)>::empty());
    for i in 0..coins.len()
        invariant
            cs == coins@,
            asset_views(assets@) == assets_of(cs.take(i as int), m),
            fee is None ==> forall|j: int| 0 <= j < i ==> cs[j].spec.method != m,
            fee matches Some(f) ==> first_with_method(cs, m, 0) matches Some(k) && k < i && f@ == cs[k].spec.min_fee@,
    {
        assert(cs.take(i + 1).drop_last() == cs.take(i as int));
        assert(cs.take(i + 1).last() == cs[i as int]);
        let c = &coins[i];
        if c.spec.method == m {
            let ghost old_assets = assets@;
            assets.push(AssetAmount { asset: c.spec.asset.clone(), amount: c.spec.amount.clone() });
            assert(asset_views(assets@) == asset_views(old_assets).push((cs[i as int].spec.asset@, cs[i as int].spec.amount@)));
            if fee.is_none() {
                proof {
                    lemma_first_with_method_from(cs, m, 0, i as int);
                }
                fee = Some(c.spec.min_fee.clone());
            }
        }
    }
    assert(cs.take(cs.len() as int) == cs);
    let min_fee = match fee {
        Some(f) => f,
        None => {
            proof {
                lemma_first_with_method_from(cs, m, 0, cs.len() as int);
            }
            String::new()
        },
    };
    TransferAmount { method: m, min_fee, assets }
}

/// One `transferAmounts` entry per method of the coins, in order of first
/// appearance.
pub fn group_transfers(coins: &Vec<CoinEntry>) -> (r: Vec<TransferAmount>)
    ensures
        transfers_for(r@, coins@),
        forall|j: int|
            0 <= j < r@.len() ==> exists|k: int|
                0 <= k < coins@.len() && (#[trigger] coins@[k]).spec.method == (#[trigger] r@[j]).method
                    && r@[j].min_fee@ == coins@[k].spec.min_fee@ && forall|l: int|
                    0 <= l < k ==> coins@[l].spec.method != r@[j].method,
{
    let ghost cs = coins@;
    let mut ms: Vec<Method> = Vec::new();
    assert(cs.take(0) =~= Seq::<CoinEntry>::empty());
    for i in 0..coins.len()
        invariant
            cs == coins@,
            ms@ == distinct_methods(cs.take(i as int)),
    {
        assert(cs.take(i + 1).drop_last() == cs.take(i as int));
        assert(cs.take(i + 1).last() == cs[i as int]);
        let m = coins[i].spec.method;
        if !contains_method(&ms, m) {
            ms.push(m);
        }
    }
    assert(cs.take(cs.len() as int) == cs);
    let mut out: Vec<TransferAmount> = Vec::new();
    for j in 0..ms.len()
        invariant
            cs == coins@,
            ms@ == distinct_methods(cs),
            out@.len() == j,
            forall|k: int| 0 <= k < j ==> {
                &&& (#[trigger] out@[k]).method == ms@[k]
                &&& out@[k].min_fee@ == min_fee_of(cs, ms@[k])
                &&& asset_views(out@[k].assets@) == assets_of(cs, ms@[k])
            },
    {
        let t = transfer_for(coins, ms[j]);
        out.push(t);
    }
    proof {
        assert forall|j: int| 0 <= j < out@.len() implies exists|k: int|
            0 <= k < cs.len() && (#[trigger] cs[k]).spec.method == (#[trigger] out@[j]).method
                && out@[j].min_fee@ == cs[k].spec.min_fee@ && forall|l: int|
                0 <= l < k ==> cs[l].spec.method != out@[j].method by {
            lemma_min_fee_from_first_coin(out@, cs, j);
        }
    }
    out
}

// ---------------------------------------------------------------------------
// Payloads

/// `r` is the payment details for settings `cfg`, quote `quote` and coins `coins`.
pub open spec fn is_payment_details(r: PaymentDetails, cfg: Config, quote: Quote, coins: Seq<CoinEntry>) -> bool {
    &&& r.id@ == cfg.id@
    &&& r.callback@ == lnurlp_url(cfg.host@, cfg.port, "cb/"@ + cfg.id@)
    &&& r.name@ == cfg.name@
    &&& r.quote.id@ == quote.quote_id@
    &&& r.quote.expiration@ == rfc3339_text(second_of(quote.expiration))
    &&& r.quote.payment@ == quote.payment_id@
    &&& r.fiat@ == cfg.fiat@
    &&& transfers_for(r.transfer_amounts@, coins)
}

/// Payment details (step 2 of the OpenCryptoPay flow): every configured
/// method with its assets.
pub fn payment_details(cfg: &Config, quote: &Quote, coins: &Vec<CoinEntry>) -> (r: PaymentDetails)
    requires
        rfc3339_representable(quote.expiration),
    ensures
        is_payment_details(r, *cfg, *quote, coins@),
{
    PaymentDetails {
        id: cfg.id.clone(),
        callback: cfg.callback_url(),
        name: cfg.name.clone(),
        quote: QuoteInfo {
            id: quote.quote_id.clone(),
            expiration: rfc3339(quote.expiration),
            payment: quote.payment_id.clone(),
        },
        fiat: cfg.fiat.clone(),
        transfer_amounts: group_transfers(coins),
    }
}

/// The hint of the transaction details, worded for the proof family.
pub open spec fn hint_text(hex: bool, tx_url: Seq<char>) -> Seq<char> {
    if hex {
        "Use this data to create a transaction and sign it. Send the signed transaction back as HEX via the endpoint "@
            + tx_url + ". We check the transferred HEX and broadcast the transaction to the blockchain."@
    } else {
        "Use this data to create a transaction and sign it. Broadcast the signed transaction to the blockchain and send the transaction hash back via the endpoint "@
            + tx_url
    }
}

/// `r` is the transaction details of coin `coin` under settings `cfg` and quote `quote`.
pub open spec fn is_transaction_details(r: TransactionDetails, cfg: Config, quote: Quote, coin: CoinEntry) -> bool {
    &&& r.expiry_date@ == rfc3339_text(second_of(quote.expiration))
    &&& r.blockchain@ == method_name(coin.spec.method)
    &&& r.uri@ == coin.uri@
    &&& r.hint@ == hint_text(hex_proof(coin.spec.method), lnurlp_url(cfg.host@, cfg.port, "tx/"@ + quote.payment_id@))
}

/// Transaction details (step 3 / simplified flow) for one coin, with the
/// hint wording of its proof family.
pub fn transaction_details(cfg: &Config, quote: &Quote, coin: &CoinEntry) -> (r: TransactionDetails)
    requires
        rfc3339_representable(quote.expiration),
    ensures
        is_transaction_details(r, *cfg, *quote, *coin),
{
    let tx_url = cfg.proof_url(quote.payment_id.as_str());
    let mut hint: Vec<char> = Vec::new();
    if coin.spec.method.is_hex() {
        push_str(&mut hint, "Use this data to create a transaction and sign it. Send the signed transaction back as HEX via the endpoint ");
        push_str(&mut hint, tx_url.as_str());
        push_str(&mut hint, ". We check the transferred HEX and broadcast the transaction to the blockchain.");
    } else {
        push_str(&mut hint, "Use this data to create a transaction and sign it. Broadcast the signed transaction to the blockchain and send the transaction hash back via the endpoint ");
        push_str(&mut hint, tx_url.as_str());
    }
    TransactionDetails {
        expiry_date: rfc3339(quote.expiration),
        blockchain: coin.spec.method.to_string(),
        uri: coin.uri.clone(),
        hint: string_of(hint.as_slice()),
    }
}

/// The "No pending payment found" answer for the payment link.
pub fn no_pending(cfg: &Config) -> (r: NoPending)
    ensures
        r.id@ == cfg.id@,
        r.name@ == cfg.name@,
        r.status_code == 404,
        r.message@ == "No pending payment found"@,
        r.error@ == "Not Found"@,
{
    NoPending {
        id: cfg.id.clone(),
        name: cfg.name.clone(),
        status_code: 404,
        message: String::from_str("No pending payment found"),
        error: String::from_str("Not Found"),
    }
}

/// An error answer.
pub fn error(code: u16, message: &str, reason: &str) -> (r: ErrorBody)
    ensures
        r.status_code == code,
        r.message@ == message@,
        r.error@ == reason@,
{
    ErrorBody { status_code: code, message: String::from_str(message), error: String::from_str(reason) }
}

// ---------------------------------------------------------------------------
// What the grouping guarantees

/// Each method appears once among the `transferAmounts` methods.
pub proof fn lemma_distinct_methods_unique(coins: Seq<CoinEntry>)
    ensures
        distinct_methods(coins).no_duplicates(),
    decreases coins.len(),
{
    if coins.len() > 0 {
        lemma_distinct_methods_unique(coins.drop_last());
        let d = distinct_methods(coins.drop_last());
        let m = coins.last().spec.method;
        if !d.contains(m) {
            assert forall|i: int, j: int| 0 <= i < j < d.push(m).len() implies d.push(m)[i] != d.push(m)[j] by {
                if j == d.len() {
                    assert(d.push(m)[i] == d[i]);
                }
            }
        }
    }
}

/// Every coin is offered: its method is among the `transferAmounts`
/// methods, and its asset and amount among that method's assets.
pub proof fn lemma_every_coin_offered(coins: Seq<CoinEntry>, k: int)
    requires
        0 <= k < coins.len(),
    ensures
        distinct_methods(coins).contains(coins[k].spec.method),
        assets_of(coins, coins[k].spec.method).contains((coins[k].spec.asset@, coins[k].spec.amount@)),
    decreases coins.len(),
{
    let init = coins.drop_last();
    let m = coins[k].spec.method;
    let pair = (coins[k].spec.asset@, coins[k].spec.amount@);
    if k == coins.len() - 1 {
        let d = distinct_methods(init);
        if d.contains(m) {
        } else {
            assert(d.push(m)[d.len() as int] == m);
        }
        let a = assets_of(init, m);
        assert(a.push(pair)[a.len() as int] == pair);
    } else {
        lemma_every_coin_offered(init, k);
        assert(init[k] == coins[k]);
        let d = distinct_methods(init);
        let lm = coins.last().spec.method;
        if !d.contains(lm) {
            let i = choose|i: int| 0 <= i < d.len() && d[i] == m;
            assert(d.push(lm)[i] == m);
        }
        let a = assets_of(init, m);
        if lm == m {
            let i = choose|i: int| 0 <= i < a.len() && a[i] == pair;
            assert(a.push((coins.last().spec.asset@, coins.last().spec.amount@))[i] == pair);
        }
    }
}

proof fn lemma_distinct_methods_from_coins(coins: Seq<CoinEntry>, j: int)
    requires
        0 <= j < distinct_methods(coins).len(),
    ensures
        exists|k: int| 0 <= k < coins.len() && (#[trigger] coins[k]).spec.method == distinct_methods(coins)[j],
    decreases coins.len(),
{
    let init = coins.drop_last();
    let d = distinct_methods(init);
    if j < d.len() {
        lemma_distinct_methods_from_coins(init, j);
        let k = choose|k: int| 0 <= k < init.len() && (#[trigger] init[k]).spec.method == d[j];
        assert(coins[k] == init[k]);
    } else {
        assert(coins[coins.len() - 1] == coins.last());
    }
}

proof fn lemma_first_with_method_found(coins: Seq<CoinEntry>, m: Method, i: int, k: int)
    requires
        0 <= i <= k < coins.len(),
        coins[k].spec.method == m,
    ensures
        first_with_method(coins, m, i) matches Some(f) && i <= f <= k && coins[f].spec.method == m && forall|l: int|
            i <= l < f ==> coins[l].spec.method != m,
    decreases k - i,
{
    if coins[i].spec.method != m {
        lemma_first_with_method_found(coins, m, i + 1, k);
    }
}

/// Each method's advertised minimum fee is that of its first coin: for
/// every `transferAmounts` entry there is a coin paying with the entry's
/// method, no earlier coin pays with it, and the entry's minimum fee is
/// that coin's.
pub proof fn lemma_min_fee_from_first_coin(ts: Seq<TransferAmount>, coins: Seq<CoinEntry>, j: int)
    requires
        transfers_for(ts, coins),
        0 <= j < ts.len(),
    ensures
        exists|k: int|
            0 <= k < coins.len() && (#[trigger] coins[k]).spec.method == ts[j].method && ts[j].min_fee@
                == coins[k].spec.min_fee@ && forall|l: int| 0 <= l < k ==> coins[l].spec.method != ts[j].method,
{
    let ms = distinct_methods(coins);
    assert(ts[j].method == ms[j]);
    lemma_distinct_methods_from_coins(coins, j);
    let k0 = choose|k: int| 0 <= k < coins.len() && (#[trigger] coins[k]).spec.method == ms[j];
    lemma_first_with_method_found(coins, ms[j], 0, k0);
    let f = first_with_method(coins, ms[j], 0)->0;
    assert(coins[f].spec.method == ts[j].method);
}

} // verus!
