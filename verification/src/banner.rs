//! What the provider shows on startup: the payment link (an https link
//! carrying the LNURL of the API URL), its QR code, and a line per coin.

use vstd::prelude::*;
use vstd::utf8::encode_utf8;
use crate::cli::{Config, lnurlp_url};
use crate::lnurl::{lnurl_encode, lnurl_of};
use crate::method::{Method, hex_proof, method_name};
use crate::state::CoinEntry;
use crate::text::{decimal_text, push_decimal, push_str, string_of};

verus! {

/// The payment link the wallet scans: `https://<host>:<port>/pl/?lightning=`
/// followed by the LNURL of the API URL. (The wallet only decodes the outer
/// link; every request goes to the http API URL inside the LNURL.)
pub open spec fn payment_link_text(host: Seq<char>, port: u16, lnurl: Seq<char>) -> Seq<char> {
    "https://"@ + host + ":"@ + decimal_text(port as nat) + "/pl/?lightning="@ + lnurl
}

/// The payment link of the provider.
pub fn payment_link(cfg: &Config) -> (r: String)
    ensures
        r@ == payment_link_text(
            cfg.host@,
            cfg.port,
            lnurl_of(encode_utf8(lnurlp_url(cfg.host@, cfg.port, cfg.id@))),
        ),
{
    let api = cfg.api_url();
    let lnurl = lnurl_encode(api.as_str());
    let mut out: Vec<char> = Vec::new();
    push_str(&mut out, "https://");
    push_str(&mut out, cfg.host.as_str());
    push_str(&mut out, ":");
    push_decimal(&mut out, cfg.port as u64);
    push_str(&mut out, "/pl/?lightning=");
    push_str(&mut out, lnurl.as_str());
    string_of(out.as_slice())
}

/// The QR code error type of the `qrcode` crate.
#[verifier::external_type_specification]
#[verifier::external_body]
pub struct ExQrError(qrcode::types::QrError);

/// The QR code of `data` drawn with `Dense1x2` unicode blocks and a quiet
/// zone, as the `qrcode` crate renders it, or `None` where that crate
/// cannot build a code for the data.
pub uninterp spec fn qr_render(data: Seq<u8>) -> Option<Seq<char>>;

/// `qrcode::QrCode::new(data)` then `render::<Dense1x2>().quiet_zone(true)
/// .build()`. The contract claims only that the outcome is a function of
/// the data, named `qr_render`; when the code cannot be built (data too
/// long, per the crate's documentation) the crate's error comes back.
/// Which data are too long is not stated.
#[verifier::external_body]
fn render_qr_dense(data: &[u8]) -> (r: Result<String, qrcode::types::QrError>)
    ensures
        r is Ok <==> qr_render(data@) is Some,
        r matches Ok(s) ==> qr_render(data@) == Some(s@),
{
    match qrcode::QrCode::new(data) {
        Ok(code) => Ok(code.render::<qrcode::render::unicode::Dense1x2>().quiet_zone(true).build()),
        Err(e) => Err(e),
    }
}

/// Why a QR code could not be rendered.
#[derive(Debug)]
pub struct QrFailure {
    pub cause: qrcode::types::QrError,
}

/// The QR code of a link, in unicode blocks.
pub fn render_qr(link: &str) -> (r: Result<String, QrFailure>)
    ensures
        r is Ok <==> qr_render(encode_utf8(link@)) is Some,
        r matches Ok(s) ==> qr_render(encode_utf8(link@)) == Some(s@),
{
    match render_qr_dense(link.as_bytes()) {
        Ok(s) => Ok(s),
        Err(e) => Err(QrFailure { cause: e }),
    }
}

/// How the proof of a method travels, for the startup listing.
pub open spec fn proof_label_of(m: Method) -> Seq<char> {
    if hex_proof(m) {
        "signed HEX, wallet must NOT broadcast"@
    } else {
        "tx hash, wallet broadcasts"@
    }
}

/// How the proof of method `m` travels.
pub fn proof_label(m: Method) -> (r: &'static str)
    ensures
        r@ == proof_label_of(m),
{
    if m.is_hex() {
        "signed HEX, wallet must NOT broadcast"
    } else {
        "tx hash, wallet broadcasts"
    }
}

/// The startup line of a coin: `  - <method> / <asset> : <amount> -> <address> (<proof label>)`.
pub open spec fn coin_line_text(c: CoinEntry) -> Seq<char> {
    "  - "@ + method_name(c.spec.method) + " / "@ + c.spec.asset@ + " : "@ + c.spec.amount@ + " -> "@
        + c.spec.address@ + " ("@ + proof_label_of(c.spec.method) + ")"@
}

/// The startup line of a coin.
pub fn coin_line(c: &CoinEntry) -> (r: String)
    ensures
        r@ == coin_line_text(*c),
{
    let mut out: Vec<char> = Vec::new();
    push_str(&mut out, "  - ");
    push_str(&mut out, c.spec.method.spec_name());
    push_str(&mut out, " / ");
    push_str(&mut out, c.spec.asset.as_str());
    push_str(&mut out, " : ");
    push_str(&mut out, c.spec.amount.as_str());
    push_str(&mut out, " -> ");
    push_str(&mut out, c.spec.address.as_str());
    push_str(&mut out, " (");
    push_str(&mut out, proof_label(c.spec.method));
    push_str(&mut out, ")");
    string_of(out.as_slice())
}

/// The method names of the hex-proof coins, in order (one per coin).
pub open spec fn hex_names(coins: Seq<CoinEntry>) -> Seq<Seq<char>>
    decreases coins.len(),
{
    if coins.len() == 0 {
        Seq::empty()
    } else if hex_proof(coins.last().spec.method) {
        hex_names(coins.drop_last()).push(method_name(coins.last().spec.method))
    } else {
        hex_names(coins.drop_last())
    }
}

/// The method names of the coins whose wallet submits the signed
/// transaction (which the provider only logs), in order.
pub fn hex_method_names(coins: &Vec<CoinEntry>) -> (r: Vec<&'static str>)
    ensures
        r@.map_values(|n: &str| n@) == hex_names(coins@),
{
    let mut r: Vec<&'static str> = Vec::new();
    let ghost cs = coins@;
    assert(cs.take(0) =~= Seq::<CoinEntry>::empty());
    for i in 0..coins.len()
        invariant
            cs == coins@,
            r@.map_values(|n: &str| n@) == hex_names(cs.take(i as int)),
    {
        assert(cs.take(i + 1).drop_last() == cs.take(i as int));
        assert(cs.take(i + 1).last() == cs[i as int]);
        let m = coins[i].spec.method;
        if m.is_hex() {
            let ghost before = r@;
            r.push(m.spec_name());
            assert(r@.map_values(|n: &str| n@) == before.map_values(|n: &str| n@).push(method_name(m)));
        }
    }
    assert(cs.take(cs.len() as int) == cs);
    r
}

} // verus!
