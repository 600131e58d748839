//! Amount scaling and blockchain payment URI construction for the
//! transaction details response.

use vstd::prelude::*;
use crate::cli::CoinSpec;
use crate::digits::{power, lemma_power_adds};
use crate::method::{Method, chain_id_of, evm, method_name};
use crate::text::{
    ascii_lower, ascii_lower_exec,
    all_digits, all_digits_exec, decimal_value, chars_of, decimal_text, find_char_exec, is_digit,
    lemma_trim_leading_zeros, push_chars, push_decimal, push_str, repeat_char, split_once,
    string_of, sub_chars, trim_leading_zeros,
};

verus! {

/// The integer and fractional digits of an amount: the text before and
/// after its first `.` (all of it and nothing when there is no `.`).
pub open spec fn amount_parts(a: Seq<char>) -> (Seq<char>, Seq<char>) {
    match split_once(a, '.') {
        Some(p) => p,
        None => (a, Seq::<char>::empty()),
    }
}

/// What `scale_decimal` gives for amount `a` and `decimals` places: the
/// digits of `a` without the point, padded with zeros to `decimals`
/// fractional places and stripped of leading zeros (`"0"` if none remain),
/// or the error for an empty, non-decimal or too precise amount.
pub open spec fn scaled_amount(a: Seq<char>, decimals: nat) -> Result<Seq<char>, Seq<char>> {
    let (int_part, frac_part) = amount_parts(a);
    if int_part.len() == 0 && frac_part.len() == 0 {
        Err("invalid amount '"@ + a + "'"@)
    } else if !all_digits(int_part) || !all_digits(frac_part) {
        Err("invalid amount '"@ + a + "': expected a plain decimal"@)
    } else if frac_part.len() > decimals {
        Err("amount '"@ + a + "' has more than "@ + decimal_text(decimals) + " decimal places"@)
    } else {
        let t = trim_leading_zeros(
            int_part + frac_part + repeat_char('0', (decimals - frac_part.len()) as nat),
        );
        Ok(
            if t.len() == 0 {
                "0"@
            } else {
                t
            },
        )
    }
}

/// Scale a decimal string by 10^decimals into an exact integer string.
pub fn scale_decimal(amount: &str, decimals: u32) -> (r: Result<String, String>)
    ensures
        r matches Ok(s) ==> scaled_amount(amount@, decimals as nat) == Ok::<Seq<char>, Seq<char>>(s@),
        r matches Err(e) ==> scaled_amount(amount@, decimals as nat) == Err::<Seq<char>, Seq<char>>(e@),
{
    let a = chars_of(amount);
    let (int_part, frac_part) = match find_char_exec(&a, '.') {
        Some(i) => (sub_chars(&a, 0, i), sub_chars(&a, i + 1, a.len())),
        None => (sub_chars(&a, 0, a.len()), Vec::new()),
    };
    assert(a@.subrange(0, a@.len() as int) == a@);
    assert(amount_parts(amount@) == (int_part@, frac_part@));
    if int_part.len() == 0 && frac_part.len() == 0 {
        let mut msg: Vec<char> = Vec::new();
        push_str(&mut msg, "invalid amount '");
        push_chars(&mut msg, &a);
        push_str(&mut msg, "'");
        return Err(string_of(msg.as_slice()));
    }
    if !all_digits_exec(&int_part) || !all_digits_exec(&frac_part) {
        let mut msg: Vec<char> = Vec::new();
        push_str(&mut msg, "invalid amount '");
        push_chars(&mut msg, &a);
        push_str(&mut msg, "': expected a plain decimal");
        return Err(string_of(msg.as_slice()));
    }
    if frac_part.len() > decimals as usize {
        let mut msg: Vec<char> = Vec::new();
        push_str(&mut msg, "amount '");
        push_chars(&mut msg, &a);
        push_str(&mut msg, "' has more than ");
        push_decimal(&mut msg, decimals as u64);
        push_str(&mut msg, " decimal places");
        return Err(string_of(msg.as_slice()));
    }
    let mut digits: Vec<char> = Vec::new();
    push_chars(&mut digits, &int_part);
    push_chars(&mut digits, &frac_part);
    let pad = decimals as usize - frac_part.len();
    let ghost before = digits@;
    for i in 0..pad
        invariant
            digits@ == before + repeat_char('0', i as nat),
    {
        digits.push('0');
        assert(repeat_char('0', (i + 1) as nat) == repeat_char('0', i as nat).push('0'));
    }
    let mut k: usize = 0;
    while k < digits.len() && digits[k] == '0'
        invariant
            0 <= k <= digits.len(),
            forall|j: int| 0 <= j < k ==> digits@[j] == '0',
        decreases digits.len() - k,
    {
        k = k + 1;
    }
    proof {
        lemma_trim_leading_zeros(digits@, k as int);
    }
    if k == digits.len() {
        Ok(String::from_str("0"))
    } else {
        let rest = sub_chars(&digits, k, digits.len());
        Ok(string_of(rest.as_slice()))
    }
}

/// The URI scheme of a non-EVM method: its name in lower case.
pub open spec fn scheme_of(m: Method) -> Seq<char> {
    method_name(m).map_values(|c: char| ascii_lower(c))
}

/// The payment URI handed out for a coin, or why none can be built:
/// the configured override if any; for EVM methods EIP-681 (a token
/// `/transfer` with `uint256` in base units when a contract is configured,
/// else a native `value` in wei); `tx_amount` for Monero; and
/// `<method>:<address>?amount=<amount>` for every other method.
pub open spec fn payment_uri(spec: CoinSpec) -> Result<Seq<char>, Seq<char>> {
    if spec.uri_override is Some {
        Ok(spec.uri_override->0@)
    } else if evm(spec.method) {
        let chain = if spec.chain_id is Some { spec.chain_id } else { chain_id_of(spec.method) };
        if chain is None {
            Err("no default chain id for this method, pass chain-id="@)
        } else if spec.token_contract is Some {
            if spec.token_decimals is None {
                Err("contract= requires decimals="@)
            } else {
                match scaled_amount(spec.amount@, spec.token_decimals->0 as nat) {
                    Err(e) => Err(e),
                    Ok(raw) => Ok(
                        "ethereum:"@ + spec.token_contract->0@ + "@"@ + decimal_text(chain->0 as nat)
                            + "/transfer?address="@ + spec.address@ + "&uint256="@ + raw,
                    ),
                }
            }
        } else {
            match scaled_amount(spec.amount@, 18) {
                Err(e) => Err(e),
                Ok(raw) => Ok(
                    "ethereum:"@ + spec.address@ + "@"@ + decimal_text(chain->0 as nat) + "?value="@
                        + raw,
                ),
            }
        }
    } else if spec.token_contract is Some {
        Err("contract= is only supported for EVM methods"@)
    } else if spec.method == Method::Monero {
        Ok("monero:"@ + spec.address@ + "?tx_amount="@ + spec.amount@)
    } else {
        Ok(scheme_of(spec.method) + ":"@ + spec.address@ + "?amount="@ + spec.amount@)
    }
}

/// Build the payment URI handed out in the transaction details:
/// EIP-681 for EVM (native `?value=` or token `/transfer?...&uint256=`),
/// `tx_amount` for Monero, BIP-21-style `?amount=` for everything else.
pub fn build_uri(spec: &CoinSpec) -> (r: Result<String, String>)
    ensures
        r matches Ok(s) ==> payment_uri(*spec) == Ok::<Seq<char>, Seq<char>>(s@),
        r matches Err(e) ==> payment_uri(*spec) == Err::<Seq<char>, Seq<char>>(e@),
        spec.uri_override is None && evm(spec.method) && spec.token_contract is None && spec.chain_id is Some
            && scaled_amount(spec.amount@, 18) is Ok ==> (r matches Ok(s) && s@ == "ethereum:"@ + spec.address@
            + "@"@ + decimal_text(spec.chain_id->0 as nat) + "?value="@ + scaled_amount(spec.amount@, 18)->Ok_0),
{
    proof {
        if spec.uri_override is None && evm(spec.method) && spec.chain_id is Some {
            lemma_configured_chain_id_used(*spec, spec.chain_id->0);
        }
    }
    if let Some(uri) = &spec.uri_override {
        return Ok(uri.clone());
    }
    if spec.method.is_evm() {
        let chain = match spec.chain_id {
            Some(c) => Some(c),
            None => spec.method.default_chain_id(),
        };
        let chain_id = match chain {
            Some(c) => c,
            None => {
                return Err(String::from_str("no default chain id for this method, pass chain-id="));
            },
        };
        if let Some(contract) = &spec.token_contract {
            let decimals = match spec.token_decimals {
                Some(d) => d,
                None => {
                    return Err(String::from_str("contract= requires decimals="));
                },
            };
            let raw = match scale_decimal(spec.amount.as_str(), decimals) {
                Ok(raw) => raw,
                Err(e) => {
                    return Err(e);
                },
            };
            let mut out: Vec<char> = Vec::new();
            push_str(&mut out, "ethereum:");
            push_str(&mut out, contract.as_str());
            push_str(&mut out, "@");
            push_decimal(&mut out, chain_id);
            push_str(&mut out, "/transfer?address=");
            push_str(&mut out, spec.address.as_str());
            push_str(&mut out, "&uint256=");
            push_str(&mut out, raw.as_str());
            return Ok(string_of(out.as_slice()));
        } else {
            let raw = match scale_decimal(spec.amount.as_str(), 18) {
                Ok(raw) => raw,
                Err(e) => {
                    return Err(e);
                },
            };
            let mut out: Vec<char> = Vec::new();
            push_str(&mut out, "ethereum:");
            push_str(&mut out, spec.address.as_str());
            push_str(&mut out, "@");
            push_decimal(&mut out, chain_id);
            push_str(&mut out, "?value=");
            push_str(&mut out, raw.as_str());
            return Ok(string_of(out.as_slice()));
        }
    }
    if spec.token_contract.is_some() {
        return Err(String::from_str("contract= is only supported for EVM methods"));
    }
    let mut out: Vec<char> = Vec::new();
    if spec.method == Method::Monero {
        push_str(&mut out, "monero:");
        push_str(&mut out, spec.address.as_str());
        push_str(&mut out, "?tx_amount=");
        push_str(&mut out, spec.amount.as_str());
    } else {
        let name = chars_of(spec.method.spec_name());
        for i in 0..name.len()
            invariant
                name@ == method_name(spec.method),
                out@ == name@.take(i as int).map_values(|c: char| ascii_lower(c)),
        {
            out.push(ascii_lower_exec(name[i]));
            assert(name@.take(i + 1).map_values(|c: char| ascii_lower(c)) == name@.take(
                i as int,
            ).map_values(|c: char| ascii_lower(c)).push(ascii_lower(name@[i as int])));
        }
        assert(name@.take(name@.len() as int) == name@);
        push_str(&mut out, ":");
        push_str(&mut out, spec.address.as_str());
        push_str(&mut out, "?amount=");
        push_str(&mut out, spec.amount.as_str());
    }
    Ok(string_of(out.as_slice()))
}

// ---------------------------------------------------------------------------
// Exactness of the scaling

proof fn lemma_decimal_value_concat(s: Seq<char>, t: Seq<char>)
    ensures
        decimal_value(s + t) == decimal_value(s) * power(10, t.len()) + decimal_value(t),
    decreases t.len(),
{
    if t.len() == 0 {
        assert(s + t == s);
        assert(power(10, 0) == 1);
        assert(decimal_value(t) == 0);
    } else {
        assert(power(10, t.len()) == 10 * power(10, (t.len() - 1) as nat));
        lemma_decimal_value_concat(s, t.drop_last());
        assert((s + t).drop_last() == s + t.drop_last());
        assert((s + t).last() == t.last());
        let a = decimal_value(s);
        let p = power(10, (t.len() - 1) as nat);
        let b = decimal_value(t.drop_last());
        let d = ((t.last() as nat) - 48) as nat;
        assert((a * p + b) * 10 + d == a * (10 * p) + (b * 10 + d)) by (nonlinear_arith);
    }
}

proof fn lemma_zeros_value(n: nat)
    ensures
        decimal_value(repeat_char('0', n)) == 0,
        all_digits(repeat_char('0', n)),
    decreases n,
{
    if n > 0 {
        lemma_zeros_value((n - 1) as nat);
        assert(repeat_char('0', n).drop_last() == repeat_char('0', (n - 1) as nat));
    }
}

proof fn lemma_zero_digit()
    ensures
        decimal_value(seq!['0']) == 0,
{
    let z = seq!['0'];
    assert(z.len() == 1);
    assert(z.last() == '0');
    assert(z.drop_last() =~= Seq::<char>::empty());
    assert(decimal_value(z.drop_last()) == 0);
    assert(('0' as nat) == 48);
}

proof fn lemma_trim_value(s: Seq<char>)
    requires
        all_digits(s),
    ensures
        decimal_value(trim_leading_zeros(s)) == decimal_value(s),
        all_digits(trim_leading_zeros(s)),
        trim_leading_zeros(s).len() > 0 ==> trim_leading_zeros(s)[0] != '0',
    decreases s.len(),
{
    if s.len() > 0 && s[0] == '0' {
        let rest = s.drop_first();
        assert(all_digits(rest)) by {
            assert forall|i: int| 0 <= i < rest.len() implies is_digit(#[trigger] rest[i]) by {
                assert(rest[i] == s[i + 1]);
            }
        }
        lemma_trim_value(rest);
        assert(seq!['0'] + rest == s);
        lemma_decimal_value_concat(seq!['0'], rest);
        lemma_zero_digit();
        assert(0 * power(10, rest.len()) == 0) by (nonlinear_arith);
    }
}

proof fn lemma_all_digits_concat(s: Seq<char>, t: Seq<char>)
    requires
        all_digits(s),
        all_digits(t),
    ensures
        all_digits(s + t),
{
    assert forall|i: int| 0 <= i < (s + t).len() implies is_digit(#[trigger] (s + t)[i]) by {
        if i < s.len() {
            assert((s + t)[i] == s[i]);
        } else {
            assert((s + t)[i] == t[i - s.len()]);
        }
    }
}

/// Scaling is exact: a scaled amount is the canonical decimal text (only
/// digits, no leading zero unless it is `"0"`) of the integer part times
/// `10^decimals` plus the fractional digits times `10^(decimals - their
/// count)`, that is of the amount times `10^decimals`.
pub proof fn lemma_scaled_amount_exact(a: Seq<char>, decimals: nat)
    requires
        scaled_amount(a, decimals) is Ok,
    ensures
        ({
            let r = scaled_amount(a, decimals)->Ok_0;
            let (int_part, frac_part) = amount_parts(a);
            &&& all_digits(r)
            &&& r.len() > 0
            &&& r[0] == '0' ==> r.len() == 1
            &&& decimal_value(r) == decimal_value(int_part) * power(10, decimals) + decimal_value(frac_part)
                * power(10, (decimals - frac_part.len()) as nat)
        }),
{
    let (int_part, frac_part) = amount_parts(a);
    let z = (decimals - frac_part.len()) as nat;
    let digits = int_part + frac_part + repeat_char('0', z);
    lemma_zeros_value(z);
    lemma_all_digits_concat(int_part, frac_part);
    lemma_all_digits_concat(int_part + frac_part, repeat_char('0', z));
    lemma_trim_value(digits);
    lemma_decimal_value_concat(int_part, frac_part);
    lemma_decimal_value_concat(int_part + frac_part, repeat_char('0', z));
    lemma_power_adds(10, frac_part.len(), z);
    assert(frac_part.len() + z == decimals);
    let vi = decimal_value(int_part);
    let vf = decimal_value(frac_part);
    let pf = power(10, frac_part.len());
    let pz = power(10, z);
    assert((vi * pf + vf) * pz + 0 == vi * (pf * pz) + vf * pz) by (nonlinear_arith);
    reveal_strlit("0");
    let t = trim_leading_zeros(digits);
    if t.len() == 0 {
        assert(decimal_value("0"@) == 0) by {
            assert("0"@ =~= seq!['0']);
            lemma_zero_digit();
        }
        assert(all_digits("0"@));
    }
}

// ---------------------------------------------------------------------------
// Which chain id an EVM URI carries

/// A configured chain id always takes precedence over the method's default:
/// an EVM coin with chain id `c`, no override and no contract is paid at
/// `ethereum:<address>@<c>?value=<amount in wei>`, and with a contract at
/// `ethereum:<contract>@<c>/transfer?address=<address>&uint256=<amount in
/// base units>`.
pub proof fn lemma_configured_chain_id_used(spec: CoinSpec, c: u64)
    requires
        spec.uri_override is None,
        evm(spec.method),
        spec.chain_id == Some(c),
    ensures
        spec.token_contract is None ==> match scaled_amount(spec.amount@, 18) {
            Ok(raw) => payment_uri(spec) == Ok::<Seq<char>, Seq<char>>(
                "ethereum:"@ + spec.address@ + "@"@ + decimal_text(c as nat) + "?value="@ + raw,
            ),
            Err(e) => payment_uri(spec) == Err::<Seq<char>, Seq<char>>(e),
        },
        spec.token_contract is Some && spec.token_decimals is Some ==> match scaled_amount(
            spec.amount@,
            spec.token_decimals->0 as nat,
        ) {
            Ok(raw) => payment_uri(spec) == Ok::<Seq<char>, Seq<char>>(
                "ethereum:"@ + spec.token_contract->0@ + "@"@ + decimal_text(c as nat) + "/transfer?address="@
                    + spec.address@ + "&uint256="@ + raw,
            ),
            Err(e) => payment_uri(spec) == Err::<Seq<char>, Seq<char>>(e),
        },
{
}

/// Without a configured chain id, an EVM coin is paid on its method's
/// default chain: Ethereum 1, Optimism 10, BinanceSmartChain 56, Polygon
/// 137, Base 8453, Arbitrum 42161.
pub proof fn lemma_default_chain_id_used(spec: CoinSpec)
    requires
        spec.uri_override is None,
        evm(spec.method),
        spec.chain_id is None,
        spec.token_contract is None,
        scaled_amount(spec.amount@, 18) is Ok,
    ensures
        payment_uri(spec) == Ok::<Seq<char>, Seq<char>>(
            "ethereum:"@ + spec.address@ + "@"@ + decimal_text(
                (match spec.method {
                    Method::Ethereum => 1nat,
                    Method::Optimism => 10nat,
                    Method::BinanceSmartChain => 56nat,
                    Method::Polygon => 137nat,
                    Method::Base => 8453nat,
                    _ => 42161nat,
                }),
            ) + "?value="@ + scaled_amount(spec.amount@, 18)->Ok_0,
        ),
{
}

} // verus!
