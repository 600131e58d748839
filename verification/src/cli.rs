//! Configuration: the coins the provider accepts and the settings that
//! shape its links and payloads.

use vstd::prelude::*;
use crate::method::{Method, all_methods, method_name, parse_method};
use crate::payment_uri::{scale_decimal, scaled_amount};
use crate::text::{
    chars_eq, chars_of, find_char_exec, lemma_find_char, parse_unsigned, parse_unsigned_exec,
    push_chars, push_str, split_once, string_of, sub_chars, trim, trim_exec, decimal_text,
    push_decimal, float_syntax, is_float_text,
};

verus! {

/// One coin the provider accepts: a (method, asset) pair paying out to the
/// given address. Parsed from a `--coin` key=value spec.
#[derive(Debug)]
pub struct CoinSpec {
    pub method: Method,
    pub asset: String,
    pub address: String,
    pub amount: String,
    pub chain_id: Option<u64>,
    pub token_contract: Option<String>,
    pub token_decimals: Option<u32>,
    /// minFee advertised for the method (gas price in WEI for EVM, sat/vB
    /// for Bitcoin), as written (`"0"` when not given); a number in the
    /// syntax of `f64::from_str`. When
    /// several assets share a method, the first coin's value is used.
    pub min_fee: String,
    pub uri_override: Option<String>,
}

/// A copy of an optional string.
pub fn clone_opt_string(s: &Option<String>) -> (r: Option<String>)
    ensures
        r == *s,
{
    match s {
        Some(x) => Some(x.clone()),
        None => None,
    }
}

impl Clone for CoinSpec {
    fn clone(&self) -> (r: Self)
        ensures
            r == *self,
    {
        CoinSpec {
            method: self.method,
            asset: self.asset.clone(),
            address: self.address.clone(),
            amount: self.amount.clone(),
            chain_id: self.chain_id,
            token_contract: clone_opt_string(&self.token_contract),
            token_decimals: self.token_decimals,
            min_fee: self.min_fee.clone(),
            uri_override: clone_opt_string(&self.uri_override),
        }
    }
}

// ---------------------------------------------------------------------------
// Parsing a `--coin` spec

/// `s` cut at every `c` (the cuts belong to no piece); there is always at
/// least one piece.
pub open spec fn split_on(s: Seq<char>, c: char) -> Seq<Seq<char>>
    decreases s.len(),
{
    if s.len() == 0 {
        seq![Seq::<char>::empty()]
    } else {
        let p = split_on(s.drop_last(), c);
        if s.last() == c {
            p.push(Seq::<char>::empty())
        } else {
            p.update(p.len() - 1, p.last().push(s.last()))
        }
    }
}

/// Splitting always gives at least one piece.
pub proof fn lemma_split_on_nonempty(s: Seq<char>, c: char)
    ensures
        split_on(s, c).len() >= 1,
    decreases s.len(),
{
    if s.len() > 0 {
        lemma_split_on_nonempty(s.drop_last(), c);
    }
}

/// The method names joined by `", "`.
pub open spec fn join_names(ms: Seq<Method>) -> Seq<char>
    decreases ms.len(),
{
    if ms.len() == 0 {
        Seq::<char>::empty()
    } else if ms.len() == 1 {
        method_name(ms[0])
    } else {
        join_names(ms.drop_last()) + ", "@ + method_name(ms.last())
    }
}

/// The key and value of one comma-separated part of a coin spec (after
/// trimming), unless the part is blank or has no `=`.
pub open spec fn part_entry(raw: Seq<char>) -> Option<(Seq<char>, Seq<char>)> {
    let p = trim(raw);
    if p.len() == 0 {
        None
    } else {
        split_once(p, '=')
    }
}

/// What is wrong with one part of a coin spec, if anything.
pub open spec fn part_error(raw: Seq<char>) -> Option<Seq<char>> {
    let p = trim(raw);
    if p.len() == 0 {
        None
    } else {
        match split_once(p, '=') {
            None => Some("invalid coin spec part '"@ + p + "': expected key=value"@),
            Some((key, value)) => {
                if key == "method"@ {
                    if parse_method(value, false) is None {
                        Some(
                            "unknown method '"@ + value + "' (expected one of "@ + join_names(
                                all_methods(),
                            ) + ")"@,
                        )
                    } else {
                        None
                    }
                } else if key == "asset"@ {
                    None
                } else if key == "address"@ {
                    None
                } else if key == "amount"@ {
                    match scaled_amount(value, 30) {
                        Err(e) => Some(e),
                        Ok(_) => None,
                    }
                } else if key == "chain-id"@ {
                    if parse_unsigned(value, u64::MAX as nat) is None {
                        Some("invalid chain-id '"@ + value + "'"@)
                    } else {
                        None
                    }
                } else if key == "contract"@ {
                    None
                } else if key == "decimals"@ {
                    if parse_unsigned(value, u32::MAX as nat) is None {
                        Some("invalid decimals '"@ + value + "'"@)
                    } else {
                        None
                    }
                } else if key == "min-fee"@ {
                    if float_syntax(value) {
                        None
                    } else {
                        Some("invalid min-fee '"@ + value + "'"@)
                    }
                } else if key == "uri"@ {
                    None
                } else {
                    Some("unknown key '"@ + key + "' in coin spec"@)
                }
            },
        }
    }
}

/// The first error among the parts, in order.
pub open spec fn first_error(parts: Seq<Seq<char>>) -> Option<Seq<char>>
    decreases parts.len(),
{
    if parts.len() == 0 {
        None
    } else {
        match first_error(parts.drop_last()) {
            Some(e) => Some(e),
            None => part_error(parts.last()),
        }
    }
}

/// The value of the last part with key `key`.
pub open spec fn last_value(parts: Seq<Seq<char>>, key: Seq<char>) -> Option<Seq<char>>
    decreases parts.len(),
{
    if parts.len() == 0 {
        None
    } else {
        match part_entry(parts.last()) {
            Some((k, v)) => if k == key {
                Some(v)
            } else {
                last_value(parts.drop_last(), key)
            },
            None => last_value(parts.drop_last(), key),
        }
    }
}

/// The number an optional value spells, if it spells one at most `max`.
pub open spec fn number_of(v: Option<Seq<char>>, max: nat) -> Option<nat> {
    match v {
        Some(t) => parse_unsigned(t, max),
        None => None,
    }
}

/// The view of an optional string.
pub open spec fn opt_view(s: Option<String>) -> Option<Seq<char>> {
    match s {
        Some(t) => Some(t@),
        None => None,
    }
}

/// The view of an optional character vector.
pub open spec fn opt_chars(s: Option<Vec<char>>) -> Option<Seq<char>> {
    match s {
        Some(t) => Some(t@),
        None => None,
    }
}

/// The error of a coin spec `s`, if it has one: the first faulty part, else
/// a missing required key, else a contract without decimals.
pub open spec fn coin_spec_error(s: Seq<char>) -> Option<Seq<char>> {
    let parts = split_on(s, ',');
    match first_error(parts) {
        Some(e) => Some(e),
        None => if last_value(parts, "method"@) is None || last_value(parts, "asset"@) is None
            || last_value(parts, "address"@) is None || last_value(parts, "amount"@) is None {
            Some("coin spec needs method=, asset=, address= and amount="@)
        } else if last_value(parts, "contract"@) is Some && last_value(parts, "decimals"@) is None {
            Some("contract= requires decimals="@)
        } else {
            None
        },
    }
}

/// `c` holds, for each key, the value of the last part with that key in
/// coin spec `s` (`"0"` for an absent `min-fee`).
pub open spec fn coin_spec_fields(c: CoinSpec, s: Seq<char>) -> bool {
    let parts = split_on(s, ',');
    &&& parse_method(last_value(parts, "method"@)->0, false) == Some(c.method)
    &&& last_value(parts, "asset"@) == Some(c.asset@)
    &&& last_value(parts, "address"@) == Some(c.address@)
    &&& last_value(parts, "amount"@) == Some(c.amount@)
    &&& number_of(last_value(parts, "chain-id"@), u64::MAX as nat) == match c.chain_id {
        Some(n) => Some(n as nat),
        None => None::<nat>,
    }
    &&& last_value(parts, "contract"@) == opt_view(c.token_contract)
    &&& number_of(last_value(parts, "decimals"@), u32::MAX as nat) == match c.token_decimals {
        Some(n) => Some(n as nat),
        None => None::<nat>,
    }
    &&& c.min_fee@ == match last_value(parts, "min-fee"@) {
        Some(v) => v,
        None => "0"@,
    }
    &&& last_value(parts, "uri"@) == opt_view(c.uri_override)
}

proof fn lemma_first_error_prefix(ps: Seq<Seq<char>>, k: int)
    requires
        0 <= k <= ps.len(),
        first_error(ps.take(k)) is Some,
    ensures
        first_error(ps) == first_error(ps.take(k)),
    decreases ps.len() - k,
{
    if k < ps.len() {
        assert(ps.take(k + 1).drop_last() == ps.take(k));
        lemma_first_error_prefix(ps, k + 1);
    } else {
        assert(ps.take(k) == ps);
    }
}

/// The keys of a coin spec are distinct.
proof fn lemma_keys_distinct()
    ensures
        "method"@ != "asset"@,
        "method"@ != "address"@,
        "method"@ != "amount"@,
        "method"@ != "chain-id"@,
        "method"@ != "contract"@,
        "method"@ != "decimals"@,
        "method"@ != "min-fee"@,
        "method"@ != "uri"@,
        "asset"@ != "address"@,
        "asset"@ != "amount"@,
        "asset"@ != "chain-id"@,
        "asset"@ != "contract"@,
        "asset"@ != "decimals"@,
        "asset"@ != "min-fee"@,
        "asset"@ != "uri"@,
        "address"@ != "amount"@,
        "address"@ != "chain-id"@,
        "address"@ != "contract"@,
        "address"@ != "decimals"@,
        "address"@ != "min-fee"@,
        "address"@ != "uri"@,
        "amount"@ != "chain-id"@,
        "amount"@ != "contract"@,
        "amount"@ != "decimals"@,
        "amount"@ != "min-fee"@,
        "amount"@ != "uri"@,
        "chain-id"@ != "contract"@,
        "chain-id"@ != "decimals"@,
        "chain-id"@ != "min-fee"@,
        "chain-id"@ != "uri"@,
        "contract"@ != "decimals"@,
        "contract"@ != "min-fee"@,
        "contract"@ != "uri"@,
        "decimals"@ != "min-fee"@,
        "decimals"@ != "uri"@,
        "min-fee"@ != "uri"@,
{
    reveal_strlit("method");
    reveal_strlit("asset");
    reveal_strlit("address");
    reveal_strlit("amount");
    reveal_strlit("chain-id");
    reveal_strlit("contract");
    reveal_strlit("decimals");
    reveal_strlit("min-fee");
    reveal_strlit("uri");
    assert("method"@.len() == 6);
    assert("asset"@.len() == 5);
    assert("address"@.len() == 7);
    assert("amount"@.len() == 6);
    assert("chain-id"@.len() == 8);
    assert("contract"@.len() == 8);
    assert("decimals"@.len() == 8);
    assert("min-fee"@.len() == 7);
    assert("uri"@.len() == 3);
    assert("method"@[0] == 'm' && "method"@[1] == 'e');
    assert("asset"@[0] == 'a' && "asset"@[1] == 's');
    assert("address"@[0] == 'a' && "address"@[1] == 'd');
    assert("amount"@[0] == 'a' && "amount"@[1] == 'm');
    assert("chain-id"@[0] == 'c' && "chain-id"@[1] == 'h');
    assert("contract"@[0] == 'c' && "contract"@[1] == 'o');
    assert("decimals"@[0] == 'd' && "decimals"@[1] == 'e');
    assert("min-fee"@[0] == 'm' && "min-fee"@[1] == 'i');
    assert("uri"@[0] == 'u' && "uri"@[1] == 'r');
}

proof fn lemma_last_value_step(ps: Seq<Seq<char>>, i: int)
    requires
        0 <= i < ps.len(),
    ensures
        forall|key: Seq<char>| #[trigger] last_value(ps.take(i + 1), key) == match part_entry(ps[i]) {
            Some((k, v)) => if k == key {
                Some(v)
            } else {
                last_value(ps.take(i), key)
            },
            None => last_value(ps.take(i), key),
        },
{
    assert(ps.take(i + 1).drop_last() == ps.take(i));
    assert(ps.take(i + 1).last() == ps[i]);
}

/// The names of all methods, in declaration order.
pub fn method_names() -> (r: Vec<&'static str>)
    ensures
        r@.len() == all_methods().len(),
        forall|i: int| 0 <= i < r@.len() ==> (#[trigger] r@[i])@ == method_name(all_methods()[i]),
{
    let ms = Method::value_variants();
    let mut r: Vec<&'static str> = Vec::new();
    for i in 0..ms.len()
        invariant
            ms@ == all_methods(),
            r@.len() == i,
            forall|j: int| 0 <= j < i ==> (#[trigger] r@[j])@ == method_name(all_methods()[j]),
    {
        r.push(ms[i].spec_name());
    }
    r
}

/// The method names joined by `", "`.
fn method_list() -> (r: Vec<char>)
    ensures
        r@ == join_names(all_methods()),
{
    let names = method_names();
    let mut r: Vec<char> = Vec::new();
    let ghost ms = all_methods();
    for i in 0..names.len()
        invariant
            names@.len() == ms.len(),
            ms == all_methods(),
            forall|j: int| 0 <= j < names@.len() ==> (#[trigger] names@[j])@ == method_name(ms[j]),
            r@ == join_names(ms.take(i as int)),
    {
        assert(ms.take(i + 1).drop_last() == ms.take(i as int));
        assert(ms.take(i + 1).last() == ms[i as int]);
        if i > 0 {
            push_str(&mut r, ", ");
        } else {
            assert(r@ == Seq::<char>::empty());
        }
        push_str(&mut r, names[i]);
        assert(names@[i as int]@ == method_name(ms[i as int]));
    }
    assert(ms.take(ms.len() as int) == ms);
    r
}

/// The comma-separated pieces of `s`.
fn split_parts(s: &Vec<char>, c: char) -> (r: (Vec<Vec<char>>, Ghost<Seq<Seq<char>>>))
    ensures
        r.1@ == split_on(s@, c),
        r.0@.len() == r.1@.len(),
        forall|j: int| 0 <= j < r.0@.len() ==> (#[trigger] r.0@[j])@ == r.1@[j],
{
    let mut parts: Vec<Vec<char>> = Vec::new();
    let mut cur: Vec<char> = Vec::new();
    let ghost mut pv: Seq<Seq<char>> = Seq::empty();
    assert(s@.take(0) =~= Seq::<char>::empty());
    for i in 0..s.len()
        invariant
            split_on(s@.take(i as int), c) == pv.push(cur@),
            parts@.len() == pv.len(),
            forall|j: int| 0 <= j < parts@.len() ==> (#[trigger] parts@[j])@ == pv[j],
    {
        assert(s@.take(i + 1).drop_last() == s@.take(i as int));
        assert(s@.take(i + 1).last() == s@[i as int]);
        if s[i] == c {
            parts.push(cur);
            proof {
                pv = pv.push(cur@);
            }
            cur = Vec::new();
        } else {
            let ghost old_cur = cur@;
            cur.push(s[i]);
            assert(pv.push(old_cur).update(pv.len() as int, old_cur.push(s@[i as int])) == pv.push(cur@));
        }
    }
    assert(s@.take(s@.len() as int) == s@);
    parts.push(cur);
    proof {
        pv = pv.push(cur@);
    }
    (parts, Ghost(pv))
}

/// Whether `key` equals the literal `lit`.
fn key_is(key: &Vec<char>, lit: &str) -> (r: bool)
    ensures
        r == (key@ == lit@),
{
    let l = chars_of(lit);
    chars_eq(key, &l)
}

/// A string of the characters of an optional character vector.
fn opt_string(v: Option<Vec<char>>) -> (r: Option<String>)
    ensures
        opt_view(r) == opt_chars(v),
{
    match v {
        Some(cs) => Some(string_of(cs.as_slice())),
        None => None,
    }
}

/// Parse one `--coin` spec: comma-separated `key=value` parts with the
/// required keys `method`, `asset`, `address`, `amount` and the optional
/// keys `chain-id`, `contract`, `decimals`, `min-fee`, `uri`; blank parts
/// are skipped and a repeated key keeps its last value. The `min-fee` value
/// must be a number `f64::from_str` accepts, and is kept as written.
pub fn parse_coin_spec(s: &str) -> (r: Result<CoinSpec, String>)
    ensures
        coin_spec_error(s@) matches Some(e) ==> (r matches Err(x) && x@ == e),
        coin_spec_error(s@) is None ==> (r matches Ok(c) && coin_spec_fields(c, s@)),
{
    let chars = chars_of(s);
    let (parts, Ghost(pv)) = split_parts(&chars, ',');
    let mut method: Option<Method> = None;
    let mut asset: Option<Vec<char>> = None;
    let mut address: Option<Vec<char>> = None;
    let mut amount: Option<Vec<char>> = None;
    let mut chain_id: Option<u64> = None;
    let mut token_contract: Option<Vec<char>> = None;
    let mut token_decimals: Option<u32> = None;
    let mut min_fee: Option<Vec<char>> = None;
    let mut uri_override: Option<Vec<char>> = None;
    assert(pv.take(0) =~= Seq::<Seq<char>>::empty());
    for i in 0..parts.len()
        invariant
            pv == split_on(s@, ','),
            parts@.len() == pv.len(),
            forall|j: int| 0 <= j < parts@.len() ==> (#[trigger] parts@[j])@ == pv[j],
            first_error(pv.take(i as int)) is None,
            method == match last_value(pv.take(i as int), "method"@) {
                Some(v) => parse_method(v, false),
                None => None,
            },
            opt_chars(asset) == last_value(pv.take(i as int), "asset"@),
            opt_chars(address) == last_value(pv.take(i as int), "address"@),
            opt_chars(amount) == last_value(pv.take(i as int), "amount"@),
            number_of(last_value(pv.take(i as int), "chain-id"@), u64::MAX as nat) == match chain_id {
                Some(n) => Some(n as nat),
                None => None::<nat>,
            },
            last_value(pv.take(i as int), "chain-id"@) is None ==> chain_id is None,
            opt_chars(token_contract) == last_value(pv.take(i as int), "contract"@),
            number_of(last_value(pv.take(i as int), "decimals"@), u32::MAX as nat) == match token_decimals {
                Some(n) => Some(n as nat),
                None => None::<nat>,
            },
            last_value(pv.take(i as int), "decimals"@) is None <==> token_decimals is None,
            last_value(pv.take(i as int), "method"@) is None <==> method is None,
            opt_chars(min_fee) == last_value(pv.take(i as int), "min-fee"@),
            opt_chars(uri_override) == last_value(pv.take(i as int), "uri"@),
    {
        let ghost prefix = pv.take(i as int);
        proof {
            lemma_keys_distinct();
        }
        assert(pv.take(i + 1).drop_last() == prefix);
        assert(pv.take(i + 1).last() == pv[i as int]);
        let part = trim_exec(&parts[i]);
        proof {
            if part@.len() == 0 {
                lemma_last_value_step(pv, i as int);
            }
        }
        if part.len() != 0 {
            let eq = match find_char_exec(&part, '=') {
                Some(k) => k,
                None => {
                    let mut msg: Vec<char> = Vec::new();
                    push_str(&mut msg, "invalid coin spec part '");
                    push_chars(&mut msg, &part);
                    push_str(&mut msg, "': expected key=value");
                    proof {
                        lemma_first_error_prefix(pv, i + 1);
                    }
                    return Err(string_of(msg.as_slice()));
                },
            };
            let key = sub_chars(&part, 0, eq);
            let value = sub_chars(&part, eq + 1, part.len());
            assert(split_once(part@, '=') == Some((key@, value@)));
            assert(part_entry(pv[i as int]) == Some((key@, value@)));
            assert(pv.take(i + 1).drop_last() == prefix);
            proof {
                lemma_last_value_step(pv, i as int);
            }
            if key_is(&key, "method") {
                let vs = string_of(value.as_slice());
                match Method::from_str(vs.as_str(), false) {
                    Ok(m) => {
                        method = Some(m);
                    },
                    Err(_) => {
                        let mut msg: Vec<char> = Vec::new();
                        push_str(&mut msg, "unknown method '");
                        push_chars(&mut msg, &value);
                        push_str(&mut msg, "' (expected one of ");
                        let names = method_list();
                        push_chars(&mut msg, &names);
                        push_str(&mut msg, ")");
                        proof {
                            lemma_first_error_prefix(pv, i + 1);
                        }
                        return Err(string_of(msg.as_slice()));
                    },
                }
            } else if key_is(&key, "asset") {
                assert(last_value(pv.take(i + 1), "asset"@) == Some(value@));
                asset = Some(value);
            } else if key_is(&key, "address") {
                assert(last_value(pv.take(i + 1), "address"@) == Some(value@));
                address = Some(value);
            } else if key_is(&key, "amount") {
                let vs = string_of(value.as_slice());
                match scale_decimal(vs.as_str(), 30) {
                    Ok(_) => {},
                    Err(e) => {
                        proof {
                            lemma_first_error_prefix(pv, i + 1);
                        }
                        return Err(e);
                    },
                }
                amount = Some(value);
            } else if key_is(&key, "chain-id") {
                match parse_unsigned_exec(&value, u64::MAX) {
                    Some(n) => {
                        chain_id = Some(n);
                    },
                    None => {
                        let mut msg: Vec<char> = Vec::new();
                        push_str(&mut msg, "invalid chain-id '");
                        push_chars(&mut msg, &value);
                        push_str(&mut msg, "'");
                        proof {
                            lemma_first_error_prefix(pv, i + 1);
                        }
                        return Err(string_of(msg.as_slice()));
                    },
                }
            } else if key_is(&key, "contract") {
                token_contract = Some(value);
            } else if key_is(&key, "decimals") {
                match parse_unsigned_exec(&value, u32::MAX as u64) {
                    Some(n) => {
                        token_decimals = Some(n as u32);
                    },
                    None => {
                        let mut msg: Vec<char> = Vec::new();
                        push_str(&mut msg, "invalid decimals '");
                        push_chars(&mut msg, &value);
                        push_str(&mut msg, "'");
                        proof {
                            lemma_first_error_prefix(pv, i + 1);
                        }
                        return Err(string_of(msg.as_slice()));
                    },
                }
            } else if key_is(&key, "min-fee") {
                if !is_float_text(&value) {
                    let mut msg: Vec<char> = Vec::new();
                    push_str(&mut msg, "invalid min-fee '");
                    push_chars(&mut msg, &value);
                    push_str(&mut msg, "'");
                    proof {
                        lemma_first_error_prefix(pv, i + 1);
                    }
                    return Err(string_of(msg.as_slice()));
                }
                min_fee = Some(value);
            } else if key_is(&key, "uri") {
                uri_override = Some(value);
            } else {
                let mut msg: Vec<char> = Vec::new();
                push_str(&mut msg, "unknown key '");
                push_chars(&mut msg, &key);
                push_str(&mut msg, "' in coin spec");
                proof {
                    lemma_first_error_prefix(pv, i + 1);
                }
                return Err(string_of(msg.as_slice()));
            }
        }
    }
    assert(pv.take(pv.len() as int) == pv);
    if method.is_none() || asset.is_none() || address.is_none() || amount.is_none() {
        return Err(String::from_str("coin spec needs method=, asset=, address= and amount="));
    }
    if token_contract.is_some() && token_decimals.is_none() {
        return Err(String::from_str("contract= requires decimals="));
    }
    let fee = match min_fee {
        Some(v) => string_of(v.as_slice()),
        None => String::from_str("0"),
    };
    Ok(
        CoinSpec {
            method: method.unwrap(),
            asset: string_of(asset.unwrap().as_slice()),
            address: string_of(address.unwrap().as_slice()),
            amount: string_of(amount.unwrap().as_slice()),
            chain_id,
            token_contract: opt_string(token_contract),
            token_decimals,
            min_fee: fee,
            uri_override: opt_string(uri_override),
        },
    )
}

// ---------------------------------------------------------------------------
// The provider's settings

/// The provider's settings: the coins it accepts and what its links and
/// payloads show. (The requested fiat amount, a floating-point number, is
/// kept beside it by the program that renders payloads.)
pub struct Config {
    /// Coins accepted for the payment, in the order given.
    pub coins: Vec<CoinSpec>,
    /// Host used in the printed link and LNURL.
    pub host: String,
    /// Port the provider listens on.
    pub port: u16,
    /// Requested fiat asset shown in the payment details.
    pub fiat: String,
    /// Quote validity in seconds, refreshed on each payment-details call.
    pub quote_ttl: u64,
    /// Payment link id.
    pub id: String,
    /// Merchant display name.
    pub name: String,
    /// Always answer 404 "No pending payment found".
    pub no_pending: bool,
}

/// `http://<host>:<port>/v1/lnurlp/<rest>`.
pub open spec fn lnurlp_url(host: Seq<char>, port: u16, rest: Seq<char>) -> Seq<char> {
    "http://"@ + host + ":"@ + decimal_text(port as nat) + "/v1/lnurlp/"@ + rest
}

fn build_lnurlp_url(host: &String, port: u16, rest1: &str, rest2: &str) -> (r: String)
    ensures
        r@ == lnurlp_url(host@, port, rest1@ + rest2@),
{
    let mut out: Vec<char> = Vec::new();
    push_str(&mut out, "http://");
    push_str(&mut out, host.as_str());
    push_str(&mut out, ":");
    push_decimal(&mut out, port as u64);
    push_str(&mut out, "/v1/lnurlp/");
    push_str(&mut out, rest1);
    push_str(&mut out, rest2);
    string_of(out.as_slice())
}

impl Config {
    /// The payment link's API URL (what the LNURL encodes).
    pub fn api_url(&self) -> (r: String)
        ensures
            r@ == lnurlp_url(self.host@, self.port, self.id@),
    {
        let r = build_lnurlp_url(&self.host, self.port, "", self.id.as_str());
        proof {
            reveal_strlit("");
            assert(""@ + self.id@ == self.id@);
        }
        r
    }

    /// The callback URL for the transaction details.
    pub fn callback_url(&self) -> (r: String)
        ensures
            r@ == lnurlp_url(self.host@, self.port, "cb/"@ + self.id@),
    {
        build_lnurlp_url(&self.host, self.port, "cb/", self.id.as_str())
    }

    /// The endpoint that receives the transaction proof for a payment.
    pub fn proof_url(&self, payment_id: &str) -> (r: String)
        ensures
            r@ == lnurlp_url(self.host@, self.port, "tx/"@ + payment_id@),
    {
        build_lnurlp_url(&self.host, self.port, "tx/", payment_id)
    }

    /// Minimal settings around the given coins: host 127.0.0.1, port 8080,
    /// fiat CHF, a 600 s quote, link id `pl_mock01`, name `OCP Mock Shop`.
    pub fn for_tests(coins: Vec<CoinSpec>) -> (r: Config)
        ensures
            r.coins@ == coins@,
            r.host@ == "127.0.0.1"@,
            r.port == 8080,
            r.fiat@ == "CHF"@,
            r.quote_ttl == 600,
            r.id@ == "pl_mock01"@,
            r.name@ == "OCP Mock Shop"@,
            !r.no_pending,
    {
        Config {
            coins,
            host: String::from_str("127.0.0.1"),
            port: 8080,
            fiat: String::from_str("CHF"),
            quote_ttl: 600,
            id: String::from_str("pl_mock01"),
            name: String::from_str("OCP Mock Shop"),
            no_pending: false,
        }
    }
}

impl CoinSpec {
    /// Minimal coin spec: no chain id, contract, decimals or URI override,
    /// and a zero minimum fee.
    pub fn for_tests(method: Method, asset: &str, address: &str, amount: &str) -> (r: CoinSpec)
        ensures
            r.method == method,
            r.asset@ == asset@,
            r.address@ == address@,
            r.amount@ == amount@,
            r.chain_id is None,
            r.token_contract is None,
            r.token_decimals is None,
            r.min_fee@ == "0"@,
            r.uri_override is None,
    {
        CoinSpec {
            method,
            asset: String::from_str(asset),
            address: String::from_str(address),
            amount: String::from_str(amount),
            chain_id: None,
            token_contract: None,
            token_decimals: None,
            min_fee: String::from_str("0"),
            uri_override: None,
        }
    }
}

// ---------------------------------------------------------------------------
// What parsing guarantees of the amount

proof fn lemma_first_error_none_all(ps: Seq<Seq<char>>)
    requires
        first_error(ps) is None,
    ensures
        forall|i: int| 0 <= i < ps.len() ==> (#[trigger] part_error(ps[i])) is None,
    decreases ps.len(),
{
    if ps.len() > 0 {
        lemma_first_error_none_all(ps.drop_last());
        assert forall|i: int| 0 <= i < ps.len() implies (#[trigger] part_error(ps[i])) is None by {
            if i < ps.len() - 1 {
                assert(ps.drop_last()[i] == ps[i]);
            }
        }
    }
}

proof fn lemma_last_value_from_part(ps: Seq<Seq<char>>, key: Seq<char>)
    requires
        last_value(ps, key) is Some,
    ensures
        exists|i: int| 0 <= i < ps.len() && #[trigger] part_entry(ps[i]) == Some((key, last_value(ps, key)->0)),
    decreases ps.len(),
{
    let v = last_value(ps, key)->0;
    match part_entry(ps.last()) {
        Some((k, w)) => {
            if k == key {
                assert(part_entry(ps[ps.len() - 1]) == Some((key, v)));
            } else {
                lemma_last_value_from_part(ps.drop_last(), key);
                let i = choose|i: int| 0 <= i < ps.drop_last().len() && #[trigger] part_entry(ps.drop_last()[i]) == Some((key, v));
                assert(ps[i] == ps.drop_last()[i]);
            }
        },
        None => {
            lemma_last_value_from_part(ps.drop_last(), key);
            let i = choose|i: int| 0 <= i < ps.drop_last().len() && #[trigger] part_entry(ps.drop_last()[i]) == Some((key, v));
            assert(ps[i] == ps.drop_last()[i]);
        },
    }
}

proof fn lemma_amount_part_error(raw: Seq<char>, v: Seq<char>)
    requires
        part_entry(raw) == Some(("amount"@, v)),
    ensures
        part_error(raw) == match scaled_amount(v, 30) {
            Err(e) => Some(e),
            Ok(_) => None::<Seq<char>>,
        },
{
    lemma_keys_distinct();
}

/// Every `amount=` value of a coin spec must scale exactly to 30 decimal
/// places: a spec with a part `amount=v` whose `v` does not is refused.
pub proof fn lemma_bad_amount_refused(s: Seq<char>, i: int, v: Seq<char>)
    requires
        0 <= i < split_on(s, ',').len(),
        part_entry(split_on(s, ',')[i]) == Some(("amount"@, v)),
        scaled_amount(v, 30) is Err,
    ensures
        coin_spec_error(s) is Some,
{
    let ps = split_on(s, ',');
    lemma_amount_part_error(ps[i], v);
    if first_error(ps) is None {
        lemma_first_error_none_all(ps);
        assert(part_error(ps[i]) is None);
    }
}

/// An accepted coin spec's amount is the text of its last `amount=` part,
/// unchanged, and that text scales exactly to 30 decimal places.
pub proof fn lemma_accepted_amount_scales(s: Seq<char>)
    requires
        coin_spec_error(s) is None,
    ensures
        last_value(split_on(s, ','), "amount"@) matches Some(v) && scaled_amount(v, 30) is Ok,
{
    let ps = split_on(s, ',');
    lemma_first_error_none_all(ps);
    lemma_last_value_from_part(ps, "amount"@);
    let v = last_value(ps, "amount"@)->0;
    let i = choose|i: int| 0 <= i < ps.len() && #[trigger] part_entry(ps[i]) == Some(("amount"@, v));
    lemma_amount_part_error(ps[i], v);
    assert(part_error(ps[i]) is None);
}

} // verus!
