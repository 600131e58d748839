//! OpenCryptoPay payment methods and their properties.

use vstd::prelude::*;
use crate::text::{chars_of, eq_ignore_ascii_case, eq_ignore_ascii_case_exec};

verus! {

/// A blockchain/payment method as named by the OpenCryptoPay standard.
///
/// Namecoin is not part of the published standard's method list; it is included
/// as a Bitcoin-family `hex` method for wallet testing.
#[derive(Clone, Copy, Debug, PartialEq, Eq, Structural)]
pub enum Method {
    Ethereum,
    Polygon,
    Arbitrum,
    Optimism,
    Base,
    BinanceSmartChain,
    Bitcoin,
    Firo,
    Namecoin,
    Monero,
    Zano,
    Solana,
    Tron,
    Cardano,
}

/// The exact method name used in API requests and responses (and accepted
/// on the command line).
pub open spec fn method_name(m: Method) -> Seq<char> {
    match m {
        Method::Ethereum => "Ethereum"@,
        Method::Polygon => "Polygon"@,
        Method::Arbitrum => "Arbitrum"@,
        Method::Optimism => "Optimism"@,
        Method::Base => "Base"@,
        Method::BinanceSmartChain => "BinanceSmartChain"@,
        Method::Bitcoin => "Bitcoin"@,
        Method::Firo => "Firo"@,
        Method::Namecoin => "Namecoin"@,
        Method::Monero => "Monero"@,
        Method::Zano => "Zano"@,
        Method::Solana => "Solana"@,
        Method::Tron => "Tron"@,
        Method::Cardano => "Cardano"@,
    }
}

/// Methods whose proof is the signed transaction (broadcast by the provider);
/// the others submit the hash of a transaction the wallet broadcast itself.
pub open spec fn hex_proof(m: Method) -> bool {
    !(m == Method::Monero || m == Method::Zano || m == Method::Solana || m == Method::Tron
        || m == Method::Cardano)
}

/// EVM chains.
pub open spec fn evm(m: Method) -> bool {
    m == Method::Ethereum || m == Method::Polygon || m == Method::Arbitrum || m == Method::Optimism
        || m == Method::Base || m == Method::BinanceSmartChain
}

/// The chain id an EVM method uses when none is configured.
pub open spec fn chain_id_of(m: Method) -> Option<u64> {
    match m {
        Method::Ethereum => Some(1),
        Method::Optimism => Some(10),
        Method::BinanceSmartChain => Some(56),
        Method::Polygon => Some(137),
        Method::Base => Some(8453),
        Method::Arbitrum => Some(42161),
        _ => None,
    }
}

/// The query parameter that carries the transaction proof.
pub open spec fn proof_param_of(m: Method) -> Seq<char> {
    if hex_proof(m) {
        "hex"@
    } else {
        "tx"@
    }
}

/// Every method, in declaration order.
pub open spec fn all_methods() -> Seq<Method> {
    seq![
        Method::Ethereum,
        Method::Polygon,
        Method::Arbitrum,
        Method::Optimism,
        Method::Base,
        Method::BinanceSmartChain,
        Method::Bitcoin,
        Method::Firo,
        Method::Namecoin,
        Method::Monero,
        Method::Zano,
        Method::Solana,
        Method::Tron,
        Method::Cardano,
    ]
}

/// Whether the command-line value `input` names method `m`.
pub open spec fn names_method(m: Method, input: Seq<char>, ignore_case: bool) -> bool {
    if ignore_case {
        eq_ignore_ascii_case(method_name(m), input)
    } else {
        method_name(m) == input
    }
}

/// The first method, in declaration order, that `input` names.
pub open spec fn parse_method(input: Seq<char>, ignore_case: bool) -> Option<Method> {
    first_named(all_methods(), input, ignore_case)
}

/// The first method of `ms` that `input` names.
pub open spec fn first_named(ms: Seq<Method>, input: Seq<char>, ignore_case: bool) -> Option<Method>
    decreases ms.len(),
{
    if ms.len() == 0 {
        None
    } else if names_method(ms[0], input, ignore_case) {
        Some(ms[0])
    } else {
        first_named(ms.drop_first(), input, ignore_case)
    }
}

impl Method {
    /// Exact method name used in API requests and responses.
    pub fn spec_name(self) -> (r: &'static str)
        ensures
            r@ == method_name(self),
    {
        match self {
            Method::Ethereum => "Ethereum",
            Method::Polygon => "Polygon",
            Method::Arbitrum => "Arbitrum",
            Method::Optimism => "Optimism",
            Method::Base => "Base",
            Method::BinanceSmartChain => "BinanceSmartChain",
            Method::Bitcoin => "Bitcoin",
            Method::Firo => "Firo",
            Method::Namecoin => "Namecoin",
            Method::Monero => "Monero",
            Method::Zano => "Zano",
            Method::Solana => "Solana",
            Method::Tron => "Tron",
            Method::Cardano => "Cardano",
        }
    }

    /// The proof is the raw signed transaction, broadcast by the provider;
    /// otherwise the wallet broadcasts and submits the transaction hash.
    pub fn is_hex(self) -> (r: bool)
        ensures
            r == hex_proof(self),
    {
        !matches!(
            self,
            Method::Monero | Method::Zano | Method::Solana | Method::Tron | Method::Cardano
        )
    }

    pub fn is_evm(self) -> (r: bool)
        ensures
            r == evm(self),
    {
        matches!(
            self,
            Method::Ethereum | Method::Polygon | Method::Arbitrum | Method::Optimism | Method::Base
                | Method::BinanceSmartChain
        )
    }

    pub fn default_chain_id(self) -> (r: Option<u64>)
        ensures
            r == chain_id_of(self),
    {
        match self {
            Method::Ethereum => Some(1),
            Method::Optimism => Some(10),
            Method::BinanceSmartChain => Some(56),
            Method::Polygon => Some(137),
            Method::Base => Some(8453),
            Method::Arbitrum => Some(42161),
            _ => None,
        }
    }

    /// Query parameter carrying the transaction proof on the `/tx/` endpoint.
    pub fn proof_param(self) -> (r: &'static str)
        ensures
            r@ == proof_param_of(self),
    {
        if self.is_hex() {
            "hex"
        } else {
            "tx"
        }
    }

    /// The method name as an owned string (what the method displays as).
    pub fn to_string(self) -> (r: String)
        ensures
            r@ == method_name(self),
    {
        String::from_str(self.spec_name())
    }

    /// All methods, in declaration order.
    pub fn value_variants() -> (r: Vec<Method>)
        ensures
            r@ == all_methods(),
    {
        let r = vec![
            Method::Ethereum,
            Method::Polygon,
            Method::Arbitrum,
            Method::Optimism,
            Method::Base,
            Method::BinanceSmartChain,
            Method::Bitcoin,
            Method::Firo,
            Method::Namecoin,
            Method::Monero,
            Method::Zano,
            Method::Solana,
            Method::Tron,
            Method::Cardano,
        ];
        assert(r@ == all_methods());
        r
    }

    /// Parse a command-line value into a method: the first method whose
    /// name equals `input` (ignoring ASCII case when `ignore_case`).
    pub fn from_str(input: &str, ignore_case: bool) -> (r: Result<Method, String>)
        ensures
            parse_method(input@, ignore_case) matches Some(m) ==> r == Ok::<Method, String>(m),
            parse_method(input@, ignore_case) is None ==> (r matches Err(e) && e@ == "invalid variant: "@ + input@),
    {
        let variants = Method::value_variants();
        let chars = chars_of(input);
        let mut i: usize = 0;
        assert(variants@.skip(0) == variants@);
        while i < variants.len()
            invariant
                variants@ == all_methods(),
                chars@ == input@,
                0 <= i <= variants.len(),
                parse_method(input@, ignore_case) == first_named(variants@.skip(i as int), input@, ignore_case),
            decreases variants.len() - i,
        {
            let m = variants[i];
            let name = chars_of(m.spec_name());
            let hit = if ignore_case {
                eq_ignore_ascii_case_exec(&name, &chars)
            } else {
                crate::text::chars_eq(&name, &chars)
            };
            assert(variants@.skip(i as int)[0] == m);
            assert(variants@.skip(i as int).drop_first() == variants@.skip(i + 1));
            if hit {
                return Ok(m);
            }
            i = i + 1;
        }
        let mut msg = String::from_str("invalid variant: ");
        msg.append(input);
        Err(msg)
    }
}

/// Distinct methods have distinct names.
pub proof fn lemma_method_name_injective(a: Method, b: Method)
    ensures
        method_name(a) == method_name(b) ==> a == b,
{
    reveal_strlit("Ethereum");
    reveal_strlit("Polygon");
    reveal_strlit("Arbitrum");
    reveal_strlit("Optimism");
    reveal_strlit("Base");
    reveal_strlit("BinanceSmartChain");
    reveal_strlit("Bitcoin");
    reveal_strlit("Firo");
    reveal_strlit("Namecoin");
    reveal_strlit("Monero");
    reveal_strlit("Zano");
    reveal_strlit("Solana");
    reveal_strlit("Tron");
    reveal_strlit("Cardano");
    assert("Ethereum"@.len() == 8 && "Ethereum"@[0] == 'E' && "Ethereum"@[1] == 't' && "Ethereum"@[2] == 'h');
    assert("Polygon"@.len() == 7 && "Polygon"@[0] == 'P' && "Polygon"@[1] == 'o' && "Polygon"@[2] == 'l');
    assert("Arbitrum"@.len() == 8 && "Arbitrum"@[0] == 'A' && "Arbitrum"@[1] == 'r' && "Arbitrum"@[2] == 'b');
    assert("Optimism"@.len() == 8 && "Optimism"@[0] == 'O' && "Optimism"@[1] == 'p' && "Optimism"@[2] == 't');
    assert("Base"@.len() == 4 && "Base"@[0] == 'B' && "Base"@[1] == 'a' && "Base"@[2] == 's');
    assert("BinanceSmartChain"@.len() == 17 && "BinanceSmartChain"@[0] == 'B' && "BinanceSmartChain"@[1] == 'i' && "BinanceSmartChain"@[2] == 'n');
    assert("Bitcoin"@.len() == 7 && "Bitcoin"@[0] == 'B' && "Bitcoin"@[1] == 'i' && "Bitcoin"@[2] == 't');
    assert("Firo"@.len() == 4 && "Firo"@[0] == 'F' && "Firo"@[1] == 'i' && "Firo"@[2] == 'r');
    assert("Namecoin"@.len() == 8 && "Namecoin"@[0] == 'N' && "Namecoin"@[1] == 'a' && "Namecoin"@[2] == 'm');
    assert("Monero"@.len() == 6 && "Monero"@[0] == 'M' && "Monero"@[1] == 'o' && "Monero"@[2] == 'n');
    assert("Zano"@.len() == 4 && "Zano"@[0] == 'Z' && "Zano"@[1] == 'a' && "Zano"@[2] == 'n');
    assert("Solana"@.len() == 6 && "Solana"@[0] == 'S' && "Solana"@[1] == 'o' && "Solana"@[2] == 'l');
    assert("Tron"@.len() == 4 && "Tron"@[0] == 'T' && "Tron"@[1] == 'r' && "Tron"@[2] == 'o');
    assert("Cardano"@.len() == 7 && "Cardano"@[0] == 'C' && "Cardano"@[1] == 'a' && "Cardano"@[2] == 'r');
}

proof fn lemma_first_named_finds(ms: Seq<Method>, m: Method, k: int)
    requires
        0 <= k < ms.len(),
        ms[k] == m,
        forall|j: int| 0 <= j < k ==> ms[j] != m,
    ensures
        first_named(ms, method_name(m), false) == Some(m),
    decreases k,
{
    if k > 0 {
        lemma_method_name_injective(ms[0], m);
        assert(ms.drop_first()[k - 1] == m);
        lemma_first_named_finds(ms.drop_first(), m, k - 1);
    }
}

/// Every method's name, given on the command line, parses back to that
/// method: the names are the values the command line accepts.
pub proof fn lemma_method_name_parses(m: Method)
    ensures
        parse_method(method_name(m), false) == Some(m),
{
    let ms = all_methods();
    let k: int = match m {
        Method::Ethereum => 0,
        Method::Polygon => 1,
        Method::Arbitrum => 2,
        Method::Optimism => 3,
        Method::Base => 4,
        Method::BinanceSmartChain => 5,
        Method::Bitcoin => 6,
        Method::Firo => 7,
        Method::Namecoin => 8,
        Method::Monero => 9,
        Method::Zano => 10,
        Method::Solana => 11,
        Method::Tron => 12,
        Method::Cardano => 13,
    };
    lemma_first_named_finds(ms, m, k);
}

} // verus!
