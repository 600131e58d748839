use ocp_mock::lnurl::lnurl_encode;

// Example from the OpenCryptoPay documentation.
#[test]
fn matches_spec_example() {
    assert_eq!(
        lnurl_encode("https://api.dfx.swiss/v1/lnurlp/pl_beeddb41cd4b6d9e"),
        "LNURL1DP68GURN8GHJ7CTSDYHXGENC9EEHW6TNWVHHVVF0D3H82UNVWQHHQMZLVFJK2ERYVG6RZCMYX33RVEPEV5YEJ9WT"
    );
}

const CHARSET: &str = "qpzry9x8gf2tvdw0s3jn54khce6mua7l";

fn polymod(values: &[u8]) -> u32 {
    let gen = [0x3b6a57b2u32, 0x26508e6d, 0x1ea119fa, 0x3d4233dd, 0x2a1462b3];
    let mut chk: u32 = 1;
    for &v in values {
        let b = chk >> 25;
        chk = ((chk & 0x1ff_ffff) << 5) ^ u32::from(v);
        for (i, g) in gen.iter().enumerate() {
            if (b >> i) & 1 == 1 {
                chk ^= g;
            }
        }
    }
    chk
}

/// Decode an LNURL by hand: checksum check and 5-to-8 bit regrouping.
fn decode(lnurl: &str) -> (bool, Vec<u8>) {
    let lower = lnurl.to_lowercase();
    let (hrp, rest) = lower.split_at(5);
    assert_eq!(hrp, "lnurl");
    let values: Vec<u8> = rest[1..]
        .chars()
        .map(|c| CHARSET.find(c).unwrap() as u8)
        .collect();
    let mut all: Vec<u8> = hrp.bytes().map(|b| b >> 5).collect();
    all.push(0);
    all.extend(hrp.bytes().map(|b| b & 31));
    all.extend(&values);
    let valid = polymod(&all) == 1;
    let data = &values[..values.len() - 6];
    let mut acc: u32 = 0;
    let mut bits = 0;
    let mut out = Vec::new();
    for &d in data {
        acc = (acc << 5) | u32::from(d);
        bits += 5;
        if bits >= 8 {
            bits -= 8;
            out.push(((acc >> bits) & 0xff) as u8);
        }
    }
    (valid, out)
}

#[test]
fn lnurl_round_trips_with_valid_checksum() {
    for url in [
        "",
        "a",
        "http://127.0.0.1:8080/v1/lnurlp/pl_mock01",
        "https://example.com/ünïcödé/path?x=1",
    ] {
        let encoded = lnurl_encode(url);
        assert!(encoded.starts_with("LNURL1"));
        assert_eq!(encoded, encoded.to_uppercase());
        let (valid, bytes) = decode(&encoded);
        assert!(valid, "checksum of {encoded}");
        assert_eq!(bytes, url.as_bytes());
    }
}

#[test]
fn lnurl_of_empty_url_is_only_hrp_and_checksum() {
    let encoded = lnurl_encode("");
    assert_eq!(encoded.len(), "LNURL1".len() + 6);
}
