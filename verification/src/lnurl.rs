//! LNURL (LUD-01) encoding: the URL's bytes in BIP-173 bech32 under the
//! human-readable part `lnurl`, upper-cased. Written out here because LNURLs
//! routinely exceed the 90-character limit that general-purpose bech32
//! encoders enforce.

use vstd::prelude::*;
use crate::digits::{power, value_of, digits_of, all_below, lemma_value_push, lemma_power_adds, lemma_digits_of_value, lemma_value_of_digits, lemma_digits_shape, lemma_value_bound, lemma_power_positive};
use crate::text::{ascii_lower, ascii_upper, ascii_upper_exec, string_of};
use vstd::string::StringSliceAdditionalSpecFns;
use vstd::utf8::encode_utf8;

verus! {

// ---------------------------------------------------------------------------
// Regrouping 8-bit bytes into 5-bit values

/// Zero bits appended so that `8 * n` bits fill whole 5-bit groups.
pub open spec fn pad_bits(n: nat) -> nat {
    ((5 - (8 * n) % 5) % 5) as nat
}

/// Number of 5-bit groups that `n` bytes fill (the last one zero-padded).
pub open spec fn group_count(n: nat) -> nat {
    (8 * n + pad_bits(n)) / 5
}

/// The bytes `data` regrouped into 5-bit values, most significant bit first,
/// the final group padded with zero bits: the base-32 digits of the bytes'
/// big-endian value shifted left by the padding.
pub open spec fn to_base32(data: Seq<u8>) -> Seq<u8> {
    digits_of(value_of(data, 256) * power(2, pad_bits(data.len())), 32, group_count(data.len()))
}

/// `1 << k` is `2^k` for small `k`.
proof fn lemma_shl_one(k: u32)
    requires
        k <= 12,
    ensures
        (1u32 << k) as nat == power(2, k as nat),
    decreases k,
{
    if k == 0 {
        assert(1u32 << 0u32 == 1u32) by (bit_vector);
    } else {
        lemma_shl_one((k - 1) as u32);
        assert(1u32 << k == 2 * (1u32 << ((k - 1) as u32))) by (bit_vector)
            requires
                1 <= k <= 12,
        ;
    }
}

/// Appending a byte below a value of fewer than 4 bits.
proof fn lemma_push_byte(acc: u32, b: u32)
    requires
        acc < 16,
        b < 256,
    ensures
        (acc << 8u32) | b == acc * 256 + b,
{
    assert((acc << 8u32) | b == acc * 256 + b) by (bit_vector)
        requires
            acc < 16,
            b < 256,
    ;
}

/// Splitting off the top five bits of a `k + 5`-bit value.
proof fn lemma_emit(acc: u32, k: u32)
    requires
        k <= 7,
        acc < (1u32 << (k + 5)),
    ensures
        (acc >> k) & 31 == acc >> k,
        acc >> k < 32,
        acc & (((1u32 << k) - 1) as u32) < (1u32 << k),
        acc == (acc >> k) * (1u32 << k) + (acc & (((1u32 << k) - 1) as u32)),
{
    assert((acc >> k) & 31 == acc >> k && acc >> k < 32 && acc & (((1u32 << k) - 1) as u32) < (1u32 << k)
        && acc == (acc >> k) * (1u32 << k) + (acc & (((1u32 << k) - 1) as u32))) by (bit_vector)
        requires
            k <= 7,
            acc < (1u32 << (k + 5)),
    ;
}

/// Left-aligning the last, partial group.
proof fn lemma_last_group(acc: u32, bits: u32)
    requires
        0 < bits < 5,
        acc < (1u32 << bits),
    ensures
        (acc << ((5 - bits) as u32)) & 31 == acc * (1u32 << ((5 - bits) as u32)),
        acc * (1u32 << ((5 - bits) as u32)) < 32,
{
    assert((acc << ((5 - bits) as u32)) & 31 == acc * (1u32 << ((5 - bits) as u32)) && acc * (1u32 << ((5 - bits) as u32))
        < 32) by (bit_vector)
        requires
            0 < bits < 5,
            acc < (1u32 << bits),
    ;
}

fn convert_bits_8_to_5(data: &[u8]) -> (out: Vec<u8>)
    ensures
        out@ == to_base32(data@),
{
    let mut acc: u32 = 0;
    let mut bits: u32 = 0;
    let mut out: Vec<u8> = Vec::new();
    proof {
        lemma_shl_one(0);
    }
    for idx in 0..data.len()
        invariant
            bits < 5,
            acc < power(2, bits as nat),
            (1u32 << bits) as nat == power(2, bits as nat),
            value_of(data@.take(idx as int), 256) == value_of(out@, 32) * power(2, bits as nat) + acc,
            8 * idx == 5 * out@.len() + bits,
            all_below(out@, 32),
    {
        let b = data[idx];
        proof {
            lemma_shl_one(bits);
            lemma_shl_one(4);
            assert(acc < 16) by (bit_vector)
                requires
                    acc < (1u32 << bits),
                    bits < 5,
            ;
            lemma_push_byte(acc, b as u32);
            lemma_shl_one((bits + 8) as u32);
            lemma_power_adds(2, bits as nat, 8);
            reveal_with_fuel(power, 9);
            assert(data@.take(idx + 1) == data@.take(idx as int).push(b));
            lemma_value_push(data@.take(idx as int), b, 256);
            let v = value_of(out@, 32);
            let p = power(2, bits as nat);
            assert((v * p + acc) * 256 + b == v * (p * 256) + (acc * 256 + b)) by (nonlinear_arith);
        }
        acc = (acc << 8) | (b as u32);
        bits = bits + 8;
        while bits >= 5
            invariant
                bits <= 12,
                acc < power(2, bits as nat),
                (1u32 << bits) as nat == power(2, bits as nat),
                value_of(data@.take(idx + 1), 256) == value_of(out@, 32) * power(2, bits as nat) + acc,
                8 * (idx + 1) == 5 * out@.len() + bits,
                all_below(out@, 32),
            decreases bits,
        {
            bits = bits - 5;
            proof {
                lemma_shl_one(bits);
                lemma_shl_one((bits + 5) as u32);
                lemma_emit(acc, bits);
                lemma_power_adds(2, bits as nat, 5);
                reveal_with_fuel(power, 6);
            }
            let digit = ((acc >> bits) & 31) as u8;
            let ghost old_out = out@;
            let ghost q = (acc >> bits) as nat;
            let ghost r = (acc & (((1u32 << bits) - 1) as u32)) as nat;
            out.push(digit);
            acc = acc & ((1u32 << bits) - 1);
            proof {
                lemma_value_push(old_out, digit, 32);
                let v = value_of(old_out, 32);
                let p = power(2, bits as nat);
                assert(v * (p * 32) + (q * p + r) == (v * 32 + q) * p + r) by (nonlinear_arith);
                assert(all_below(out@, 32));
            }
        }
    }
    assert(data@.take(data@.len() as int) == data@);
    let ghost v = value_of(out@, 32);
    if bits > 0 {
        proof {
            lemma_shl_one((5 - bits) as u32);
            lemma_last_group(acc, bits);
            lemma_power_adds(2, bits as nat, (5 - bits) as nat);
            reveal_with_fuel(power, 6);
        }
        let digit = ((acc << (5 - bits)) & 31) as u8;
        let ghost old_out = out@;
        out.push(digit);
        proof {
            lemma_value_push(old_out, digit, 32);
            let p = power(2, bits as nat);
            let s = power(2, (5 - bits) as nat);
            assert((v * p + acc) * s == v * (p * s) + acc * s) by (nonlinear_arith);
            assert(all_below(out@, 32));
            assert(p * s == 32);
            assert(value_of(out@, 32) == v * 32 + digit);
            assert(digit == acc * s);
            assert(value_of(data@, 256) == v * p + acc);
            assert(value_of(out@, 32) == value_of(data@, 256) * s);
        }
    } else {
        proof {
            reveal_with_fuel(power, 1);
            assert(power(2, 0) == 1);
            assert(bits == 0);
            assert(acc == 0);
            assert(value_of(data@, 256) == v * 1 + acc);
            assert(value_of(out@, 32) == value_of(data@, 256) * 1);
        }
    }
    proof {
        let n = data@.len();
        assert(pad_bits(n) == if bits > 0 { 5 - bits } else { 0 });
        assert(group_count(n) == out@.len());
        assert(value_of(out@, 32) == value_of(data@, 256) * power(2, pad_bits(n)));
        lemma_digits_of_value(out@, 32);
    }
    out
}

// ---------------------------------------------------------------------------
// The BIP-173 checksum

/// The generator constants of the bech32 checksum.
pub open spec fn generator(i: int) -> u32 {
    if i == 0 {
        0x3b6a57b2
    } else if i == 1 {
        0x26508e6d
    } else if i == 2 {
        0x1ea119fa
    } else if i == 3 {
        0x3d4233dd
    } else {
        0x2a1462b3
    }
}

/// `c` XORed with each generator `i < n` whose bit `i` is set in `b`.
pub open spec fn mix_generators(c: u32, b: u32, n: nat) -> u32
    decreases n,
{
    if n == 0 {
        c
    } else {
        let prev = mix_generators(c, b, (n - 1) as nat);
        if (b >> ((n - 1) as u32)) & 1 == 1 {
            prev ^ generator(n - 1)
        } else {
            prev
        }
    }
}

/// One step of the checksum: feed the 5-bit value `v` into state `chk`.
pub open spec fn polymod_step(chk: u32, v: u8) -> u32 {
    mix_generators(((chk & 0x1ff_ffff) << 5u32) ^ (v as u32), chk >> 25u32, 5)
}

/// The BIP-173 checksum state after feeding `values` into the initial state 1.
pub open spec fn polymod_of(values: Seq<u8>) -> u32
    decreases values.len(),
{
    if values.len() == 0 {
        1
    } else {
        polymod_step(polymod_of(values.drop_last()), values.last())
    }
}

fn polymod(values: &[u8]) -> (chk: u32)
    ensures
        chk == polymod_of(values@),
{
    let gens: [u32; 5] = [0x3b6a57b2, 0x26508e6d, 0x1ea119fa, 0x3d4233dd, 0x2a1462b3];
    let mut chk: u32 = 1;
    assert(values@.take(0) =~= Seq::<u8>::empty());
    for idx in 0..values.len()
        invariant
            chk == polymod_of(values@.take(idx as int)),
            forall|i: int| 0 <= i < 5 ==> gens@[i] == generator(i),
    {
        let v = values[idx];
        let b = chk >> 25;
        let ghost old_chk = chk;
        chk = ((chk & 0x1ff_ffff) << 5) ^ (v as u32);
        let ghost c0 = chk;
        for i in 0..5u32
            invariant
                chk == mix_generators(c0, b, i as nat),
                forall|j: int| 0 <= j < 5 ==> gens@[j] == generator(j),
        {
            if (b >> i) & 1 == 1 {
                chk = chk ^ gens[i as usize];
            }
        }
        assert(values@.take(idx + 1).drop_last() == values@.take(idx as int));
        assert(polymod_step(old_chk, v) == chk);
    }
    assert(values@.take(values@.len() as int) == values@);
    chk
}

/// The human-readable part expanded for the checksum: the high bits of each
/// byte, a zero, then the low five bits of each byte.
pub open spec fn hrp_expand_of(hrp: Seq<u8>) -> Seq<u8> {
    hrp.map_values(|b: u8| b >> 5u8) + seq![0u8] + hrp.map_values(|b: u8| b & 31u8)
}

fn hrp_expand(hrp: &[u8]) -> (out: Vec<u8>)
    ensures
        out@ == hrp_expand_of(hrp@),
{
    let mut out: Vec<u8> = Vec::new();
    for i in 0..hrp.len()
        invariant
            out@ == hrp@.take(i as int).map_values(|b: u8| b >> 5u8),
    {
        out.push(hrp[i] >> 5);
        assert(hrp@.take(i + 1).map_values(|b: u8| b >> 5u8) == hrp@.take(i as int).map_values(
            |b: u8| b >> 5u8,
        ).push(hrp@[i as int] >> 5u8));
    }
    assert(hrp@.take(hrp@.len() as int) == hrp@);
    out.push(0);
    let ghost first = out@;
    for i in 0..hrp.len()
        invariant
            out@ == first + hrp@.take(i as int).map_values(|b: u8| b & 31u8),
    {
        out.push(hrp[i] & 31);
        assert(hrp@.take(i + 1).map_values(|b: u8| b & 31u8) == hrp@.take(i as int).map_values(
            |b: u8| b & 31u8,
        ).push(hrp@[i as int] & 31u8));
    }
    out
}

/// The six 5-bit checksum values of `data` under the human-readable part `hrp`.
pub open spec fn checksum_of(hrp: Seq<u8>, data: Seq<u8>) -> Seq<u8> {
    let pm = polymod_of(hrp_expand_of(hrp) + data + seq![0u8, 0u8, 0u8, 0u8, 0u8, 0u8]) ^ 1u32;
    Seq::new(6, |i: int| ((pm >> ((5 * (5 - i)) as u32)) & 31u32) as u8)
}

// ---------------------------------------------------------------------------
// The encoded string

/// The bech32 alphabet: the character for each 5-bit value.
pub open spec fn alphabet() -> Seq<char> {
    seq![
        'q', 'p', 'z', 'r', 'y', '9', 'x', '8', 'g', 'f', '2', 't', 'v', 'd', 'w', '0',
        's', '3', 'j', 'n', '5', '4', 'k', 'h', 'c', 'e', '6', 'm', 'u', 'a', '7', 'l',
    ]
}

fn bech32_char(d: u8) -> (c: char)
    requires
        d < 32,
    ensures
        c == alphabet()[d as int],
{
    let table: [char; 32] = [
        'q', 'p', 'z', 'r', 'y', '9', 'x', '8', 'g', 'f', '2', 't', 'v', 'd', 'w', '0',
        's', '3', 'j', 'n', '5', '4', 'k', 'h', 'c', 'e', '6', 'm', 'u', 'a', '7', 'l',
    ];
    assert(table@ == alphabet());
    table[d as usize]
}

/// The human-readable part of an LNURL, as bytes.
pub open spec fn lnurl_hrp() -> Seq<u8> {
    seq![108u8, 110u8, 117u8, 114u8, 108u8]
}

/// The lower-case bech32 string: the human-readable part, the separator
/// `1`, then the data and checksum values written in the bech32 alphabet.
pub open spec fn bech32_lower(hrp_text: Seq<char>, hrp: Seq<u8>, data: Seq<u8>) -> Seq<char> {
    hrp_text + seq!['1'] + (data + checksum_of(hrp, data)).map_values(|d: u8| alphabet()[d as int])
}

/// The LNURL of a URL given by its UTF-8 bytes: the upper-cased bech32
/// encoding of the bytes regrouped into 5-bit values, under `lnurl`.
pub open spec fn lnurl_of(url: Seq<u8>) -> Seq<char> {
    bech32_lower(seq!['l', 'n', 'u', 'r', 'l'], lnurl_hrp(), to_base32(url)).map_values(
        |c: char| ascii_upper(c),
    )
}

/// Encode `url` as an LNURL (LUD-01): bech32 of its UTF-8 bytes under the
/// human-readable part `lnurl`, in upper case.
pub fn lnurl_encode(url: &str) -> (r: String)
    ensures
        r@ == lnurl_of(encode_utf8(url@)),
{
    let hrp: [u8; 5] = [108, 110, 117, 114, 108];
    assert(hrp@ == lnurl_hrp());
    let data = convert_bits_8_to_5(url.as_bytes());
    proof {
        crate::digits::lemma_digits_shape(
            value_of(url.spec_bytes(), 256) * power(2, pad_bits(url.spec_bytes().len())),
            32,
            group_count(url.spec_bytes().len()),
        );
    }
    let mut values = hrp_expand(&hrp);
    let ghost prefix = values@;
    for i in 0..data.len()
        invariant
            values@ == prefix + data@.take(i as int),
    {
        values.push(data[i]);
        assert(data@.take(i + 1) == data@.take(i as int).push(data@[i as int]));
    }
    assert(data@.take(data@.len() as int) == data@);
    for i in 0..6usize
        invariant
            values@ == prefix + data@ + Seq::new(i as nat, |j: int| 0u8),
    {
        values.push(0);
        assert(Seq::new((i + 1) as nat, |j: int| 0u8) == Seq::new(i as nat, |j: int| 0u8).push(0u8));
    }
    assert(Seq::new(6, |j: int| 0u8) == seq![0u8, 0u8, 0u8, 0u8, 0u8, 0u8]);
    let pm = polymod(&values) ^ 1;
    let ghost sum = checksum_of(lnurl_hrp(), data@);
    let mut lower: Vec<char> = Vec::new();
    lower.push('l');
    lower.push('n');
    lower.push('u');
    lower.push('r');
    lower.push('l');
    lower.push('1');
    let ghost head = lower@;
    assert(head == seq!['l', 'n', 'u', 'r', 'l'] + seq!['1']);
    for k in 0..data.len()
        invariant
            lower@ == head + data@.take(k as int).map_values(|d: u8| alphabet()[d as int]),
            crate::digits::all_below(data@, 32),
    {
        let c = bech32_char(data[k]);
        lower.push(c);
        assert(data@.take(k + 1).map_values(|d: u8| alphabet()[d as int]) == data@.take(
            k as int,
        ).map_values(|d: u8| alphabet()[d as int]).push(c));
    }
    for i in 0..6u32
        invariant
            lower@ == head + data@.map_values(|d: u8| alphabet()[d as int]) + sum.take(
                i as int,
            ).map_values(|d: u8| alphabet()[d as int]),
            pm == polymod_of(hrp_expand_of(lnurl_hrp()) + data@ + seq![0u8, 0u8, 0u8, 0u8, 0u8, 0u8]) ^ 1u32,
            sum == checksum_of(lnurl_hrp(), data@),
    {
        let sh: u32 = 5 * (5 - i);
        assert((pm >> sh) & 31 < 32) by (bit_vector);
        let d = ((pm >> sh) & 31) as u8;
        assert(d == sum[i as int]);
        let c = bech32_char(d);
        lower.push(c);
        assert(sum.take(i + 1).map_values(|d: u8| alphabet()[d as int]) == sum.take(
            i as int,
        ).map_values(|d: u8| alphabet()[d as int]).push(c));
    }
    assert(sum.take(6) == sum);
    assert(lower@ == bech32_lower(seq!['l', 'n', 'u', 'r', 'l'], lnurl_hrp(), data@));
    let mut upper: Vec<char> = Vec::new();
    for k in 0..lower.len()
        invariant
            upper@ == lower@.take(k as int).map_values(|c: char| ascii_upper(c)),
    {
        upper.push(ascii_upper_exec(lower[k]));
        assert(lower@.take(k + 1).map_values(|c: char| ascii_upper(c)) == lower@.take(
            k as int,
        ).map_values(|c: char| ascii_upper(c)).push(ascii_upper(lower@[k as int])));
    }
    assert(lower@.take(lower@.len() as int) == lower@);
    string_of(upper.as_slice())
}

// ---------------------------------------------------------------------------
// Reading an LNURL back

/// The 5-bit value a (lower-case) bech32 character stands for.
pub open spec fn bech32_value(c: char) -> u8 {
    if c == 'q' { 0 } else if c == 'p' { 1 } else if c == 'z' { 2 } else if c == 'r' { 3 }
    else if c == 'y' { 4 } else if c == '9' { 5 } else if c == 'x' { 6 } else if c == '8' { 7 }
    else if c == 'g' { 8 } else if c == 'f' { 9 } else if c == '2' { 10 } else if c == 't' { 11 }
    else if c == 'v' { 12 } else if c == 'd' { 13 } else if c == 'w' { 14 } else if c == '0' { 15 }
    else if c == 's' { 16 } else if c == '3' { 17 } else if c == 'j' { 18 } else if c == 'n' { 19 }
    else if c == '5' { 20 } else if c == '4' { 21 } else if c == 'k' { 22 } else if c == 'h' { 23 }
    else if c == 'c' { 24 } else if c == 'e' { 25 } else if c == '6' { 26 } else if c == 'm' { 27 }
    else if c == 'u' { 28 } else if c == 'a' { 29 } else if c == '7' { 30 } else { 31 }
}

/// The bytes an LNURL carries: lower-case it, drop the `lnurl1` prefix and
/// the six checksum characters, read each remaining character as a 5-bit
/// value and regroup the bits into whole bytes, dropping the padding.
pub open spec fn lnurl_payload(s: Seq<char>) -> Seq<u8> {
    let lowered = s.map_values(|c: char| ascii_lower(c));
    let data = lowered.subrange(6, lowered.len() - 6).map_values(|c: char| bech32_value(c));
    let n = (5 * data.len()) / 8;
    digits_of(value_of(data, 32) / power(2, (5 * data.len() - 8 * n) as nat), 256, n)
}

proof fn lemma_alphabet_round_trip(d: u8)
    requires
        d < 32,
    ensures
        bech32_value(alphabet()[d as int]) == d,
        ascii_lower(ascii_upper(alphabet()[d as int])) == alphabet()[d as int],
{
}

proof fn lemma_power_of_power(k: nat, n: nat)
    ensures
        power(power(2, k), n) == power(2, k * n),
    decreases n,
{
    if n > 0 {
        lemma_power_of_power(k, (n - 1) as nat);
        lemma_power_adds(2, k, k * ((n - 1) as nat));
        assert(k + k * ((n - 1) as nat) == k * n) by (nonlinear_arith)
            requires
                n > 0,
        ;
    } else {
        assert(k * n == 0) by (nonlinear_arith)
            requires
                n == 0,
        ;
    }
}

/// Lower-casing an LNURL gives the lower-case bech32 string, whose data and
/// checksum values are all 5-bit values.
proof fn lemma_lnurl_lowered(url: Seq<u8>)
    ensures
        lnurl_of(url).map_values(|c: char| ascii_lower(c)) == bech32_lower(
            seq!['l', 'n', 'u', 'r', 'l'],
            lnurl_hrp(),
            to_base32(url),
        ),
        all_below(to_base32(url) + checksum_of(lnurl_hrp(), to_base32(url)), 32),
{
    let n0 = url.len();
    let pad = pad_bits(n0);
    let m = group_count(n0);
    let v = value_of(url, 256);
    let data = to_base32(url);
    lemma_digits_shape(v * power(2, pad), 32, m);
    let sum = checksum_of(lnurl_hrp(), data);
    let lower = bech32_lower(seq!['l', 'n', 'u', 'r', 'l'], lnurl_hrp(), data);
    assert forall|i: int| 0 <= i < (data + sum).len() implies #[trigger] (data + sum)[i] < 32 by {
        if i >= data.len() {
            let j = i - data.len();
            let pm = polymod_of(hrp_expand_of(lnurl_hrp()) + data + seq![0u8, 0u8, 0u8, 0u8, 0u8, 0u8]) ^ 1u32;
            let sh = (5 * (5 - j)) as u32;
            assert((pm >> sh) & 31u32 < 32) by (bit_vector);
        }
    }
    let enc = lnurl_of(url);
    let lowered = enc.map_values(|c: char| ascii_lower(c));
    // lower-casing undoes the upper-casing
    assert forall|i: int| 0 <= i < lower.len() implies #[trigger] lowered[i] == lower[i] by {
        if i >= 6 {
            lemma_alphabet_round_trip((data + sum)[i - 6]);
        }
    }
    assert(lowered =~= lower);
}

/// Reading back the LNURL of a URL gives the URL's bytes: every LNURL this
/// library produces decodes to the URL it was made from.
pub proof fn lemma_lnurl_decodes(url: Seq<u8>)
    ensures
        lnurl_payload(lnurl_of(url)) == url,
{
    let n0 = url.len();
    let pad = pad_bits(n0);
    let m = group_count(n0);
    let v = value_of(url, 256);
    let data = to_base32(url);
    lemma_digits_shape(v * power(2, pad), 32, m);
    let sum = checksum_of(lnurl_hrp(), data);
    let lower = bech32_lower(seq!['l', 'n', 'u', 'r', 'l'], lnurl_hrp(), data);
    lemma_lnurl_lowered(url);
    let lowered = lnurl_of(url).map_values(|c: char| ascii_lower(c));
    let chars = lowered.subrange(6, lowered.len() - 6);
    assert(chars =~= data.map_values(|d: u8| alphabet()[d as int]));
    let back = chars.map_values(|c: char| bech32_value(c));
    assert forall|i: int| 0 <= i < data.len() implies #[trigger] back[i] == data[i] by {
        lemma_alphabet_round_trip(data[i]);
    }
    assert(back =~= data);
    assert(data.len() == m);
    assert((5 * m) / 8 == n0 && 5 * m - 8 * n0 == pad);
    // the value of the 5-bit groups is the bytes' value shifted by the padding
    lemma_value_bound(url, 256);
    reveal_with_fuel(power, 9);
    lemma_power_of_power(8, n0);
    lemma_power_of_power(5, m);
    lemma_power_adds(2, 8 * n0, pad);
    lemma_power_positive(2, pad);
    assert(v * power(2, pad) < power(2, 8 * n0) * power(2, pad)) by (nonlinear_arith)
        requires
            v < power(2, 8 * n0),
            power(2, pad) > 0,
    ;
    assert(8 * n0 + pad == 5 * m);
    lemma_value_of_digits(v * power(2, pad), 32, m);
    assert(value_of(data, 32) == v * power(2, pad));
    assert((v * power(2, pad)) / power(2, pad) == v) by (nonlinear_arith)
        requires
            power(2, pad) > 0,
    ;
    lemma_digits_of_value(url, 256);
}

// ---------------------------------------------------------------------------
// Validity of the checksum

/// The checksum state after feeding `vs` into state `s`.
pub open spec fn run_from(s: u32, vs: Seq<u8>) -> u32
    decreases vs.len(),
{
    if vs.len() == 0 {
        s
    } else {
        polymod_step(run_from(s, vs.drop_last()), vs.last())
    }
}

/// The 5-bit values `vs` packed into one integer, first value highest.
pub open spec fn pack(vs: Seq<u8>) -> u32
    decreases vs.len(),
{
    if vs.len() == 0 {
        0
    } else {
        (pack(vs.drop_last()) << 5u32) ^ (vs.last() as u32)
    }
}

/// `k` zero values.
pub open spec fn zeros(k: nat) -> Seq<u8> {
    Seq::new(k, |i: int| 0u8)
}

proof fn lemma_polymod_concat(x: Seq<u8>, y: Seq<u8>)
    ensures
        polymod_of(x + y) == run_from(polymod_of(x), y),
    decreases y.len(),
{
    if y.len() == 0 {
        assert(x + y == x);
    } else {
        lemma_polymod_concat(x, y.drop_last());
        assert((x + y).drop_last() == x + y.drop_last());
        assert((x + y).last() == y.last());
    }
}

proof fn lemma_mix_xor(c: u32, z: u32, b: u32, n: nat)
    ensures
        mix_generators(c ^ z, b, n) == mix_generators(c, b, n) ^ z,
    decreases n,
{
    if n > 0 {
        lemma_mix_xor(c, z, b, (n - 1) as nat);
        let p = mix_generators(c, b, (n - 1) as nat);
        let g = generator(n - 1);
        assert((p ^ z) ^ g == (p ^ g) ^ z) by (bit_vector);
    }
}

proof fn lemma_mix_bound(c: u32, b: u32, n: nat)
    requires
        c < 0x4000_0000,
        n <= 5,
    ensures
        mix_generators(c, b, n) < 0x4000_0000,
    decreases n,
{
    if n > 0 {
        lemma_mix_bound(c, b, (n - 1) as nat);
        let p = mix_generators(c, b, (n - 1) as nat);
        let g = generator(n - 1);
        assert(g < 0x4000_0000);
        assert(p ^ g < 0x4000_0000) by (bit_vector)
            requires
                p < 0x4000_0000,
                g < 0x4000_0000,
        ;
    }
}

proof fn lemma_polymod_bound(vs: Seq<u8>)
    ensures
        polymod_of(vs) < 0x4000_0000,
    decreases vs.len(),
{
    if vs.len() > 0 {
        lemma_polymod_bound(vs.drop_last());
        let chk = polymod_of(vs.drop_last());
        let v = vs.last() as u32;
        assert(((chk & 0x1ff_ffff) << 5u32) ^ v < 0x4000_0000) by (bit_vector)
            requires
                v < 256,
        ;
        lemma_mix_bound(((chk & 0x1ff_ffff) << 5u32) ^ v, chk >> 25u32, 5);
    }
}

/// A value below bit 25 does not reach the bits that select generators.
proof fn lemma_step_xor(c: u32, p: u32, v: u8)
    requires
        p < 0x200_0000,
        v < 32,
    ensures
        polymod_step(c ^ p, v) == polymod_step(c, 0) ^ ((p << 5u32) ^ (v as u32)),
{
    let vv = v as u32;
    assert((c ^ p) >> 25u32 == c >> 25u32 && ((c ^ p) & 0x1ff_ffff) << 5u32 ^ vv == (((c
        & 0x1ff_ffff) << 5u32) ^ 0u32) ^ ((p << 5u32) ^ vv)) by (bit_vector)
        requires
            p < 0x200_0000,
    ;
    assert(0u8 as u32 == 0u32);
    lemma_mix_xor(((c & 0x1ff_ffff) << 5u32) ^ 0u32, (p << 5u32) ^ vv, c >> 25u32, 5);
}

/// Over at most six steps the checksum is linear in the values fed in.
proof fn lemma_run_linear(s: u32, vs: Seq<u8>)
    requires
        vs.len() <= 6,
        all_below(vs, 32),
    ensures
        run_from(s, vs) == run_from(s, zeros(vs.len())) ^ pack(vs),
        pack(vs) < (1u32 << ((5 * vs.len()) as u32)),
    decreases vs.len(),
{
    if vs.len() == 0 {
        assert(zeros(0) =~= Seq::<u8>::empty());
        assert(s ^ 0u32 == s) by (bit_vector);
        assert(0u32 < (1u32 << 0u32)) by (bit_vector);
    } else {
        let init = vs.drop_last();
        let k = init.len();
        assert(all_below(init, 32));
        lemma_run_linear(s, init);
        let r0 = run_from(s, zeros(k));
        let p = pack(init);
        let v = vs.last();
        let sh = (5 * k) as u32;
        assert(p < 0x200_0000) by (bit_vector)
            requires
                p < (1u32 << sh),
                sh <= 25,
        ;
        lemma_step_xor(r0, p, v);
        assert(zeros(k + 1).drop_last() =~= zeros(k));
        assert(zeros(k + 1).last() == 0u8);
        let vv = v as u32;
        assert((p << 5u32) ^ vv < (1u32 << ((sh + 5) as u32))) by (bit_vector)
            requires
                p < (1u32 << sh),
                sh <= 25,
                vv < 32,
        ;
        assert((5 * vs.len()) as u32 == (sh + 5) as u32);
    }
}

/// Packing the six checksum values recovers the 30-bit value they were cut from.
proof fn lemma_pack_checksum(pm: u32)
    requires
        pm < 0x4000_0000,
    ensures
        pack(Seq::new(6, |i: int| ((pm >> ((5 * (5 - i)) as u32)) & 31u32) as u8)) == pm,
{
    let c = Seq::new(6, |i: int| ((pm >> ((5 * (5 - i)) as u32)) & 31u32) as u8);
    reveal_with_fuel(pack, 7);
    let c0 = (pm >> 25u32) & 31u32;
    let c1 = (pm >> 20u32) & 31u32;
    let c2 = (pm >> 15u32) & 31u32;
    let c3 = (pm >> 10u32) & 31u32;
    let c4 = (pm >> 5u32) & 31u32;
    let c5 = (pm >> 0u32) & 31u32;
    assert(c0 < 32 && c1 < 32 && c2 < 32 && c3 < 32 && c4 < 32 && c5 < 32) by (bit_vector)
        requires
            c0 == (pm >> 25u32) & 31u32,
            c1 == (pm >> 20u32) & 31u32,
            c2 == (pm >> 15u32) & 31u32,
            c3 == (pm >> 10u32) & 31u32,
            c4 == (pm >> 5u32) & 31u32,
            c5 == (pm >> 0u32) & 31u32,
    ;
    assert(c[0] as u32 == c0 && c[1] as u32 == c1 && c[2] as u32 == c2 && c[3] as u32 == c3 && c[4] as u32 == c4 && c[5] as u32 == c5);
    assert(c.take(0) =~= Seq::<u8>::empty());
    assert(c.drop_last().drop_last().drop_last().drop_last().drop_last().drop_last() =~= Seq::<u8>::empty());
    let a1 = (0u32 << 5u32) ^ c0;
    let a2 = (a1 << 5u32) ^ c1;
    let a3 = (a2 << 5u32) ^ c2;
    let a4 = (a3 << 5u32) ^ c3;
    let a5 = (a4 << 5u32) ^ c4;
    let a6 = (a5 << 5u32) ^ c5;
    assert(a6 == pm) by (bit_vector)
        requires
            pm < 0x4000_0000,
            c0 == (pm >> 25u32) & 31u32,
            c1 == (pm >> 20u32) & 31u32,
            c2 == (pm >> 15u32) & 31u32,
            c3 == (pm >> 10u32) & 31u32,
            c4 == (pm >> 5u32) & 31u32,
            c5 == (pm >> 0u32) & 31u32,
            a1 == (0u32 << 5u32) ^ c0,
            a2 == (a1 << 5u32) ^ c1,
            a3 == (a2 << 5u32) ^ c2,
            a4 == (a3 << 5u32) ^ c3,
            a5 == (a4 << 5u32) ^ c4,
            a6 == (a5 << 5u32) ^ c5,
    ;
}

/// Every checksum computed here is valid: feeding the expanded
/// human-readable part, the data and the checksum through the checksum
/// computation yields 1, the BIP-173 validity condition.
pub proof fn lemma_checksum_valid(hrp: Seq<u8>, data: Seq<u8>)
    ensures
        polymod_of(hrp_expand_of(hrp) + data + checksum_of(hrp, data)) == 1,
{
    let prefix = hrp_expand_of(hrp) + data;
    let zs = seq![0u8, 0u8, 0u8, 0u8, 0u8, 0u8];
    assert(zs =~= zeros(6));
    let f = polymod_of(prefix + zs);
    lemma_polymod_bound(prefix + zs);
    let pm = f ^ 1u32;
    assert(pm < 0x4000_0000) by (bit_vector)
        requires
            f < 0x4000_0000,
            pm == f ^ 1u32,
    ;
    let c = checksum_of(hrp, data);
    assert(c == Seq::new(6, |i: int| ((pm >> ((5 * (5 - i)) as u32)) & 31u32) as u8));
    assert forall|i: int| 0 <= i < c.len() implies #[trigger] c[i] < 32 by {
        let sh = (5 * (5 - i)) as u32;
        assert((pm >> sh) & 31u32 < 32) by (bit_vector);
    }
    lemma_run_linear(polymod_of(prefix), c);
    lemma_pack_checksum(pm);
    lemma_polymod_concat(prefix, c);
    lemma_polymod_concat(prefix, zs);
    assert((f ^ 1u32) ^ f == 1u32) by (bit_vector);
    assert(f ^ pm == 1u32) by (bit_vector)
        requires
            pm == f ^ 1u32,
    ;
}

/// The checksum of an LNURL, read from its characters, is valid: the
/// values after `lnurl1`, fed through the checksum computation after the
/// expanded human-readable part, yield 1.
pub open spec fn lnurl_checksum_valid(s: Seq<char>) -> bool {
    let lowered = s.map_values(|c: char| ascii_lower(c));
    let values = lowered.subrange(6, lowered.len() as int).map_values(|c: char| bech32_value(c));
    polymod_of(hrp_expand_of(lnurl_hrp()) + values) == 1
}

/// Every LNURL produced here carries a valid bech32 checksum.
pub proof fn lemma_lnurl_checksum_valid(url: Seq<u8>)
    ensures
        lnurl_checksum_valid(lnurl_of(url)),
{
    lemma_lnurl_lowered(url);
    let data = to_base32(url);
    let sum = checksum_of(lnurl_hrp(), data);
    let lowered = lnurl_of(url).map_values(|c: char| ascii_lower(c));
    let chars = lowered.subrange(6, lowered.len() as int);
    assert(chars =~= (data + sum).map_values(|d: u8| alphabet()[d as int]));
    let values = chars.map_values(|c: char| bech32_value(c));
    assert forall|i: int| 0 <= i < (data + sum).len() implies #[trigger] values[i] == (data + sum)[i] by {
        lemma_alphabet_round_trip((data + sum)[i]);
    }
    assert(values =~= data + sum);
    lemma_checksum_valid(lnurl_hrp(), data);
    assert(hrp_expand_of(lnurl_hrp()) + (data + sum) == hrp_expand_of(lnurl_hrp()) + data + sum);
}

} // verus!
