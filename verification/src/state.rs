//! Shared provider state: the validated coins with their payment URIs and
//! the single active quote; plus the clock and timestamp formatting.

use vstd::prelude::*;
use crate::cli::{CoinSpec, Config};
use crate::method::{Method, lemma_method_name_injective, method_name};
use crate::payment_uri::{build_uri, payment_uri};
use crate::text::{chars_eq, chars_of, hex_text, push_chars, push_hex, push_str, string_of, zero_pad};

verus! {

/// Nanoseconds per second.
pub const NANOS_PER_SEC: i128 = 1_000_000_000;

/// The first second (0000-01-01T00:00:00Z) that an RFC 3339 timestamp can show.
pub const MIN_RFC3339_SECS: i64 = -62167219200;

/// The last second (9999-12-31T23:59:59Z) that an RFC 3339 timestamp can show.
pub const MAX_RFC3339_SECS: i64 = 253402300799;

/// The largest number of seconds since the epoch the system clock holds.
pub const MAX_CLOCK_SECS: i128 = 9223372036854775807;

/// The largest number of nanoseconds a `Duration` holds.
pub const MAX_DURATION_NANOS: u128 = 18446744073709551615999999999;

// ---------------------------------------------------------------------------
// Clock and timestamps

/// The system clock's time type.
#[verifier::external_type_specification]
#[verifier::external_body]
pub struct ExSystemTime(std::time::SystemTime);

/// The error of measuring a time against a later one.
#[verifier::external_type_specification]
#[verifier::external_body]
pub struct ExSystemTimeError(std::time::SystemTimeError);

/// `SystemTime::now()`: the system clock's current time. Nothing is
/// promised of it.
#[verifier::external_body]
fn system_time_now() -> (r: std::time::SystemTime) {
    std::time::SystemTime::now()
}

/// `SystemTime::duration_since(UNIX_EPOCH)`: the time elapsed from the Unix
/// epoch to `t`, or an error when `t` is before the epoch.
#[verifier::external_body]
fn since_unix_epoch(t: &std::time::SystemTime) -> (r: Result<core::time::Duration, std::time::SystemTimeError>) {
    t.duration_since(std::time::UNIX_EPOCH)
}

/// `SystemTimeError::duration`: how far the measured time lies before the
/// epoch.
#[verifier::external_body]
fn error_duration(e: &std::time::SystemTimeError) -> (r: core::time::Duration) {
    e.duration()
}

/// `Duration::as_nanos`: the total nanoseconds of `d`. A `Duration` holds at
/// most `u64::MAX` seconds and fewer than 10^9 nanoseconds, so the result is
/// at most `MAX_DURATION_NANOS`; nothing else is claimed, as the duration is
/// opaque here.
#[verifier::external_body]
fn total_nanos(d: &core::time::Duration) -> (r: u128)
    ensures
        r <= MAX_DURATION_NANOS,
{
    d.as_nanos()
}

/// The current time, in nanoseconds since the Unix epoch (negative before
/// it).
pub fn clock_now() -> (r: i128)
    ensures
        -MAX_DURATION_NANOS <= r <= MAX_DURATION_NANOS,
{
    let t = system_time_now();
    match since_unix_epoch(&t) {
        Ok(d) => total_nanos(&d) as i128,
        Err(e) => {
            let before = error_duration(&e);
            -(total_nanos(&before) as i128)
        },
    }
}

/// The RFC 3339 text (UTC, `Z` offset, whole seconds) of a time given in
/// seconds since the Unix epoch, as the `time` crate formats it.
pub uninterp spec fn rfc3339_text(unix_secs: int) -> Seq<char>;

/// `time::OffsetDateTime::from_unix_timestamp` followed by `format` with the
/// `Rfc3339` description. Both succeed for every second from the start of
/// year 0 to the end of year 9999, which `requires` demands; the contract
/// claims that the text is the one named `rfc3339_text` for these seconds.
#[verifier::external_body]
fn format_rfc3339(unix_secs: i64) -> (r: String)
    requires
        MIN_RFC3339_SECS <= unix_secs <= MAX_RFC3339_SECS,
    ensures
        r@ == rfc3339_text(unix_secs as int),
{
    time::OffsetDateTime::from_unix_timestamp(unix_secs).unwrap().format(
        &time::format_description::well_known::Rfc3339,
    ).unwrap()
}

/// The whole seconds since the epoch of a time `nanos` (nanoseconds since
/// the epoch), rounded down: the second the time falls in.
pub open spec fn second_of(nanos: i128) -> int {
    nanos as int / NANOS_PER_SEC as int
}

/// The second a time falls in.
fn floor_secs(nanos: i128) -> (r: i128)
    ensures
        r == second_of(nanos),
{
    if nanos >= 0 {
        let r = nanos / NANOS_PER_SEC;
        assert(r == second_of(nanos)) by (nonlinear_arith)
            requires
                nanos >= 0,
                r == nanos / 1_000_000_000i128,
                second_of(nanos) == nanos as int / 1_000_000_000int,
        ;
        r
    } else {
        let m: i128 = -(nanos + 1);
        let q: i128 = m / NANOS_PER_SEC;
        let r = -q - 1;
        assert(r == second_of(nanos)) by (nonlinear_arith)
            requires
                nanos < 0,
                m == -(nanos + 1),
                q == m / 1_000_000_000i128,
                r == -q - 1,
                second_of(nanos) == nanos as int / 1_000_000_000int,
        {
            let qq = m as int / 1_000_000_000int;
            assert(m as int == qq * 1_000_000_000 + m as int % 1_000_000_000);
            assert(nanos as int == (-qq - 1) * 1_000_000_000 + (1_000_000_000 - 1 - m as int % 1_000_000_000));
        }
        r
    }
}

/// Whether an RFC 3339 timestamp can show the time `nanos` (nanoseconds
/// since the epoch).
pub open spec fn rfc3339_representable(nanos: i128) -> bool {
    MIN_RFC3339_SECS <= second_of(nanos) <= MAX_RFC3339_SECS
}

/// The RFC 3339 timestamp of a time given in nanoseconds since the epoch,
/// truncated to the second it falls in.
pub fn rfc3339(unix_nanos: i128) -> (r: String)
    requires
        rfc3339_representable(unix_nanos),
    ensures
        r@ == rfc3339_text(second_of(unix_nanos)),
{
    let secs = floor_secs(unix_nanos);
    format_rfc3339(secs as i64)
}

/// Whether `rfc3339` can show the time `nanos`.
pub fn is_rfc3339_representable(nanos: i128) -> (r: bool)
    ensures
        r == rfc3339_representable(nanos),
{
    let secs = floor_secs(nanos);
    MIN_RFC3339_SECS as i128 <= secs && secs <= MAX_RFC3339_SECS as i128
}

/// Whether `ttl` seconds can be added to the time `now` without leaving the
/// range of the system clock.
pub open spec fn ttl_fits(now: i128, ttl: u64) -> bool {
    second_of(now) + ttl <= MAX_CLOCK_SECS
}

/// Whether `ttl` seconds can be added to the time `now`.
pub fn ttl_fits_exec(now: i128, ttl: u64) -> (r: bool)
    ensures
        r == ttl_fits(now, ttl),
{
    let secs = floor_secs(now);
    secs <= MAX_CLOCK_SECS - ttl as i128
}

/// `ttl` seconds after `now`, in nanoseconds.
pub open spec fn expiry_after(now: i128, ttl: u64) -> i128 {
    (now + ttl * NANOS_PER_SEC) as i128
}

/// `ttl` seconds after `now`, where that fits the clock.
pub fn add_ttl(now: i128, ttl: u64) -> (r: i128)
    requires
        ttl_fits(now, ttl),
    ensures
        r == expiry_after(now, ttl),
        r == now + ttl * 1_000_000_000,
{
    assert(now + ttl * NANOS_PER_SEC < (MAX_CLOCK_SECS + 1) * NANOS_PER_SEC) by (nonlinear_arith)
        requires
            now as int / 1_000_000_000int + ttl <= 9223372036854775807int,
    ;
    now + (ttl as i128) * NANOS_PER_SEC
}

// ---------------------------------------------------------------------------
// The quote

/// The single active quote. A fresh expiration is set on every
/// payment-details request.
pub struct Quote {
    pub quote_id: String,
    pub payment_id: String,
    /// Expiry time in nanoseconds since the Unix epoch.
    pub expiration: i128,
}

/// A quote expiring at `expiration` has expired at time `now`.
pub open spec fn expired_at(expiration: i128, now: i128) -> bool {
    expiration <= now
}

impl Quote {
    /// Whether the quote has expired at time `now`.
    pub fn is_expired_at(&self, now: i128) -> (r: bool)
        ensures
            r == expired_at(self.expiration, now),
    {
        self.expiration <= now
    }

    /// Whether the quote has expired: its expiration is not after the
    /// current time, read from the system clock.
    pub fn is_expired(&self) -> (r: bool)
        ensures
            exists|now: i128|
                -MAX_DURATION_NANOS <= now <= MAX_DURATION_NANOS && #[trigger] expired_at(self.expiration, now) == r,
    {
        let now = clock_now();
        let r = self.is_expired_at(now);
        assert(expired_at(self.expiration, now) == r);
        r
    }
}

/// `<prefix>` followed by `tag` in lower-case hexadecimal, zero-padded to
/// eight digits.
pub open spec fn tagged_id(prefix: Seq<char>, tag: u64) -> Seq<char> {
    prefix + zero_pad(hex_text(tag as nat), 8)
}

fn build_tagged_id(prefix: &str, tag: u64) -> (r: String)
    ensures
        r@ == tagged_id(prefix@, tag),
{
    let mut hex: Vec<char> = Vec::new();
    push_hex(&mut hex, tag);
    assert(hex@ == hex_text(tag as nat)) by {
        assert(Seq::<char>::empty() + hex_text(tag as nat) == hex_text(tag as nat));
    }
    let mut out: Vec<char> = Vec::new();
    push_str(&mut out, prefix);
    let ghost start = out@;
    if hex.len() < 8 {
        let pad = 8 - hex.len();
        for i in 0..pad
            invariant
                out@ == start + Seq::new(i as nat, |j: int| '0'),
        {
            out.push('0');
            assert(Seq::new((i + 1) as nat, |j: int| '0') == Seq::new(i as nat, |j: int| '0').push('0'));
        }
    }
    let ghost mid = out@;
    push_chars(&mut out, &hex);
    proof {
        if hex@.len() < 8 {
            assert(out@ == start + (Seq::new((8 - hex@.len()) as nat, |j: int| '0') + hex@));
        } else {
            assert(mid == start);
        }
    }
    string_of(out.as_slice())
}

// ---------------------------------------------------------------------------
// Coins

/// A configured coin with its precomputed payment URI (which points at the
/// configured address).
pub struct CoinEntry {
    pub spec: CoinSpec,
    pub uri: String,
}

/// Whether a coin after position `i` pays with the same method and asset.
pub open spec fn has_later_twin(coins: Seq<CoinSpec>, i: int) -> bool {
    exists|j: int| i < j < coins.len() && coins[j].method == coins[i].method && coins[j].asset@ == coins[i].asset@
}

/// The first coin from position `i` on that has a later twin.
pub open spec fn first_twin(coins: Seq<CoinSpec>, i: int) -> Option<int>
    decreases coins.len() - i,
{
    if i < 0 || i >= coins.len() {
        None
    } else if has_later_twin(coins, i) {
        Some(i)
    } else {
        first_twin(coins, i + 1)
    }
}

/// The first coin from position `i` on whose payment URI cannot be built,
/// with the reason.
pub open spec fn first_uri_error(coins: Seq<CoinSpec>, i: int) -> Option<(int, Seq<char>)>
    decreases coins.len() - i,
{
    if i < 0 || i >= coins.len() {
        None
    } else {
        match payment_uri(coins[i]) {
            Err(e) => Some((i, e)),
            Ok(_) => first_uri_error(coins, i + 1),
        }
    }
}

/// `<method>/<asset>`.
pub open spec fn pair_text(c: CoinSpec) -> Seq<char> {
    method_name(c.method) + "/"@ + c.asset@
}

/// The error `AppState::new` reports for a coin list, if any: the first
/// duplicated method/asset pair, else the first coin without a payment URI.
pub open spec fn coins_error(coins: Seq<CoinSpec>) -> Option<Seq<char>> {
    match first_twin(coins, 0) {
        Some(i) => Some("duplicate coin "@ + pair_text(coins[i])),
        None => match first_uri_error(coins, 0) {
            Some((i, e)) => Some("coin "@ + pair_text(coins[i]) + ": "@ + e),
            None => None,
        },
    }
}

/// `entries` are the coins in order, each with its payment URI.
pub open spec fn entries_for(entries: Seq<CoinEntry>, coins: Seq<CoinSpec>) -> bool {
    &&& entries.len() == coins.len()
    &&& forall|k: int| 0 <= k < coins.len() ==> (#[trigger] entries[k]).spec == coins[k]
        && payment_uri(coins[k]) == Ok::<Seq<char>, Seq<char>>(entries[k].uri@)
}

proof fn lemma_first_twin_none(coins: Seq<CoinSpec>, i: int)
    requires
        0 <= i <= coins.len(),
        forall|k: int| i <= k < coins.len() ==> !has_later_twin(coins, k),
    ensures
        first_twin(coins, i) is None,
    decreases coins.len() - i,
{
    if i < coins.len() {
        lemma_first_twin_none(coins, i + 1);
    }
}

proof fn lemma_first_twin_at(coins: Seq<CoinSpec>, i: int, k: int)
    requires
        0 <= i <= k < coins.len(),
        forall|j: int| i <= j < k ==> !has_later_twin(coins, j),
        has_later_twin(coins, k),
    ensures
        first_twin(coins, i) == Some(k),
    decreases k - i,
{
    if i < k {
        lemma_first_twin_at(coins, i + 1, k);
    }
}

proof fn lemma_first_uri_error_none(coins: Seq<CoinSpec>, i: int)
    requires
        0 <= i <= coins.len(),
        forall|k: int| i <= k < coins.len() ==> (#[trigger] payment_uri(coins[k])) is Ok,
    ensures
        first_uri_error(coins, i) is None,
    decreases coins.len() - i,
{
    if i < coins.len() {
        lemma_first_uri_error_none(coins, i + 1);
    }
}

proof fn lemma_first_uri_error_at(coins: Seq<CoinSpec>, i: int, k: int, e: Seq<char>)
    requires
        0 <= i <= k < coins.len(),
        forall|j: int| i <= j < k ==> (#[trigger] payment_uri(coins[j])) is Ok,
        payment_uri(coins[k]) == Err::<Seq<char>, Seq<char>>(e),
    ensures
        first_uri_error(coins, i) == Some((k, e)),
    decreases k - i,
{
    if i < k {
        lemma_first_uri_error_at(coins, i + 1, k, e);
    }
}

fn pair_chars(c: &CoinSpec) -> (r: Vec<char>)
    ensures
        r@ == pair_text(*c),
{
    let mut out: Vec<char> = Vec::new();
    push_str(&mut out, c.method.spec_name());
    push_str(&mut out, "/");
    push_str(&mut out, c.asset.as_str());
    out
}

/// Validate the coins (no method/asset pair twice) and precompute their
/// payment URIs.
pub fn coin_entries(coins: &Vec<CoinSpec>) -> (r: Result<Vec<CoinEntry>, String>)
    ensures
        coins_error(coins@) matches Some(e) ==> (r matches Err(x) && x@ == e),
        coins_error(coins@) is None ==> (r matches Ok(entries) && entries_for(entries@, coins@)),
{
    let n = coins.len();
    for i in 0..n
        invariant
            n == coins@.len(),
            forall|k: int| 0 <= k < i ==> !has_later_twin(coins@, k),
    {
        for j in (i + 1)..n
            invariant
                n == coins@.len(),
                0 <= i < n,
                forall|k: int| 0 <= k < i ==> !has_later_twin(coins@, k),
                forall|l: int| i < l < j ==> !(coins@[l].method == coins@[i as int].method && coins@[l].asset@ == coins@[i as int].asset@),
        {
            if coins[i].method == coins[j].method && coins[i].asset == coins[j].asset {
                proof {
                    assert(has_later_twin(coins@, i as int));
                    lemma_first_twin_at(coins@, 0, i as int);
                }
                let mut msg: Vec<char> = Vec::new();
                push_str(&mut msg, "duplicate coin ");
                let pair = pair_chars(&coins[i]);
                push_chars(&mut msg, &pair);
                return Err(string_of(msg.as_slice()));
            }
        }
    }
    proof {
        lemma_first_twin_none(coins@, 0);
    }
    let mut entries: Vec<CoinEntry> = Vec::new();
    for i in 0..n
        invariant
            n == coins@.len(),
            first_twin(coins@, 0) is None,
            entries@.len() == i,
            forall|k: int| 0 <= k < i ==> (#[trigger] entries@[k]).spec == coins@[k]
                && payment_uri(coins@[k]) == Ok::<Seq<char>, Seq<char>>(entries@[k].uri@),
    {
        match build_uri(&coins[i]) {
            Ok(uri) => {
                entries.push(CoinEntry { spec: coins[i].clone(), uri });
            },
            Err(e) => {
                proof {
                    assert forall|j: int| 0 <= j < i implies (#[trigger] payment_uri(coins@[j])) is Ok by {
                        assert(entries@[j].spec == coins@[j]);
                    }
                    lemma_first_uri_error_at(coins@, 0, i as int, e@);
                }
                let mut msg: Vec<char> = Vec::new();
                push_str(&mut msg, "coin ");
                let pair = pair_chars(&coins[i]);
                push_chars(&mut msg, &pair);
                push_str(&mut msg, ": ");
                push_str(&mut msg, e.as_str());
                return Err(string_of(msg.as_slice()));
            },
        }
    }
    proof {
        assert forall|k: int| 0 <= k < n implies (#[trigger] payment_uri(coins@[k])) is Ok by {
            assert(entries@[k].spec == coins@[k]);
        }
        lemma_first_uri_error_none(coins@, 0);
    }
    Ok(entries)
}

// ---------------------------------------------------------------------------
// The provider state

/// The provider state: the settings, the validated coins with their
/// payment URIs, and the active quote.
pub struct AppState {
    pub cfg: Config,
    pub coins: Vec<CoinEntry>,
    pub quote: Quote,
}

/// `q` is the quote issued at time `now` for a validity of `ttl` seconds:
/// its ids carry the issuing second in hexadecimal and it expires `ttl`
/// seconds later.
pub open spec fn quote_issued_at(q: Quote, now: i128, ttl: u64) -> bool {
    &&& q.quote_id@ == tagged_id("plq_mock"@, second_of(now) as u64)
    &&& q.payment_id@ == tagged_id("plp_mock"@, second_of(now) as u64)
    &&& q.expiration == expiry_after(now, ttl)
}

/// The error for a quote validity that would run past the clock's range.
pub open spec fn ttl_error() -> Seq<char> {
    "quote TTL runs past the system clock's range"@
}

/// The error for a clock set before the Unix epoch.
pub open spec fn before_epoch_error() -> Seq<char> {
    "system clock is set before the Unix epoch"@
}

/// `"<method>/<asset>"` of each coin, joined by `", "`.
pub open spec fn pairs_text(coins: Seq<CoinEntry>) -> Seq<char>
    decreases coins.len(),
{
    if coins.len() == 0 {
        Seq::<char>::empty()
    } else if coins.len() == 1 {
        pair_text(coins[0].spec)
    } else {
        pairs_text(coins.drop_last()) + ", "@ + pair_text(coins.last().spec)
    }
}

/// The first coin from position `i` on with method name `method` and asset `asset`.
pub open spec fn coin_index(coins: Seq<CoinEntry>, method: Seq<char>, asset: Seq<char>, i: int) -> Option<int>
    decreases coins.len() - i,
{
    if i < 0 || i >= coins.len() {
        None
    } else if method_name(coins[i].spec.method) == method && coins[i].spec.asset@ == asset {
        Some(i)
    } else {
        coin_index(coins, method, asset, i + 1)
    }
}

/// The first coin from position `i` on whose method is named `method`.
pub open spec fn method_index(coins: Seq<CoinEntry>, method: Seq<char>, i: int) -> Option<int>
    decreases coins.len() - i,
{
    if i < 0 || i >= coins.len() {
        None
    } else if method_name(coins[i].spec.method) == method {
        Some(i)
    } else {
        method_index(coins, method, i + 1)
    }
}

impl AppState {
    /// Validate the configured coins and precompute their payment URIs;
    /// the quote is issued at time `now`. After valid coins, a time before
    /// the Unix epoch (whose second cannot tag the quote ids) and a quote
    /// validity that would run past the clock's range are refused.
    pub fn new_at(cfg: Config, now: i128) -> (r: Result<AppState, String>)
        ensures
            coins_error(cfg.coins@) matches Some(e) ==> (r matches Err(x) && x@ == e),
            coins_error(cfg.coins@) is None && now < 0 ==> (r matches Err(x) && x@ == before_epoch_error()),
            coins_error(cfg.coins@) is None && 0 <= now && !ttl_fits(now, cfg.quote_ttl) ==> (r matches Err(x)
                && x@ == ttl_error()),
            coins_error(cfg.coins@) is None && 0 <= now && ttl_fits(now, cfg.quote_ttl) ==> (r matches Ok(st)
                && st.cfg == cfg && entries_for(st.coins@, cfg.coins@) && quote_issued_at(
                st.quote,
                now,
                cfg.quote_ttl,
            ) && st.quote.expiration == now + cfg.quote_ttl * 1_000_000_000),
    {
        let coins = match coin_entries(&cfg.coins) {
            Ok(c) => c,
            Err(e) => {
                return Err(e);
            },
        };
        if now < 0 {
            return Err(String::from_str("system clock is set before the Unix epoch"));
        }
        if !ttl_fits_exec(now, cfg.quote_ttl) {
            return Err(String::from_str("quote TTL runs past the system clock's range"));
        }
        let tag = floor_secs(now) as u64;
        let quote = Quote {
            quote_id: build_tagged_id("plq_mock", tag),
            payment_id: build_tagged_id("plp_mock", tag),
            expiration: add_ttl(now, cfg.quote_ttl),
        };
        Ok(AppState { cfg, coins, quote })
    }

    /// Validate the configured coins and precompute their payment URIs;
    /// the quote is issued now (by the system clock), as `new_at` does for
    /// the clock's reading.
    pub fn new(cfg: Config) -> (r: Result<AppState, String>)
        ensures
            coins_error(cfg.coins@) matches Some(e) ==> (r matches Err(x) && x@ == e),
            r matches Ok(st) ==> st.cfg == cfg && entries_for(st.coins@, cfg.coins@) && exists|now: i128|
                0 <= now && ttl_fits(now, cfg.quote_ttl) && #[trigger] quote_issued_at(st.quote, now, cfg.quote_ttl),
            coins_error(cfg.coins@) is None ==> (r is Ok || (r matches Err(x) && (x@ == ttl_error() || x@
                == before_epoch_error()))),
    {
        let now = clock_now();
        AppState::new_at(cfg, now)
    }

    /// Extend the quote's validity by the configured TTL from time `now`; a
    /// validity that would run past the clock's range is refused and leaves
    /// the quote as it is.
    pub fn refresh_quote_at(&mut self, now: i128) -> (r: Result<(), String>)
        ensures
            final(self).cfg == old(self).cfg,
            final(self).coins == old(self).coins,
            final(self).quote.quote_id == old(self).quote.quote_id,
            final(self).quote.payment_id == old(self).quote.payment_id,
            ttl_fits(now, old(self).cfg.quote_ttl) ==> r is Ok && final(self).quote.expiration == expiry_after(
                now,
                old(self).cfg.quote_ttl,
            ) && final(self).quote.expiration == now + old(self).cfg.quote_ttl * 1_000_000_000,
            !ttl_fits(now, old(self).cfg.quote_ttl) ==> (r matches Err(e) && e@ == ttl_error())
                && final(self).quote.expiration == old(self).quote.expiration,
    {
        if ttl_fits_exec(now, self.cfg.quote_ttl) {
            self.quote.expiration = add_ttl(now, self.cfg.quote_ttl);
            Ok(())
        } else {
            Err(String::from_str("quote TTL runs past the system clock's range"))
        }
    }

    /// Extend the quote's validity by the configured TTL from now (by the
    /// system clock), as `refresh_quote_at` does for the clock's reading.
    pub fn refresh_quote(&mut self) -> (r: Result<(), String>)
        ensures
            final(self).cfg == old(self).cfg,
            final(self).coins == old(self).coins,
            final(self).quote.quote_id == old(self).quote.quote_id,
            final(self).quote.payment_id == old(self).quote.payment_id,
            r is Ok ==> exists|now: i128|
                ttl_fits(now, old(self).cfg.quote_ttl) && #[trigger] expiry_after(now, old(self).cfg.quote_ttl)
                    == final(self).quote.expiration && final(self).quote.expiration == now + old(self).cfg.quote_ttl
                    * 1_000_000_000,
            r matches Err(e) ==> e@ == ttl_error() && final(self).quote.expiration == old(self).quote.expiration,
    {
        let now = clock_now();
        self.refresh_quote_at(now)
    }

    /// The coin matching a requested `method` & `asset` query pair.
    pub fn find_coin(&self, method: &str, asset: &str) -> (r: Option<&CoinEntry>)
        ensures
            coin_index(self.coins@, method@, asset@, 0) matches Some(k) ==> (r matches Some(e) && *e == self.coins@[k]),
            coin_index(self.coins@, method@, asset@, 0) is None ==> r is None,
    {
        let m = chars_of(method);
        let a = chars_of(asset);
        let mut i: usize = 0;
        while i < self.coins.len()
            invariant
                m@ == method@,
                a@ == asset@,
                0 <= i <= self.coins@.len(),
                coin_index(self.coins@, method@, asset@, 0) == coin_index(self.coins@, method@, asset@, i as int),
            decreases self.coins@.len() - i,
        {
            let e = &self.coins[i];
            let name = chars_of(e.spec.method.spec_name());
            let asset_chars = chars_of(e.spec.asset.as_str());
            if chars_eq(&name, &m) && chars_eq(&asset_chars, &a) {
                return Some(e);
            }
            i = i + 1;
        }
        None
    }

    /// The configured method matching a requested `method` query parameter:
    /// the method of the first coin whose method has that name.
    pub fn find_method(&self, method: &str) -> (r: Option<Method>)
        ensures
            method_index(self.coins@, method@, 0) matches Some(k) ==> r == Some(self.coins@[k].spec.method),
            method_index(self.coins@, method@, 0) is None ==> r is None,
    {
        let wanted = chars_of(method);
        let mut i: usize = 0;
        while i < self.coins.len()
            invariant
                wanted@ == method@,
                0 <= i <= self.coins@.len(),
                method_index(self.coins@, method@, 0) == method_index(self.coins@, method@, i as int),
            decreases self.coins@.len() - i,
        {
            let m = self.coins[i].spec.method;
            let name = chars_of(m.spec_name());
            if chars_eq(&name, &wanted) {
                return Some(m);
            }
            i = i + 1;
        }
        None
    }

    /// Human-readable "Method/ASSET" list for error messages.
    pub fn supported_pairs(&self) -> (r: String)
        ensures
            r@ == pairs_text(self.coins@),
    {
        let mut out: Vec<char> = Vec::new();
        let ghost cs = self.coins@;
        for i in 0..self.coins.len()
            invariant
                cs == self.coins@,
                out@ == pairs_text(cs.take(i as int)),
        {
            assert(cs.take(i + 1).drop_last() == cs.take(i as int));
            assert(cs.take(i + 1).last() == cs[i as int]);
            if i > 0 {
                push_str(&mut out, ", ");
            } else {
                assert(out@ == Seq::<char>::empty());
            }
            let pair = pair_chars(&self.coins[i].spec);
            push_chars(&mut out, &pair);
        }
        assert(cs.take(cs.len() as int) == cs);
        string_of(out.as_slice())
    }
}

// ---------------------------------------------------------------------------
// What validation guarantees

proof fn lemma_first_twin_none_all(coins: Seq<CoinSpec>, i: int)
    requires
        0 <= i,
        first_twin(coins, i) is None,
    ensures
        forall|k: int| i <= k < coins.len() ==> !has_later_twin(coins, k),
    decreases coins.len() - i,
{
    if i < coins.len() {
        lemma_first_twin_none_all(coins, i + 1);
    }
}

/// A coin list that passes validation pays with each method/asset pair at
/// most once.
pub proof fn lemma_accepted_coins_distinct(coins: Seq<CoinSpec>)
    requires
        coins_error(coins) is None,
    ensures
        forall|i: int, j: int|
            0 <= i < j < coins.len() ==> !(#[trigger] coins[i].method == #[trigger] coins[j].method
                && coins[i].asset@ == coins[j].asset@),
{
    lemma_first_twin_none_all(coins, 0);
    assert forall|i: int, j: int|
        0 <= i < j < coins.len() implies !(#[trigger] coins[i].method == #[trigger] coins[j].method
        && coins[i].asset@ == coins[j].asset@) by {
        if coins[i].method == coins[j].method && coins[i].asset@ == coins[j].asset@ {
            assert(has_later_twin(coins, i));
        }
    }
}

proof fn lemma_coin_index_skip(coins: Seq<CoinEntry>, method: Seq<char>, asset: Seq<char>, i: int, k: int)
    requires
        0 <= i <= k < coins.len(),
        forall|j: int| i <= j < k ==> !(method_name(coins[j].spec.method) == method && coins[j].spec.asset@ == asset),
        method_name(coins[k].spec.method) == method && coins[k].spec.asset@ == asset,
    ensures
        coin_index(coins, method, asset, i) == Some(k),
    decreases k - i,
{
    if i < k {
        lemma_coin_index_skip(coins, method, asset, i + 1, k);
    }
}

/// In a validated state every coin is what a request naming its own method
/// and asset finds: each coin gets its own transaction details.
pub proof fn lemma_each_coin_found(entries: Seq<CoinEntry>, coins: Seq<CoinSpec>, k: int)
    requires
        coins_error(coins) is None,
        entries_for(entries, coins),
        0 <= k < coins.len(),
    ensures
        coin_index(entries, method_name(coins[k].method), coins[k].asset@, 0) == Some(k),
{
    lemma_accepted_coins_distinct(coins);
    assert(entries[k].spec == coins[k]);
    assert forall|j: int| 0 <= j < k implies !(method_name(entries[j].spec.method) == method_name(coins[k].method)
        && entries[j].spec.asset@ == coins[k].asset@) by {
        assert(entries[j].spec == coins[j]);
        lemma_method_name_injective(coins[j].method, coins[k].method);
        if method_name(coins[j].method) == method_name(coins[k].method) && coins[j].asset@ == coins[k].asset@ {
            assert(coins[j].method == coins[k].method);
        }
    }
    lemma_coin_index_skip(entries, method_name(coins[k].method), coins[k].asset@, 0, k);
}

proof fn lemma_first_uri_error_none_all(coins: Seq<CoinSpec>, i: int)
    requires
        0 <= i,
        first_uri_error(coins, i) is None,
    ensures
        forall|k: int| i <= k < coins.len() ==> (#[trigger] payment_uri(coins[k])) is Ok,
    decreases coins.len() - i,
{
    if i < coins.len() {
        lemma_first_uri_error_none_all(coins, i + 1);
    }
}

/// A coin list is refused exactly when two coins pay with the same method
/// and asset or a coin's payment URI cannot be built; the constructors
/// report that error first.
pub proof fn lemma_coins_refused_exactly(coins: Seq<CoinSpec>)
    ensures
        coins_error(coins) is Some <==> (exists|i: int, j: int|
            #![trigger coins[i], coins[j]]
            0 <= i < j < coins.len() && coins[i].method == coins[j].method && coins[i].asset@ == coins[j].asset@)
            || (exists|k: int| 0 <= k < coins.len() && (#[trigger] payment_uri(coins[k])) is Err),
{
    if coins_error(coins) is None {
        lemma_first_twin_none_all(coins, 0);
        lemma_first_uri_error_none_all(coins, 0);
        assert forall|i: int, j: int|
            #![trigger coins[i], coins[j]]
            0 <= i < j < coins.len() implies !(coins[i].method == coins[j].method && coins[i].asset@ == coins[j].asset@) by {
            if coins[i].method == coins[j].method && coins[i].asset@ == coins[j].asset@ {
                assert(has_later_twin(coins, i));
            }
        }
    } else {
        let dup = exists|i: int, j: int|
            #![trigger coins[i], coins[j]]
            0 <= i < j < coins.len() && coins[i].method == coins[j].method && coins[i].asset@ == coins[j].asset@;
        let bad = exists|k: int| 0 <= k < coins.len() && (#[trigger] payment_uri(coins[k])) is Err;
        if !dup && !bad {
            assert forall|k: int| 0 <= k < coins.len() implies !has_later_twin(coins, k) by {
                if has_later_twin(coins, k) {
                    let j = choose|j: int| k < j < coins.len() && coins[j].method == coins[k].method && coins[j].asset@ == coins[k].asset@;
                    assert(coins[k] == coins[k] && coins[j] == coins[j]);
                }
            }
            lemma_first_twin_none(coins, 0);
            assert forall|k: int| 0 <= k < coins.len() implies (#[trigger] payment_uri(coins[k])) is Ok by {
                if payment_uri(coins[k]) is Err {
                    assert(bad);
                }
            }
            lemma_first_uri_error_none(coins, 0);
        }
    }
}

/// A quote issued or refreshed at time `now` expires exactly the configured
/// validity later: `quote_ttl` seconds, whatever their number.
pub proof fn lemma_quote_expires_ttl_later(now: i128, ttl: u64)
    requires
        ttl_fits(now, ttl),
    ensures
        expiry_after(now, ttl) == now + ttl * 1_000_000_000,
        expiry_after(now, ttl) - now == ttl * 1_000_000_000,
{
    assert(now + ttl * NANOS_PER_SEC < (MAX_CLOCK_SECS + 1) * NANOS_PER_SEC) by (nonlinear_arith)
        requires
            now as int / 1_000_000_000int + ttl <= 9223372036854775807int,
    ;
}

} // verus!
