# ocp_mock

A mock OpenCryptoPay provider for testing a wallet's OpenCryptoPay flow
end-to-end with a real transaction sent to your own address. On startup it
prints an OpenCryptoPay link (`https://<host>/pl/?lightning=LNURL1...`) and
its QR code; the LNURL decodes to the provider's API URL.

Layout:

- `src/` — the library, verified with Verus: payment methods (`method`),
  LNURL/bech32 encoding (`lnurl`, with the proofs that an LNURL decodes back
  to its URL and carries a valid checksum), amount scaling and payment URIs
  (`payment_uri`), `--coin` spec parsing and settings (`cli`), validated
  coins and the quote (`state`), response payloads (`payloads`), the request
  decisions of the provider API (`handlers`) and the startup listing
  (`banner`); `text` and `digits` hold string and positional-notation
  helpers.
- `app/` — the program: command line (clap), HTTP server (actix-web), JSON
  rendering (serde_json) and printing.
- `tests/` — tests of the library.

Usage:

```sh
ocp_mock --host 127.0.0.1 --port 8080 \
  --coin method=Monero,asset=XMR,address=<YOUR-XMR-ADDRESS>,amount=0.005 \
  --coin method=Bitcoin,asset=BTC,address=<YOUR-BTC-ADDRESS>,amount=0.0001
```
