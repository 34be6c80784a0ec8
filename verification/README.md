# signet

Offline-verifiable software licenses, and the rules of a small shop that sells
them through Stripe.

- `src/` is the verified library. A license is a set of claims in CBOR, signed
  with Ed25519 and written in base64. The library mints and checks licenses, and
  decides everything that the issuer's command line and the shop do: what a
  catalog may hold, when a session is fulfilled, what an email says, what a page
  answers.
- `tests/` runs the library with the real outside crates.
- `app/` is the program around it: arguments, files, the web server, the
  database, calls to Stripe, and sending mail. It is ordinary Rust.

The steps of a fulfillment and of the price reconciliation are functions of the
library from what is known to what comes next. `app/` performs each step and
hands back what came of it.

Calls into outside crates stand behind small functions marked
`external_body`, each with a comment that says what is believed of the call.
