# tlsproxy

A TLS proxy whose decisions are proved. `src/` is a library verified with Verus:
routing, upstream selection, HTTP head parsing, static file serving, access
rules, accounting, certificate management with ACME, and the rules of the
control plane. Contracts there say what a function returns and changes; where
that rests on another crate, they speak of a named result of the call, and where
it rests on chance or on a key, they say what holds of every outcome. `app/` is
ordinary Rust around it: sockets, TLS streams, files, the clock, and the command
line.

## How the two halves meet

The library never waits and never reads a clock. Where a task alternates between
deciding and waiting, the library holds it as a value that says what to do next
and takes in what came of it:

- `dataplane::session::Session`: a connection, from its ClientHello to the relay.
- `dataplane::http::exchange::Exchange`: a proxied HTTP request.
- `listener::connection::handle_connection`: what serves a connection to the
  mandatory listener.
- `acme::issuance::Issuance`, `acme::renewal::Renewal`,
  `acme::dns::Verification`, `acme::scheduler::Scan`: an order, a renewal, the
  public addresses behind it, and a scan for what is due.
- `forward::Forwarding`: upstream groups, their health and load balancing.

`app/` drives sessions, orders, the checks behind them and the upstream groups.
`Exchange`, `handle_connection`, `Renewal` and `Scan` wait for a store of runtime
configuration, which `app/` does not have; nor does it run the plans of
`runner::worker`, which keep no record of a connection.

State that is shared between connections (`ActiveTracker`, `Cache`,
`Forwarding`, `ChallengeRegistry`, `Manager`) is passed in by mutable reference;
`app/` keeps each behind a lock.

## What is believed without proof

Calls into other crates stand behind small wrappers, each with a comment on what
it claims of the function that it calls. They are in `crypto`, `patterns`, `x509`,
`issue`, `utc`, `request_id`, `ca`, `net`, `json`, `text` and
`dataplane::http::encode`.

## Running

    tlsproxy run --config config.yaml
    tlsproxy files --root ./public --listing
    tlsproxy access --rules rules.json www.example.com
    tlsproxy resolve --overrides overrides.json www.example.com 443
    tlsproxy issue --help
