# ophan

The configuration and request-handling core of the Ophan edge gateway,
written in Verus: every function in `src/` carries a contract that Verus
proves.

## Layout

- `src/config/dsl/` — the configuration language. `lexer` turns text into
  tokens, `syntax` finds entries, blocks, lists and objects among them,
  `reader` and `read_blocks` read each block into its raw form, and `parser`
  reads whole master and gateway files (`parse_raw_master`,
  `parse_raw_gateway`). Each reader states, over the text, when it succeeds,
  what every field holds (the last entry that sets it wins), and which error
  it answers a text that does not read with. `compile` turns raw blocks into
  settings (among them listeners, `compile_listener`, with what only the
  machine can tell, whether an address is an IP address and whether a
  certificate file exists, passed in); `files` holds the checks made before
  a file is read.
- `src/config/tree.rs` and `src/config/dsl_parser.rs` — the block reader of
  gateway and master files: `tree` reads a text into a tree of entries (its
  contract says which tree, over the tokens, and that a text without one is
  refused), and `dsl_parser` turns the tree into listeners, upstreams,
  routes and named policies (`parse_gateway_config`, `parse_master_config`),
  stating for each field which entry it comes from and for each error which
  entry gives it.
- `src/config/parse.rs` — the gateways of a configuration put together
  (`OphanConfig::assemble`): their policies merged by name, a later gateway
  winning; every listener, route and upstream listed by its place in the
  gateways; the upstreams indexed by name; and the routes ordered for prefix
  matching, longest path first (a law states the order).
- `src/config/errors.rs` — errors of reading configuration files and the
  text they are shown as.
- `src/config/` — settings (`domain`, with the reading of transports and
  protocols, `parts`, with the laws of their
  `merge` operations, and the resolution of a route's policies) and the
  semantic checks of a configuration (`validate`), with the law that they
  report nothing exactly when nothing is wrong.
- `src/balancer/` — backends, upstreams and the load balancer, with laws on
  which backends it picks.
- `src/gateway/` — error kinds and the bodies sent for them, the client
  address of a request, and path rewriting (`rewrite`), whose regular
  expressions come from the `regex` crate.
- `src/time.rs`, `src/text.rs` — durations and the text helpers the readers
  share.
- `app/main.rs` — the command line: reads files and hands their text to the
  library.
- `tests/` — tests of the library, run against the real outside crates.

## Outside crates

`http` (status codes, header names and values), `memchr` (byte search)
and `regex` (rewrite patterns) are called from `src/` through small trusted
wrappers whose contracts are stated next to them.
