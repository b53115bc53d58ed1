# greentic_operator

A verified library with the decision logic of the Greentic operator: the
runtime capability registry and wiring plan, provider health and request
policy, post-ingress hook directives, operation envelopes and token
validation, static routes, bundle discovery and state layout, the session
store's indexes, messaging ingress/egress decisions, and the setup QA forms.

Layout:

- `src/` — the library, written in Verus; every function carries a
  contract and is verified. Each module opens with a comment saying what
  it covers. Public proof functions named `law_*` state properties that
  span several functions.
- `tests/` — ordinary Rust tests of the library on concrete values.
- `app/` — the I/O around the library: a small `main` that prints help and
  hands demo lifecycle commands to `greentic-start`, and the readers that
  open pack archives and JSON/YAML files and hand their contents to the
  library's functions.

Verify with Verus on `src/lib.rs`; build and test with Cargo.
