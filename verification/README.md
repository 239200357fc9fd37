# scimforge

SCIM 2.0 server-side protocol logic in Rust, verified with Verus: the filter grammar, PATCH
semantics with schema-driven mutability, bulk requests, discovery, pagination and error messages
of RFC 7643 and RFC 7644, and the decisions of a small SCIM server on top of them. The library does
no I/O; storage and transport are up to its users.

## Layout

- `src/filter.rs`, `src/grammar.rs`, `src/path_laws.rs`: tokens, parser and paths; the parser
  accepts exactly the grammar within the depth limit, and a path that is written out parses back.
- `src/matching.rs`: whether an entry of a multi-valued attribute matches a filter.
- `src/patch.rs`, `src/mutability.rs`, `src/patch_laws.rs`: PATCH requests, what a schema allows of
  them, and what no request can do.
- `src/bulk.rs`, `src/bulk_laws.rs`: limits, scheduling and `bulkId` references.
- `src/discovery.rs`, `src/user.rs`, `src/group.rs`, `src/schema_laws.rs`: schemas and resources.
- `src/common.rs`, `src/error.rs`, `src/list_response.rs`: identifiers, metadata, errors, pages.
- `src/json.rs`, `src/number.rs`, `src/text.rs`: documents, numbers and texts, with their models.
- `src/server/`: the store, the request log without secrets, identifiers and metadata, responses.
- `app/`: the server around it, with HTTP, serde and the environment.
- `tests/`: examples that run.

## Reading the contracts

Every type has a model of sequences, integers and plain enums, written `value@`. A contract says
what a function returns over these models; the spec functions named in it (`filter::parsed`,
`patch::patched`, `bulk::is_schedule`, `store::redacted`) say what that means. Proof functions that
begin with `law_` state what holds across functions.

Doubles stand as their bit patterns. Two tests on them, whether one is less and whether two are the
same, are defined on the bits; which double a decimal text or an integer is nearest to comes from
`std` and serde_json and only has a name here.

## What is taken on trust

Functions marked `#[verifier::external_body]` call into `std`, serde_json, chrono or uuid; each says
above it what is claimed of the call. They are in `src/text.rs`, `src/number.rs` and
`src/server/clock.rs`.

## Running the server

`SCIM_IT_BEARER_TOKEN` sets the token that clients must send, and `SCIM_IT_PORT` the port (8087 if
unset). Resources are kept in memory and are gone when the server stops.
