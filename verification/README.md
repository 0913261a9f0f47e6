# gateway

The verified core of an LLM gateway's bounded data-plane runtime, written in Verus.

- `src/` holds the decisions the runtime makes, each with a contract Verus proves: admission
  of a configuration Version and of its compatible egress graph, adapter capabilities and
  endpoint shapes, the provider-account projection, transport rules and body bounds, the
  streamed and completed Responses decoders, the attempt-stage ledger and the bounded event
  path, the management Channel Pin, route explanation, operator recovery, catalog paging and
  generation publication. Laws that span several operations are public proof functions.
- `tests/` runs the library on concrete values.
- `app/` is the process-side plumbing around it: the storage-capacity sampler thread, the
  Channel Pin run and its identifiers, the locked event path, and bounded reads of provider
  error bodies and catalog pages.

`serde_json` parses JSON and `getrandom` draws the boot nonce; each call stands behind a small
trusted wrapper whose contract names what the call returns.
