# StateChronicle

A verified library for recording who owns what, who changed it, and why the
record can be trusted. Requests to change a resource arrive as intents; an
accepted intent produces events; events are committed in batches and read back
as projections and trade histories.

The library decides; it performs no input or output. Where a decision needs
something from outside (a stored intent, a current state, a digest, the word of
an authority), the code pauses with a value that says what it waits for and
resumes with the reply. Every such step has an exact contract.

## Layout

- `src/domain`: identifiers, intents, events, commits, digests, timestamps and
  their encodings.
- `src/json.rs`, `src/amount.rs`, `src/text.rs`: documents, exact amounts, and
  texts, with their mathematical models.
- `src/intent`: validation of submitted and of typed intents.
- `src/executor`: conflict gates, state transitions, authority, the atomicity
  of batches, and the executions that tie them together. `complete.rs` and
  `all_or_nothing.rs` state what executions and batches come to as a whole.
- `src/index`: trade records and histories built from committed batches, and
  projections rebuilt from event streams.
- `src/ports`: error types, key registry, authorization, quota, metrics and
  outbox delivery.
- `tests`: tests of the compiled library.
- `app`: the asynchronous shell: traits for stores and services, and the loops
  that carry out what the library asks for.

## What is proved

Functions named `law_...` state properties that span several functions. Among
them: a transfer conserves the total and forms a valid pair; debits never
overdraw, and credits restore what debits took; events come out of an execution
only when every check has passed; a batch is all or nothing, and a replayed leg
fails a batch over tenants; value legs are matched by the keys that declarations
and pairs share; replaying batches gives the same trade index as taking them in
one by one; rebuilt projections are of the highest version; revoked keys stay
revoked; every recorded observation is counted once.

Two outside functions are trusted with a stated contract: `String::push` of the
standard library and the timestamp parser of `chrono`.
