# fork_choice

The Fast Confirmation Rule for proof-of-stake fork choice, verified with Verus.

A block is confirmed once the votes seen for it outweigh whatever an adversary with a bounded share
of the stake could still bring against it. Under a synchronous network that takes one or two slots,
where finalization takes two epochs or more.

## Layout

- `src/` is the verified library.
  - `rule.rs` states the rule: when a block has the votes, when a checkpoint will be justified, and
    how the search for the latest confirmed block goes.
  - `memory.rs` states what an instance remembers, and how slots, heads and prunings change it.
  - `fast_confirmation.rs` is the rule as executable code, proved to do what these two say.
  - `committee_weight.rs`, `ffg.rs` and `votes.rs` are the arithmetic of stakes and the sums over
    votes.
  - `proto_array.rs`, `root_map.rs`, `fork_choice_store.rs`, `state_provider.rs`, `types.rs`,
    `config.rs`, `error.rs` and `text.rs` are the data.
  - `metrics.rs` is what the rule reports of its work.
  - `bench_api.rs` holds entry points for benchmarks.
  - `laws/` proves what holds of the rule as a whole.
- `tests/` runs the library on concrete values and on a simulated chain.
- `app/` connects the rule to a node's metrics and log.

## What is trusted

The state provider is asked through a trait, and nothing is assumed of its answers. One function
outside the library is believed without proof: `zerocopy`'s view of an array as bytes, in
`bench_api.rs`.
