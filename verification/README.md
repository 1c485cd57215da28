# qwen_runtime

Decision logic of a local inference runtime for Qwen checkpoints, written in Verus and proved.

The library (`src/`) decides on plain values; it runs no tensors and touches no files:

- `qwen3_5_mtp`: speculative decoding. Greedy, stochastic and constrained walks over drafted
  tokens, emission, prompt snapshots, reuse of cached prefixes, and the state machines of whole
  generations.
- `qwen3_5_weights`: the tensor slots of the pinned checkpoint pair, kernel allowlists and the
  bookkeeping of a load.
- `qwen3_next`, `qwen4_attention`: how blocks go through attention, and which key blocks a sparse
  layer attends to.
- `qwen4`: configuration, shards, tensor names, n-gram embeddings, expert order, rollbacks, and
  saving and restoring the state of a sequence.
- `qwen_vl`, `qwen_vl_position`, `qwen_vl_prompt`, `qwen_vl_merge`, `qwen_vl_processor`,
  `qwen_vl_sizes`, `qwen_mrope`, `qwen_position`: images among text, their sizes, patches and
  rotary positions.
- `qwen_rope_state`, `qwen_mrope_state`: rotary state of a sequence.
- `specprefill`: which tokens of a long prompt are kept.
- `binary32`, `binary64`, `binary64_bounds`, `json`, `text`, `tokens`: single and double precision
  over integers and how far they are off, JSON, texts and token lists.

Each function's contract states its result exactly, but for the pixels of a resampled image, which
depend on the machine. Properties that span functions stand beside
them as public proof functions.

`app/` is the ordinary Rust around the library: files, environment variables, floating point, and
the loops that drive a tensor backend through traits. `tests/` runs the library on concrete values.
