# conv_transpose_probe

Verified support code for operator probes of burn-flex's transposed
convolution.

- `src/counter.rs`: the live/peak byte counter behind the counting global
  allocator, with laws about its peak (never lowered, equal to the highest
  live count seen, measured growth over a baseline).
- `src/values.rs`: the xorshift32 value codes that fill input and weight
  tensors, and the checked element count of a shape.
- `src/text.rs`: decimal names, text comparison, and comma-separated name
  filters.
- `src/probe.rs`: the fixed benchmark cases and their command-line selection.
- `src/sweep.rs`: the dispatch-threshold sweep cases, its filter and element
  type.
- `src/options.rs`: the call into `burn_backend` that builds the
  transposed-convolution options.
- `app/`: the probe program itself: the global allocator, float tensor
  construction, timing and output. It runs the sweep when started under a
  name containing `dispatch`, and the fixed cases otherwise.
