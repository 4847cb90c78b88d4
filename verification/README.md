# whitenoise_runtime

The verified core of a runtime for differentially private analyses.

- `src/binary.rs`: fixed-width binary strings, the bit strings of bytes,
  and reading binary digits the way `from_str_radix(.., 2)` does.
- `src/snapping.rs`: random bit strings from OpenSSL, the truncated
  geometric sample with parameter one half, and the bit strings of the
  raw parts of IEEE-754 doubles.
- `src/scheduler.rs`: the decisions of evaluating a computation graph
  (which dependency to queue, when to expand and execute a node, which
  evaluations to drop), as a state machine that its caller drives.
- `src/materialize.rs`: the column layout of a materialized table.
- `src/components.rs`: property propagation of the reshape component and
  the expansion of a differentially private covariance.
- `app/`: floating point, CSV files, the noise mechanisms, and the loop
  that runs the components for the scheduler.
