# fgf

Finite-field kernels over packed byte buffers for x86: GF(2^8) under both
byte polynomials (`0x11B` and `0x11D`), the GF(2^16), GF(2^32) and GF(2^64)
towers above it, the Fan–Paar (Wiedemann) tower, Mersenne31, its degree-two
extension, and Goldilocks. Every
kernel states what it leaves in its buffers as a contract over the field's
mathematical model, and Verus proves each body against it.

Layout:

- `src/field/` — the fields: byte-field multiply by Russian-peasant rounds,
  the tower multiplies, the prime fields' canonical residues.
- `src/tables.rs` — nibble tables, affine maps and tower factors prepared
  from a coefficient, each with the invariant that it multiplies by it.
- `src/lanes.rs` — byte- and lane-level walks the kernels are built from.
- `src/kernel/x86/` — the kernels by field and shape: single-source
  multiply-add, scale and elementwise products; scatter (one source, many
  rows), gather (many sources, one row) and matrix (many of both) walks;
  `gf8/experiments/` holds the measurement variants of the GF(2^8) matrix
  and gather walks, each proved to compute what production computes;
  `fan_paar.rs` holds the Fan–Paar tower kernels, stated as products in
  the Wiedemann tower that `src/field/fan_paar.rs` defines.
- `src/laws.rs` — laws across calls: an AXPY undoes itself, AXPYs combine
  by adding coefficients, a gather is its per-source AXPYs, overwrite is a
  cleared accumulate, subtract undoes add, and the variants agree.
- `tests/` — concrete scenarios against independent reference models.

Capability tokens (`archmage`) are taken as proof that the CPU features are
present; entries that need no token are the portable cores the token forms
share.
