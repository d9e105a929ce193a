# mirage (verified core)

A 2D rigid-body physics engine whose floating-point-free logic is verified
with Verus.

- `src/` — the verified library:
  - `body` — body handles (`BodyId`) and the ordered body store
    (`BodySet`): handles are positions, read-back returns what was added.
  - `broadphase` — enumeration of candidate pairs `(i, j)`, `i < j`, from a
    table of bounding-box overlap results, in row-major order.
  - `collision` — narrowphase dispatch per shape pair (argument order and
    normal orientation, so normals always point from body `a` to `b`),
    contact feature ids, and assembly of manifolds from the per-pair results.
  - `solver` — the warm-start impulse cache keyed by
    `(body_a, body_b, feature)`: ordered first-match lookup and wholesale
    replacement each step.
- `app/` — the `f32` engine built on it: vector math, shapes, bodies, the
  geometric narrowphase tests, the impulse solver and the fixed-step world.
- `tests/` — tests of the library.
