# lce_math

Numeric primitives for a block-world simulation, with their behaviour stated
in Verus contracts and proved.

- `src/` is the verified library: tile faces and horizontal directions
  (`facing`, `direction`), integer positions and their hashes (`pos`), the
  seeded 48-bit linear congruential generator (`random`), integer helpers
  and ranged draws (`mth`), weighted selection (`weighed_random`) and decimal
  text helpers (`text`).
- `app/` holds the floating-point side, which Verus does not reason about:
  the sine table and float floors, `Vec3`, `Aabb`, and the float and
  Gaussian draws of the generator, built on the verified integer draws.
- `tests/` exercises the library.

The generator's proofs include the termination of its rejection loop:
`2⁴⁷` steps of the state update add `2⁴⁷` modulo `2⁴⁸`, so a draw with its
top bit clear, which every bound keeps, is always reached.
