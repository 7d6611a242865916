# st0x_finance

Shared financial domain types for st0x services, verified with Verus:
fractional share quantities backed by Rain's decimal Float, scale-preserving
wire quantities backed by `rust_decimal`, and wrappers that guarantee a value
is positive or non-negative.

## Layout

- `src/float.rs`: the packed 32-byte Float, its mathematical model
  (`coefficient * 10^exponent`) and the trusted calls into `rain-math-float`.
- `src/float_proofs.rs`: arithmetic lemmas over that model.
- `src/decimal.rs`: the 16-byte `rust_decimal` value and its trusted calls.
- `src/uint.rs`: a 256-bit unsigned amount as four 64-bit limbs.
- `src/text.rs`: decimal text grammar and verified digit parsing.
- `src/shares.rs`: `FractionalShares`, with truncation, 18-decimal
  conversions, equality and ordering.
- `src/decimal_shares.rs`: `DecimalShares`, the wire form, checked against
  the legacy decimal truncation.
- `src/constraint.rs`: `Positive` and `NonNegative`.
- `src/lib.rs`: `HasZero` and whole-share conversion.
- `app/`: serde and error-message forms of the library types.
