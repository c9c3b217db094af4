# interpolation_search

Interpolation search over sorted slices, verified with Verus.

- `src/factor.rs`: `Factor`, an exact fraction in `[0, 1]`, and `lerp_index`,
  the probe position a factor selects in a range.
- `src/interpolation_factor.rs`: the `InterpolationFactor` trait (key order,
  comparison, interpolation factor) and the integer factor arithmetic.
- `src/numeric.rs`, `src/text.rs`: the trait for the integer types, `char`,
  `&str` and `String`.
- `src/interpolation_search.rs`: the `InterpolationSearch` trait for slices,
  its contracts, and the laws of insertion points.
- `app/lib.rs`: floating-point views of factors and search over `SystemTime`.
