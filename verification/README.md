# iced_ntoggle

A segmented toggle for iced: a row of `n` buttons of which one, or several up
to an optional limit, are selected.

- `src/` is the verified library (Verus): the selection model (`selection.rs`),
  segment positions and looks (`segment.rs`), the error type (`error.rs`) and
  the laws that hold across its operations (`laws.rs`).
- `app/` is the iced widget built on it: drawing, styling with colours and
  radii, and the error type with its messages.
- `tests/` runs the library on concrete values.
