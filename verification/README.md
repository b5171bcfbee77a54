# rtk_core

The core of the `rtk` command-line proxy, verified with Verus: it decodes, strips, filters and
captures the output of child processes, decides which command is run and in which environment,
and formats short texts and numbers.

- `src/` is the verified library. It does no input or output. `outside.rs` holds everything that
  is taken on trust from the standard library and other crates; public proof functions named
  `law_...` state what holds of the library as a whole.
- `tests/` runs the library on concrete values.
- `app/` is ordinary Rust around it: processes, files, the environment, and amounts of money.
