# weavepy_capi

The value-level core of a CPython-compatible C API for the WeavePy VM, written
in Verus. Every function in `src/` is verified against its contract, but for the
wrappers around calls of `num-bigint`, `num-traits` and the standard library.

- `heap`, `value`, `layout`, `fields`, `bytes`: the objects that C code sees, and
  the bytes of their bodies at CPython's offsets.
- `mirror`, `reading`, `keeping`, `freeing`, `pins`, `argpins`, `crossing`,
  `descriptors`, `outward`, `lists`, `publish`, `bodies`, `unicode`, `object`:
  objects crossing to C code and back, their reference counts and their identity.
- `tables`, `steady`, `holding`, `passage`, `homeward`, `upkeep`: what the tables of
  objects say, that every operation keeps it true, and that what crosses comes back.
- `trips`, `growth`, `flat`, `agreement`, `delivery`: what holds of crossings and of
  lists that both sides share.
- `strings`, `utf8`, `search`, `text`, `numbers`, `floats`, `bignum`, `slice`:
  texts, numbers and slices.
- `module`, `modsupport_ext`, `calls`, `imports`, `mypyc_tail`, `slottable`,
  `singletons`: modules, calls and type slots.
- `pep741`, `pystate`, `pythonrun`, `monitoring`, `tracing`: configuration, thread
  state, running code and diagnostics.

`app/` holds what surrounds the library: calls into C, floating point, the
environment and the C library. `tests/` runs the library.
