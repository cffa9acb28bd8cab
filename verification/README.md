# szs_utils

Dependency-free parsers for Mario Kart Wii files, with their behaviour stated
in contracts and proved with Verus.

| File              | Module       |
| ----------------- | ------------ |
| .szs (Yaz0 + U8)  | `szs`        |
| .kmp              | `kmp`        |
| .kcl flags        | `kcl::flags` |
| .brres            | `brres`      |

Layout:

- `src/` — the verified library. Every parser works on bytes and returns a
  value of the library or an `error::Error`; its `ensures` says which, for every
  input. Numbers stored as single-precision floats are kept as their bit
  patterns (`f32::from_bits` turns them into numbers).
- `tests/` — tests on small files built in memory.
- `app/` — reading files from disk, extracting archives to folders, printing.

Reading a `.szs` file from bytes and looking up a file in it:

```rust
let szs = szs_utils::szs::parse_bytes(&bytes)?;
if let Some(file) = szs.root.find("course.kmp") {
    let kmp = szs_utils::kmp::Kmp::try_parse_from_data(&file.data);
}
```
