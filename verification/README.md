# autodirector_fix

With `spec_autodirector true`, Counter-Strike 2 shows the observed player through a camera path of
its own, which makes hands and weapon jitter. This library holds the logic of a DLL that lets
chosen camera types use the normal camera setup instead, written and proved in Verus.

- `src/` is the library.
  - `autodirector_signature`, `pattern`: finds the override block in code and decodes it.
  - `trampoline`: assembles the code that takes the block's place.
  - `machine`, `execution`: a model of the x64 instructions in use, and the proof of what the
    assembled code does.
  - `config`: reads the camera settings.
  - `image`, `report`: reads a `client.dll` as a file and reports on it as JSON.
  - `module_scan`, `runtime`, `patching`: the steps inside the game, from the log file to the
    installed patch and back.
  - `bytes`, `text`: numbers in bytes, and text.
- `tests/` runs the library.
- `app/` is what surrounds the library, system calls and files: the DLL (`lib.rs`) and the report
  tool (`main.rs`).

## Configuration

`autodirector-fix-config.toml` lies next to the DLL. `true` keeps the game's override for a camera
type, `false` uses the normal camera setup. Without the file these settings hold:

```toml
[cameras]
fixed = true
first_person = false
chase = true
cameraman = true
```

## What is taken on trust

Two functions of std have a contract that is not proved: `String::push` (in `text`) and
`std::str::from_utf8` (in `runtime`). The model in `machine` keeps the stack apart from the rest of
memory. The laws on the run of the trampoline ask of its query for the observer state that it keeps
the x64 calling convention of Windows and leaves the stack slots above its return address alone.
