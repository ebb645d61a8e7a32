# Quarry

A workbench for the analysis of games and software: the decisions and the
algorithms behind it are verified with Verus, and ordinary Rust carries them to
the system.

## Layout

- `src/` is the verified library.
  - Text and numbers: `text`, `bytes`, `bignum`, `ieee`, `order`, `value`,
    `case`.
  - Code: `asm_x86` assembles x86-64 instructions, `assembler` runs scripts of
    code caves and patches, `pattern` finds bytes, `script` serves the
    functions of scripts.
  - Files: `pe` reads executables, `ce_import` reads tables of addresses, `icon`
    writes the icon.
  - Processes: `target`, `process`, `internals`, `anticheat`, `unity`.
  - Network: `net`, `capture`, `redirect`, `web`, `proxy`, `json`, `lcu`,
    `lcu_ws`.
  - `setup` plans the installation.
- `app/` is the program around it: the command line, the system calls of
  Windows, HTTP and TLS, the windows of the installer, and what is floating
  point.
- `tests/` runs the library.

## How the library is written

Every type has a value (`model()`), made of sequences and numbers, and every
contract says what a function makes of the values it is given: when it succeeds,
what it returns, and which message it gives otherwise. Where work alternates
with decisions (a script that allocates and writes, a request that waits for the
user, an installation), the library holds a machine that takes an event and says
what to do next; the caller does it.

What the library takes from other crates stands behind wrappers that are marked
`external_body`: their contracts are believed, not proved.
