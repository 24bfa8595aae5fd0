# rome

Host-side toolkit for the SP-1 stem player, verified with Verus.

- `src/` is the library: the ADPCM codec, the bootloader's packets and the flashing
  session, the disk format, the USB protocol, the upload session and the reading of
  diagnostics. Every function states in its contract what it returns; the `law_*` proof
  functions state what holds across functions.
- `app/` is the command-line program. It opens ports and files, performs the actions that
  the library asks for and reports back what came of them. What computes in floating
  point stands there too and is not verified: resampling to 48 kHz, and the durations,
  sizes and averages that are printed.
- `tests/` runs the library on concrete values.

The library trusts a few calls into the standard library and into `symphonia`. They are
marked `#[verifier::external_body]`, and the comment above each says what is taken for
granted.
