# j2me_kit

A verified runtime library for running recovered J2ME (MIDP/CLDC) games
natively: the JVM-side building blocks (arrays, streams, `Integer.parseInt`,
threads, objects), the MIDP surface (canvas, graphics, images, fonts, record
stores, media players), device catalogues and key presets, and byte-level
media codecs (standard MIDI files, Yamaha SMAF/MMF scores, WAVE PCM).

Every function in `src/` carries a Verus contract and is proved against it;
`tests/` run the same functions on concrete inputs. Calls into the outside
crates (`png`, `zip`, `toml`) and a few `std` routines stand behind small
trusted wrappers whose contracts are documented where they are declared.

`app/` holds what cannot be verified: floating-point audio scaling and the
host-facing glue.

Layout:

- `src/jvm` – JVM semantics (arithmetic, arrays, data streams, threads).
- `src/me` – MIDP classes (graphics, images, fonts, RMS, media players).
- `src/media` – MIDI, SMAF and WAVE readers and writers.
- `src/platform` – resources, JAR contents, record-store files, paths.
- `src/input`, `src/device*.rs`, `src/nokia.rs` – key maps and device profiles.
