# ump

A MIDI player with SF2 soundfont synthesis. The library (`src/`) is written
in Verus: every function states its behaviour in `requires`/`ensures` and is
proved against it.

## Layout

- `src/midi` — Standard MIDI File decoding (through `midly`, behind trusted
  wrappers), track scanning into timed events, note rectangles and track
  info, meta text decoding (UTF-8 with a Shift_JIS fallback through
  `encoding_rs`), SysEx interpretation and MIDI mode detection.
- `src/sequencer` — event dispatch and silent seeking as lists of synthesizer
  commands, with the laws that a seek replays exactly the state-setting
  commands of playback and that muted channels never start notes.
- `src/state` — the playback state shared between the audio side and the
  interface, and the mirroring of applied events into it.
- `src/synth` — port/channel routing to synthesizer engines, soundfont
  bundles, and the messages each engine is sent for a sequencer command.
- `src/player.rs` — the player's decision state (`App`): transport, volume,
  track cursor, mute and solo, ports, view toggles, meter levels.
- `src/ui` — the pure parts of the interface: bar/beat grid, file browser
  model, key bindings, row models, text measuring and formatting.
- `src/config.rs`, `src/debug.rs`, `src/util` — settings values, log
  bookkeeping and calendar arithmetic, character and path helpers.
- `app/` — the program around the library: command line, settings file,
  logging, files and directories, the `rustysynth` synthesizer, `cpal`
  audio output and a console front end.
- `tests/` — tests of the library on concrete values.
