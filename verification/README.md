# subtitle_translator

Translates SRT subtitles with an OpenAI-compatible Chat API, muxes the result
into MKV files with ffmpeg, and can keep a translation ahead of Kodi playback.

- `src/` is the library, verified with Verus: SRT parsing and writing, the
  windowed translation plan and its retry state machine, reply parsing and
  script validation, reassembly, prices, track choice, ffmpeg argument lists,
  Kodi path mapping and reply reading, and the decisions of the polling loops.
  `src/laws.rs`, `src/roundtrip.rs` and a few lemmas beside their functions
  prove properties that span several functions.
- `app/` is the command-line program around it: HTTP, files, subprocesses,
  the worker pool and the polling loops.
- `tests/` runs the library on concrete inputs.
