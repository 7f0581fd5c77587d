# soundboard

A soundboard with global hotkeys and a live voice changer.

- `src/` is the verified library:
  - `keys`: the keyboard keys hotkeys are made of;
  - `last_key`: the recorder that captures the chord last typed;
  - `hotkeys`: the table from sound names to key chords;
  - `assign`: the two-step assignment protocol, the actions hotkeys trigger,
    and the table a run starts with;
  - `frames`: splitting interleaved sample buffers into stereo pairs and
    filling them back;
  - `audio`: device choice and the order of the voice-changer effects;
  - `playback`: the on/off switch and where sound files lie.
- `app/` is the desktop application around it: the global input hook, the
  hotkeys file, the front-end commands, the audio streams and the
  floating-point signal processing.
- `tests/` runs the library on concrete inputs.
