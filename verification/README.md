# recordplayer

A four-deck DJ application. `src/` is its verified library (Verus):

- `core_types` — sample positions, track and deck ids, audio format, playback
  and sync modes, quantization grids, crossfader settings, errors.
- `transport` — the global clock: position, tempo (thousandths of a BPM),
  sample rate, play state.
- `schedule` — quantized deck starts and cue jumps pending on the clock, and
  where in an audio block each one fires.
- `buffer` — a ring buffer of samples and a scratch buffer.
- `mipmap`, `generator`, `cache` — waveform mipmaps: level choice for a zoom,
  visible ranges, building the levels by halving, and a memory-bounded cache.
- `display` — which frames each pixel column of a drawn waveform covers.
- `cues` — the text format of a track's eight hot cues.
- `scanner`, `analysis` — plugin search paths; analyser settings and the part
  of a track that tempo detection reads.

`app/` is the program around it: the Tauri window, audio device (cpal),
decoding (symphonia), the SQLite library (rusqlite), and all floating-point
signal processing (decks, mixer, metronome, tempo detection).

Audio sharing over Ableton Link (`LinkAudio`, `LinkAudioSink`, `SinkBuffer`)
is not part of this crate: it is FFI to the Link C library, whose bindings
cannot be built here.
