# whisper_vox

An always-listening dictation daemon: it keeps the microphone open, detects
speech, transcribes it with whisper.cpp, and types confirmed sentences into
the focused window. Its decisions live in a library verified with Verus.

- `src/` — the verified library:
  - `text` — whitespace, trimming, word splitting and joining over `Seq<char>`;
  - `agreement` — the LocalAgreement-n policy (words are confirmed only when the
    last `n` transcription passes agree on them);
  - `sentence` — sentence boundary detection with abbreviations and ellipses;
  - `vad` — the speech-segment state machine fed by the voice activity model;
  - `daemon` — the loop's decisions: control commands, speech buffer steps, the
    text a finished segment types, the systemd unit;
  - `ipc` — control requests read from the socket;
  - `injector`, `transcript`, `config` — typing commands, transcript assembly,
    model names and configuration values.
- `app/` — the program around it: audio capture, model inference, the socket
  server, configuration loading and the command line.
- `tests/` — tests of the library.
