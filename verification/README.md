# saytype

Background speech-to-text dictation for GNOME: what the daemon decides, as a
verified library, and the daemon around it.

- `src/` is the library. `text` and `model` hold the mathematics of words and
  of the visible transcript; `transcript` is the transcript with word erase and
  undo; `injector` says what to type and with which tool; `daemon` is the
  engine, its sessions and how they stop; `stream` and `batch` are the
  pipelines from audio to text; `asr` chooses a backend and its files; `onnx`
  checks the envelope of model files; `vad` and `audio` handle captured sound;
  `cli` reads the command line; `offline` runs the checks of a recorded file.
- `app/` is the program: PipeWire capture, the sherpa-onnx models, D-Bus,
  ydotool.
- `tests/` runs the library on concrete values.
