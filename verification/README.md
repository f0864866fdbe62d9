# RavenVoice

Offline dictation and read-aloud: talk instead of typing, in any app.

- `src/` is the library. It decides everything between the microphone and the keyboard, and Verus
  proves what it promises.
  - `text`, `paths`, `single` – characters and words, the paths of files, and rounding
  - `audio`, `vad` – the microphones, and the phrases in what they hear
  - `stt`, `live`, `scribe` – what surrounds a transcription, and what becomes of its text
  - `commands` – spoken commands
  - `keys`, `typer`, `typist` – text as key strokes, and corrections to what was typed
  - `engine`, `control` – what the parts tell each other, and the control of dictation
  - `hotkey`, `ipc`, `cli` – shortcuts, the control socket, and the command line
  - `tts` – reading aloud
  - `overlay` – what is on screen
  - `config`, `desktop`, `model` – settings, and the files of the models
- `app/` is the program around it: threads, devices, files, widgets, and the arithmetic on samples.
- `tests/` runs the library.

Each module states its promises that hold across functions as proof functions named `law_...`.
