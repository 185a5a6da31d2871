# harmony

The core of a software soundboard: it plays audio clips on two output
devices at once (one of them typically a virtual cable into a voice
application), driven by a web page.

- `src/` is the library, written and proved with Verus:
  - `clock` — decimal text of numbers and the `MM:SS` text of a clip's length;
  - `command` — the command texts that the page sends (`play_pause 3`, ...),
    split into words and read as requests;
  - `script` — the script calls sent back to the page;
  - `config` — the saved settings (clips, volumes, devices) and their defaults;
  - `player` — the registry of loaded clips by id, with reuse of freed ids;
  - `loading` — the decisions taken before and after a clip's file is read.
- `app/` is the program around it: the web view, the audio engine
  (`ez_audio`), the file dialog, the settings file (RON) and the async tasks.
- `tests/` runs the library on concrete values.
