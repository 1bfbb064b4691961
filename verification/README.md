# voice_flow

Voice Flow is a desktop dictation program: hold a global shortcut, speak, and the
transcript is inserted at the cursor. This crate holds its rules as a library that is
verified with [Verus](https://github.com/verus-lang/verus), and the program around it.

- `src/` is the verified library. Every function states in its contract what it returns;
  public proof functions named `law_..` state what holds across functions.
  - `asr/`: the binary protocol of the recognition service, the packets of an audio
    stream, and the state of a recognition session
  - `shortcut/`: reading and writing shortcuts, and watching the keys
  - `controller.rs`: the phases of a dictation
  - `config.rs`: the settings
  - `diagnostics/`: the record of each session, its audio file, and which records are kept
  - `platform/`: inserting text through the clipboard, and placing windows
  - `benchmark/`: measuring recognition against a reference text
  - `audio.rs`, `text.rs`, `json.rs`, `bytes.rs`, `logging.rs`: what the others share
- `tests/` runs the library, together with the crates that it calls.
- `app/` is the program: devices, files, processes, sockets and windows.

What the library takes on trust from other crates (`flate2`, `serde_json`, `device_query`,
`chrono`, `http`) and from the standard library is declared next to its use; each such item
names the function that it stands for and says what is claimed of it.
