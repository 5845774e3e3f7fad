# sotto

Offline speech-to-text for Linux desktops, built around a library whose
logic is verified with Verus.

- `src/` is the verified library:
  - `text`: spoken punctuation (phrases to symbols through the `regex`
    crate, spaces around marks, sentence capitalisation);
  - `hotkey`: hotkey names, the press/release tracker and keyboard bookkeeping;
  - `daemon`: the daemon's decisions for toggle and push-to-talk modes;
  - `settings`: stored settings, their defaults and the control panel's choices;
  - `models`: the Whisper model catalogue and download helpers;
  - `devices`: parsing of `pactl list sources`;
  - `audio`: capture parameters, device choice and framing for voice detection;
  - `indicator`, `service`, `transcription`: indicator labels, the systemd
    unit file and transcript assembly;
  - `chars`: the `std` character primitives and string helpers used above.
- `tests/` runs the library on concrete inputs.
- `app/` is the program: GTK/libadwaita windows, audio capture, evdev,
  Whisper, signals and files. It hands plain values to the library.
