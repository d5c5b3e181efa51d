# shellyrgbaudio

Drives RGBW lights (Shelly, Govee LAN and DreamView, WLED, Philips Hue) from the audio a
computer plays: the sound is captured, analysed with an FFT, mapped to a colour and a brightness,
and sent to every configured light, which is put back the way it was found on exit.

## Layout

- `src/` is the library, written in Verus and proved: reading the config text, the config
  migrations and default filling, the Shelly digest answer and the Govee status reply,
  when the analyser has a full window,
  colour parsing and formatting, the packets and URLs the lights are driven with, the capture
  device choice, per-application capture bookkeeping, speaker layouts, the decisions of the
  capture loop and the output thread, and the text of the command line and the tray.
  Each module states in its contracts what it computes, and the laws it keeps are proof
  functions named `lemma_*`.
- `tests/` runs the library on concrete values.
- `app/` is the console program around it: argument handling, reading and writing the config
  file, audio capture through cpal, the floating-point analysis and colour engine, and the
  network traffic to the lights.

## Running

```
shellyrgbaudio [config.json] [--list-devices] [--list-apps]
```

Without a path the config named by `SHELLYRGBAUDIO_CONFIG`, else `config.json`, is used; a
missing one is created with the defaults. An existing config is read, migrated and completed in
memory but never written back; one that cannot be used is copied to `config.json.bak`, left as it
is, and the defaults are used for the run.
