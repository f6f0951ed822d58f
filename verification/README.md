# my_translator audio

The audio-capture logic of a real-time speech translator, verified with Verus.

- `src/` is the verified library: PCM sample coding (`pcm`), mono and stereo
  draining of recorder output (`capture`), the two-stream mixer (`mixer`),
  batching for the frontend (`forward`), reading `pactl` output (`text`,
  `pactl`), the lookup of the recording target (`target`) and the decisions
  of the capture commands (`commands`).
- `app/` runs what cannot be verified: `pactl` and `pw-record` processes,
  threads, channels and the Tauri commands. It hands plain values to the
  library and acts on what it gets back.
- `tests/` runs the library on concrete inputs.
