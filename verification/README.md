# audpro

The verified core of an offline speech-recording desktop application: a
native shell records audio into per-session folders and drives a local
speech-processing sidecar over a line-delimited JSON protocol.

`src/` is the library, written in Verus and proved:

- `civil`: the proleptic Gregorian calendar and the conversion of a day
  count since 1970-01-01 into a civil date, with its proofs.
- `timestamp`: RFC 3339 UTC timestamps (`YYYY-MM-DDThh:mm:ss.fffZ`).
- `sessions`: session ids, the session store's paths (each session folder
  a direct child of the store's root) and metadata records, and the
  newest-first listing order.
- `protocol`: framing of sidecar commands, splitting of its output into
  lines, and the interpretation of each line as a progress event.
- `stream`: following a running sidecar, from its output, diagnostics,
  channel failures and exit to what the user interface is shown, the same
  whatever pieces the output arrives in.
- `capture`: the bounded sample queue, input-device choice and the outcome
  of starting and stopping a recording.
- `paths`, `text`: path joining and character-level string helpers.

`app/` is the desktop shell around it: Tauri commands, audio capture with
cpal (including the floating-point resampling and downmixing), WAV writing
with hound, file-system access, JSON (de)serialization of the library's
records, and the sidecar process.
