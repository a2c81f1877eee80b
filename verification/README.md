# klyppd

The core of klyppd, a Linux screen-clip manager: replay buffer and recording
control, global hotkeys, the clip library, share links on Cloudflare R2 and
the local video server.

- `src/` is the library, written in Verus. Every function carries a contract
  over a mathematical model (`Seq<char>` for text, plain values for state),
  and the properties that span functions stand as public proof functions
  named `lemma_*`.
- `tests/` runs the library on concrete values.
- `app/` is the program around it: process spawning, files, sockets, the
  input-device loop, the folder watcher and the S3 client. It hands the
  library plain values and acts on what comes back.
