# Velin

Velin streams system and microphone audio from one machine to another on a
local network: a TCP control handshake with fingerprint-confirmed pairing,
then encrypted PCM frames over UDP, mixed on the receiver.

## Layout

- `src/` — the library, written in Verus and proved against its contracts:
  - `proto`, `wire`, `packet`: audio frames, their byte layout and the
    encrypted packet format, with round-trip laws.
  - `jitter`, `receiver`, `metrics`: the per-stream jitter buffer, the
    multi-stream mixer and the receiver's pacing and metrics.
  - `sender`, `capture`, `devices`: framing of captured samples, reconnect
    back-off, recorder commands, format and device-name handling.
  - `security`, `crypto`, `handshake`: the trust store, fingerprints,
    session keys and the pairing decisions of the control handshake.
  - `discovery`, `netinfo`: the receiver table fed by LAN announcements and
    the choice of addresses to advertise.
  - `settings`, `panel`: saved settings, the command line and the decisions
    behind the window's controls.
  - `text`, `sorting`: the string and ordering helpers the rest is built on.
- `app/` — the program around the library: the window, audio devices,
  sockets, files and the tokio event loops.
- `tests/` — tests of the library on concrete values.
