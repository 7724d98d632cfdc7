# amcrust

A bridge that shows one Amcrest camera to HomeKit as a camera accessory: live
video, snapshots, motion sensors and Secure Video recordings. Run one instance
per camera.

The protocol and decision logic is a library whose behaviour is stated in
contracts and proved with Verus. The program around it does the I/O.

## Layout

- `src/` is the library.
  - `tlv8`, `wire`, `text`: TLV8 items, numbers in bytes, strings.
  - `crypto`, `srtp`: the ciphers of the transports, and SRTP with the clock of
    the audio stream.
  - `hap`: encrypted records, ordered output, snapshots and host names of the
    accessory protocol.
  - `hsv`: Secure Video. Data stream values (`codec`, `show`), frames (`frame`),
    sessions, connections and messages (`hds`), delivery of recordings
    (`data_send`), the recording configuration and state (`recording`), FFmpeg's
    fragmented MP4 (`fmp4`).
  - `stream`: live streams. Offered modes, sessions, commands, FFmpeg's
    arguments, and the packets on their way.
  - `amcrest`: the camera. Requests, configuration profiles and their
    verification, encoder capabilities, events, snapshots.
  - `accessory`, `motion`, `metrics`, `setup`: the accessory's services, motion
    sensors, counters, setup codes and startup decisions.
- `app/` is the program: sockets, HTTP, FFmpeg processes and files.
- `tests/` runs the library on concrete values.

## What is proved

Each function states what it returns, when it fails and how it changes its
arguments. Functions whose names start with `law_` state what holds between
functions, for example that decoding gives back what was encoded, that output cut
into pieces gives the same fragments, and that only one recording is delivered at
a time.

What other crates compute is declared and not proved. Those declarations carry
`external_body` or `assume_specification`, and their comments say what is relied
on.

## Running

`ffmpeg` has to be on the `PATH`.

```sh
AMCREST_USERNAME=admin AMCREST_PASSWORD=... amcrust --name frontyard --host 192.168.1.50
amcrust --name frontyard --host 192.168.1.50 apply-settings
amcrust --name frontyard --host 192.168.1.50 apply-settings --write
```
