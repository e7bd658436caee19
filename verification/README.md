# cast

A sender for Google Cast receivers: it finds receivers on the local network, plays addresses and
files on them, and mirrors encoded H.264 and AAC streams to one receiver or to a group.

The decisions, formats and state machines live in a library that is verified with Verus. Each
public function states what it returns and changes, and Verus proves it. The program around it
does the input and output.

## Layout

- `src/` is the library.
  - `text`, `bytes`, `binary64`, `float32`, `float64`, `clock`: values and how they are written.
  - `discovery`, `devices`, `network`, `monitors`, `wireplumber`: receivers, displays and outputs.
  - `media`, `media_server`, `playback`, `live`: files and addresses, and playing them.
  - `h264`, `audio`, `encoder`, `picture`, `capture`, `synthetic`, `frame_queue`: frames on the way
    to a stream.
  - `hls`, `hls_http`, `muxing`: segments, playlists and the requests for them.
  - `crypto`, `random`, `fanout`, `rate_control`, `controller`, `output`, `failure`: what the
    streams share.
  - `mirror`: the mirroring session with its negotiation, packets, receiver feedback, statistics
    and tuning.
- `tests/` holds the tests of the library.
- `app/` is the program: arguments, sockets, threads, devices and codecs.

## Conventions

- Durations are counts of nanoseconds. A function that depends on the time takes a clock reading
  as an argument.
- A function that would wait, send or receive is a step: it takes an event and returns what to do
  next, and the program runs the loop.
- Outside crates are called in `src/` for AES-CTR, random bytes and fragmented MP4. Each such call
  stands behind one item whose comment says what is believed of it.
- Public proof functions named `lemma_..` state what holds across functions.
