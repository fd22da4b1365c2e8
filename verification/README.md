# translator-core

A realtime system-audio subtitle engine whose logic is verified with Verus. A native
client captures audio and sends it over a local pipe or socket; the core finds speech in
it, recognises it and streams subtitle events back. The core owns no user interface and
never touches platform audio.

## Layout

- `src/` is the library. Every function in it has a contract that Verus proves.
  - `protocol/`: the messages, their wire format and length-prefixed frames.
  - `audio/`: PCM decoding, channels and the sample window of the resampler.
  - `vad.rs`: analysis frames and the detector of voice activity.
  - `asr/`: the recognisers, which of them is used, and where its model comes from.
  - `subtitle.rs`: the stabilizer that turns recognised text into display lines.
  - `session.rs`: one capture session.
  - `ipc/`: routing of messages, the pipeline of a connection, numbering, endpoints.
  - `translation/`: translation providers.
  - `error.rs`, `text.rs`: the error type and text building blocks.
- `app/` is the program around it: sockets, tasks, signal processing on real numbers and
  the recognition model.
- `tests/` runs the library.
- `extras/translator.proto` is the schema of the messages.

## How the parts meet

The library holds no floating point number and does no input or output. A sample is the
bit pattern of a single precision number. Where outside work is needed in the middle of
something, the library says so in what it returns and takes the result as an argument:
a `Pipeline` asks for a frame to be measured, for audio to be decoded or for a model to
be loaded, and goes on once it is handed the outcome.

## Contracts

Every type has a mathematical model, its view, and functions state what they do to it.
Laws that span several functions are public proof functions named `law_..`: a frame that
was written is read back, one that was cut off is refused, nothing reaches the pipeline
before the handshake, stopping is always acknowledged, and so on.

What is believed rather than proved is the behaviour of a few functions of `prost`,
`serde_json` and the standard library, each stated in one place with its reason.
