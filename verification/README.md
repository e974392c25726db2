# discord-voice-engine

An audio-to-Opus RTP engine for Discord voice clients. The library in `src/` holds the rules of
the engine, verified with Verus; the program in `app/` does the reading, encoding and sending
around it.

- `pulse_capture`: what `parec` is asked for, and the course of a microphone capture.
- `trace`, `trace_laws`: the replay of a recorded packet trace, and what holds of every replay.
- `payload`: packet payloads in base64.
- `rtp`: sequence arithmetic, framing and packets.
- `encode_file`: the report on an encoded file.
- `audio`, `wav`: PCM samples, their byte form and the WAV header.
- `config`: modes, bitrates and channel layouts.
- `text`: decimal numbers, lines and white space.

Samples are handled as 16-bit integers in the library. libopus, which decodes to floating point,
is called from `app/`.
