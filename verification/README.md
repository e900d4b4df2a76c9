# phone_mic

The verified core of a server that turns a phone into a PC microphone.

- `src/audio`: a bounded sample queue, and the decoder that turns an incoming PCM packet into
  samples on the output ring and on the optional monitor ring.
- `src/server`: the slot that one phone session at a time holds, and the per-client throttle of the
  pairing endpoint, with the laws that hold over any history of calls.
- `app`: locks, atomics, clock and timers around the library.

Instants are nanoseconds on a monotonic clock that the caller keeps.
