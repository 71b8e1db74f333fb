# fixed_resample

Resampling of audio streams at a fixed ratio, with a realtime-safe
single-producer single-consumer channel that resamples its input stream to the
output stream's sample rate.

The crate is split in two:

* `src/` is the verified library (Verus). It holds everything that decides
  what happens to the samples, generic over any `Copy` sample type:
  * `interleave` — conversion between de-interleaved channel buffers and
    interleaved buffers, with the law that de-interleaving undoes interleaving;
  * `buffers` — copying, shifting and clearing of frames in channel buffers;
  * `non_realtime` — the block bookkeeping of the non-realtime resampler: the
    input is cut into blocks of the resampler's chunk size (the last one padded
    with silence, followed by a block of silence when the stream ends), and the
    resampler's delay is dropped from the start of its output, with the law
    that exactly the first `output_delay` frames are dropped;
  * `realtime` — the bookkeeping of the realtime resampler, which hands out
    exactly the frames asked for and keeps the rest of each block for later;
  * `channel` — the two ends of the channel over a `ringbuf` ring buffer, the
    latency and capacity rules, pushing whole frames against the room seen
    free, reading with underflow reporting, and what each end knows of the
    ring buffer's fill level;
  * `ring` — the `ringbuf` ring buffer and its two halves, the calls the
    channel makes on them, and the log of the samples written into it, kept
    by the calls that write them;
  * `request` — the counter through which the producer asks the consumer to
    discard frames, with the log of the values stored into it;
  * `lib.rs` — the quality setting and the resampler it selects.
* `app/` holds the full interfaces around it: it owns the `rubato`
  resamplers, which compute on floating-point samples, runs each resampling
  step that the library asks for, and converts the floating-point settings
  (latency and capacity in seconds) to frame counts.
