# dsppipeline

Receiver for an RTL-SDR: one thread reads raw I/Q buffers from the device,
another turns them into a baseband signal, band-pass filters it and
FM-demodulates it.

- `src/` is the verified library (Verus):
  - `samples.rs`: the integer front end (byte centring, I/Q pairing,
    decimation by a moving average over blocks of ten samples);
  - `complex.rs`: the `i16` complex sample type and its division;
  - `delay_line.rs`: the history of a streaming FIR filter;
  - `receiver.rs`: the receiving thread's decisions as a state machine,
    with its laws (bounded batches, no reads after shutdown, reads only
    after configuration);
  - `debug_logging.rs`: the text form of the sample log;
  - `shutdown.rs`: the shutdown flag.
- `app/` is the program: device and channel I/O, threads, Ctrl-C, logging,
  and the floating-point stages (filter arithmetic, demodulation, power).
- `tests/` runs the library on concrete values.
