# deep_filter

The decision logic of a real-time noise suppressor, verified with Verus, and the programs around it.

- `src/` is the library. `plugin` holds the LADSPA plugin: its ports, its control history, the
  sample queues between host and worker, the course of a run and the adaptation of the latency.
  `capture` holds the choice of devices and stream configurations, the ring buffers of the audio
  callbacks and the steps of the capture worker. `view` holds the demo's sliders and spectrograms,
  `util` the seeded random numbers, `wasm` the frames that a browser exchanges with the engine.
  Control values and ring buffer samples are single-precision numbers held by their bit patterns
  (`single`).
- `tests/` runs the library on concrete values.
- `app/` holds what talks to hosts, devices, windows, buses and browsers, and the inference engine.
