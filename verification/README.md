# bevy_seedling (verified live-stream core)

Live PCM audio streaming with bounded, frame-aligned buffering, verified
with Verus.

- `src/stream.rs`: the shared stream buffer (`SharedStreamState`), its
  producer handle (`LiveAudioStream`) and its audio-thread consumer
  (`StreamingSampleResource`), with contracts over the abstract states
  `StreamState` and `ConsumerState`. Samples are any `Copy` type.
- `src/laws.rs`: properties that hold across operations (bounded buffer,
  oldest-first dropping, whole frames, start latch, in-order delivery).
- `src/lib.rs`: the audio system sets and their order, and the
  change-detection run condition.
- `app/`: Bevy and Firewheel glue: `f32` streams behind `Arc<Mutex<..>>`,
  the `SampleResource` impl, the `SystemSet` and `Plugin` impls.
