# Free Loop

A looper for a grid of pads: eight tracks of eight loops, recorded and launched on the bar line.
The rules of it are a verified library; the sound, the devices and the files around it are an
ordinary program.

## Layout

- `src/` is the library.
  - Musical time: `time`, `grid`, `double` and `single` (floating point as whole numbers).
  - The pads: `ids`, `slot` (one pad), `session` (all of them), `settings`, `gain`, `pan`.
  - Audio storage: `clip`, `readers` and `shared` (clips others may be reading), `recycle`,
    `snapshot`, `load`, over the queues of `lane` and `queue`.
  - The engine: `audio` (what owns memory), `transport` (how it moves), `engine`, `process`
    (a block), `mixer` (what makes the samples), `click`, `chain`.
  - What the engine promises: `promises`, `blocks`, `crossing`, `agreement`, `storage`.
  - Devices: `device`, `capture`, `reports`.
  - The surface: `surface`, `screen`, `labels`, `paint`, `control`, with `gestures` for what
    gestures add up to.
  - The control loop: `looping`, `config`, `command`, `event`, `text`.
- `tests/` runs the library.
- `app/` is the program: samples (`render`), devices (`stream`), sessions on disk (`sessions`),
  the config file (`settings`) and the loop itself (`main`).

## Numbers

Samples are whatever the caller mixes; the library moves them and never computes with them.
Tempos, gains and levels are passed as the bits of a floating point number. Moments and spans are
nanoseconds.

## What is taken on trust

The queues of `rtrb`, `Arc::get_mut` and `Arc::clone`, and the lower-casing and searching of
strings are called through small functions whose contracts are stated where they stand, in
`lane`, `readers` and `device`. What one end of a queue finds depends on the other thread, so no
contract says more than holds of every outcome. A `Mixer` that makes real samples lives
outside the library, and is trusted to have been told what its methods were called with.
