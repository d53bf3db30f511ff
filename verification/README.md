# cloudkitty-core

The law of a small tile world where kitties eat, drink, nap, groom, chase
bugs and meow, stated as contracts and proved with Verus.

## Layout

- `src/` — the verified library. Every rule over whole numbers and text
  lives here with a `requires`/`ensures` contract: the grid and its
  distances, elements, their expiry and the critters' wandering,
  activities and their clocks, the
  chase books, scene durations and endings, the word law and the record
  of recent meows, distress and
  announce arming, the bounded event rings, the guaranteed lake, the
  exploration tour, the joint-action seam, the constitution check, and the
  validation of every whole-number configuration table. Laws that relate
  several operations are public proof functions (`lemma_*`).
- `src/rng.rs` holds the only calls into outside code: the ChaCha8
  generator of `rand_chacha`, reached through `rand`, behind small trusted
  wrappers. A generator's state is modelled as its seed, the calls made on
  it since and the machine's `usize` width (a draw over `usize` reads 32 or
  64 bits accordingly); each draw is named as a fixed function of that state
  and the call, so same seed, same calls and same width give the same
  draws, and every function that draws states how it moves the generator.
- `app/` — ordinary Rust around the library: needs and happiness, the
  real-valued configuration sections and the whole-file check, spawn
  placement by a real-valued spread score, and the per-tick report. Need
  pressures and happiness are real numbers, so the host keeps them and
  hands the library the boolean tables its rules read (which needs are in
  distress, at zero, or in the announce band).
- `tests/` — scenario tests over the library's public interface.
