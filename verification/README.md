# flappy_rust

A Flappy Bird–style endless runner. The crate is split in two:

- `src/` — the verified library:
  - `game`: the round's phase machine (title screen, running, game over),
    what a flap does in each phase and during the flap cooldown, the score
    awarded for pipes the bird has passed (each pipe at most once), the best
    score and when it must be saved, and the choice of the bird's animation
    frame.
  - `save`: the save record, the fallbacks applied when loading it, and the
    decimal entry used by a key-value store.
  - `decimal`: decimal text of `u32` values and its parse, with the proof
    that parsing the text of a number gives the number back.
- `app/` — the game program: window, input, drawing and the floating-point
  physics (bird motion, pipe positions, collisions) built on macroquad, and
  reading and writing the save record (JSON file on desktop, `localStorage`
  on the web).

Controls: Space or left click to flap; start from the title screen, retry
after game over; Escape quits.
