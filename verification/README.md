# window_systems

The decisions of a tiling window manager's entity systems, verified with Verus.

Each system is a function from a snapshot of the world, as plain values, to what the world is to do.
Its contract says exactly what that is.

- `src/strip.rs`, `src/windows.rs`, `src/geometry.rs`, `src/scalar.rs`: strips of windows, windows,
  frames, and the numbers they are measured in.
- `src/events.rs`, `src/commands.rs`: what happens, and what is asked for.
- `src/dispatch.rs`, `src/setup.rs`, `src/launch.rs`, `src/timeouts.rs`, `src/displays.rs`,
  `src/orphans.rs`, `src/layout.rs`, `src/animation.rs`: the systems. Public proof functions named
  `law_..` state what holds of them as a whole.
- `src/world.rs`: what becomes of the strips when the commands are carried out; a model that laws
  speak of.
- `src/sequences.rs`, `src/text.rs`: searching lists and facts about sequences; numbers in messages.
- `app/`: the systems in the world of Bevy, around the library.

Coordinates are any type that implements `Scalar`. The library has them in whole points (`i64`),
which is what the laws on geometry speak of; the program around it has them in floating point.
